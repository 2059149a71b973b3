//! Log filtering and field-extraction primitives: line decoding, splitting,
//! masking, redaction, tagging, sampling and schema inference.

pub mod text;
pub mod strmap;
pub mod split;
pub mod encoding;
pub mod truncate;
pub mod line_counter;
pub mod tag_config;
pub mod tag;
pub mod deduplicate;
pub mod checkpoint;
pub mod clock;
pub mod batch;
pub mod mask;
pub mod mask_config;
pub mod path_key;
pub mod pattern;
pub mod json;
pub mod field_extractor;
pub mod field_filter;
pub mod schema;
pub mod schema_detector;
pub mod formatter;
pub mod glob;
pub mod decompressor;
pub mod sampler;
pub mod stage;
pub mod rate_limiter;
pub mod timeout;
pub mod reader;
pub mod redact;
pub mod redact_config;
pub mod merge;
pub mod multiline;
pub mod transform;
pub mod writer;
