# logshear

Log filtering and field-extraction primitives, written in Verus: the
functions in `src/` are verified against their contracts. Where a result
rests on a clock reading (timeouts, batch ages, rate-limit windows), the
contract states what holds for every reading, and a verified function
takes the reading as an argument and decides exactly on it. Configured
limits (batch age, read timeouts) are held as plain nanoseconds, so the
contracts state them exactly; the application converts from `Duration`.

## Layout

- `src/` — the verified library.
  - Text and data: `text` (trimming, searching, replacing, ordering,
    decimal numbers, line splitting), `strmap` (an insertion-ordered string
    map), `json` (JSON values and their compact text).
  - Input: `encoding`, `reader`, `split`, `truncate`, `line_counter`,
    `checkpoint` (with `path_key`, the key two spellings of one path
    share), `batch`, `deduplicate`, `glob`, `decompressor`,
    `timeout`, `rate_limiter`.
  - Records: `field_extractor`, `field_filter`, `mask`, `mask_config`,
    `redact`, `redact_config`, `tag`, `tag_config`, `transform`, `merge`,
    `multiline`, `schema`, `schema_detector`.
  - Output and pipeline: `formatter`, `writer`, `sampler`, `stage`.
  - Calls into `regex`, `serde_json`, `rand` and `std` go through small
    trusted functions (`pattern`, `json::parse_object`, `sampler`, `clock`
    and a few others), each documented with what its contract claims.
- `tests/` — tests of the library on concrete values.
- `app/` — file and stream handling around the library: compressed files,
  directory listings, line sources, output writing, sleeping for the rate
  limiter, configuration files, and the pipeline loop.

## Proved properties

Among the laws proved in `src/`: a checkpoint written out and read back
gives the same offsets, and an offset read after a run of settings is the
one last set for that file; multiline assembly, line merging, batching and
schema detection lose, repeat and reorder no line; the deduplication window
holds the last lines accepted; the output limit is never exceeded; a truncated line stays within
its byte limit and is cut at a character boundary; the projection of fields
is unique; glob expansion returns exactly the matching paths, sorted.
