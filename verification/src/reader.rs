//! Line reading: encoding choice, BOM skipping, and turning the raw bytes
//! of one line into text.
//!
//! The bytes themselves come from the caller's reader; this module decides
//! what to do with them.

use std::borrow::Cow;
use vstd::prelude::*;
use crate::encoding::{self, Encoding};

verus! {

/// Options controlling how lines are read from a source.
#[derive(Debug, Clone)]
pub struct ReaderOptions {
    /// Encoding override; `None` means auto-detect.
    pub encoding: Option<Encoding>,
    /// Maximum line length in bytes before truncation.
    pub max_line_bytes: usize,
}

impl Default for ReaderOptions {
    fn default() -> (o: Self)
        ensures
            o.encoding is None,
            o.max_line_bytes == 1024 * 1024,
    {
        ReaderOptions { encoding: None, max_line_bytes: 1024 * 1024 }
    }
}

/// The bytes of a line as read (up to and including its `\n`), cut to
/// `max` bytes, without a final `\n` and then a final `\r` before it.
pub open spec fn line_bytes(raw: Seq<u8>, max: usize) -> Seq<u8> {
    let t = if raw.len() > max {
        raw.take(max as int)
    } else {
        raw
    };
    if t.len() > 0 && t.last() == 10 {
        let u = t.drop_last();
        if u.len() > 0 && u.last() == 13 {
            u.drop_last()
        } else {
            u
        }
    } else {
        t
    }
}

/// Reads lines of one source in a fixed encoding.
pub struct LineReader {
    encoding: Encoding,
    max_line_bytes: usize,
}

impl LineReader {
    /// The encoding lines are decoded with.
    pub closed spec fn encoding_spec(&self) -> Encoding {
        self.encoding
    }

    /// The longest line, in bytes.
    pub closed spec fn max_spec(&self) -> usize {
        self.max_line_bytes
    }

    /// A reader for a source whose first buffered bytes are `peek`: the
    /// encoding is the one asked for, or else the one detected from `peek`;
    /// also returns the length of the byte-order mark to skip.
    pub fn from_peek(peek: &[u8], opts: &ReaderOptions) -> (r: (LineReader, usize))
        ensures
            r.0.encoding_spec() == match opts.encoding {
                Some(e) => e,
                None => encoding::detected_encoding(peek@),
            },
            r.0.max_spec() == opts.max_line_bytes,
            r.1 == peek@.len() - encoding::without_bom(peek@).len(),
    {
        let encoding = match opts.encoding {
            Some(e) => e,
            None => encoding::detect_encoding(peek),
        };
        let stripped = encoding::strip_bom(peek);
        let bom_len = peek.len() - stripped.len();
        (LineReader { encoding, max_line_bytes: opts.max_line_bytes }, bom_len)
    }

    /// The encoding lines are decoded with.
    pub fn encoding(&self) -> (e: &Encoding)
        ensures
            *e == self.encoding_spec(),
    {
        &self.encoding
    }

    /// The text of the line whose bytes (as `read_until(b'\n')` gave them)
    /// are `raw`; `None` at the end of input, when nothing was read.
    pub fn next_line(&self, raw: Vec<u8>) -> (r: Option<String>)
        ensures
            match r {
                Some(s) => raw@.len() > 0 && s@ == encoding::decoded(
                    line_bytes(raw@, self.max_spec()),
                    self.encoding_spec(),
                ),
                None => raw@.len() == 0,
            },
    {
        if raw.len() == 0 {
            return None;
        }
        let mut raw = raw;
        if raw.len() > self.max_line_bytes {
            raw.truncate(self.max_line_bytes);
        }
        let n = raw.len();
        if n > 0 && raw[n - 1] == 10 {
            raw.pop();
            let m = raw.len();
            if m > 0 && raw[m - 1] == 13 {
                raw.pop();
            }
        }
        let line = match encoding::decode_line(raw.as_slice(), &self.encoding) {
            Cow::Borrowed(s) => s.to_owned(),
            Cow::Owned(s) => s,
        };
        Some(line)
    }
}

} // verus!
