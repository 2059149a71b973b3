//! Tracks line numbers and byte offsets as lines are consumed from input sources.
//! Useful for error reporting and progress indication during log processing.

use vstd::prelude::*;
use crate::text;

verus! {

/// The position of a reader within its source.
#[derive(Debug, Clone)]
pub struct LineCounter {
    pub line: u64,
    pub byte_offset: u64,
    pub source: Option<String>,
}

/// The label `position_label` gives: `source:line`, or `line N` without a source.
pub open spec fn position_text(source: Option<Seq<char>>, line: u64) -> Seq<char> {
    match source {
        Some(src) => src + seq![':'] + text::decimal(line as nat),
        None => seq!['l', 'i', 'n', 'e', ' '] + text::decimal(line as nat),
    }
}

impl LineCounter {
    /// The source label, by its characters.
    pub open spec fn source_view(&self) -> Option<Seq<char>> {
        match self.source {
            Some(s) => Some(s@),
            None => None,
        }
    }

    pub fn new() -> (c: Self)
        ensures
            c.line == 0,
            c.byte_offset == 0,
            c.source is None,
    {
        LineCounter { line: 0, byte_offset: 0, source: None }
    }

    pub fn with_source(source: &str) -> (c: Self)
        ensures
            c.line == 0,
            c.byte_offset == 0,
            c.source_view() == Some(source@),
    {
        LineCounter { line: 0, byte_offset: 0, source: Some(source.to_owned()) }
    }

    /// Record a line being consumed. `len` is the byte length including newline.
    pub fn advance(&mut self, len: usize)
        requires
            old(self).line < u64::MAX,
            old(self).byte_offset + len <= u64::MAX,
        ensures
            final(self).line == old(self).line + 1,
            final(self).byte_offset == old(self).byte_offset + len,
            final(self).source == old(self).source,
    {
        self.line += 1;
        self.byte_offset += len as u64;
    }

    /// Reset counters, optionally changing the source label.
    pub fn reset(&mut self, source: Option<String>)
        ensures
            final(self).line == 0,
            final(self).byte_offset == 0,
            final(self).source == (if source is Some {
                source
            } else {
                old(self).source
            }),
    {
        self.line = 0;
        self.byte_offset = 0;
        if source.is_some() {
            self.source = source;
        }
    }

    /// Human-readable position string, e.g. "file.log:42".
    pub fn position_label(&self) -> (s: String)
        ensures
            s@ == position_text(self.source_view(), self.line),
    {
        let mut v: Vec<char> = Vec::new();
        match &self.source {
            Some(src) => {
                text::push_str(&mut v, src.as_str());
                v.push(':');
            },
            None => {
                v.push('l');
                v.push('i');
                v.push('n');
                v.push('e');
                v.push(' ');
            },
        }
        let ghost head = v@;
        text::push_decimal(&mut v, self.line);
        assert(v@ =~= position_text(self.source_view(), self.line));
        text::string_from_chars(v.as_slice())
    }

    /// The text that displaying the counter shows: its position label.
    pub fn to_string(&self) -> (s: String)
        ensures
            s@ == position_text(self.source_view(), self.line),
    {
        self.position_label()
    }

    pub fn is_at_start(&self) -> (b: bool)
        ensures
            b == (self.line == 0),
    {
        self.line == 0
    }
}

impl Default for LineCounter {
    fn default() -> (c: Self)
        ensures
            c.line == 0,
            c.byte_offset == 0,
            c.source is None,
    {
        LineCounter::new()
    }
}

} // verus!
