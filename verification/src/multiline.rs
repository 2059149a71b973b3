//! Multiline record assembly: continuation lines are joined to the line
//! that starts their record, a start line being one the pattern matches.

use vstd::prelude::*;
use crate::text;
use crate::merge::flatten;
use crate::pattern::{self, Pattern, PatternError};

verus! {

/// One push: the lines buffered afterwards, and the record completed, if
/// any.
pub open spec fn assemble_step(starts: bool, max_lines: nat, buffer: Seq<Seq<char>>, line: Seq<char>) -> (
    Seq<Seq<char>>,
    Option<Seq<Seq<char>>>,
) {
    if starts && buffer.len() > 0 {
        (seq![line], Some(buffer))
    } else if buffer.len() + 1 >= max_lines {
        (Seq::empty(), Some(buffer.push(line)))
    } else {
        (buffer.push(line), None)
    }
}

/// Pushing `lines` one by one onto the buffered lines `start`, record
/// starts decided by `starts`: the completed records and the lines still
/// buffered.
pub open spec fn assemble_all(
    starts: spec_fn(Seq<char>) -> bool,
    max_lines: nat,
    start: Seq<Seq<char>>,
    lines: Seq<Seq<char>>,
) -> (Seq<Seq<Seq<char>>>, Seq<Seq<char>>)
    decreases lines.len(),
{
    if lines.len() == 0 {
        (Seq::empty(), start)
    } else {
        let (done, buffer) = assemble_all(starts, max_lines, start, lines.drop_last());
        let (b2, out) = assemble_step(starts(lines.last()), max_lines, buffer, lines.last());
        (
            match out {
                Some(g) => done.push(g),
                None => done,
            },
            b2,
        )
    }
}

/// Assembly loses, repeats and reorders no line: the completed records
/// followed by the buffered lines hold exactly the lines buffered before
/// and the lines pushed, in order, and no record is empty.
pub proof fn lemma_assemble_keeps_lines(
    starts: spec_fn(Seq<char>) -> bool,
    max_lines: nat,
    start: Seq<Seq<char>>,
    lines: Seq<Seq<char>>,
)
    ensures
        flatten(assemble_all(starts, max_lines, start, lines).0) + assemble_all(
            starts,
            max_lines,
            start,
            lines,
        ).1 == start + lines,
        forall|i: int|
            0 <= i < assemble_all(starts, max_lines, start, lines).0.len() ==> (#[trigger] assemble_all(
                starts,
                max_lines,
                start,
                lines,
            ).0[i]).len() > 0,
    decreases lines.len(),
{
    if lines.len() > 0 {
        let prev = lines.drop_last();
        lemma_assemble_keeps_lines(starts, max_lines, start, prev);
        let (done, buffer) = assemble_all(starts, max_lines, start, prev);
        let (b2, out) = assemble_step(starts(lines.last()), max_lines, buffer, lines.last());
        assert(start + lines =~= (start + prev).push(lines.last()));
        match out {
            Some(g) => {
                assert(flatten(done.push(g)) =~= flatten(done) + g) by {
                    assert(done.push(g).drop_last() =~= done);
                }
                assert(flatten(done) + g + b2 =~= (flatten(done) + buffer).push(lines.last()));
            },
            None => {
                assert(flatten(done) + b2 =~= (flatten(done) + buffer).push(lines.last()));
            },
        }
    } else {
        assert(flatten(Seq::<Seq<Seq<char>>>::empty()) + start =~= start + lines);
    }
}

/// The text of a record: its lines joined by newlines.
pub open spec fn record_text(lines: Seq<Seq<char>>) -> Seq<char> {
    text::join(lines, seq!['\n'])
}

/// Configuration for multiline joining.
#[derive(Debug)]
pub struct MultilineConfig {
    /// Matches the first line of a record.
    pub start_pattern: Pattern,
    /// The most lines buffered before a record is handed out anyway.
    pub max_lines: usize,
}

impl MultilineConfig {
    /// A configuration; fails when the pattern does not compile.
    pub fn new(pattern: &str, max_lines: usize) -> (r: Result<Self, PatternError>)
        ensures
            r is Ok <==> pattern::regex_valid(pattern@),
            r matches Ok(c) ==> c.start_pattern.source_view() == pattern@ && c.max_lines == max_lines,
    {
        match Pattern::new(pattern) {
            Ok(p) => Ok(MultilineConfig { start_pattern: p, max_lines }),
            Err(e) => Err(e),
        }
    }
}

/// Buffers continuation lines until their record is complete.
#[derive(Debug)]
pub struct MultilineAssembler {
    config: MultilineConfig,
    buffer: Vec<String>,
}

impl MultilineAssembler {
    /// The start pattern's source and the line limit.
    pub closed spec fn config_view(&self) -> (Seq<char>, nat) {
        (self.config.start_pattern.source_view(), self.config.max_lines as nat)
    }

    /// The buffered lines.
    pub closed spec fn buffered(&self) -> Seq<Seq<char>> {
        self.buffer@.map_values(|l: String| l@)
    }

    /// Whether `line` starts a record.
    pub open spec fn starts(&self, line: Seq<char>) -> bool {
        pattern::regex_is_match(self.config_view().0, line)
    }

    /// An assembler with nothing buffered.
    pub fn new(config: MultilineConfig) -> (a: Self)
        ensures
            a.config_view() == (config.start_pattern.source_view(), config.max_lines as nat),
            a.buffered() == Seq::<Seq<char>>::empty(),
    {
        let a = MultilineAssembler { config, buffer: Vec::new() };
        assert(a.buffered() =~= Seq::<Seq<char>>::empty());
        a
    }

    fn take_record(&mut self) -> (r: String)
        ensures
            final(self).config_view() == old(self).config_view(),
            final(self).buffered() == Seq::<Seq<char>>::empty(),
            r@ == record_text(old(self).buffered()),
    {
        let mut parts: Vec<Vec<char>> = Vec::new();
        for i in 0..self.buffer.len()
            invariant
                parts@.len() == i,
                forall|j: int| 0 <= j < i ==> (#[trigger] parts@[j])@ == self.buffer@[j]@,
        {
            parts.push(text::chars_of(self.buffer[i].as_str()));
        }
        assert(parts@.map_values(|p: Vec<char>| p@) =~= self.buffered());
        let mut sep: Vec<char> = Vec::new();
        sep.push('\n');
        assert(sep@ =~= seq!['\n']);
        let out = text::join_chars(&parts, sep.as_slice());
        self.buffer.clear();
        assert(self.buffered() =~= Seq::<Seq<char>>::empty());
        text::string_from_chars(out.as_slice())
    }

    /// Feeds a line; returns the record it completes, if any.
    pub fn push(&mut self, line: String) -> (r: Option<String>)
        ensures
            final(self).config_view() == old(self).config_view(),
            ({
                let (b2, out) = assemble_step(
                    old(self).starts(line@),
                    old(self).config_view().1,
                    old(self).buffered(),
                    line@,
                );
                &&& final(self).buffered() == b2
                &&& match out {
                    Some(g) => r matches Some(s) && s@ == record_text(g),
                    None => r is None,
                }
            }),
    {
        let is_start = self.config.start_pattern.is_match(line.as_str());
        if is_start && self.buffer.len() > 0 {
            let record = self.take_record();
            let ghost l = line@;
            self.buffer.push(line);
            assert(self.buffered() =~= seq![l]);
            return Some(record);
        }
        let ghost before = self.buffered();
        self.buffer.push(line);
        assert(self.buffered() =~= before.push(line@));
        if self.buffer.len() >= self.config.max_lines {
            return Some(self.take_record());
        }
        None
    }

    /// Hands out the buffered record at the end of input.
    pub fn finish(&mut self) -> (r: Option<String>)
        ensures
            final(self).config_view() == old(self).config_view(),
            final(self).buffered() == Seq::<Seq<char>>::empty(),
            if old(self).buffered().len() > 0 {
                r matches Some(s) && s@ == record_text(old(self).buffered())
            } else {
                r is None
            },
    {
        if self.buffer.len() == 0 {
            None
        } else {
            Some(self.take_record())
        }
    }

    /// Assembles all the lines and hands out every record, the last one
    /// included.
    pub fn process_lines(&mut self, lines: Vec<String>) -> (out: Vec<String>)
        ensures
            final(self).config_view() == old(self).config_view(),
            final(self).buffered() == Seq::<Seq<char>>::empty(),
            ({
                let (done, rest) = assemble_all(
                    |l: Seq<char>| old(self).starts(l),
                    old(self).config_view().1,
                    old(self).buffered(),
                    lines@.map_values(|l: String| l@),
                );
                out@.map_values(|s: String| s@) == done.map_values(|g: Seq<Seq<char>>| record_text(g))
                    + if rest.len() > 0 {
                    seq![record_text(rest)]
                } else {
                    Seq::empty()
                }
            }),
    {
        let ghost st = |l: Seq<char>| old(self).starts(l);
        let ghost max = old(self).config_view().1;
        let ghost start = old(self).buffered();
        let ghost lv = lines@.map_values(|l: String| l@);
        let mut out: Vec<String> = Vec::new();
        assert(lv.take(0) =~= Seq::<Seq<char>>::empty());
        for i in 0..lines.len()
            invariant
                self.config_view() == old(self).config_view(),
                st == (|l: Seq<char>| old(self).starts(l)),
                max == old(self).config_view().1,
                lv == lines@.map_values(|l: String| l@),
                ({
                    let (done, rest) = assemble_all(st, max, start, lv.take(i as int));
                    &&& out@.map_values(|s: String| s@) == done.map_values(|g: Seq<Seq<char>>| record_text(g))
                    &&& self.buffered() == rest
                }),
        {
            assert(lv.take(i + 1).drop_last() =~= lv.take(i as int));
            assert(lv[i as int] == lines@[i as int]@);
            let ghost before = out@.map_values(|s: String| s@);
            let line = lines[i].clone();
            match self.push(line) {
                Some(record) => {
                    out.push(record);
                    assert(out@.map_values(|s: String| s@) =~= before.push(record@));
                },
                None => {},
            }
            proof {
                let (done, rest) = assemble_all(st, max, start, lv.take(i as int));
                let (b2, o) = assemble_step(st(lv[i as int]), max, rest, lv[i as int]);
                match o {
                    Some(g) => {
                        assert(done.push(g).map_values(|g: Seq<Seq<char>>| record_text(g)) =~= done.map_values(
                            |g: Seq<Seq<char>>| record_text(g),
                        ).push(record_text(g)));
                    },
                    None => {},
                }
            }
        }
        assert(lv.take(lines@.len() as int) =~= lv);
        let ghost before = out@.map_values(|s: String| s@);
        match self.finish() {
            Some(record) => {
                out.push(record);
                assert(out@.map_values(|s: String| s@) =~= before.push(record@));
            },
            None => {
                assert(out@.map_values(|s: String| s@) =~= before + Seq::<Seq<char>>::empty());
            },
        }
        out
    }
}

} // verus!
