//! Line merging: consecutive continuation lines are folded into the line
//! before them, up to a maximum number of merges per record.

use vstd::prelude::*;
use crate::text;
use crate::pattern::{self, Pattern, PatternError};

verus! {

/// The lines of a list of groups, in order.
pub open spec fn flatten(groups: Seq<Seq<Seq<char>>>) -> Seq<Seq<char>>
    decreases groups.len(),
{
    if groups.len() == 0 {
        Seq::empty()
    } else {
        flatten(groups.drop_last()) + groups.last()
    }
}

/// One push: the group being built, how many lines were merged into it,
/// and the group completed by the push, if any.
pub open spec fn merge_step(
    continues: bool,
    max_lines: nat,
    group: Seq<Seq<char>>,
    merged: nat,
    line: Seq<char>,
) -> (Seq<Seq<char>>, nat, Option<Seq<Seq<char>>>) {
    if continues && group.len() > 0 && merged < max_lines {
        (group.push(line), merged + 1, None)
    } else {
        (seq![line], 0, if group.len() > 0 {
            Some(group)
        } else {
            None
        })
    }
}

/// Pushing `lines` one by one, continuation decided by `continues`: the
/// completed groups, the group being built, and its merge count.
pub open spec fn merge_all(
    continues: spec_fn(Seq<char>) -> bool,
    max_lines: nat,
    lines: Seq<Seq<char>>,
) -> (Seq<Seq<Seq<char>>>, Seq<Seq<char>>, nat)
    decreases lines.len(),
{
    if lines.len() == 0 {
        (Seq::empty(), Seq::empty(), 0)
    } else {
        let (done, group, merged) = merge_all(continues, max_lines, lines.drop_last());
        let (g2, m2, out) = merge_step(continues(lines.last()), max_lines, group, merged, lines.last());
        (
            match out {
                Some(g) => done.push(g),
                None => done,
            },
            g2,
            m2,
        )
    }
}

/// Merging loses, repeats and reorders no line: the completed records
/// followed by the one being built hold exactly the lines pushed, in order,
/// and no record is empty.
pub proof fn lemma_merge_keeps_lines(
    continues: spec_fn(Seq<char>) -> bool,
    max_lines: nat,
    lines: Seq<Seq<char>>,
)
    ensures
        flatten(merge_all(continues, max_lines, lines).0) + merge_all(continues, max_lines, lines).1
            == lines,
        forall|i: int|
            0 <= i < merge_all(continues, max_lines, lines).0.len() ==> (#[trigger] merge_all(
                continues,
                max_lines,
                lines,
            ).0[i]).len() > 0,
    decreases lines.len(),
{
    if lines.len() > 0 {
        let prev = lines.drop_last();
        lemma_merge_keeps_lines(continues, max_lines, prev);
        let (done, group, merged) = merge_all(continues, max_lines, prev);
        let (g2, m2, out) = merge_step(continues(lines.last()), max_lines, group, merged, lines.last());
        assert(lines =~= prev.push(lines.last()));
        match out {
            Some(g) => {
                assert(flatten(done.push(g)) =~= flatten(done) + g) by {
                    assert(done.push(g).drop_last() =~= done);
                }
                assert(flatten(done) + group + g2 =~= (flatten(done) + group).push(lines.last()));
            },
            None => {
                if continues(lines.last()) && group.len() > 0 && merged < max_lines {
                    assert(flatten(done) + g2 =~= (flatten(done) + group).push(lines.last()));
                } else {
                    assert(flatten(done) + g2 =~= (flatten(done) + group).push(lines.last()));
                }
            },
        }
    } else {
        assert(flatten(Seq::<Seq<Seq<char>>>::empty()) + Seq::<Seq<char>>::empty() =~= lines);
    }
}

/// Configuration for merging consecutive log lines.
#[derive(Debug)]
pub struct MergeConfig {
    /// A line this pattern matches continues the line before it.
    pub continuation_pattern: Pattern,
    /// Put between merged lines.
    pub separator: String,
    /// The most lines merged into one record.
    pub max_lines: usize,
}

impl MergeConfig {
    /// A configuration; fails when the pattern does not compile.
    pub fn new(pattern: &str, separator: &str, max_lines: usize) -> (r: Result<Self, PatternError>)
        ensures
            r is Ok <==> pattern::regex_valid(pattern@),
            r matches Ok(c) ==> c.continuation_pattern.source_view() == pattern@ && c.separator@
                == separator@ && c.max_lines == max_lines,
    {
        match Pattern::new(pattern) {
            Ok(p) => Ok(MergeConfig {
                continuation_pattern: p,
                separator: separator.to_owned(),
                max_lines,
            }),
            Err(e) => Err(e),
        }
    }
}

/// Accumulates continuation lines into records.
pub struct LineMerger {
    config: MergeConfig,
    pending: Option<String>,
    merge_count: usize,
    group: Ghost<Seq<Seq<char>>>,
}

impl LineMerger {
    /// The configuration.
    pub closed spec fn config_view(&self) -> (Seq<char>, Seq<char>, nat) {
        (self.config.continuation_pattern.source_view(), self.config.separator@, self.config.max_lines as nat)
    }

    /// The lines of the record being built.
    pub closed spec fn group(&self) -> Seq<Seq<char>> {
        self.group@
    }

    /// How many lines were merged into the record being built.
    pub closed spec fn merged(&self) -> nat {
        self.merge_count as nat
    }

    /// The record being built is its lines joined by the separator.
    pub closed spec fn wf(&self) -> bool {
        match self.pending {
            Some(p) => self.group@.len() > 0 && p@ == text::join(self.group@, self.config.separator@),
            None => self.group@.len() == 0,
        }
    }

    /// Whether `line` continues the line before it.
    pub open spec fn continues(&self, line: Seq<char>) -> bool {
        pattern::regex_is_match(self.config_view().0, line)
    }

    /// A merger with nothing pending.
    pub fn new(config: MergeConfig) -> (m: Self)
        ensures
            m.wf(),
            m.config_view() == (config.continuation_pattern.source_view(), config.separator@, config.max_lines as nat),
            m.group() == Seq::<Seq<char>>::empty(),
            m.merged() == 0,
    {
        LineMerger { config, pending: None, merge_count: 0, group: Ghost(Seq::empty()) }
    }

    /// Feeds a line; returns the record it completes, if any.
    pub fn push(&mut self, line: String) -> (r: Option<String>)
        requires
            old(self).wf(),
        ensures
            final(self).wf(),
            final(self).config_view() == old(self).config_view(),
            ({
                let (g2, m2, out) = merge_step(
                    old(self).continues(line@),
                    old(self).config_view().2,
                    old(self).group(),
                    old(self).merged(),
                    line@,
                );
                &&& final(self).group() == g2
                &&& final(self).merged() == m2
                &&& match out {
                    Some(g) => r matches Some(s) && s@ == text::join(g, old(self).config_view().1),
                    None => r is None,
                }
            }),
    {
        let is_continuation = self.config.continuation_pattern.is_match(line.as_str());
        if is_continuation && self.pending.is_some() && self.merge_count < self.config.max_lines {
            let ghost g = self.group@;
            let mut buf = self.pending.take().unwrap();
            let mut v = text::chars_of(buf.as_str());
            text::push_str(&mut v, self.config.separator.as_str());
            text::push_str(&mut v, line.as_str());
            buf = text::string_from_chars(v.as_slice());
            self.pending = Some(buf);
            self.merge_count = self.merge_count + 1;
            self.group = Ghost(g.push(line@));
            assert(g.push(line@).drop_last() =~= g);
            None
        } else {
            let completed = self.pending.take();
            self.pending = Some(line);
            self.merge_count = 0;
            let ghost single = seq![line@];
            self.group = Ghost(single);
            assert(text::join(single, self.config.separator@) == line@);
            completed
        }
    }

    /// Hands out the record being built, at the end of input.
    pub fn flush(&mut self) -> (r: Option<String>)
        requires
            old(self).wf(),
        ensures
            final(self).wf(),
            final(self).config_view() == old(self).config_view(),
            final(self).group() == Seq::<Seq<char>>::empty(),
            final(self).merged() == 0,
            if old(self).group().len() > 0 {
                r matches Some(s) && s@ == text::join(old(self).group(), old(self).config_view().1)
            } else {
                r is None
            },
    {
        self.merge_count = 0;
        self.group = Ghost(Seq::empty());
        self.pending.take()
    }
}

} // verus!
