//! Pipeline stages that decide, line by line, what passes through.

use vstd::prelude::*;
use crate::sampler::{self, SampleStrategy, Sampler};

verus! {

/// A processing stage of the log pipeline.
pub enum Stage {
    /// Sample lines with the given sampler.
    Sample(Sampler),
    /// Let at most N lines out.
    Limit(usize),
    /// Drop the first N lines.
    Skip(usize),
}

impl Stage {
    /// The stage can process another line: a sampler with room in its count
    /// and, for a rate, a rate above zero.
    pub open spec fn ready(&self) -> bool {
        match self {
            Stage::Sample(s) => s.seen() < usize::MAX && (s.strategy_spec() matches SampleStrategy::Rate(
                n,
            ) ==> n > 0),
            _ => true,
        }
    }

    /// Whether the stage can process another line.
    pub fn can_apply(&self) -> (b: bool)
        ensures
            b == self.ready(),
    {
        match self {
            Stage::Sample(s) => s.lines_seen() < usize::MAX && match s.strategy() {
                SampleStrategy::Rate(n) => *n > 0,
                SampleStrategy::Reservoir(_) => true,
            },
            _ => true,
        }
    }

    /// Keeps every `n`-th line.
    pub fn rate_sample(n: usize) -> (s: Self)
        ensures
            s matches Stage::Sample(sm) && sm.wf() && sm.seen() == 0 && sm.strategy_spec()
                == SampleStrategy::Rate(n),
    {
        Stage::Sample(Sampler::new(SampleStrategy::Rate(n)))
    }

    /// Keeps a uniform sample of at most `size` lines.
    pub fn reservoir_sample(size: usize) -> (s: Self)
        ensures
            s matches Stage::Sample(sm) && sm.wf() && sm.seen() == 0 && sm.strategy_spec()
                == SampleStrategy::Reservoir(size),
    {
        Stage::Sample(Sampler::new(SampleStrategy::Reservoir(size)))
    }

    /// Lets at most `n` lines out.
    pub fn limit(n: usize) -> (s: Self)
        ensures
            s == Stage::Limit(n),
    {
        Stage::Limit(n)
    }

    /// Drops the first `n` lines.
    pub fn skip(n: usize) -> (s: Self)
        ensures
            s == Stage::Skip(n),
    {
        Stage::Skip(n)
    }

    /// Whether the line passes, given how many lines were emitted and
    /// skipped so far.
    pub fn apply(&mut self, line: &str, emitted: usize, skipped: usize) -> (pass: bool)
        requires
            old(self).ready(),
        ensures
            applied(*old(self), *final(self), line@, emitted, skipped, pass),
    {
        match self {
            Stage::Sample(sampler) => sampler.should_keep(line),
            Stage::Limit(n) => emitted < *n,
            Stage::Skip(n) => skipped >= *n,
        }
    }
}

/// What applying a stage to a line may do: a sampler takes one step, a limit
/// passes while fewer than N lines were emitted, a skip once N lines were
/// skipped; only a sampler changes.
pub open spec fn applied(before: Stage, after: Stage, line: Seq<char>, emitted: usize, skipped: usize, pass: bool) -> bool {
    match before {
        Stage::Sample(s) => after matches Stage::Sample(s2) && (s.wf() ==> s2.wf()) && sampler::keep_step(
            s,
            s2,
            line,
            pass,
        ),
        Stage::Limit(n) => after == before && pass == (emitted < n),
        Stage::Skip(n) => after == before && pass == (skipped >= n),
    }
}

/// Counts of a pipeline run.
pub struct RunStats {
    pub lines_read: u64,
    pub lines_passed: u64,
    pub lines_skipped: u64,
    pub lines_warned: u64,
}

impl Default for RunStats {
    fn default() -> (s: Self)
        ensures
            s.lines_read == 0,
            s.lines_passed == 0,
            s.lines_skipped == 0,
            s.lines_warned == 0,
    {
        RunStats { lines_read: 0, lines_passed: 0, lines_skipped: 0, lines_warned: 0 }
    }
}

impl RunStats {
    /// Counts one line read, and whether it passed or was skipped.
    pub fn record(&mut self, passed: bool)
        requires
            old(self).lines_read < u64::MAX,
            old(self).lines_passed < u64::MAX,
            old(self).lines_skipped < u64::MAX,
        ensures
            final(self).lines_read == old(self).lines_read + 1,
            final(self).lines_passed == old(self).lines_passed + if passed { 1int } else { 0int },
            final(self).lines_skipped == old(self).lines_skipped + if passed { 0int } else { 1int },
            final(self).lines_warned == old(self).lines_warned,
    {
        self.lines_read = self.lines_read + 1;
        if passed {
            self.lines_passed = self.lines_passed + 1;
        } else {
            self.lines_skipped = self.lines_skipped + 1;
        }
    }
}

/// The first `k` stages let the line through, stage `k` (if any) stopped
/// it, and the stages after it did not see it.
pub open spec fn stopped_at(
    before: Seq<Stage>,
    after: Seq<Stage>,
    line: Seq<char>,
    emitted: usize,
    skipped: usize,
    k: int,
) -> bool {
    &&& 0 <= k <= before.len()
    &&& after.len() == before.len()
    &&& forall|j: int| 0 <= j < k ==> applied(#[trigger] before[j], after[j], line, emitted, skipped, true)
    &&& k < before.len() ==> applied(before[k], after[k], line, emitted, skipped, false)
    &&& forall|j: int| k < j < before.len() ==> #[trigger] after[j] == before[j]
}

/// Runs a line through the stages in order: it passes when every stage lets
/// it through; the stages after the first one that stops it do not see it.
pub fn run_stages(stages: &mut Vec<Stage>, line: &str, emitted: usize, skipped: usize) -> (pass: bool)
    requires
        forall|i: int| 0 <= i < old(stages)@.len() ==> (#[trigger] old(stages)@[i]).ready(),
    ensures
        final(stages)@.len() == old(stages)@.len(),
        exists|k: int|
            stopped_at(old(stages)@, final(stages)@, line@, emitted, skipped, k) && (pass <==> k
                == old(stages)@.len()),
{
    let mut i: usize = 0;
    while i < stages.len()
        invariant
            i <= stages@.len(),
            stages@.len() == old(stages)@.len(),
            forall|j: int| i <= j < stages@.len() ==> (#[trigger] stages@[j]) == old(stages)@[j],
            forall|j: int| 0 <= j < old(stages)@.len() ==> (#[trigger] old(stages)@[j]).ready(),
            forall|j: int|
                0 <= j < i ==> applied(
                    #[trigger] old(stages)@[j],
                    stages@[j],
                    line@,
                    emitted,
                    skipped,
                    true,
                ),
        decreases stages@.len() - i,
    {
        let ghost before = stages@;
        let mut st = stages.remove(i);
        let pass = st.apply(line, emitted, skipped);
        stages.insert(i, st);
        assert(stages@ =~= before.update(i as int, st));
        if !pass {
            assert(applied(old(stages)@[i as int], stages@[i as int], line@, emitted, skipped, false));
            assert(stopped_at(old(stages)@, stages@, line@, emitted, skipped, i as int));
            return false;
        }
        i = i + 1;
    }
    assert(forall|j: int| 0 <= j < old(stages)@.len() ==> applied(
        #[trigger] old(stages)@[j],
        stages@[j],
        line@,
        emitted,
        skipped,
        true,
    ));
    assert(stopped_at(old(stages)@, stages@, line@, emitted, skipped, stages@.len() as int));
    true
}

} // verus!
