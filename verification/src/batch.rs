//! Batch reader: groups log lines into fixed-size or time-bounded batches
//! for more efficient downstream processing.

use std::time::{Duration, Instant};
use vstd::prelude::*;
use crate::clock;

verus! {

/// A batch of log lines collected from the input stream.
#[derive(Debug)]
pub struct Batch {
    pub lines: Vec<String>,
    pub created_at: Option<Instant>,
}

impl Batch {
    /// The lines, by their characters.
    pub open spec fn lines_view(&self) -> Seq<Seq<char>> {
        self.lines@.map_values(|l: String| l@)
    }

    pub fn new() -> (b: Self)
        ensures
            b.lines_view() == Seq::<Seq<char>>::empty(),
            b.created_at is Some,
    {
        let b = Batch { lines: Vec::new(), created_at: Some(clock::now()) };
        assert(b.lines_view() =~= Seq::<Seq<char>>::empty());
        b
    }

    pub fn push(&mut self, line: String)
        ensures
            final(self).lines_view() == old(self).lines_view().push(line@),
            final(self).created_at == old(self).created_at,
    {
        self.lines.push(line);
        assert(self.lines_view() =~= old(self).lines_view().push(line@));
    }

    pub fn len(&self) -> (n: usize)
        ensures
            n == self.lines_view().len(),
    {
        self.lines.len()
    }

    pub fn is_empty(&self) -> (b: bool)
        ensures
            b == (self.lines_view().len() == 0),
    {
        self.lines.len() == 0
    }

    /// Time since the batch was created; `None` for a batch without a creation time.
    pub fn age(&self) -> (a: Option<Duration>)
        ensures
            a is Some == self.created_at is Some,
    {
        match &self.created_at {
            Some(t) => Some(clock::elapsed(t)),
            None => None,
        }
    }
}

impl Default for Batch {
    fn default() -> (b: Self)
        ensures
            b.lines_view() == Seq::<Seq<char>>::empty(),
            b.created_at is None,
    {
        let b = Batch { lines: Vec::new(), created_at: None };
        assert(b.lines_view() =~= Seq::<Seq<char>>::empty());
        b
    }
}

/// Configuration for the batch collector.
#[derive(Debug, Clone)]
pub struct BatchConfig {
    /// Maximum number of lines per batch.
    pub max_size: usize,
    /// Maximum age of a batch, in nanoseconds, before it is flushed
    /// regardless of size.
    pub max_age_ns: u128,
}

impl Default for BatchConfig {
    /// 256 lines, 200 milliseconds.
    fn default() -> (c: Self)
        ensures
            c.max_size == 256,
            c.max_age_ns == 200_000_000,
    {
        BatchConfig { max_size: 256, max_age_ns: 200_000_000 }
    }
}

/// Whether a batch is due: it is full, or its age (in nanoseconds, when it
/// has one) has reached the maximum age.
pub fn flush_due(len: usize, max_size: usize, age_ns: Option<u128>, max_age_ns: u128) -> (due: bool)
    ensures
        due == (len >= max_size || (age_ns is Some && age_ns->0 >= max_age_ns)),
{
    if len >= max_size {
        return true;
    }
    if let Some(age) = age_ns {
        if age >= max_age_ns {
            return true;
        }
    }
    false
}

/// Accumulates lines into batches according to `BatchConfig`.
#[derive(Debug)]
pub struct BatchCollector {
    config: BatchConfig,
    current: Batch,
}

impl BatchCollector {
    /// The lines of the batch being collected.
    pub closed spec fn pending(&self) -> Seq<Seq<char>> {
        self.current.lines_view()
    }

    /// The size threshold.
    pub closed spec fn max_size(&self) -> usize {
        self.config.max_size
    }

    /// The age threshold in nanoseconds.
    pub closed spec fn max_age_ns(&self) -> u128 {
        self.config.max_age_ns
    }

    /// The batch is due at the age `age_ns` (`None` for a batch without a
    /// creation time): it is full, or its age has reached the maximum.
    pub open spec fn due_at(&self, age_ns: Option<u128>) -> bool {
        self.pending().len() >= self.max_size() || (age_ns matches Some(a) && a >= self.max_age_ns())
    }

    /// The batch being collected has a creation time, so it ages.
    pub closed spec fn has_age(&self) -> bool {
        self.current.created_at is Some
    }

    pub fn new(config: BatchConfig) -> (c: Self)
        ensures
            c.pending() == Seq::<Seq<char>>::empty(),
            c.max_size() == config.max_size,
            c.max_age_ns() == config.max_age_ns,
            c.has_age(),
    {
        BatchCollector { config, current: Batch::new() }
    }

    /// Add a line, the batch having aged `age_ns` nanoseconds when checked
    /// (`None` for a batch without a creation time). Returns the completed
    /// batch when it is full or has reached the maximum age.
    pub fn add_at(&mut self, line: String, age_ns: Option<u128>) -> (r: Option<Batch>)
        ensures
            add_step(*old(self), *final(self), line@, age_ns, r),
    {
        self.current.push(line);
        if self.should_flush_at(age_ns) {
            Some(self.flush())
        } else {
            None
        }
    }

    /// Add a line. Returns a completed batch when the batch is full, or when
    /// it has reached the maximum age (always so for a zero maximum age):
    /// the step of `add_at` on the batch's age, a clock reading.
    pub fn add(&mut self, line: String) -> (r: Option<Batch>)
        ensures
            exists|a: Option<u128>|
                (a is Some) == old(self).has_age() && #[trigger] add_step(
                    *old(self),
                    *final(self),
                    line@,
                    a,
                    r,
                ),
            old(self).pending().len() + 1 >= old(self).max_size() ==> r is Some,
            old(self).has_age() && old(self).max_age_ns() == 0 ==> r is Some,
            !old(self).has_age() ==> (r is Some <==> old(self).pending().len() + 1 >= old(self).max_size()),
    {
        let age_ns = match self.current.age() {
            Some(a) => Some(clock::nanos(&a)),
            None => None,
        };
        let r = self.add_at(line, age_ns);
        assert(add_step(*old(self), *self, line@, age_ns, r));
        r
    }

    /// Force-flush the current batch regardless of thresholds.
    pub fn flush(&mut self) -> (b: Batch)
        ensures
            b.lines_view() == old(self).pending(),
            final(self).pending() == Seq::<Seq<char>>::empty(),
            final(self).max_size() == old(self).max_size(),
            final(self).max_age_ns() == old(self).max_age_ns(),
            final(self).has_age(),
    {
        let mut batch = Batch::new();
        std::mem::swap(&mut batch, &mut self.current);
        batch
    }

    /// Whether the batch is due when it has aged `age_ns` nanoseconds (`None`
    /// for a batch without a creation time): it is full, or its age has
    /// reached the maximum.
    pub fn should_flush_at(&self, age_ns: Option<u128>) -> (due: bool)
        ensures
            due == (self.pending().len() >= self.max_size() || (age_ns matches Some(a) && a
                >= self.max_age_ns())),
    {
        flush_due(self.current.len(), self.config.max_size, age_ns, self.config.max_age_ns)
    }

    /// Returns true if the current batch should be flushed: it is full, or
    /// its age (a clock reading) has reached the configured maximum, which a
    /// zero maximum always has.
    pub fn should_flush(&self) -> (due: bool)
        ensures
            exists|a: Option<u128>| (a is Some) == self.has_age() && due == #[trigger] self.due_at(a),
            self.pending().len() >= self.max_size() ==> due,
            self.has_age() && self.max_age_ns() == 0 ==> due,
            !self.has_age() ==> (due == (self.pending().len() >= self.max_size())),
    {
        let age_ns = match self.current.age() {
            Some(a) => Some(clock::nanos(&a)),
            None => None,
        };
        let due = self.should_flush_at(age_ns);
        assert((age_ns is Some) == self.has_age() && due == self.due_at(age_ns));
        due
    }

    pub fn is_empty(&self) -> (b: bool)
        ensures
            b == (self.pending().len() == 0),
    {
        self.current.is_empty()
    }
}

/// What adding `line` does, the batch having aged `age_ns` when checked:
/// the thresholds are kept; a batch is handed out exactly when the pending
/// lines with this one reach the size, or the age reaches the maximum age;
/// it holds the pending lines and this one, after which nothing is pending;
/// otherwise the line joins the pending ones.
pub open spec fn add_step(
    before: BatchCollector,
    after: BatchCollector,
    line: Seq<char>,
    age_ns: Option<u128>,
    r: Option<Batch>,
) -> bool {
    &&& after.max_size() == before.max_size()
    &&& after.max_age_ns() == before.max_age_ns()
    &&& before.has_age() ==> after.has_age()
    &&& r is Some == (before.pending().len() + 1 >= before.max_size() || (age_ns matches Some(a)
        && a >= before.max_age_ns()))
    &&& match r {
        Some(b) => b.lines_view() == before.pending().push(line) && after.pending()
            == Seq::<Seq<char>>::empty() && after.has_age(),
        None => after.pending() == before.pending().push(line),
    }
}

/// The lines of the batches handed out, in order.
pub open spec fn handed_out(rs: Seq<Option<Batch>>) -> Seq<Seq<char>>
    decreases rs.len(),
{
    if rs.len() == 0 {
        Seq::empty()
    } else {
        handed_out(rs.drop_last()) + match rs.last() {
            Some(b) => b.lines_view(),
            None => Seq::empty(),
        }
    }
}

/// The most lines a batch may hold: the maximum size, or one line when the
/// maximum is zero.
pub open spec fn batch_cap(max_size: usize) -> nat {
    if max_size == 0 {
        1
    } else {
        max_size as nat
    }
}

/// Over any run of `add` steps, the batches handed out followed by the
/// pending lines hold the lines pending at the start followed by every line
/// added, each once and in order; and when the run starts below the cap, no
/// batch handed out holds more than the maximum size (one line for a zero
/// maximum).
pub proof fn lemma_add_run(
    run: Seq<BatchCollector>,
    lines: Seq<Seq<char>>,
    ages: Seq<Option<u128>>,
    rs: Seq<Option<Batch>>,
)
    requires
        run.len() == lines.len() + 1,
        ages.len() == lines.len(),
        rs.len() == lines.len(),
        forall|i: int|
            0 <= i < lines.len() ==> #[trigger] add_step(run[i], run[i + 1], lines[i], ages[i], rs[i]),
    ensures
        handed_out(rs) + run.last().pending() == run[0].pending() + lines,
        run.last().max_size() == run[0].max_size(),
        run[0].pending().len() + 1 <= batch_cap(run[0].max_size()) ==> {
            &&& run.last().pending().len() + 1 <= batch_cap(run[0].max_size())
            &&& forall|i: int|
                0 <= i < rs.len() ==> (#[trigger] rs[i] matches Some(b) ==> b.lines_view().len()
                    <= batch_cap(run[0].max_size()))
        },
    decreases lines.len(),
{
    if lines.len() == 0 {
        assert(run[0].pending() + lines =~= run[0].pending());
        assert(handed_out(rs) + run.last().pending() =~= run.last().pending());
    } else {
        let n = lines.len() - 1;
        let run0 = run.drop_last();
        let lines0 = lines.drop_last();
        let ages0 = ages.drop_last();
        let rs0 = rs.drop_last();
        assert forall|i: int| 0 <= i < lines0.len() implies #[trigger] add_step(
            run0[i],
            run0[i + 1],
            lines0[i],
            ages0[i],
            rs0[i],
        ) by {
            assert(add_step(run[i], run[i + 1], lines[i], ages[i], rs[i]));
        }
        lemma_add_run(run0, lines0, ages0, rs0);
        assert(add_step(run[n], run[n + 1], lines[n], ages[n], rs[n]));
        assert(run0.last() == run[n]);
        assert(run[0].pending() + lines =~= (run[0].pending() + lines0).push(lines[n]));
        match rs[n] {
            Some(b) => {
                assert(handed_out(rs) == handed_out(rs0) + b.lines_view());
                assert(handed_out(rs) + run.last().pending() =~= (handed_out(rs0)
                    + run[n].pending()).push(lines[n]));
            },
            None => {
                assert(handed_out(rs) =~= handed_out(rs0));
                assert(handed_out(rs) + run.last().pending() =~= (handed_out(rs0)
                    + run[n].pending()).push(lines[n]));
            },
        }
        if run[0].pending().len() + 1 <= batch_cap(run[0].max_size()) {
            assert forall|i: int| 0 <= i < rs.len() implies (#[trigger] rs[i] matches Some(b)
                ==> b.lines_view().len() <= batch_cap(run[0].max_size())) by {
                if i < n {
                    assert(rs[i] == rs0[i]);
                }
            }
        }
    }
}

} // verus!
