//! Line sampling for large log files: every N-th line, or a uniform
//! reservoir of a fixed size.

use vstd::prelude::*;
use rand::Rng;

verus! {

#[verifier::external_type_specification]
#[verifier::external_body]
pub struct ExThreadRng(rand::rngs::ThreadRng);

/// Trusted: `rand::thread_rng`; a handle to the thread's generator.
#[verifier::external_body]
fn new_rng() -> rand::rngs::ThreadRng {
    rand::thread_rng()
}

/// Trusted: `Rng::gen_range(0..bound)`; whatever it draws lies in
/// `0..bound` (the crate asserts the range is not empty, hence the
/// requirement).
#[verifier::external_body]
fn random_below(rng: &mut rand::rngs::ThreadRng, bound: usize) -> (r: usize)
    requires
        bound > 0,
    ensures
        r < bound,
{
    rng.gen_range(0..bound)
}

/// How lines are sampled.
#[derive(Debug, Clone)]
pub enum SampleStrategy {
    /// Keep every N-th line.
    Rate(usize),
    /// Keep at most this many lines, uniformly at random.
    Reservoir(usize),
}

/// What offering `line` to `before` with the index `j` leads to: one more
/// line seen; for a rate, kept exactly when the count is a multiple of it;
/// for a reservoir, kept while there is room, and afterwards kept in slot `j`
/// exactly when `j` falls inside the reservoir.
pub open spec fn step_with(before: Sampler, after: Sampler, line: Seq<char>, j: int, keep: bool) -> bool {
    &&& after.strategy_spec() == before.strategy_spec()
    &&& after.seen() == before.seen() + 1
    &&& match before.strategy_spec() {
        SampleStrategy::Rate(n) => keep == (after.seen() % (n as nat) == 0) && after.kept()
            == before.kept(),
        SampleStrategy::Reservoir(size) => if before.kept().len() < size {
            keep && after.kept() == before.kept().push(line)
        } else {
            &&& keep == (j < size)
            &&& keep ==> after.kept() == before.kept().update(j, line)
            &&& !keep ==> after.kept() == before.kept()
        },
    }
}

/// What offering `line` to `before` may lead to: the step for some index
/// drawn from `0..count`, the count including this line.
pub open spec fn keep_step(before: Sampler, after: Sampler, line: Seq<char>, keep: bool) -> bool {
    exists|j: int| 0 <= j <= before.seen() && #[trigger] step_with(before, after, line, j, keep)
}

/// Decides, line by line, which lines to keep.
pub struct Sampler {
    strategy: SampleStrategy,
    count: usize,
    reservoir: Vec<String>,
    rng: rand::rngs::ThreadRng,
}

impl Sampler {
    /// The strategy.
    pub closed spec fn strategy_spec(&self) -> SampleStrategy {
        self.strategy
    }

    /// Lines offered so far.
    pub closed spec fn seen(&self) -> nat {
        self.count as nat
    }

    /// The reservoir, lines by their characters.
    pub closed spec fn kept(&self) -> Seq<Seq<char>> {
        self.reservoir@.map_values(|l: String| l@)
    }

    /// The reservoir never holds more than its size.
    pub open spec fn wf(&self) -> bool {
        self.strategy_spec() matches SampleStrategy::Reservoir(size) ==> self.kept().len() <= size
    }

    /// A sampler that has seen no line.
    pub fn new(strategy: SampleStrategy) -> (s: Self)
        ensures
            s.wf(),
            s.strategy_spec() == strategy,
            s.seen() == 0,
            s.kept() == Seq::<Seq<char>>::empty(),
    {
        let s = Sampler { strategy, count: 0, reservoir: Vec::new(), rng: new_rng() };
        assert(s.kept() =~= Seq::<Seq<char>>::empty());
        s
    }

    /// Offers the line with the random index `j` drawn from `0..count`
    /// (count including this line): for a rate, keeps every N-th line; for a
    /// reservoir, fills it first and then replaces slot `j` when `j` falls
    /// inside it.
    pub fn offer(&mut self, line: &str, j: usize) -> (keep: bool)
        requires
            old(self).seen() < usize::MAX,
            old(self).strategy_spec() matches SampleStrategy::Rate(n) ==> n > 0,
        ensures
            old(self).wf() ==> final(self).wf(),
            step_with(*old(self), *final(self), line@, j as int, keep),
    {
        self.count = self.count + 1;
        match &self.strategy {
            SampleStrategy::Rate(n) => self.count % *n == 0,
            SampleStrategy::Reservoir(size) => {
                let size = *size;
                if self.reservoir.len() < size {
                    self.reservoir.push(line.to_owned());
                    assert(self.kept() =~= old(self).kept().push(line@));
                    true
                } else if j < size {
                    self.reservoir.set(j, line.to_owned());
                    assert(self.kept() =~= old(self).kept().update(j as int, line@));
                    true
                } else {
                    false
                }
            },
        }
    }

    /// Decides whether to keep a line: for a rate, every N-th line; for a
    /// reservoir, the line goes in while there is room, and afterwards
    /// replaces a random slot with probability `size / count`.
    pub fn should_keep(&mut self, line: &str) -> (keep: bool)
        requires
            old(self).seen() < usize::MAX,
            old(self).strategy_spec() matches SampleStrategy::Rate(n) ==> n > 0,
        ensures
            old(self).wf() ==> final(self).wf(),
            keep_step(*old(self), *final(self), line@, keep),
    {
        let full = match &self.strategy {
            SampleStrategy::Reservoir(size) => self.reservoir.len() >= *size,
            SampleStrategy::Rate(_) => false,
        };
        let j = if full {
            let bound = self.draw_bound();
            random_below(&mut self.rng, bound)
        } else {
            0
        };
        let keep = self.offer(line, j);
        assert(step_with(*old(self), *self, line@, j as int, keep));
        keep
    }

    /// The bound of the index drawn for a full reservoir: the count of lines
    /// offered, this one included.
    fn draw_bound(&self) -> (b: usize)
        requires
            self.seen() < usize::MAX,
        ensures
            b == self.seen() + 1,
    {
        self.count + 1
    }

    /// The reservoir (meaningful for the reservoir strategy).
    pub fn into_reservoir(self) -> (v: Vec<String>)
        ensures
            v@.map_values(|l: String| l@) == self.kept(),
    {
        self.reservoir
    }

    /// The strategy.
    pub fn strategy(&self) -> (s: &SampleStrategy)
        ensures
            *s == self.strategy_spec(),
    {
        &self.strategy
    }

    /// How many lines have been offered.
    pub fn lines_seen(&self) -> (n: usize)
        ensures
            n == self.seen(),
    {
        self.count
    }
}

} // verus!
