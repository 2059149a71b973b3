//! The line limit of output: how many lines were written, and whether
//! another may be.

use vstd::prelude::*;

verus! {

/// Counts written lines against an optional limit.
pub struct WriteLimit {
    count: usize,
    limit: Option<usize>,
}

impl WriteLimit {
    /// Lines written so far.
    pub closed spec fn written(&self) -> nat {
        self.count as nat
    }

    /// The limit, if any.
    pub closed spec fn limit_spec(&self) -> Option<usize> {
        self.limit
    }

    /// The limit has been reached.
    pub open spec fn reached(&self) -> bool {
        match self.limit_spec() {
            Some(lim) => self.written() >= lim,
            None => false,
        }
    }

    /// Nothing written yet.
    pub fn new(limit: Option<usize>) -> (w: Self)
        ensures
            w.written() == 0,
            w.limit_spec() == limit,
    {
        WriteLimit { count: 0, limit }
    }

    /// Whether another line may be written.
    pub fn may_write(&self) -> (b: bool)
        ensures
            b == !self.reached(),
    {
        match self.limit {
            Some(lim) => self.count < lim,
            None => true,
        }
    }

    /// Counts a line that was written, which only happens while another
    /// line may be written.
    pub fn record_written(&mut self)
        requires
            !old(self).reached(),
            old(self).written() < usize::MAX,
        ensures
            write_step(*old(self), *final(self)),
    {
        self.count = self.count + 1;
    }

    /// Lines written so far.
    pub fn lines_written(&self) -> (n: usize)
        ensures
            n == self.written(),
    {
        self.count
    }

    /// Whether the limit has been reached.
    pub fn limit_reached(&self) -> (b: bool)
        ensures
            b == self.reached(),
    {
        match self.limit {
            Some(lim) => self.count >= lim,
            None => false,
        }
    }
}

/// A line written: allowed before the step, counted by it, limit kept.
pub open spec fn write_step(before: WriteLimit, after: WriteLimit) -> bool {
    &&& !before.reached()
    &&& after.written() == before.written() + 1
    &&& after.limit_spec() == before.limit_spec()
}

/// Over any run of written lines and refused or failed writes (which leave
/// the count as it is), the limit is kept and never exceeded, and once it is
/// reached nothing changes any more: every later write is refused.
pub proof fn lemma_write_run(run: Seq<WriteLimit>)
    requires
        run.len() > 0,
        forall|i: int|
            0 <= i < run.len() - 1 ==> #[trigger] write_step(run[i], run[i + 1]) || run[i + 1]
                == run[i],
    ensures
        forall|i: int| 0 <= i < run.len() ==> #[trigger] run[i].limit_spec() == run[0].limit_spec(),
        forall|i: int|
            0 <= i < run.len() ==> (run[0].limit_spec() matches Some(l) ==> (run[0].written() <= l
                ==> #[trigger] run[i].written() <= l)),
        forall|i: int, j: int|
            0 <= i <= j < run.len() && #[trigger] run[i].reached() ==> #[trigger] run[j] == run[i],
    decreases run.len(),
{
    if run.len() > 1 {
        let front = run.drop_last();
        let k = run.len() - 2;
        assert forall|i: int| 0 <= i < front.len() - 1 implies #[trigger] write_step(front[i], front[i + 1])
            || front[i + 1] == front[i] by {
            assert(write_step(run[i], run[i + 1]) || run[i + 1] == run[i]);
        }
        lemma_write_run(front);
        assert(write_step(run[k], run[k + 1]) || run[k + 1] == run[k]);
        assert forall|i: int| 0 <= i < run.len() implies #[trigger] run[i].limit_spec()
            == run[0].limit_spec() by {
            if i < run.len() - 1 {
                assert(front[i] == run[i]);
            } else {
                assert(front[k] == run[k] && front[0] == run[0]);
                assert(front[k].limit_spec() == front[0].limit_spec());
            }
        }
        assert forall|i: int| 0 <= i < run.len() implies (run[0].limit_spec() matches Some(l)
            ==> (run[0].written() <= l ==> #[trigger] run[i].written() <= l)) by {
            if i < run.len() - 1 {
                assert(front[i] == run[i]);
            } else {
                assert(front[k] == run[k] && front[0] == run[0]);
                assert(front[k].limit_spec() == front[0].limit_spec());
                assert(front[k].written() <= front[0].limit_spec()->0 || front[0].limit_spec() is None
                    || front[0].written() > front[0].limit_spec()->0);
            }
        }
        assert forall|i: int, j: int| 0 <= i <= j < run.len() && #[trigger] run[i].reached()
            implies #[trigger] run[j] == run[i] by {
            if j < run.len() - 1 {
                assert(front[i] == run[i] && front[j] == run[j]);
            } else if i < j {
                assert(front[i] == run[i] && front[k] == run[k]);
                assert(run[k] == run[i]);
            }
        }
    }
}

} // verus!
