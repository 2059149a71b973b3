//! Per-line read timeouts.

use std::io::BufRead;
use std::time::{Duration, Instant};
use vstd::prelude::*;
use crate::clock;
use crate::truncate::{utf8, lemma_utf8_concat, lemma_utf8_len};

verus! {

#[verifier::external_type_specification]
#[verifier::external_body]
pub struct ExIoError(std::io::Error);

/// Trusted: `BufRead::read_line`; on success it appends what it read to
/// `buf` and returns the number of bytes read. What it reads depends on the
/// source, so only the append and its byte count are claimed.
#[verifier::external_body]
fn read_line_into<R: BufRead>(reader: &mut R, buf: &mut String) -> (r: std::io::Result<usize>)
    ensures
        r matches Ok(n) ==> final(buf)@.take(old(buf)@.len() as int) == old(buf)@ && final(buf)@.len()
            >= old(buf)@.len() && utf8(final(buf)@).len() == utf8(old(buf)@).len() + n,
{
    reader.read_line(buf)
}

/// A reader whose timer has run `elapsed_ns` nanoseconds is timed out once
/// that reaches the timeout of `timeout_ns` nanoseconds.
pub fn timed_out_at(elapsed_ns: u128, timeout_ns: u128) -> (r: bool)
    ensures
        r == (elapsed_ns >= timeout_ns),
{
    elapsed_ns >= timeout_ns
}

/// The answer to a read of `n` bytes: nothing when the reader timed out and
/// read nothing, else the count.
pub open spec fn outcome_spec(timed_out: bool, n: usize) -> Option<usize> {
    if timed_out && n == 0 {
        None
    } else {
        Some(n)
    }
}

/// The answer to a read of `n` bytes: nothing when the reader timed out and
/// read nothing, else the count.
pub fn read_outcome(timed_out: bool, n: usize) -> (r: Option<usize>)
    ensures
        r == outcome_spec(timed_out, n),
{
    if timed_out && n == 0 {
        None
    } else {
        Some(n)
    }
}

/// Wraps a reader and enforces a per-line read timeout.
pub struct TimeoutReader<R> {
    inner: R,
    timeout_ns: u128,
    started_at: Instant,
}

impl<R> TimeoutReader<R> {
    /// The wrapped reader.
    pub closed spec fn inner_spec(&self) -> R {
        self.inner
    }

    /// The timeout in nanoseconds.
    pub closed spec fn timeout_ns_spec(&self) -> u128 {
        self.timeout_ns
    }

    /// When the timer last started.
    pub closed spec fn started_spec(&self) -> Instant {
        self.started_at
    }

    /// A reader over `inner` with a per-line timeout of `timeout_ns`
    /// nanoseconds; the timer starts now.
    pub fn new(inner: R, timeout_ns: u128) -> (t: Self)
        ensures
            t.inner_spec() == inner,
            t.timeout_ns_spec() == timeout_ns,
    {
        TimeoutReader { inner, timeout_ns, started_at: clock::now() }
    }

    /// Restarts the timer at the current clock reading.
    pub fn reset_timer(&mut self)
        ensures
            timer_step(*old(self), *final(self)),
    {
        self.started_at = clock::now();
    }

    /// Decides, on a reading of `elapsed_ns` nanoseconds on the timer,
    /// whether a read may start: only before the timeout. A read that may
    /// start restarts the timer; one that may not leaves the reader as it is.
    pub fn begin_read(&mut self, elapsed_ns: u128) -> (go: bool)
        ensures
            go == !(elapsed_ns >= old(self).timeout_ns_spec()),
            timer_step(*old(self), *final(self)),
            !go ==> *final(self) == *old(self),
    {
        if timed_out_at(elapsed_ns, self.timeout_ns) {
            false
        } else {
            self.reset_timer();
            true
        }
    }

    /// Whether the timeout has passed since the timer started: the time on
    /// the timer (a clock reading) has reached the timeout, which a zero
    /// timeout always has.
    pub fn is_timed_out(&self) -> (r: bool)
        ensures
            self.timeout_ns_spec() == 0 ==> r,
    {
        let e = clock::nanos(&clock::elapsed(&self.started_at));
        timed_out_at(e, self.timeout_ns)
    }

    /// The timeout, in nanoseconds.
    pub fn timeout(&self) -> (n: u128)
        ensures
            n == self.timeout_ns_spec(),
    {
        self.timeout_ns
    }

    /// The time since the timer started: a clock reading, of which the
    /// contract states nothing.
    pub fn elapsed(&self) -> Duration {
        clock::elapsed(&self.started_at)
    }

    /// The wrapped reader, to read from directly.
    pub fn inner_mut(&mut self) -> (r: &mut R)
        ensures
            *r == old(self).inner_spec(),
            final(self).inner_spec() == *final(r),
            final(self).timeout_ns_spec() == old(self).timeout_ns_spec(),
            final(self).started_spec() == old(self).started_spec(),
    {
        &mut self.inner
    }

    /// The wrapped reader.
    pub fn into_inner(self) -> (r: R)
        ensures
            r == self.inner_spec(),
    {
        self.inner
    }
}

impl<R: BufRead> TimeoutReader<R> {
    /// Reads a line into `buf`, the timer showing `elapsed_ns` nanoseconds:
    /// once the timeout has passed, `None` without reading, the reader and
    /// its timer left as they are; else the timer restarts and a line is
    /// read, `None` when the timeout passed again during a read that found
    /// nothing. Whether the read succeeds rests on the reader.
    pub fn read_line_at(&mut self, buf: &mut String, elapsed_ns: u128) -> (r: std::io::Result<
        Option<usize>,
    >)
        ensures
            read_step(*old(self), *final(self), old(buf)@, final(buf)@, elapsed_ns, r),
    {
        if !self.begin_read(elapsed_ns) {
            assert(buf@.take(buf@.len() as int) =~= buf@);
            return Ok(None);
        }
        let n = match read_line_into(&mut self.inner, buf) {
            Ok(n) => n,
            Err(e) => {
                return Err(e);
            },
        };
        let timed_out = self.is_timed_out();
        proof {
            if n == 0 {
                let rest = buf@.subrange(old(buf)@.len() as int, buf@.len() as int);
                assert(buf@ =~= old(buf)@ + rest);
                lemma_utf8_concat(old(buf)@, rest);
                lemma_utf8_len(rest);
                assert(rest.len() == 0);
                assert(buf@ =~= old(buf)@);
            }
        }
        Ok(read_outcome(timed_out, n))
    }

    /// Reads a line into `buf` unless the timeout has passed since the timer
    /// started: the step of `read_line_at` on the timer's reading at the
    /// call, which is a clock reading (always past a zero timeout).
    pub fn read_line_timeout(&mut self, buf: &mut String) -> (r: std::io::Result<Option<usize>>)
        ensures
            exists|e: u128| #[trigger] read_step(*old(self), *final(self), old(buf)@, final(buf)@, e, r),
            old(self).timeout_ns_spec() == 0 ==> (r matches Ok(None) && *final(self) == *old(self)
                && final(buf)@ == old(buf)@),
    {
        let e = clock::nanos(&clock::elapsed(&self.started_at));
        let r = self.read_line_at(buf, e);
        assert(read_step(*old(self), *self, old(buf)@, buf@, e, r));
        r
    }
}

/// What the timer methods keep: the wrapped reader and the timeout.
pub open spec fn timer_step<R>(before: TimeoutReader<R>, after: TimeoutReader<R>) -> bool {
    &&& after.inner_spec() == before.inner_spec()
    &&& after.timeout_ns_spec() == before.timeout_ns_spec()
}

/// A read of a line with the timer showing `elapsed_ns`: past the timeout,
/// `None` with the reader, its timer and the buffer as they were; before
/// it, the timeout is kept, and a count of bytes read goes with that many
/// bytes appended to the buffer, a `None` with the buffer as it was.
pub open spec fn read_step<R>(
    before: TimeoutReader<R>,
    after: TimeoutReader<R>,
    buf_before: Seq<char>,
    buf_after: Seq<char>,
    elapsed_ns: u128,
    r: std::io::Result<Option<usize>>,
) -> bool {
    &&& after.timeout_ns_spec() == before.timeout_ns_spec()
    &&& elapsed_ns >= before.timeout_ns_spec() ==> (r matches Ok(None) && after == before
        && buf_after == buf_before)
    &&& r matches Ok(Some(n)) ==> buf_after.take(buf_before.len() as int) == buf_before
        && utf8(buf_after).len() == utf8(buf_before).len() + n
    &&& r matches Ok(None) ==> buf_after == buf_before
}

/// After any run of timer steps (restarting the timer, starting a read that
/// may start, or none), the reader holds the reader it was made with, so
/// `into_inner` hands that one back.
pub proof fn lemma_timer_keeps_inner<R>(run: Seq<TimeoutReader<R>>)
    requires
        run.len() > 0,
        forall|i: int| 0 <= i < run.len() - 1 ==> #[trigger] timer_step(run[i], run[i + 1]),
    ensures
        run.last().inner_spec() == run[0].inner_spec(),
        run.last().timeout_ns_spec() == run[0].timeout_ns_spec(),
    decreases run.len(),
{
    if run.len() > 1 {
        let front = run.drop_last();
        assert forall|i: int| 0 <= i < front.len() - 1 implies #[trigger] timer_step(
            front[i],
            front[i + 1],
        ) by {
            assert(timer_step(run[i], run[i + 1]));
        }
        lemma_timer_keeps_inner(front);
        let k = run.len() - 2;
        assert(timer_step(run[k], run[k + 1]));
    }
}

/// Timeouts of the pipeline, in nanoseconds.
#[derive(Debug, Clone)]
pub struct TimeoutConfig {
    pub line_timeout_ns: u128,
    pub idle_timeout_ns: u128,
}

impl Default for TimeoutConfig {
    /// Five seconds per line, thirty when idle.
    fn default() -> (c: Self)
        ensures
            c.line_timeout_ns == 5_000_000_000,
            c.idle_timeout_ns == 30_000_000_000,
    {
        TimeoutConfig { line_timeout_ns: 5_000_000_000, idle_timeout_ns: 30_000_000_000 }
    }
}

} // verus!
