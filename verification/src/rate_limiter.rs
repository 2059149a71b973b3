//! Rate limiting of log line throughput.
//!
//! The limiter counts lines in one-second windows; when a window holds more
//! lines than allowed it tells the caller how long to pause, and the caller
//! pauses and then calls `resume`.

use std::time::Instant;
use vstd::prelude::*;
use crate::clock;

verus! {

/// Nanoseconds in one second, the length of a window.
pub const WINDOW_NS: u64 = 1_000_000_000;

/// The pause that ends the current window, when `lines` lines in it exceed
/// `max` (0 means unlimited) and `elapsed_ns` of it have passed.
pub open spec fn pause_spec(lines: u64, max: u64, elapsed_ns: u128) -> Option<u64> {
    if max > 0 && lines > max && elapsed_ns < WINDOW_NS {
        Some((WINDOW_NS - elapsed_ns) as u64)
    } else {
        None
    }
}

/// The pause that ends the current window, when `lines` lines in it exceed
/// `max` (0 means unlimited) and `elapsed_ns` of it have passed.
pub fn pause_after(lines: u64, max: u64, elapsed_ns: u128) -> (p: Option<u64>)
    ensures
        p == pause_spec(lines, max, elapsed_ns),
{
    if max > 0 && lines > max && elapsed_ns < WINDOW_NS as u128 {
        Some(WINDOW_NS - (elapsed_ns as u64))
    } else {
        None
    }
}

/// One counted line, with clock readings `elapsed_ns` (into the window
/// before the count) and `since_ns` (into the window the line is counted
/// in): one more line in all; with no limit nothing else changes; otherwise
/// the window count restarts at 1 when the window had lasted a second, else
/// grows by one, and the pause is the one `pause_spec` gives, added to the
/// pause total.
pub open spec fn stepped(before: RateLimiter, after: RateLimiter, pause: Option<u64>, elapsed_ns: u128, since_ns: u128) -> bool {
    &&& after.max_spec() == before.max_spec()
    &&& after.lines_spec() == before.lines_spec() + 1
    &&& if before.max_spec() == 0 {
        pause is None && after.window_lines() == before.window_lines() && after.sleep_spec()
            == before.sleep_spec()
    } else {
        &&& after.window_lines() == (if elapsed_ns >= WINDOW_NS {
            1
        } else {
            before.window_lines() + 1
        })
        &&& pause == pause_spec(after.window_lines(), after.max_spec(), since_ns)
        &&& after.sleep_spec() == before.sleep_spec() + match pause {
            Some(ns) => ns as int,
            None => 0,
        }
    }
}

/// Controls the rate at which log lines are processed.
pub struct RateLimiter {
    max_lines_per_sec: u64,
    lines_in_window: u64,
    window_start: Instant,
    total_lines: u64,
    total_sleep_ns: u64,
}

impl RateLimiter {
    /// Lines allowed per second, 0 for no limit.
    pub closed spec fn max_spec(&self) -> u64 {
        self.max_lines_per_sec
    }

    /// Lines counted in the current window.
    pub closed spec fn window_lines(&self) -> u64 {
        self.lines_in_window
    }

    /// Lines passed in all.
    pub closed spec fn lines_spec(&self) -> u64 {
        self.total_lines
    }

    /// Nanoseconds of pause asked for in all.
    pub closed spec fn sleep_spec(&self) -> u64 {
        self.total_sleep_ns
    }

    /// A limiter for `max_lines_per_sec` lines per second; 0 means unlimited.
    pub fn new(max_lines_per_sec: u64) -> (r: Self)
        ensures
            r.max_spec() == max_lines_per_sec,
            r.window_lines() == 0,
            r.lines_spec() == 0,
            r.sleep_spec() == 0,
    {
        RateLimiter {
            max_lines_per_sec,
            lines_in_window: 0,
            window_start: clock::now(),
            total_lines: 0,
            total_sleep_ns: 0,
        }
    }

    /// Whether a limit is set.
    pub fn is_active(&self) -> (b: bool)
        ensures
            b == (self.max_spec() > 0),
    {
        self.max_lines_per_sec > 0
    }

    /// Counts one line, given the clock readings: `elapsed_ns` into the
    /// window before the count, and `since_ns` into the window the line is
    /// counted in. A window of a second or more starts anew at this line;
    /// when the window then holds more lines than allowed, the pause until
    /// the end of its second is returned and added to the pause total.
    pub fn throttle_at(&mut self, elapsed_ns: u128, since_ns: u128) -> (pause: Option<u64>)
        requires
            old(self).lines_spec() < u64::MAX,
            old(self).window_lines() < u64::MAX,
            old(self).sleep_spec() <= u64::MAX - WINDOW_NS,
        ensures
            stepped(*old(self), *final(self), pause, elapsed_ns, since_ns),
            final(self).window_start_spec() == old(self).window_start_spec(),
    {
        if self.max_lines_per_sec == 0 {
            self.total_lines = self.total_lines + 1;
            return None;
        }
        if elapsed_ns >= WINDOW_NS as u128 {
            self.lines_in_window = 0;
        }
        self.lines_in_window = self.lines_in_window + 1;
        self.total_lines = self.total_lines + 1;
        let pause = pause_after(self.lines_in_window, self.max_lines_per_sec, since_ns);
        match pause {
            Some(ns) => {
                self.total_sleep_ns = self.total_sleep_ns + ns;
            },
            None => {},
        }
        pause
    }

    /// Counts one line. Returns the pause, in nanoseconds, that the caller
    /// must take before the next line when the window is over its limit; the
    /// caller then calls `resume`. A window older than a second starts anew
    /// first. The readings of the clock are not known here: the step is
    /// `throttle_at` for some readings.
    pub fn throttle(&mut self) -> (pause: Option<u64>)
        requires
            old(self).lines_spec() < u64::MAX,
            old(self).window_lines() < u64::MAX,
            old(self).sleep_spec() <= u64::MAX - WINDOW_NS,
        ensures
            exists|e: u128, s: u128| stepped(*old(self), *final(self), pause, e, s),
            throttled(*old(self), *final(self)),
            final(self).max_spec() == old(self).max_spec(),
            final(self).lines_spec() == old(self).lines_spec() + 1,
            old(self).max_spec() == 0 ==> pause is None && final(self).window_lines() == old(self).window_lines()
                && final(self).sleep_spec() == old(self).sleep_spec(),
            match pause {
                Some(ns) => final(self).window_lines() > final(self).max_spec() && 0 < ns <= WINDOW_NS
                    && final(self).sleep_spec() == old(self).sleep_spec() + ns,
                None => final(self).sleep_spec() == old(self).sleep_spec(),
            },
    {
        if self.max_lines_per_sec == 0 {
            let pause = self.throttle_at(0, 0);
            assert(stepped(*old(self), *self, pause, 0, 0));
            return pause;
        }
        let elapsed = clock::nanos(&clock::elapsed(&self.window_start));
        if elapsed >= WINDOW_NS as u128 {
            self.window_start = clock::now();
        }
        let since = clock::nanos(&clock::elapsed(&self.window_start));
        let pause = self.throttle_at(elapsed, since);
        assert(stepped(*old(self), *self, pause, elapsed, since));
        pause
    }

    /// Starts a new window after the pause that `throttle` asked for.
    pub fn resume(&mut self)
        ensures
            final(self).max_spec() == old(self).max_spec(),
            final(self).window_lines() == 0,
            final(self).lines_spec() == old(self).lines_spec(),
            final(self).sleep_spec() == old(self).sleep_spec(),
    {
        self.lines_in_window = 0;
        self.window_start = clock::now();
    }

    /// Total lines processed.
    pub fn total_lines(&self) -> (n: u64)
        ensures
            n == self.lines_spec(),
    {
        self.total_lines
    }

    /// Total nanoseconds of pause asked for.
    pub fn total_sleep_ns(&self) -> (n: u64)
        ensures
            n == self.sleep_spec(),
    {
        self.total_sleep_ns
    }

    /// Lines counted in the current window.
    pub fn lines_in_window(&self) -> (n: u64)
        ensures
            n == self.window_lines(),
    {
        self.lines_in_window
    }

    /// When the current window started.
    pub closed spec fn window_start_spec(&self) -> Instant {
        self.window_start
    }

    /// When the current window started.
    pub fn window_start(&self) -> (t: &Instant)
        ensures
            *t == self.window_start_spec(),
    {
        &self.window_start
    }
}

/// One call of `throttle`, whatever pause it returned: the step of
/// `throttle_at` for some clock readings.
pub open spec fn throttled(before: RateLimiter, after: RateLimiter) -> bool {
    exists|p: Option<u64>, e: u128, s: u128| #[trigger] stepped(before, after, p, e, s)
}

/// Over any run of `throttle` calls the limit stays as it was set, so
/// `is_active` keeps its answer, and each call counts one line.
pub proof fn lemma_throttle_run(run: Seq<RateLimiter>)
    requires
        run.len() > 0,
        forall|i: int| 0 <= i < run.len() - 1 ==> #[trigger] throttled(run[i], run[i + 1]),
    ensures
        run.last().max_spec() == run[0].max_spec(),
        run.last().lines_spec() == run[0].lines_spec() + run.len() - 1,
    decreases run.len(),
{
    if run.len() > 1 {
        let front = run.drop_last();
        assert forall|i: int| 0 <= i < front.len() - 1 implies #[trigger] throttled(
            front[i],
            front[i + 1],
        ) by {
            assert(throttled(run[i], run[i + 1]));
        }
        lemma_throttle_run(front);
        let k = run.len() - 2;
        assert(throttled(run[k], run[k + 1]));
        let (p, e, t) = choose|p: Option<u64>, e: u128, s: u128| #[trigger] stepped(run[k], run[k + 1], p, e, s);
        assert(stepped(run[k], run[k + 1], p, e, t));
    }
}

} // verus!
