//! The wall-clock readings the batching, rate-limiting and timeout logic
//! depends on. Each reading is a trusted call into `std::time`; the logic
//! that consumes a reading takes it as a plain number of nanoseconds.

use std::time::{Duration, Instant};
use vstd::prelude::*;

verus! {

#[verifier::external_type_specification]
#[verifier::external_body]
pub struct ExInstant(Instant);

/// Trusted: `Instant::now`; nothing is claimed of the reading.
#[verifier::external_body]
pub(crate) fn now() -> Instant {
    Instant::now()
}

/// Trusted: `Instant::elapsed`, the time since `t`; depends on the clock,
/// so nothing is claimed of it.
#[verifier::external_body]
pub(crate) fn elapsed(t: &Instant) -> Duration {
    t.elapsed()
}

/// The number of whole nanoseconds in a duration read off the clock.
///
/// Trusted: `Duration::as_nanos`; the duration is opaque here, so nothing is
/// claimed of the number. It is only applied to clock readings, whose value
/// no contract states; configured limits are held as nanoseconds.
#[verifier::external_body]
pub(crate) fn nanos(d: &Duration) -> u128 {
    d.as_nanos()
}

} // verus!
