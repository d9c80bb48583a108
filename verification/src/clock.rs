//! A monotonic clock that reads as a number of nanoseconds.

use std::time::{Duration, Instant};
use vstd::prelude::*;

verus! {

/// `std::time::Instant`, a reading of the monotonic clock.
#[verifier::external_type_specification]
#[verifier::external_body]
pub struct ExInstant(std::time::Instant);

/// The length of a `Duration` in nanoseconds.
pub uninterp spec fn nanos_of(duration: Duration) -> u128;

/// `Instant::now` reads the monotonic clock. Nothing is said of the reading.
pub assume_specification[ Instant::now ]() -> (now: Instant)
;

/// `Instant::elapsed` measures the time since a reading. Nothing is said of
/// the length.
pub assume_specification[ Instant::elapsed ](since: &Instant) -> (length: Duration)
;

/// `Duration::as_nanos` gives the length of a duration in nanoseconds.
pub assume_specification[ Duration::as_nanos ](duration: &Duration) -> (nanos: u128)
    ensures
        nanos == nanos_of(*duration),
;

/// A clock that reads the nanoseconds since it was started.
#[derive(Debug)]
pub struct Clock {
    origin: Instant,
}

impl Clock {
    /// The clock's origin is a reading of `Instant::now`.
    pub closed spec fn started(&self) -> bool {
        call_ensures(Instant::now, (), self.origin)
    }

    /// The clock can read `nanos`: that many nanoseconds are what
    /// `Instant::elapsed` can measure since the clock's origin.
    pub closed spec fn can_read(&self, nanos: u128) -> bool {
        exists|length: Duration| #[trigger]
            call_ensures(Instant::elapsed, (&self.origin,), length) && nanos == nanos_of(length)
    }

    /// A clock that starts now.
    pub fn start() -> (clock: Self)
        ensures
            clock.started(),
    {
        let origin = Instant::now();
        Clock { origin }
    }

    /// The nanoseconds since the clock was started. Which of the lengths that can
    /// be measured it is, depends on when the clock is asked.
    pub fn read(&self) -> (nanos: u128)
        ensures
            self.can_read(nanos),
    {
        let length = self.origin.elapsed();
        length.as_nanos()
    }
}

/// The time from `earlier` to `later`, and none where `later` comes first.
pub open spec fn time_between(earlier: int, later: int) -> int {
    if earlier <= later {
        later - earlier
    } else {
        0
    }
}

/// The time from `earlier` to `later`, and none where `later` comes first.
pub fn nanos_between(earlier: u128, later: u128) -> (nanos: u128)
    ensures
        nanos == time_between(earlier as int, later as int),
{
    if earlier <= later {
        later - earlier
    } else {
        0
    }
}

} // verus!
