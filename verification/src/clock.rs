//! The monotonic clock that the cache reads. What the clock shows is the
//! one thing in this library that no contract can tell: the functions that
//! read it only say that readings do not go back.

use vstd::prelude::*;
use std::time::Duration;
use std::time::Instant;

verus! {

#[verifier::external_type_specification]
#[verifier::external_body]
pub struct ExInstant(Instant);

/// `Instant::now` of std: the present instant. Nothing is known of it.
#[verifier::external_body]
fn instant_now() -> Instant {
    Instant::now()
}

/// `Instant::elapsed` of std: the time since `origin`. Nothing is known of it.
#[verifier::external_body]
fn elapsed_since(origin: &Instant) -> Duration {
    origin.elapsed()
}

/// `Duration::as_nanos` of std: the span in nanoseconds. Nothing is stated of it.
#[verifier::external_body]
fn span_nanos(span: Duration) -> u128 {
    span.as_nanos()
}

/// A monotonic clock. A reading is the number of nanoseconds since the
/// clock was started, and no reading is earlier than the one before it.
pub struct Clock {
    origin: Instant,
    latest: u128,
}

impl Clock {
    /// The latest reading taken.
    pub closed spec fn reading(&self) -> u128 {
        self.latest
    }

    /// A clock that starts now, at reading zero.
    pub fn start() -> (clock: Clock)
        ensures
            clock.reading() == 0,
    {
        Clock { origin: instant_now(), latest: 0 }
    }

    /// Reads the clock. The reading is no earlier than the latest one.
    pub fn tick(&mut self) -> (now: u128)
        ensures
            now == final(self).reading(),
            now >= old(self).reading(),
    {
        let seen = span_nanos(elapsed_since(&self.origin));
        if seen > self.latest {
            self.latest = seen;
        }
        self.latest
    }

    /// Reads the clock and keeps no record of it. The reading is no earlier
    /// than the latest one on record.
    pub fn peek(&self) -> (now: u128)
        ensures
            now >= self.reading(),
    {
        let seen = span_nanos(elapsed_since(&self.origin));
        if seen > self.latest {
            seen
        } else {
            self.latest
        }
    }
}

} // verus!
