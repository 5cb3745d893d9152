//! Expiry descriptors. Instants and spans are nanoseconds.

use vstd::prelude::*;

verus! {

/// Nanoseconds in one second.
pub const NANOS_PER_SECOND: u128 = 1_000_000_000;

/// The instant `duration` nanoseconds after `now`, or the last instant
/// that a `u128` can name where the sum passes it.
pub open spec fn deadline(now: u128, duration: u128) -> u128 {
    if now + duration > u128::MAX {
        u128::MAX
    } else {
        (now + duration) as u128
    }
}

/// When an entry expires. Instants are nanoseconds on a monotonic clock,
/// durations are nanoseconds.
#[derive(Debug, Clone, Copy, PartialEq, Eq, Structural)]
pub struct Ttl {
    /// The instant from which the entry counts as expired.
    pub expires_at: u128,
    /// Whether a read of the entry moves the expiry.
    pub sliding: bool,
    /// The span that the expiry was set with.
    pub duration: u128,
}

impl Ttl {
    /// Whether the expiry has come at `now`.
    pub open spec fn expired_at(self, now: u128) -> bool {
        now >= self.expires_at
    }

    /// The descriptor after a read at `now`: moved if it slides, else unchanged.
    pub open spec fn reset_at(self, now: u128) -> Ttl {
        if self.sliding {
            Ttl { expires_at: deadline(now, self.duration), sliding: true, duration: self.duration }
        } else {
            self
        }
    }

    /// Nanoseconds left at `now`, if any.
    pub open spec fn remaining_at(self, now: u128) -> Option<u128> {
        if now >= self.expires_at {
            None
        } else {
            Some((self.expires_at - now) as u128)
        }
    }

    /// An expiry `duration` after `now` that reads do not move.
    pub fn new(duration: u128, now: u128) -> (t: Ttl)
        ensures
            t == (Ttl { expires_at: deadline(now, duration), sliding: false, duration }),
    {
        Ttl { expires_at: now.saturating_add(duration), sliding: false, duration }
    }

    /// An expiry `duration` after `now` that every read moves.
    pub fn sliding(duration: u128, now: u128) -> (t: Ttl)
        ensures
            t == (Ttl { expires_at: deadline(now, duration), sliding: true, duration }),
    {
        Ttl { expires_at: now.saturating_add(duration), sliding: true, duration }
    }

    /// Whether the expiry has come at `now`.
    pub fn is_expired(&self, now: u128) -> (b: bool)
        ensures
            b == self.expired_at(now),
    {
        now >= self.expires_at
    }

    /// Moves a sliding expiry to `duration` after `now`; leaves another unchanged.
    pub fn reset(&mut self, now: u128)
        ensures
            *final(self) == old(self).reset_at(now),
    {
        if self.sliding {
            self.expires_at = now.saturating_add(self.duration);
        }
    }

    /// Nanoseconds left at `now`; `None` once expired.
    pub fn remaining(&self, now: u128) -> (r: Option<u128>)
        ensures
            r == self.remaining_at(now),
    {
        if now >= self.expires_at {
            None
        } else {
            Some(self.expires_at - now)
        }
    }
}

/// Whether an optional expiry has come at `now`: an entry without one never expires.
pub open spec fn lapsed(ttl: Option<Ttl>, now: u128) -> bool {
    match ttl {
        Some(t) => t.expired_at(now),
        None => false,
    }
}

} // verus!
