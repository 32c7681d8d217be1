//! Periodic timers driving ACK, NAK and expiration processing.
//!
//! A `Timer` models a cooperative periodic trigger: it fires no earlier than
//! one period after its previous fire, and is checked non-blockingly on every
//! iteration of the receiver's event loop.

use vstd::prelude::*;

verus! {

/// Largest timestamp the crate accepts, leaving headroom so that adding a
/// period to a timestamp never overflows.
pub const TIME_MAX: i64 = 0x4000_0000_0000_0000;

/// Largest timer period the crate accepts.
pub const PERIOD_MAX: i64 = 0x7fff_ffff;

/// A timestamp is a non-negative monotonic clock reading within headroom.
pub open spec fn time_valid(t: i64) -> bool {
    0 <= t <= TIME_MAX
}

/// A period is positive and bounded.
pub open spec fn period_valid(p: i64) -> bool {
    1 <= p <= PERIOD_MAX
}

/// A cooperative periodic trigger.
pub struct Timer {
    /// Current period between fires.
    pub period: i64,
    /// Earliest instant at which the timer fires next.
    pub next_fire: i64,
}

impl Timer {
    /// Structural invariant: bounded period, bounded next-fire instant.
    pub open spec fn wf(self) -> bool {
        period_valid(self.period) && 0 <= self.next_fire <= TIME_MAX + PERIOD_MAX
    }

    /// Create a timer that first fires one period after `now`.
    pub fn new(period: i64, now: i64) -> (r: Timer)
        requires
            period_valid(period),
            time_valid(now),
        ensures
            r.wf(),
            r.period == period,
            r.next_fire == now + period,
    {
        Timer { period, next_fire: now + period }
    }

    /// Non-blocking check: reports whether the timer is due at `now`, and if
    /// so re-arms it one period later, so it fires no earlier than one
    /// period after this fire.
    pub fn check_fire(&mut self, now: i64) -> (fired: bool)
        requires
            old(self).wf(),
            time_valid(now),
        ensures
            final(self).wf(),
            fired <==> now >= old(self).next_fire,
            fired ==> final(self).next_fire == now + final(self).period,
            !fired ==> *final(self) == *old(self),
            final(self).period == old(self).period,
    {
        if now >= self.next_fire {
            self.next_fire = now + self.period;
            true
        } else {
            false
        }
    }

    /// Change the period, leaving the pending fire instant alone; used to
    /// re-derive the NAK period once a round-trip-time estimate exists.
    pub fn set_period(&mut self, period: i64)
        requires
            old(self).wf(),
            period_valid(period),
        ensures
            final(self).wf(),
            final(self).period == period,
            final(self).next_fire == old(self).next_fire,
    {
        self.period = period;
    }
}

} // verus!
