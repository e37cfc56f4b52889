//! The simulation clock: remembers the previous tick's timestamp and
//! yields the elapsed duration. Timestamps are raw fixed-point seconds
//! (microseconds), supplied by the embedding application from a monotonic
//! source.

use vstd::prelude::*;

verus! {

/// Wall-clock state between ticks.
#[derive(Debug, Clone, Copy, PartialEq, Eq, Structural)]
pub struct Time {
    /// Timestamp of the previous tick (or of construction).
    pub last_updated: u64,
}

impl Time {
    /// A clock whose first delta will be measured from `now`.
    pub fn new(now: u64) -> (t: Time)
        ensures
            t.last_updated == now,
    {
        Time { last_updated: now }
    }

    /// Advance the clock and return the elapsed duration since the
    /// previous tick. Timestamps must not run backwards, so the delta is
    /// never negative.
    pub fn update_and_get_delta(&mut self, new_time: u64) -> (delta: u64)
        requires
            new_time >= old(self).last_updated,
        ensures
            delta == new_time - old(self).last_updated,
            final(self).last_updated == new_time,
    {
        let delta = new_time - self.last_updated;
        self.last_updated = new_time;
        delta
    }
}

} // verus!
