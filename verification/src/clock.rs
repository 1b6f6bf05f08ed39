//! Frame pacing: the decision half of the tick-rate cap.
//!
//! The clock never sleeps or reads the time itself; the host hands it the
//! current monotonic time in nanoseconds and performs the sleep the clock
//! asks for, repeating until the clock commits the tick.

use vstd::prelude::*;

verus! {

/// Prevents the application from taking up the whole thread: paces ticks to
/// a target duration.
pub struct Clock {
    last_time: u64,
    /// Ticks committed so far.
    pub ticks: u64,
}

impl Clock {
    /// The instant (in nanoseconds) the last tick was committed at.
    pub closed spec fn spec_last_time(&self) -> u64 {
        self.last_time
    }

    /// Ticks committed so far, as stated in contracts.
    pub closed spec fn spec_ticks(&self) -> u64 {
        self.ticks
    }

    /// A clock that saw its last tick `now`.
    pub fn new(now: u64) -> (r: Clock)
        ensures
            r.spec_last_time() == now,
            r.spec_ticks() == 0,
    {
        Clock { last_time: now, ticks: 0 }
    }

    /// One pacing decision at time `now` against a target tick duration:
    /// if the tick is early the clock stays untouched and asks the host to
    /// sleep for the remainder; otherwise it commits the tick. The host
    /// calls this in a loop, sleeping as told, until the tick commits.
    pub fn tick(&mut self, now: u64, target: u64) -> (r: Option<u64>)
        requires
            old(self).spec_last_time() <= now,
            old(self).spec_ticks() < u64::MAX,
        ensures
            now - old(self).spec_last_time() < target ==> {
                &&& r == Some((target - (now - old(self).spec_last_time())) as u64)
                &&& *final(self) == *old(self)
            },
            now - old(self).spec_last_time() >= target ==> {
                &&& r == Option::<u64>::None
                &&& final(self).spec_last_time() == now
                &&& final(self).spec_ticks() == old(self).spec_ticks() + 1
            },
    {
        let since = now - self.last_time;
        if since < target {
            Some(target - since)
        } else {
            self.last_time = now;
            self.ticks = self.ticks + 1;
            None
        }
    }
}

} // verus!
