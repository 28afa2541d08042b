use vstd::prelude::*;

verus! {

/// Paces a loop to one turn each `target_delta_time`. Times are nanoseconds on
/// the caller's clock.
#[derive(Debug, Clone, Copy, PartialEq, Eq, Structural)]
pub struct Sleeper {
    pub target_delta_time: u64,
    pub last_instant: Option<u64>,
}

/// The time from `earlier` to `later`; none if `later` is not later.
pub open spec fn elapsed(earlier: u64, later: u64) -> int {
    if later >= earlier {
        later - earlier
    } else {
        0
    }
}

impl Sleeper {
    /// Whether, at `now`, the last turn lies less than the target time back.
    /// Before the first turn that is never so.
    pub open spec fn on_time(&self, now: u64) -> bool {
        match self.last_instant {
            Some(last_instant) => self.target_delta_time > elapsed(last_instant, now),
            None => false,
        }
    }

    /// A sleeper that has not taken a turn yet.
    pub fn new(target_delta_time: u64) -> (sleeper: Sleeper)
        ensures
            sleeper.target_delta_time == target_delta_time,
            sleeper.last_instant is None,
    {
        Sleeper { target_delta_time, last_instant: None }
    }

    /// Takes a turn at `this_instant` and tells how long to sleep before the
    /// next, if at all. `now` is the clock read again after the turn was
    /// taken: there is time to sleep only if the turn was taken on time.
    pub fn sleep(&mut self, this_instant: u64, now: u64) -> (remaining: Option<u64>)
        ensures
            final(self).target_delta_time == old(self).target_delta_time,
            final(self).last_instant == Some(this_instant),
            remaining == if old(self).target_delta_time > elapsed(this_instant, now) && old(
                self,
            ).target_delta_time > 0 {
                Some(old(self).target_delta_time)
            } else {
                None
            },
    {
        self.last_instant = Some(this_instant);
        let remaining = if !self.in_time(now) {
            None
        } else {
            // The turn was taken just now, so no time of it is used up.
            let delta_time: u64 = 0;
            if self.target_delta_time > delta_time {
                Some(self.target_delta_time - delta_time)
            } else {
                None
            }
        };
        self.last_instant = Some(this_instant);
        remaining
    }

    /// Whether, at `now`, the last turn lies less than the target time back.
    pub fn in_time(&self, now: u64) -> (on_time: bool)
        ensures
            on_time == self.on_time(now),
    {
        match self.last_instant {
            Some(last_instant) => {
                let delta_time: u64 = if now >= last_instant {
                    now - last_instant
                } else {
                    0
                };
                self.target_delta_time > delta_time
            },
            // Late, if no turn was taken yet.
            None => false,
        }
    }
}

} // verus!
