use crate::errors::TimerError;
use vstd::prelude::*;

verus! {

/// The virtual clock: a single monotonically non-decreasing time value with
/// no wall-clock binding. Only the driver advances it, possibly by arbitrary
/// jumps, which is what lets a simulation fast-forward through idle waits.
pub struct VirtualClock {
    now: u64,
}

impl VirtualClock {
    /// The current virtual time, as specifications see it.
    pub closed spec fn time(self) -> u64 {
        self.now
    }

    /// A fresh clock starts at the epoch, virtual time zero.
    pub fn new() -> (clock: VirtualClock)
        ensures
            clock.time() == 0,
    {
        VirtualClock { now: 0 }
    }

    /// The current virtual time.
    pub fn now(&self) -> (t: u64)
        ensures
            t == self.time(),
    {
        self.now
    }

    /// Advance virtual time to `t`. Time never moves backward: an attempt to
    /// do so is rejected with `InvalidAdvance` and leaves the clock unchanged.
    pub fn advance_to(&mut self, t: u64) -> (r: Result<(), TimerError>)
        ensures
            t < old(self).time() ==> r == Err::<(), TimerError>(TimerError::InvalidAdvance)
                && final(self).time() == old(self).time(),
            t >= old(self).time() ==> r == Ok::<(), TimerError>(())
                && final(self).time() == t,
    {
        if t < self.now {
            Err(TimerError::InvalidAdvance)
        } else {
            self.now = t;
            Ok(())
        }
    }
}

} // verus!
