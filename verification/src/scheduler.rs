use crate::clock::VirtualClock;
use crate::errors::TimerError;
use crate::registry::{fired_table, is_firing_order, pending_at, Registry, TimerEntry};
use vstd::prelude::*;

verus! {

/// One virtual timeline: the clock and the registry held together under a
/// single ordering discipline. All mutations of the shared state go through
/// one `&mut Scheduler`, which is what keeps the firing order deterministic
/// even when the surrounding executor is multi-threaded: callers serialize
/// on this value.
pub struct Scheduler {
    /// The virtual clock; only the driver advances it.
    pub clock: VirtualClock,
    /// The registry of timers, the one shared mutable structure.
    pub registry: Registry,
}

impl Scheduler {
    /// Shorthand for the current virtual time.
    pub open spec fn time(self) -> u64 {
        self.clock.time()
    }

    /// Shorthand for the registry's table of timers.
    pub open spec fn table(self) -> Seq<TimerEntry> {
        self.registry.table()
    }

    /// A fresh timeline: virtual time zero and no timers.
    pub fn new() -> (s: Scheduler)
        ensures
            s.time() == 0,
            s.table() == Seq::<TimerEntry>::empty(),
    {
        Scheduler { clock: VirtualClock::new(), registry: Registry::new() }
    }

    /// The current virtual time.
    pub fn now(&self) -> (t: u64)
        ensures
            t == self.time(),
    {
        self.clock.now()
    }

    /// Advance virtual time to `t` without firing anything; the registry is
    /// untouched. Rejected with `InvalidAdvance` when `t` lies in the past.
    pub fn advance_to(&mut self, t: u64) -> (r: Result<(), TimerError>)
        ensures
            final(self).table() == old(self).table(),
            t < old(self).time() ==> r == Err::<(), TimerError>(TimerError::InvalidAdvance)
                && final(self).time() == old(self).time(),
            t >= old(self).time() ==> r == Ok::<(), TimerError>(()) && final(self).time() == t,
    {
        self.clock.advance_to(t)
    }

    /// The earliest pending deadline, or `None` when no timer is pending:
    /// how far the driver may advance in one jump without skipping a timer.
    pub fn peek_next_deadline(&self) -> (r: Option<u64>)
        ensures
            match r {
                Option::None => forall|i: int| !pending_at(self.table(), i),
                Option::Some(d) => {
                    &&& exists|i: int|
                        pending_at(self.table(), i) && #[trigger] self.table()[i].deadline == d
                    &&& forall|i: int|
                        #[trigger] pending_at(self.table(), i) ==> d <= self.table()[i].deadline
                },
            },
    {
        self.registry.peek_next_deadline()
    }

    /// Fire every timer whose deadline has been reached at the current
    /// virtual time; their ids come back in firing order. Running this twice
    /// in a row fires nothing the second time: the first run left no due
    /// timer pending.
    pub fn fire_due(&mut self) -> (fired: Vec<usize>)
        ensures
            final(self).time() == old(self).time(),
            final(self).table() == fired_table(old(self).table(), old(self).time()),
            is_firing_order(old(self).table(), old(self).time(), fired@),
    {
        let t = self.clock.now();
        self.registry.fire_due(t)
    }

    /// One driver step: advance virtual time to `t`, then fire, in firing
    /// order, exactly the timers whose deadline has been reached — none
    /// missed, none duplicated. Rejected with `InvalidAdvance`, firing
    /// nothing, when `t` lies in the past.
    pub fn advance_and_fire(&mut self, t: u64) -> (r: Result<Vec<usize>, TimerError>)
        ensures
            t < old(self).time() ==> r == Err::<Vec<usize>, TimerError>(TimerError::InvalidAdvance)
                && final(self).time() == old(self).time() && final(self).table() == old(
                self,
            ).table(),
            t >= old(self).time() ==> final(self).time() == t && final(self).table() == fired_table(
                old(self).table(),
                t,
            ) && (r matches Ok(fired) && is_firing_order(old(self).table(), t, fired@)),
    {
        match self.clock.advance_to(t) {
            Ok(()) => Ok(self.registry.fire_due(t)),
            Err(e) => Err(e),
        }
    }
}

} // verus!
