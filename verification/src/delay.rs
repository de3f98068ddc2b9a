use crate::errors::TimerError;
use crate::registry::{pending_at, TimerEntry, TimerState};
use crate::scheduler::Scheduler;
use vstd::prelude::*;

verus! {

/// The per-caller timeout handle: a future-like value that resolves once
/// virtual time reaches its deadline. It holds only the id of its registry
/// entry — a weak reference into the scheduler's table, never the entry
/// itself, so the entry may fire behind its back and the handle simply
/// observes that on the next poll.
pub struct Delay {
    /// The id of this delay's registry entry; `None` once cancelled.
    pub timer_id: Option<usize>,
    /// The absolute virtual time this delay is waiting for.
    pub deadline: u64,
}

impl Delay {
    /// The delay's registry reference is in bounds for scheduler `s`.
    pub open spec fn wf(self, s: Scheduler) -> bool {
        match self.timer_id {
            Option::Some(id) => id < s.table().len(),
            Option::None => true,
        }
    }

    /// Create a delay that fires `dur` time units from now: it computes the
    /// absolute deadline `now + dur` and registers a pending timer carrying
    /// the wake token `wake`. A zero duration is legal: the deadline equals
    /// the current time, and the timer fires on the next driver step — never
    /// synchronously at creation, which keeps it fair with other ready work.
    pub fn new(sched: &mut Scheduler, dur: u64, wake: u64) -> (d: Delay)
        requires
            old(sched).time() + dur <= u64::MAX,
        ensures
            final(sched).time() == old(sched).time(),
            final(sched).table() == old(sched).table().push(
                (TimerEntry {
                    deadline: (old(sched).time() + dur) as u64,
                    wake,
                    state: TimerState::Pending,
                }),
            ),
            (d.timer_id matches Option::Some(id) && id == old(sched).table().len()),
            d.deadline == old(sched).time() + dur,
            d.wf(*final(sched)),
    {
        let t = sched.clock.now();
        let deadline = t + dur;
        let id = sched.registry.register(deadline, wake);
        Delay { timer_id: Some(id), deadline }
    }

    /// Poll the delay: `true` once its timer has fired, `false` while it is
    /// still pending or after cancellation. Polling reads and mutates
    /// nothing, so once a delay reports completion every later poll reports
    /// completion again — it never reverts to pending.
    pub fn poll(&self, sched: &Scheduler) -> (ready: bool)
        requires
            self.wf(*sched),
        ensures
            ready == (self.timer_id matches Option::Some(id)
                && sched.table()[id as int].state is Fired),
    {
        match self.timer_id {
            Some(id) => match sched.registry.get(id) {
                Some(e) => e.state == TimerState::Fired,
                None => false,
            },
            None => false,
        }
    }

    /// Cancel the delay, deregistering its timer so that a task which no
    /// longer waits is never woken. The registry entry moves to `Cancelled`
    /// only if it was still pending; cancelling after a fire — or twice — is
    /// a safe no-op, which is what makes a cancel racing the driver harmless.
    /// This is what dropping a pending delay must do.
    pub fn cancel(&mut self, sched: &mut Scheduler)
        ensures
            final(self).timer_id is None,
            final(self).deadline == old(self).deadline,
            final(sched).time() == old(sched).time(),
            match old(self).timer_id {
                Option::Some(id) => {
                    let tbl = old(sched).table();
                    &&& pending_at(tbl, id as int) ==> final(sched).table() == tbl.update(
                        id as int,
                        (TimerEntry {
                            deadline: tbl[id as int].deadline,
                            wake: tbl[id as int].wake,
                            state: TimerState::Cancelled,
                        }),
                    )
                    &&& !pending_at(tbl, id as int) ==> final(sched).table() == tbl
                },
                Option::None => final(sched).table() == old(sched).table(),
            },
    {
        match self.timer_id {
            Some(id) => {
                sched.registry.cancel(id);
            },
            None => {},
        }
        self.timer_id = None;
    }

    /// Re-arm the delay to fire `dur` time units from now. A pending timer
    /// moves to the new absolute deadline under its old id — the old
    /// deadline is discarded and can no longer cause a firing. A fired timer
    /// is re-registered under a fresh id and becomes pending again, keeping
    /// its wake token: rearm semantics on the same handle, not a new object.
    /// A cancelled delay is rejected with `AlreadyCancelled`.
    pub fn reset(&mut self, sched: &mut Scheduler, dur: u64) -> (r: Result<(), TimerError>)
        requires
            old(self).wf(*old(sched)),
            old(sched).time() + dur <= u64::MAX,
        ensures
            final(sched).time() == old(sched).time(),
            match old(self).timer_id {
                Option::None => r == Err::<(), TimerError>(TimerError::AlreadyCancelled)
                    && *final(self) == *old(self) && final(sched).table() == old(sched).table(),
                Option::Some(id) => {
                    let tbl = old(sched).table();
                    let dl = (old(sched).time() + dur) as u64;
                    match tbl[id as int].state {
                        TimerState::Pending => {
                            &&& r == Ok::<(), TimerError>(())
                            &&& final(self).timer_id == Option::Some(id)
                            &&& final(self).deadline == dl
                            &&& final(sched).table() == tbl.update(
                                id as int,
                                (TimerEntry {
                                    deadline: dl,
                                    wake: tbl[id as int].wake,
                                    state: TimerState::Pending,
                                }),
                            )
                        },
                        TimerState::Fired => {
                            &&& r == Ok::<(), TimerError>(())
                            &&& (final(self).timer_id matches Option::Some(nid) && nid
                                == tbl.len())
                            &&& final(self).deadline == dl
                            &&& final(sched).table() == tbl.push(
                                (TimerEntry {
                                    deadline: dl,
                                    wake: tbl[id as int].wake,
                                    state: TimerState::Pending,
                                }),
                            )
                        },
                        TimerState::Cancelled => {
                            &&& r == Err::<(), TimerError>(TimerError::AlreadyCancelled)
                            &&& *final(self) == *old(self)
                            &&& final(sched).table() == tbl
                        },
                    }
                },
            },
    {
        match self.timer_id {
            None => Err(TimerError::AlreadyCancelled),
            Some(id) => {
                let t = sched.clock.now();
                let deadline = t + dur;
                match sched.registry.get(id) {
                    None => Err(TimerError::AlreadyCancelled),
                    Some(e) => match e.state {
                        TimerState::Pending => match sched.registry.reset(id, deadline) {
                            Ok(()) => {
                                self.deadline = deadline;
                                Ok(())
                            },
                            // the entry is pending, so the registry accepts the reset
                            Err(e) => Err(e),
                        },
                        TimerState::Fired => {
                            let nid = sched.registry.register(deadline, e.wake);
                            self.timer_id = Some(nid);
                            self.deadline = deadline;
                            Ok(())
                        },
                        TimerState::Cancelled => Err(TimerError::AlreadyCancelled),
                    },
                }
            },
        }
    }
}

} // verus!
