use crate::errors::TimerError;
use vstd::prelude::*;

verus! {

/// The lifecycle of a registered timer. A timer starts `Pending`; firing and
/// cancellation are the two terminal states, and exactly one of them can ever
/// be reached for a given entry.
#[derive(Clone, Copy, Debug, PartialEq, Eq, Structural)]
pub enum TimerState {
    /// Registered and waiting for its deadline.
    Pending,
    /// Matured: its wake handle has been delivered exactly once.
    Fired,
    /// Deregistered before it matured; it will never fire.
    Cancelled,
}

/// One registered timer. Entries are owned by the registry; a client holds
/// only the entry's id (its index in the registry's table).
#[derive(Clone, Copy, Debug, PartialEq, Eq, Structural)]
pub struct TimerEntry {
    /// Absolute virtual time at which the timer becomes eligible to fire.
    pub deadline: u64,
    /// Opaque wake token handed back to the driver when the timer fires; the
    /// driver maps it to whatever task-wakeup mechanism it uses.
    pub wake: u64,
    /// Where the entry stands in its lifecycle.
    pub state: TimerState,
}

/// A timer is due once it is still pending and virtual time has reached its
/// deadline.
pub open spec fn entry_due(e: TimerEntry, now: u64) -> bool {
    e.state is Pending && e.deadline <= now
}

/// The timer with id `i` in table `s` is due at time `now`.
pub open spec fn due_at(s: Seq<TimerEntry>, now: u64, i: int) -> bool {
    0 <= i < s.len() && entry_due(s[i], now)
}

/// The timer with id `i` in table `s` is still pending.
pub open spec fn pending_at(s: Seq<TimerEntry>, i: int) -> bool {
    0 <= i < s.len() && s[i].state is Pending
}

/// The firing priority of table `s`: the timer with id `a` fires strictly
/// before the timer with id `b` when its deadline is earlier, or when the
/// deadlines are equal and `a` was registered first. Ids are assigned
/// monotonically, so the id order is the registration order.
pub open spec fn fires_before(s: Seq<TimerEntry>, a: int, b: int) -> bool {
    s[a].deadline < s[b].deadline || (s[a].deadline == s[b].deadline && a < b)
}

/// `f` is the firing order of table `s` at time `now`: it lists exactly the
/// ids that are due, each once, sorted by deadline with ties in registration
/// order. There is exactly one such sequence for a given table and time,
/// which is what makes firing deterministic.
pub open spec fn is_firing_order(s: Seq<TimerEntry>, now: u64, f: Seq<usize>) -> bool {
    &&& forall|i: int| #[trigger] due_at(s, now, i) ==> f.contains(i as usize)
    &&& forall|k: int| 0 <= k < f.len() ==> due_at(s, now, #[trigger] f[k] as int)
    &&& forall|k1: int, k2: int|
        0 <= k1 < k2 < f.len() ==> fires_before(s, #[trigger] f[k1] as int, #[trigger] f[k2] as int)
}

/// The table `s` after a firing step at time `now`: every due entry has
/// moved to `Fired`, keeping its deadline and wake token; every other entry
/// is untouched.
pub open spec fn fired_table(s: Seq<TimerEntry>, now: u64) -> Seq<TimerEntry> {
    Seq::new(
        s.len(),
        |i: int|
            if entry_due(s[i], now) {
                TimerEntry { deadline: s[i].deadline, wake: s[i].wake, state: TimerState::Fired }
            } else {
                s[i]
            },
    )
}

/// The pending-timer registry: a table of entries indexed by id. Ids are
/// assigned monotonically (an entry's id is its index) and entries are never
/// reclaimed within a registry's lifetime, so an id stays valid as a weak
/// reference even after its timer has fired or been cancelled.
pub struct Registry {
    entries: Vec<TimerEntry>,
}

impl Registry {
    /// The table of entries, as specifications see it.
    pub closed spec fn table(self) -> Seq<TimerEntry> {
        self.entries@
    }

    /// A fresh registry holds no timers.
    pub fn new() -> (r: Registry)
        ensures
            r.table() == Seq::<TimerEntry>::empty(),
    {
        let entries: Vec<TimerEntry> = Vec::new();
        proof {
            assert(entries@ =~= Seq::<TimerEntry>::empty());
        }
        Registry { entries }
    }

    /// How many ids have been handed out so far.
    pub fn len(&self) -> (n: usize)
        ensures
            n == self.table().len(),
    {
        self.entries.len()
    }

    /// Read the entry behind an id.
    pub fn get(&self, id: usize) -> (e: Option<TimerEntry>)
        ensures
            id < self.table().len() ==> e == Some(self.table()[id as int]),
            id >= self.table().len() ==> e is None,
    {
        if id < self.entries.len() {
            Some(self.entries[id])
        } else {
            None
        }
    }

    /// Register a timer that becomes eligible to fire at `deadline` and, when
    /// it does, hands `wake` back to the driver. Returns the new timer's id.
    /// A deadline already in the past is not an error: the timer is simply
    /// due on the very next firing step.
    pub fn register(&mut self, deadline: u64, wake: u64) -> (id: usize)
        ensures
            id == old(self).table().len(),
            final(self).table() == old(self).table().push(
                (TimerEntry { deadline, wake, state: TimerState::Pending }),
            ),
    {
        let id = self.entries.len();
        self.entries.push(TimerEntry { deadline, wake, state: TimerState::Pending });
        id
    }

    /// Deregister the timer with id `id`. Cancellation is idempotent: only a
    /// pending timer changes state; cancelling an already-fired, already-
    /// cancelled or unknown id is a no-op, not an error, which is what makes
    /// a cancel racing a fire safe.
    pub fn cancel(&mut self, id: usize)
        ensures
            pending_at(old(self).table(), id as int) ==> final(self).table() == old(
                self,
            ).table().update(
                id as int,
                (TimerEntry {
                    deadline: old(self).table()[id as int].deadline,
                    wake: old(self).table()[id as int].wake,
                    state: TimerState::Cancelled,
                }),
            ),
            !pending_at(old(self).table(), id as int) ==> final(self).table() == old(self).table(),
    {
        if id < self.entries.len() {
            let e = self.entries[id];
            if e.state == TimerState::Pending {
                self.entries[id] = TimerEntry {
                    deadline: e.deadline,
                    wake: e.wake,
                    state: TimerState::Cancelled,
                };
            }
        }
        proof {
            if !pending_at(old(self).table(), id as int) {
                assert(final(self).table() =~= old(self).table());
            }
        }
    }

    /// Move the pending timer `id` to a new deadline, keeping its id and wake
    /// token: equivalent to cancel-plus-register without handing out a new
    /// id. Fails with `UnknownTimer` when `id` is not pending, and then
    /// changes nothing.
    pub fn reset(&mut self, id: usize, new_deadline: u64) -> (r: Result<(), TimerError>)
        ensures
            pending_at(old(self).table(), id as int) ==> r == Ok::<(), TimerError>(())
                && final(self).table() == old(self).table().update(
                id as int,
                (TimerEntry {
                    deadline: new_deadline,
                    wake: old(self).table()[id as int].wake,
                    state: TimerState::Pending,
                }),
            ),
            !pending_at(old(self).table(), id as int) ==> r == Err::<(), TimerError>(
                TimerError::UnknownTimer,
            ) && final(self).table() == old(self).table(),
    {
        if id < self.entries.len() {
            let e = self.entries[id];
            if e.state == TimerState::Pending {
                self.entries[id] = TimerEntry {
                    deadline: new_deadline,
                    wake: e.wake,
                    state: TimerState::Pending,
                };
                return Ok(());
            }
        }
        proof {
            assert(final(self).table() =~= old(self).table());
        }
        Err(TimerError::UnknownTimer)
    }

    /// The earliest pending deadline, or `None` when no timer is pending.
    /// The driver uses this to know how far it may advance virtual time in
    /// one jump without skipping over a timer.
    pub fn peek_next_deadline(&self) -> (r: Option<u64>)
        ensures
            match r {
                Option::None => forall|i: int| !pending_at(self.table(), i),
                Option::Some(d) => {
                    &&& exists|i: int| pending_at(self.table(), i) && #[trigger] self.table()[i].deadline == d
                    &&& forall|i: int| #[trigger] pending_at(self.table(), i) ==> d <= self.table()[i].deadline
                },
            },
    {
        let mut best: Option<u64> = None;
        let mut idx: usize = 0;
        while idx < self.entries.len()
            invariant
                idx <= self.table().len(),
                match best {
                    Option::None => forall|i: int| i < idx ==> !pending_at(self.table(), i),
                    Option::Some(d) => {
                        &&& exists|i: int|
                            pending_at(self.table(), i) && #[trigger] self.table()[i].deadline == d
                        &&& forall|i: int|
                            i < idx && #[trigger] pending_at(self.table(), i) ==> d <= self.table()[i].deadline
                    },
                },
            decreases self.table().len() - idx,
        {
            let e = self.entries[idx];
            if e.state == TimerState::Pending {
                match best {
                    Option::None => { best = Some(e.deadline); },
                    Option::Some(d) => {
                        if e.deadline < d {
                            best = Some(e.deadline);
                        }
                    },
                }
            }
            idx += 1;
        }
        best
    }

    /// The due timer that fires next: the pending entry with deadline
    /// reached whose `(deadline, id)` pair is smallest, or `None` when no
    /// timer is due at `now`.
    fn min_due_index(&self, now: u64) -> (r: Option<usize>)
        ensures
            match r {
                Option::None => forall|i: int| !due_at(self.table(), now, i),
                Option::Some(b) => {
                    &&& due_at(self.table(), now, b as int)
                    &&& forall|j: int|
                        #[trigger] due_at(self.table(), now, j) && j != b ==> fires_before(
                            self.table(),
                            b as int,
                            j,
                        )
                },
            },
    {
        let mut best: Option<usize> = None;
        let mut idx: usize = 0;
        while idx < self.entries.len()
            invariant
                idx <= self.table().len(),
                match best {
                    Option::None => forall|i: int| i < idx ==> !due_at(self.table(), now, i),
                    Option::Some(b) => {
                        &&& due_at(self.table(), now, b as int)
                        &&& b < idx
                        &&& forall|j: int|
                            j < idx && #[trigger] due_at(self.table(), now, j) && j != b
                                ==> fires_before(self.table(), b as int, j)
                    },
                },
            decreases self.table().len() - idx,
        {
            let e = self.entries[idx];
            if e.state == TimerState::Pending && e.deadline <= now {
                match best {
                    Option::None => { best = Some(idx); },
                    Option::Some(b) => {
                        if e.deadline < self.entries[b].deadline {
                            best = Some(idx);
                        }
                    },
                }
            }
            idx += 1;
        }
        best
    }

    /// Fire every due timer: each pending entry whose deadline has been
    /// reached moves to `Fired`, and their ids come back in firing order —
    /// non-decreasing deadline, ties in registration order. The caller (the
    /// driver) delivers each fired timer's wake token exactly once; a timer
    /// never fires twice because `Fired` is terminal.
    pub fn fire_due(&mut self, now: u64) -> (fired: Vec<usize>)
        ensures
            final(self).table() == fired_table(old(self).table(), now),
            is_firing_order(old(self).table(), now, fired@),
    {
        let ghost s0 = self.entries@;
        proof {
            assert(s0.len() == self.entries.len());
        }
        let mut fired: Vec<usize> = Vec::new();
        let mut next = self.min_due_index(now);
        while next.is_some()
            invariant
                s0.len() <= usize::MAX,
                self.table().len() == s0.len(),
                forall|k: int|
                    0 <= k < fired@.len() ==> due_at(s0, now, #[trigger] fired@[k] as int),
                forall|k1: int, k2: int|
                    0 <= k1 < k2 < fired@.len() ==> fires_before(
                        s0,
                        #[trigger] fired@[k1] as int,
                        #[trigger] fired@[k2] as int,
                    ),
                forall|i: int|
                    0 <= i < s0.len() ==> #[trigger] self.table()[i] == (
                    if fired@.contains(i as usize) {
                        TimerEntry {
                            deadline: s0[i].deadline,
                            wake: s0[i].wake,
                            state: TimerState::Fired,
                        }
                    } else {
                        s0[i]
                    }),
                forall|k: int, j: int|
                    #![trigger fired@[k], due_at(self.table(), now, j)]
                    0 <= k < fired@.len() && due_at(self.table(), now, j) ==> fires_before(
                        s0,
                        fired@[k] as int,
                        j,
                    ),
                match next {
                    Option::None => forall|i: int| !due_at(self.table(), now, i),
                    Option::Some(b) => {
                        &&& due_at(self.table(), now, b as int)
                        &&& forall|j: int|
                            #[trigger] due_at(self.table(), now, j) && j != b ==> fires_before(
                                self.table(),
                                b as int,
                                j,
                            )
                    },
                },
            decreases count_due(self.table(), now),
        {
            let ghost pre = self.entries@;
            let ghost fired_pre = fired@;
            let i = next.unwrap();
            let e = self.entries[i];
            self.entries[i] = TimerEntry {
                deadline: e.deadline,
                wake: e.wake,
                state: TimerState::Fired,
            };
            fired.push(i);
            proof {
                let fe = TimerEntry { deadline: e.deadline, wake: e.wake, state: TimerState::Fired };
                lemma_count_due_update(pre, now, i as int, fe);
                assert(fired@ == fired_pre.push(i));
                assert(fired@[fired_pre.len() as int] == i);
                assert(fired@.contains(i));
                assert forall|x: usize| #[trigger] fired@.contains(x) implies (fired_pre.contains(
                    x,
                ) || x == i) by {
                    let k = choose|k: int| 0 <= k < fired@.len() && fired@[k] == x;
                    if k < fired_pre.len() {
                        assert(fired_pre[k] == x);
                    }
                };
                assert forall|x: usize| fired_pre.contains(x) implies #[trigger] fired@.contains(
                    x,
                ) by {
                    let k = choose|k: int| 0 <= k < fired_pre.len() && fired_pre[k] == x;
                    assert(fired@[k] == x);
                };
                assert(due_at(pre, now, i as int));
                assert(!fired_pre.contains(i));
                assert(pre[i as int] == s0[i as int]);
                assert(self.entries@ == pre.update(i as int, fe));
                assert forall|j: int| #[trigger] due_at(self.entries@, now, j) implies due_at(
                    pre,
                    now,
                    j,
                ) && j != i by {
                    assert(self.entries@[j] == pre[j] || j == i as int);
                };
                assert forall|a: int, b: int|
                    0 <= a < s0.len() && 0 <= b < s0.len() implies (fires_before(pre, a, b)
                    == fires_before(s0, a, b)) by {
                    assert(pre[a].deadline == s0[a].deadline);
                    assert(pre[b].deadline == s0[b].deadline);
                };
                assert forall|j: int| 0 <= j < s0.len() implies #[trigger] self.table()[j] == (
                if fired@.contains(j as usize) {
                    TimerEntry { deadline: s0[j].deadline, wake: s0[j].wake, state: TimerState::Fired }
                } else {
                    s0[j]
                }) by {
                    if j == i as int {
                        assert(self.table()[j] == fe);
                        assert(fired@.contains(j as usize));
                    } else {
                        assert(self.table()[j] == pre[j]);
                        assert(j as usize != i);
                        assert(fired@.contains(j as usize) == fired_pre.contains(j as usize));
                    }
                };
            }
            next = self.min_due_index(now);
        }
        proof {
            assert forall|i: int| due_at(s0, now, i) implies #[trigger] fired@.contains(
                i as usize,
            ) by {
                if !fired@.contains(i as usize) {
                    assert(self.table()[i] == s0[i]);
                    assert(due_at(self.table(), now, i));
                }
            };
            assert forall|i: int|
                0 <= i < s0.len() && !entry_due(s0[i], now) implies !fired@.contains(
                i as usize,
            ) by {
                if fired@.contains(i as usize) {
                    let k = choose|k: int| 0 <= k < fired@.len() && fired@[k] == i as usize;
                    assert(due_at(s0, now, fired@[k] as int));
                }
            };
            assert(self.entries@ =~= fired_table(s0, now));
        }
        fired
    }
}

/// How many timers in table `s` are due at time `now`: the measure that
/// shrinks as `fire_due` retires them one by one.
pub open spec fn count_due(s: Seq<TimerEntry>, now: u64) -> nat
    decreases s.len(),
{
    if s.len() == 0 {
        0
    } else {
        count_due(s.drop_last(), now) + (if entry_due(s.last(), now) {
            1nat
        } else {
            0nat
        })
    }
}

/// Law: a pending timer is woken by a firing step exactly when virtual time
/// has reached its deadline — a delay registered at time `t` with duration
/// `d` holds deadline `t + d`, so it fires on the first firing step at or
/// after `t + d` and never on an earlier one.
pub proof fn lemma_fires_exactly_at_deadline(
    s: Seq<TimerEntry>,
    now: u64,
    f: Seq<usize>,
    id: usize,
)
    requires
        is_firing_order(s, now, f),
        pending_at(s, id as int),
    ensures
        f.contains(id) <==> s[id as int].deadline <= now,
{
    if s[id as int].deadline <= now {
        assert(due_at(s, now, id as int));
        assert(f.contains((id as int) as usize));
    }
    if f.contains(id) {
        let k = choose|k: int| 0 <= k < f.len() && f[k] == id;
        assert(due_at(s, now, f[k] as int));
    }
}

/// Law: wakes are delivered at most once — a timer already in a terminal
/// state (fired or cancelled) is in no firing order. A cancel racing a fire
/// therefore ends in exactly one of the two terminal states, and a timer
/// that fired once never wakes its task a second time.
pub proof fn lemma_terminal_never_fires(s: Seq<TimerEntry>, now: u64, f: Seq<usize>, id: usize)
    requires
        is_firing_order(s, now, f),
        id < s.len(),
        !(s[id as int].state is Pending),
    ensures
        !f.contains(id),
{
    if f.contains(id) {
        let k = choose|k: int| 0 <= k < f.len() && f[k] == id;
        assert(due_at(s, now, f[k] as int));
    }
}

/// Law: a reset discards the old deadline — once the registry holds the
/// replacement entry, whether the timer is due depends on the new deadline
/// alone, whatever deadline the replaced entry carried.
pub proof fn lemma_reset_discards_old_deadline(
    s: Seq<TimerEntry>,
    id: usize,
    e: TimerEntry,
    now: u64,
)
    requires
        id < s.len(),
        e.state is Pending,
    ensures
        due_at(s.update(id as int, e), now, id as int) <==> e.deadline <= now,
{
}

/// Law: completion is stable — a timer that has fired stays fired through
/// every later firing step, so a delay that reported completion never
/// reverts to pending.
pub proof fn lemma_fired_entry_stays_fired(s: Seq<TimerEntry>, now: u64, id: usize)
    requires
        id < s.len(),
        s[id as int].state is Fired,
    ensures
        fired_table(s, now)[id as int] == s[id as int],
{
}

/// Law: a firing step is complete — it leaves no due timer behind, so
/// repeating the step at the same time fires nothing. Together with
/// `lemma_terminal_never_fires` this is the driver's guarantee of no missed
/// and no duplicated firings, however often it is invoked.
pub proof fn lemma_firing_step_is_complete(s: Seq<TimerEntry>, now: u64, f: Seq<usize>)
    requires
        is_firing_order(fired_table(s, now), now, f),
    ensures
        f =~= Seq::<usize>::empty(),
{
    if f.len() > 0 {
        let i = f[0] as int;
        assert(due_at(fired_table(s, now), now, i));
        assert(!entry_due(fired_table(s, now)[i], now));
        assert(false);
    }
}

/// Two sequences of ids that are strictly sorted by the firing priority of
/// the same table and contain the same ids are the same sequence.
proof fn lemma_strictly_sorted_same_members(s: Seq<TimerEntry>, f1: Seq<usize>, f2: Seq<usize>)
    requires
        forall|k1: int, k2: int|
            0 <= k1 < k2 < f1.len() ==> fires_before(
                s,
                #[trigger] f1[k1] as int,
                #[trigger] f1[k2] as int,
            ),
        forall|k1: int, k2: int|
            0 <= k1 < k2 < f2.len() ==> fires_before(
                s,
                #[trigger] f2[k1] as int,
                #[trigger] f2[k2] as int,
            ),
        forall|x: usize| #![trigger f1.contains(x)] #![trigger f2.contains(x)]
            f1.contains(x) <==> f2.contains(x),
    ensures
        f1 =~= f2,
    decreases f1.len(),
{
    if f1.len() == 0 {
        if f2.len() > 0 {
            assert(f2.contains(f2[0]));
            let k = choose|k: int| 0 <= k < f1.len() && f1[k] == f2[0];
            assert(false);
        }
    } else if f2.len() == 0 {
        assert(f1.contains(f1[0]));
        let k = choose|k: int| 0 <= k < f2.len() && f2[k] == f1[0];
        assert(false);
    } else {
        assert(f1.contains(f1[0]));
        assert(f2.contains(f1[0]));
        let k2 = choose|k: int| 0 <= k < f2.len() && f2[k] == f1[0];
        assert(f2.contains(f2[0]));
        assert(f1.contains(f2[0]));
        let k1 = choose|k: int| 0 <= k < f1.len() && f1[k] == f2[0];
        if f1[0] != f2[0] {
            assert(k2 != 0);
            assert(fires_before(s, f2[0] as int, f2[k2] as int));
            assert(k1 != 0);
            assert(fires_before(s, f1[0] as int, f1[k1] as int));
            assert(false);
        }
        let t1 = f1.drop_first();
        let t2 = f2.drop_first();
        assert forall|x: usize| t1.contains(x) implies t2.contains(x) by {
            let k = choose|k: int| 0 <= k < t1.len() && t1[k] == x;
            assert(f1[k + 1] == x);
            assert(fires_before(s, f1[0] as int, f1[k + 1] as int));
            assert(f1.contains(x));
            assert(f2.contains(x));
            let m = choose|m: int| 0 <= m < f2.len() && f2[m] == x;
            assert(m != 0);
            assert(t2[m - 1] == x);
            assert(t2.contains(x));
        };
        assert forall|x: usize| t2.contains(x) implies t1.contains(x) by {
            let k = choose|k: int| 0 <= k < t2.len() && t2[k] == x;
            assert(f2[k + 1] == x);
            assert(fires_before(s, f2[0] as int, f2[k + 1] as int));
            assert(f2.contains(x));
            assert(f1.contains(x));
            let m = choose|m: int| 0 <= m < f1.len() && f1[m] == x;
            assert(m != 0);
            assert(t1[m - 1] == x);
            assert(t1.contains(x));
        };
        assert forall|a: int, b: int| 0 <= a < b < t1.len() implies fires_before(
            s,
            t1[a] as int,
            t1[b] as int,
        ) by {
            assert(t1[a] == f1[a + 1]);
            assert(t1[b] == f1[b + 1]);
            assert(fires_before(s, f1[a + 1] as int, f1[b + 1] as int));
        };
        assert forall|a: int, b: int| 0 <= a < b < t2.len() implies fires_before(
            s,
            t2[a] as int,
            t2[b] as int,
        ) by {
            assert(t2[a] == f2[a + 1]);
            assert(t2[b] == f2[b + 1]);
            assert(fires_before(s, f2[a + 1] as int, f2[b + 1] as int));
        };
        lemma_strictly_sorted_same_members(s, t1, t2);
        assert forall|k: int| 0 <= k < f1.len() implies f1[k] == f2[k] by {
            if k != 0 {
                assert(t1[k - 1] == t2[k - 1]);
                assert(f1[k] == t1[k - 1]);
                assert(f2[k] == t2[k - 1]);
            }
        };
    }
}

/// Law: firing is deterministic — a table and a time admit exactly one
/// firing order, so replaying a simulation wakes the same timers in the
/// same order every run.
pub proof fn lemma_firing_order_deterministic(
    s: Seq<TimerEntry>,
    now: u64,
    f1: Seq<usize>,
    f2: Seq<usize>,
)
    requires
        is_firing_order(s, now, f1),
        is_firing_order(s, now, f2),
    ensures
        f1 == f2,
{
    assert forall|x: usize| f1.contains(x) implies f2.contains(x) by {
        let k = choose|k: int| 0 <= k < f1.len() && f1[k] == x;
        assert(due_at(s, now, f1[k] as int));
        assert(f2.contains((f1[k] as int) as usize));
    };
    assert forall|x: usize| f2.contains(x) implies f1.contains(x) by {
        let k = choose|k: int| 0 <= k < f2.len() && f2[k] == x;
        assert(due_at(s, now, f2[k] as int));
        assert(f1.contains((f2[k] as int) as usize));
    };
    lemma_strictly_sorted_same_members(s, f1, f2);
    assert(f1 =~= f2);
}

/// Replacing a due entry by one that is not due strictly shrinks the count
/// of due timers.
proof fn lemma_count_due_update(s: Seq<TimerEntry>, now: u64, i: int, e: TimerEntry)
    requires
        0 <= i < s.len(),
        entry_due(s[i], now),
        !entry_due(e, now),
    ensures
        count_due(s.update(i, e), now) < count_due(s, now),
    decreases s.len(),
{
    let t = s.update(i, e);
    if i == s.len() - 1 {
        assert(t.drop_last() =~= s.drop_last());
        assert(t.last() == e);
    } else {
        assert(t.drop_last() =~= s.drop_last().update(i, e));
        assert(t.last() == s.last());
        lemma_count_due_update(s.drop_last(), now, i, e);
    }
}

} // verus!
