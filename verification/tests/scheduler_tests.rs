use virtual_timer::errors::TimerError;
use virtual_timer::registry::{Registry, TimerState};
use virtual_timer::scheduler::Scheduler;

#[test]
fn fresh_scheduler_starts_at_zero_with_no_timers() {
    let s = Scheduler::new();
    assert_eq!(s.now(), 0);
    assert_eq!(s.registry.len(), 0);
    assert_eq!(s.peek_next_deadline(), None);
}

#[test]
fn register_assigns_monotonic_ids() {
    let mut r = Registry::new();
    assert_eq!(r.register(5, 100), 0);
    assert_eq!(r.register(5, 101), 1);
    assert_eq!(r.register(3, 102), 2);
    assert_eq!(r.len(), 3);
    let e = r.get(2).unwrap();
    assert_eq!(e.deadline, 3);
    assert_eq!(e.wake, 102);
    assert_eq!(e.state, TimerState::Pending);
}

#[test]
fn advance_backward_is_invalid_and_leaves_time_unchanged() {
    let mut s = Scheduler::new();
    assert_eq!(s.advance_to(10), Ok(()));
    assert_eq!(s.now(), 10);
    assert_eq!(s.advance_to(9), Err(TimerError::InvalidAdvance));
    assert_eq!(s.now(), 10);
    // advancing to the current time is legal
    assert_eq!(s.advance_to(10), Ok(()));
    assert_eq!(s.now(), 10);
}

#[test]
fn peek_next_deadline_reports_earliest_pending() {
    let mut s = Scheduler::new();
    s.registry.register(7, 0);
    s.registry.register(4, 1);
    s.registry.register(9, 2);
    assert_eq!(s.peek_next_deadline(), Some(4));
    s.registry.cancel(1);
    assert_eq!(s.peek_next_deadline(), Some(7));
}

#[test]
fn fire_due_on_empty_registry_fires_nothing() {
    let mut s = Scheduler::new();
    assert_eq!(s.fire_due(), Vec::<usize>::new());
}

#[test]
fn firing_order_is_deterministic_earliest_deadline_then_registration() {
    // timers A (deadline 10), B (deadline 10, registered after A),
    // C (deadline 5): advancing to 10 fires C, then A, then B
    let mut s = Scheduler::new();
    let a = s.registry.register(10, 100);
    let b = s.registry.register(10, 101);
    let c = s.registry.register(5, 102);
    let fired = s.advance_and_fire(10).unwrap();
    assert_eq!(fired, vec![c, a, b]);
}

#[test]
fn scenario_fires_due_timers_in_order_and_keeps_late_one_pending() {
    // deadlines [5, 5, 3, 8]; advance to 6; firing order is [3, 5, 5]
    // (the two deadline-5 entries in registration order); 8 stays pending
    let mut s = Scheduler::new();
    let id0 = s.registry.register(5, 0);
    let id1 = s.registry.register(5, 1);
    let id2 = s.registry.register(3, 2);
    let id3 = s.registry.register(8, 3);
    let fired = s.advance_and_fire(6).unwrap();
    assert_eq!(fired, vec![id2, id0, id1]);
    assert_eq!(s.registry.get(id2).unwrap().state, TimerState::Fired);
    assert_eq!(s.registry.get(id0).unwrap().state, TimerState::Fired);
    assert_eq!(s.registry.get(id1).unwrap().state, TimerState::Fired);
    assert_eq!(s.registry.get(id3).unwrap().state, TimerState::Pending);
    assert_eq!(s.peek_next_deadline(), Some(8));
}

#[test]
fn advance_and_fire_rejects_backward_time_and_fires_nothing() {
    let mut s = Scheduler::new();
    s.registry.register(2, 0);
    assert_eq!(s.advance_to(5), Ok(()));
    // the deadline-2 timer is already due, but an invalid advance must not fire it
    assert_eq!(s.advance_and_fire(4), Err(TimerError::InvalidAdvance));
    assert_eq!(s.now(), 5);
    assert_eq!(s.registry.get(0).unwrap().state, TimerState::Pending);
}

#[test]
fn past_deadline_fires_on_next_step_without_advancing() {
    let mut s = Scheduler::new();
    s.advance_to(10).unwrap();
    // a deadline in the past is not an error: it is due immediately
    let id = s.registry.register(3, 7);
    assert_eq!(s.fire_due(), vec![id]);
    assert_eq!(s.registry.get(id).unwrap().state, TimerState::Fired);
}

#[test]
fn firing_is_exactly_once_second_step_fires_nothing() {
    let mut s = Scheduler::new();
    let id = s.registry.register(4, 9);
    assert_eq!(s.advance_and_fire(4).unwrap(), vec![id]);
    // the timer matured and was woken once; repeating the step wakes nobody
    assert_eq!(s.fire_due(), Vec::<usize>::new());
    assert_eq!(s.advance_and_fire(20).unwrap(), Vec::<usize>::new());
    assert_eq!(s.registry.get(id).unwrap().state, TimerState::Fired);
}

#[test]
fn registry_cancel_is_idempotent_and_ignores_unknown_ids() {
    let mut r = Registry::new();
    let id = r.register(5, 0);
    r.cancel(id);
    assert_eq!(r.get(id).unwrap().state, TimerState::Cancelled);
    r.cancel(id); // already cancelled: no-op
    assert_eq!(r.get(id).unwrap().state, TimerState::Cancelled);
    r.cancel(17); // unknown id: no-op
    assert_eq!(r.len(), 1);
}

#[test]
fn cancelled_timer_never_fires() {
    let mut s = Scheduler::new();
    let keep = s.registry.register(5, 0);
    let gone = s.registry.register(5, 1);
    s.registry.cancel(gone);
    let fired = s.advance_and_fire(10).unwrap();
    assert_eq!(fired, vec![keep]);
    assert_eq!(s.registry.get(gone).unwrap().state, TimerState::Cancelled);
}

#[test]
fn cancel_after_fire_leaves_fired_state() {
    // fire wins the race: a later cancel is a no-op, never a second wake
    let mut s = Scheduler::new();
    let id = s.registry.register(5, 0);
    assert_eq!(s.advance_and_fire(5).unwrap(), vec![id]);
    s.registry.cancel(id);
    assert_eq!(s.registry.get(id).unwrap().state, TimerState::Fired);
    assert_eq!(s.fire_due(), Vec::<usize>::new());
}

#[test]
fn registry_reset_moves_deadline_and_rejects_non_pending() {
    let mut r = Registry::new();
    let id = r.register(5, 42);
    assert_eq!(r.reset(id, 12), Ok(()));
    let e = r.get(id).unwrap();
    assert_eq!(e.deadline, 12);
    assert_eq!(e.wake, 42);
    assert_eq!(e.state, TimerState::Pending);
    // unknown id
    assert_eq!(r.reset(9, 1), Err(TimerError::UnknownTimer));
    // cancelled id
    r.cancel(id);
    assert_eq!(r.reset(id, 3), Err(TimerError::UnknownTimer));
    let mut s = Scheduler::new();
    let fid = s.registry.register(1, 0);
    s.advance_and_fire(1).unwrap();
    assert_eq!(s.registry.reset(fid, 4), Err(TimerError::UnknownTimer));
}

#[test]
fn equal_deadlines_fire_in_registration_order_with_interleaved_registration() {
    let mut s = Scheduler::new();
    let a = s.registry.register(6, 0);
    let b = s.registry.register(2, 1);
    let c = s.registry.register(6, 2);
    let d = s.registry.register(4, 3);
    let fired = s.advance_and_fire(6).unwrap();
    assert_eq!(fired, vec![b, d, a, c]);
}
