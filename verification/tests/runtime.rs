use sittard::rt::task::WakeTask;
use sittard::rt::{AdvanceError, RuntimeInner};
use sittard::time::timer::{PendingTimer, PendingTimerHandlerEnum, TimerEntry, TimerHandler};
use sittard::{AdvanceClock, AdvanceToNextWake, Instant};

const SEC: u128 = 1_000_000_000;

type Rt = RuntimeInner<&'static str, u32, PendingTimerHandlerEnum>;

fn at(nanos: u128) -> Instant {
    Instant::from_nanos(nanos)
}

fn rt_at(nanos: u128) -> Rt {
    RuntimeInner::new(at(nanos))
}

fn pending(timer_id: u64, elapsed_at: u128, waker: u32, task: Option<u64>, h: PendingTimerHandlerEnum) -> PendingTimer<u32, PendingTimerHandlerEnum> {
    PendingTimer { timer_id, elapsed_at: at(elapsed_at), waker, waiting_task: task, handler: h }
}

const WAKE: PendingTimerHandlerEnum = PendingTimerHandlerEnum::WakeWaitingTasks;
const IGNORE: PendingTimerHandlerEnum = PendingTimerHandlerEnum::Ignore;
const CANCEL: PendingTimerHandlerEnum = PendingTimerHandlerEnum::CancelWaitingTasks;

/// A clock policy that always answers with a fixed instant.
struct FixedClock(u128);

impl AdvanceClock for FixedClock {
    fn advance_clock(&self, _now: Instant, _next: Instant) -> Instant {
        at(self.0)
    }
}

#[test]
fn new_runtime_is_empty() {
    let rt = rt_at(5);
    assert_eq!(rt.now().as_nanos(), 5);
    assert_eq!(Instant::now(&rt).as_nanos(), 5);
    assert_eq!(rt.next_id(), 0);
    assert_eq!(rt.ready_len(), 0);
    assert!(rt.ready_is_empty());
    assert_eq!(rt.blocked_len(), 0);
    assert_eq!(rt.pending_timers_len(), 0);
}

#[test]
fn ready_queue_is_first_in_first_out_with_fresh_ids() {
    let mut rt = rt_at(0);
    rt.spawn("a");
    rt.spawn("b");
    assert_eq!(rt.ready_len(), 2);
    assert_eq!(rt.pop_ready_task(), Some((0, "a")));
    assert_eq!(rt.pop_ready_task(), Some((1, "b")));
    assert_eq!(rt.pop_ready_task(), None);
    assert_eq!(rt.next_id(), 2);
}

#[test]
fn ids_are_shared_by_tasks_and_timers() {
    let mut rt = rt_at(0);
    assert_eq!(rt.get_next_id(), 0);
    let t = rt.new_timer(at(9));
    assert_eq!(t.timer_id, 1);
    assert_eq!(t.deadline, at(9));
    rt.spawn("a");
    assert_eq!(rt.pop_ready_task(), Some((2, "a")));
}

#[test]
fn sleep_sets_the_deadline_after_now() {
    let mut rt = rt_at(3 * SEC);
    let t = rt.sleep(2 * SEC);
    assert_eq!(t.deadline.as_nanos(), 5 * SEC);
    assert_eq!(t.timer_id, 0);
    let u = rt.sleep_until(at(SEC));
    assert_eq!(u.deadline.as_nanos(), SEC);
    assert_eq!(u.timer_id, 1);
    let v = sittard::time::sleep(&mut rt, 7);
    assert_eq!(v.deadline.as_nanos(), 3 * SEC + 7);
    let w = sittard::time::sleep_until(&mut rt, at(4));
    assert_eq!((w.timer_id, w.deadline.as_nanos()), (3, 4));
}

#[test]
fn waking_moves_blocked_tasks_to_the_back_of_the_queue() {
    let mut rt = rt_at(0);
    rt.spawn("a");
    rt.spawn("b");
    rt.spawn("c");
    let (ia, a) = rt.pop_ready_task().unwrap();
    rt.block_task(ia, a);
    let (ib, b) = rt.pop_ready_task().unwrap();
    rt.block_task(ib, b);
    assert!(rt.is_blocked(ia) && rt.is_blocked(ib));
    rt.wake_tasks_since_last_advance_clock(vec![WakeTask { task_id: ib }, WakeTask { task_id: ia }]);
    assert_eq!(rt.blocked_len(), 0);
    assert_eq!(rt.pop_ready_task().map(|p| p.1), Some("c"));
    assert_eq!(rt.pop_ready_task().map(|p| p.1), Some("b"));
    assert_eq!(rt.pop_ready_task().map(|p| p.1), Some("a"));
}

#[test]
fn waking_twice_or_waking_unknown_tasks_does_nothing_more() {
    let mut rt = rt_at(0);
    rt.spawn("a");
    let (ia, a) = rt.pop_ready_task().unwrap();
    rt.block_task(ia, a);
    rt.wake_tasks_since_last_advance_clock(vec![
        WakeTask { task_id: ia },
        WakeTask { task_id: ia },
        WakeTask { task_id: 77 },
    ]);
    assert_eq!(rt.ready_len(), 1);
    assert_eq!(rt.blocked_len(), 0);
    rt.wake_tasks_since_last_advance_clock(vec![WakeTask { task_id: ia }]);
    assert_eq!(rt.ready_len(), 1);
}

#[test]
fn earliest_timer_goes_first_and_ties_keep_registration_order() {
    let mut rt = rt_at(0);
    rt.set_timer_wakers_since_last_advance_clock(vec![
        pending(1, 30, 10, None, WAKE),
        pending(2, 10, 11, None, WAKE),
        pending(3, 10, 12, None, IGNORE),
    ]);
    assert_eq!(rt.pending_timers_len(), 3);
    let order: Vec<u64> = (0..3).map(|_| rt.pop_earliest_timer().unwrap().timer_id).collect();
    assert_eq!(order, vec![2, 3, 1]);
    assert!(rt.pop_earliest_timer().is_none());
}

#[test]
fn next_timer_ready_sees_due_timers() {
    let mut rt = rt_at(20);
    assert!(!rt.next_timer_ready());
    rt.set_timer_wakers_since_last_advance_clock(vec![pending(1, 30, 0, None, WAKE)]);
    assert!(!rt.next_timer_ready());
    rt.set_timer_wakers_since_last_advance_clock(vec![pending(2, 20, 0, None, WAKE)]);
    assert!(rt.next_timer_ready());
}

#[test]
fn wake_up_jumps_the_clock_and_returns_all_wakers_in_order() {
    let mut rt = rt_at(0);
    rt.set_timer_wakers_since_last_advance_clock(vec![
        pending(4, 50, 100, None, WAKE),
        pending(4, 50, 101, None, WAKE),
        pending(5, 60, 102, None, WAKE),
    ]);
    let r = rt.settle_elapsed_timer(4, at(50), WAKE, Some(at(50)));
    assert_eq!(r, Ok((true, vec![100, 101])));
    assert_eq!(rt.now().as_nanos(), 50);
    // A second entry of the same timer finds no waiter left, but still counts as a wake-up.
    let r = rt.settle_elapsed_timer(4, at(50), WAKE, None);
    assert_eq!(r, Ok((true, vec![])));
}

#[test]
fn wake_up_of_a_past_deadline_keeps_the_clock() {
    let mut rt = rt_at(90);
    rt.set_timer_wakers_since_last_advance_clock(vec![pending(1, 50, 7, None, WAKE)]);
    let r = rt.settle_elapsed_timer(1, at(50), WAKE, None);
    assert_eq!(r, Ok((true, vec![7])));
    assert_eq!(rt.now().as_nanos(), 90);
}

#[test]
fn clock_answer_before_the_deadline_is_refused() {
    let mut rt = rt_at(0);
    rt.set_timer_wakers_since_last_advance_clock(vec![pending(1, 50, 7, None, WAKE)]);
    let r = rt.settle_elapsed_timer(1, at(50), WAKE, Some(at(49)));
    assert_eq!(r, Err(AdvanceError::ClockBehindDeadline));
    assert_eq!(rt.now().as_nanos(), 0);
}

#[test]
fn clock_answer_beyond_the_deadline_is_taken() {
    let mut rt = rt_at(0);
    let r = rt.settle_elapsed_timer(1, at(50), WAKE, Some(at(80)));
    assert_eq!(r, Ok((true, vec![])));
    assert_eq!(rt.now().as_nanos(), 80);
}

#[test]
fn ignored_timer_changes_nothing() {
    let mut rt = rt_at(0);
    rt.set_timer_wakers_since_last_advance_clock(vec![pending(1, 50, 7, Some(0), IGNORE)]);
    let r = rt.settle_elapsed_timer(1, at(50), IGNORE, None);
    assert_eq!(r, Ok((false, vec![])));
    assert_eq!(rt.now().as_nanos(), 0);
    // The waiters are still registered: a later wake-up finds them.
    let r = rt.settle_elapsed_timer(1, at(50), WAKE, Some(at(50)));
    assert_eq!(r, Ok((true, vec![7])));
}

#[test]
fn cancelling_timer_drops_its_waiting_tasks() {
    let mut rt = rt_at(0);
    rt.spawn("a");
    rt.spawn("b");
    let (ia, a) = rt.pop_ready_task().unwrap();
    rt.block_task(ia, a);
    let (ib, b) = rt.pop_ready_task().unwrap();
    rt.block_task(ib, b);
    rt.set_timer_wakers_since_last_advance_clock(vec![
        pending(9, 50, 1, Some(ia), CANCEL),
        pending(9, 50, 2, None, CANCEL),
    ]);
    let r = rt.settle_elapsed_timer(9, at(50), CANCEL, None);
    assert_eq!(r, Ok((false, vec![])));
    assert!(!rt.is_blocked(ia));
    assert!(rt.is_blocked(ib));
    assert_eq!(rt.now().as_nanos(), 0);
}

#[test]
fn handler_answer_decides_the_handling() {
    let mut rt = rt_at(0);
    let r = rt.handle_timer_elapsed(TimerEntry { timer_id: 1, elapsed_at: at(50), handler: IGNORE }, &AdvanceToNextWake);
    assert_eq!(r, Ok((false, vec![])));
    assert_eq!(rt.now().as_nanos(), 0);
    let r = rt.handle_timer_elapsed(TimerEntry { timer_id: 1, elapsed_at: at(50), handler: WAKE }, &AdvanceToNextWake);
    assert_eq!(r, Ok((true, vec![])));
    assert_eq!(rt.now().as_nanos(), 50);
    assert_eq!(WAKE.as_enum(), WAKE);
}

#[test]
fn advancing_with_no_timer_is_stuck() {
    let mut rt = rt_at(0);
    rt.spawn("a");
    let (ia, a) = rt.pop_ready_task().unwrap();
    rt.block_task(ia, a);
    assert_eq!(rt.advance_clock(&AdvanceToNextWake), Err(AdvanceError::Stuck { blocked_tasks: 1 }));
}

#[test]
fn advancing_handles_every_timer_due_at_the_new_time() {
    let mut rt = rt_at(0);
    rt.set_timer_wakers_since_last_advance_clock(vec![
        pending(1, 200, 1, None, WAKE),
        pending(2, 100, 2, None, WAKE),
        pending(3, 100, 3, None, WAKE),
        pending(4, 300, 4, None, WAKE),
    ]);
    assert_eq!(rt.advance_clock(&AdvanceToNextWake), Ok(vec![2, 3]));
    assert_eq!(rt.now().as_nanos(), 100);
    assert_eq!(rt.pending_timers_len(), 2);
    assert!(!rt.next_timer_ready());
    assert_eq!(rt.advance_clock(&AdvanceToNextWake), Ok(vec![1]));
    assert_eq!(rt.now().as_nanos(), 200);
}

#[test]
fn advancing_skips_ignored_timers() {
    let mut rt = rt_at(0);
    rt.set_timer_wakers_since_last_advance_clock(vec![
        pending(1, 100, 1, None, IGNORE),
        pending(2, 200, 2, None, WAKE),
    ]);
    assert_eq!(rt.advance_clock(&AdvanceToNextWake), Ok(vec![2]));
    assert_eq!(rt.now().as_nanos(), 200);
}

#[test]
fn advancing_past_only_ignored_timers_is_stuck() {
    let mut rt = rt_at(0);
    rt.set_timer_wakers_since_last_advance_clock(vec![pending(1, 100, 1, None, IGNORE)]);
    assert_eq!(rt.advance_clock(&AdvanceToNextWake), Err(AdvanceError::Stuck { blocked_tasks: 0 }));
    assert_eq!(rt.now().as_nanos(), 0);
}

#[test]
fn advancing_stops_after_the_first_wake_up_batch() {
    let mut rt = rt_at(0);
    rt.set_timer_wakers_since_last_advance_clock(vec![
        pending(1, 100, 1, None, WAKE),
        pending(2, 100, 2, None, IGNORE),
        pending(3, 200, 3, None, WAKE),
    ]);
    assert_eq!(rt.advance_clock(&AdvanceToNextWake), Ok(vec![1]));
    assert_eq!(rt.now().as_nanos(), 100);
    assert_eq!(rt.pending_timers_len(), 1);
}

#[test]
fn advancing_after_a_wake_up_never_reports_stuck() {
    let mut rt = rt_at(0);
    rt.set_timer_wakers_since_last_advance_clock(vec![
        pending(1, 100, 1, None, WAKE),
        pending(2, 100, 2, None, CANCEL),
    ]);
    assert_eq!(rt.advance_clock(&AdvanceToNextWake), Ok(vec![1]));
    assert_eq!(rt.now().as_nanos(), 100);
    assert_eq!(rt.pending_timers_len(), 0);
}

#[test]
fn advancing_lands_on_the_earliest_wake_up_deadline_past_cancelled_timers() {
    let mut rt = rt_at(0);
    rt.set_timer_wakers_since_last_advance_clock(vec![
        pending(1, 50, 1, None, CANCEL),
        pending(2, 70, 2, None, IGNORE),
        pending(3, 90, 3, None, WAKE),
        pending(4, 95, 4, None, WAKE),
    ]);
    assert_eq!(rt.advance_clock(&AdvanceToNextWake), Ok(vec![3]));
    assert_eq!(rt.now().as_nanos(), 90);
}

#[test]
fn advancing_with_a_lagging_policy_fails() {
    let mut rt = rt_at(0);
    rt.set_timer_wakers_since_last_advance_clock(vec![pending(1, 100, 1, None, WAKE)]);
    assert_eq!(rt.advance_clock(&FixedClock(99)), Err(AdvanceError::ClockBehindDeadline));
}

#[test]
fn advancing_with_a_coarse_policy_handles_every_timer_passed() {
    let mut rt = rt_at(0);
    rt.set_timer_wakers_since_last_advance_clock(vec![
        pending(1, 100, 1, None, WAKE),
        pending(2, 150, 2, None, WAKE),
        pending(3, 400, 3, None, WAKE),
    ]);
    assert_eq!(rt.advance_clock(&FixedClock(200)), Ok(vec![1, 2]));
    assert_eq!(rt.now().as_nanos(), 200);
}

#[test]
fn round_advances_only_when_no_task_is_ready() {
    let mut rt = rt_at(0);
    rt.spawn("a");
    let r = rt.finish_round(vec![pending(1, 100, 1, None, WAKE)], &AdvanceToNextWake);
    assert_eq!(r, Ok(vec![]));
    assert_eq!(rt.now().as_nanos(), 0);
    assert_eq!(rt.pending_timers_len(), 1);
    let _ = rt.pop_ready_task();
    let r = rt.finish_round(vec![], &AdvanceToNextWake);
    assert_eq!(r, Ok(vec![1]));
    assert_eq!(rt.now().as_nanos(), 100);
    let r = rt.finish_round(vec![], &AdvanceToNextWake);
    assert_eq!(r, Err(AdvanceError::Stuck { blocked_tasks: 0 }));
}

#[test]
fn elapsed_after_a_virtual_sleep_is_the_sleep() {
    // Sleeping one second under the exact policy moves the clock by exactly one second.
    let mut rt = rt_at(12 * SEC);
    let start = Instant::now(&rt);
    let timer = sittard::time::sleep(&mut rt, SEC);
    assert!(!timer.is_elapsed(rt.now()));
    rt.set_timer_wakers_since_last_advance_clock(vec![PendingTimer {
        timer_id: timer.timer_id,
        elapsed_at: timer.deadline,
        waker: 0,
        waiting_task: None,
        handler: WAKE,
    }]);
    assert_eq!(rt.advance_clock(&AdvanceToNextWake), Ok(vec![0]));
    assert!(timer.is_elapsed(rt.now()));
    assert_eq!(start.elapsed(rt.now()), SEC);
}

/// A handler whose answer its owner can change while the timer is pending.
struct SharedHandler(std::rc::Rc<std::cell::Cell<PendingTimerHandlerEnum>>);

impl TimerHandler for SharedHandler {
    fn as_enum(&self) -> PendingTimerHandlerEnum {
        self.0.get()
    }
}

#[test]
fn handler_is_read_when_the_timer_is_handled() {
    let cell = std::rc::Rc::new(std::cell::Cell::new(WAKE));
    let mut rt: RuntimeInner<&'static str, u32, SharedHandler> = RuntimeInner::new(at(0));
    rt.set_timer_wakers_since_last_advance_clock(vec![
        PendingTimer { timer_id: 1, elapsed_at: at(100), waker: 1, waiting_task: None, handler: SharedHandler(cell.clone()) },
        PendingTimer { timer_id: 2, elapsed_at: at(300), waker: 2, waiting_task: None, handler: SharedHandler(std::rc::Rc::new(std::cell::Cell::new(WAKE))) },
    ]);
    cell.set(IGNORE);
    assert_eq!(rt.advance_clock(&AdvanceToNextWake), Ok(vec![2]));
    assert_eq!(rt.now().as_nanos(), 300);
}
