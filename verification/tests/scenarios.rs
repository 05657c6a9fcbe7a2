use sittard::rt::task::WakeTask;
use sittard::rt::RuntimeInner;
use sittard::time::timer::{PendingTimer, PendingTimerHandlerEnum};
use sittard::{AdvanceToNextWake, Instant};

const MS: u128 = 1_000_000;

type Rt = RuntimeInner<&'static str, u64, PendingTimerHandlerEnum>;

/// Polls every ready task once: each one sleeps for the duration named in the
/// table, registering its timer with a waker that wakes the task itself.
/// Returns the names of the tasks polled after their timer elapsed.
fn poll_round(rt: &mut Rt, sleeps: &[(&'static str, u128)], deadlines: &mut Vec<(&'static str, u64, Instant)>) -> Vec<&'static str> {
    let mut done = Vec::new();
    let mut pending = Vec::new();
    while let Some((task_id, name)) = rt.pop_ready_task() {
        let existing = deadlines.iter().find(|d| d.0 == name).map(|d| (d.1, d.2));
        let (timer_id, deadline) = match existing {
            Some(t) => t,
            None => {
                let dur = sleeps.iter().find(|s| s.0 == name).unwrap().1;
                let t = rt.sleep(dur);
                deadlines.push((name, t.timer_id, t.deadline));
                (t.timer_id, t.deadline)
            }
        };
        if !deadline.is_before(&rt.now()) && deadline != rt.now() {
            pending.push(PendingTimer {
                timer_id,
                elapsed_at: deadline,
                waker: task_id,
                waiting_task: Some(task_id),
                handler: PendingTimerHandlerEnum::WakeWaitingTasks,
            });
            rt.block_task(task_id, name);
        } else {
            done.push(name);
        }
    }
    rt.set_timer_wakers_since_last_advance_clock(pending);
    done
}

#[test]
fn tasks_sleeping_different_durations_finish_in_deadline_order() {
    let mut rt: Rt = RuntimeInner::new(Instant::from_nanos(0));
    rt.spawn("200ms");
    rt.spawn("100ms");
    rt.spawn("300ms");
    let sleeps = [("200ms", 200 * MS), ("100ms", 100 * MS), ("300ms", 300 * MS)];
    let mut deadlines = Vec::new();
    let mut finished = Vec::new();
    let mut finish_times = Vec::new();
    for _ in 0..10 {
        for name in poll_round(&mut rt, &sleeps, &mut deadlines) {
            finished.push(name);
            finish_times.push(rt.now().as_nanos());
        }
        if rt.blocked_len() == 0 && rt.ready_is_empty() {
            break;
        }
        let wakers = rt.advance_clock(&AdvanceToNextWake).unwrap();
        let wakes: Vec<WakeTask> = wakers.into_iter().map(|task_id| WakeTask { task_id }).collect();
        rt.wake_tasks_since_last_advance_clock(wakes);
    }
    assert_eq!(finished, vec!["100ms", "200ms", "300ms"]);
    assert_eq!(finish_times, vec![100 * MS, 200 * MS, 300 * MS]);
}

#[test]
fn same_steps_give_same_results() {
    let run = || {
        let mut rt: Rt = RuntimeInner::new(Instant::from_nanos(5));
        rt.spawn("a");
        rt.spawn("b");
        let (ia, a) = rt.pop_ready_task().unwrap();
        rt.block_task(ia, a);
        let (ib, b) = rt.pop_ready_task().unwrap();
        rt.block_task(ib, b);
        let ta = rt.sleep(30);
        let tb = rt.sleep(10);
        rt.set_timer_wakers_since_last_advance_clock(vec![
            PendingTimer { timer_id: ta.timer_id, elapsed_at: ta.deadline, waker: ia, waiting_task: Some(ia), handler: PendingTimerHandlerEnum::WakeWaitingTasks },
            PendingTimer { timer_id: tb.timer_id, elapsed_at: tb.deadline, waker: ib, waiting_task: Some(ib), handler: PendingTimerHandlerEnum::WakeWaitingTasks },
        ]);
        let first = rt.advance_clock(&AdvanceToNextWake).unwrap();
        let t1 = rt.now().as_nanos();
        let second = rt.advance_clock(&AdvanceToNextWake).unwrap();
        (first, t1, second, rt.now().as_nanos(), rt.next_id())
    };
    let one = run();
    assert_eq!(one, run());
    assert_eq!(one, (vec![1], 15, vec![0], 35, 4));
}

#[test]
fn sixty_second_sleep_completes_at_once_in_virtual_time() {
    let start = 7 * MS;
    let mut rt: Rt = RuntimeInner::new(Instant::from_nanos(start));
    let t = rt.sleep(60_000 * MS);
    rt.set_timer_wakers_since_last_advance_clock(vec![PendingTimer {
        timer_id: t.timer_id,
        elapsed_at: t.deadline,
        waker: 0,
        waiting_task: None,
        handler: PendingTimerHandlerEnum::WakeWaitingTasks,
    }]);
    assert_eq!(rt.advance_clock(&AdvanceToNextWake), Ok(vec![0]));
    assert_eq!(Instant::from_nanos(start).elapsed(rt.now()), 60_000 * MS);
}

#[test]
fn sleep_equals_sleep_until_now_plus_duration() {
    let mut a: Rt = RuntimeInner::new(Instant::from_nanos(3 * MS));
    let mut b: Rt = RuntimeInner::new(Instant::from_nanos(3 * MS));
    let ta = a.sleep(5 * MS);
    let tb = b.sleep_until(b.now().add_nanos(5 * MS));
    assert_eq!(ta, tb);
}

#[test]
fn late_awaited_timer_adds_no_time() {
    // A 1 s timer created first, a 5 s timer awaited first: the clock ends at 5 s.
    let mut rt: Rt = RuntimeInner::new(Instant::from_nanos(0));
    let short = rt.sleep(1_000 * MS);
    let long = rt.sleep(5_000 * MS);
    rt.set_timer_wakers_since_last_advance_clock(vec![PendingTimer {
        timer_id: long.timer_id,
        elapsed_at: long.deadline,
        waker: 0,
        waiting_task: None,
        handler: PendingTimerHandlerEnum::WakeWaitingTasks,
    }]);
    assert_eq!(rt.advance_clock(&AdvanceToNextWake), Ok(vec![0]));
    assert_eq!(rt.now().as_nanos(), 5_000 * MS);
    assert!(short.is_elapsed(rt.now()));
    assert_eq!(rt.now().as_nanos(), 5_000 * MS);
}

#[test]
fn a_fresh_runtime_hands_out_ids_in_counting_order() {
    let mut rt: Rt = RuntimeInner::new(Instant::from_nanos(0));
    let mut ids = Vec::new();
    ids.push(rt.sleep(1).timer_id);
    rt.spawn("a");
    ids.push(rt.pop_ready_task().unwrap().0);
    ids.push(rt.new_timer(Instant::from_nanos(9)).timer_id);
    ids.push(rt.get_next_id());
    ids.push(rt.sleep_until(Instant::from_nanos(3)).timer_id);
    assert_eq!(ids, vec![0, 1, 2, 3, 4]);
    assert_eq!(rt.next_id(), 5);
}

#[test]
fn a_round_from_the_same_state_gives_the_same_result() {
    let round = || {
        let mut rt: Rt = RuntimeInner::new(Instant::from_nanos(0));
        let r = rt.finish_round(
            vec![
                PendingTimer { timer_id: 1, elapsed_at: Instant::from_nanos(40), waker: 7, waiting_task: None, handler: PendingTimerHandlerEnum::Ignore },
                PendingTimer { timer_id: 2, elapsed_at: Instant::from_nanos(60), waker: 8, waiting_task: None, handler: PendingTimerHandlerEnum::WakeWaitingTasks },
            ],
            &AdvanceToNextWake,
        );
        (r, rt.now().as_nanos(), rt.pending_timers_len())
    };
    assert_eq!(round(), round());
    assert_eq!(round(), (Ok(vec![8]), 60, 0));
}
