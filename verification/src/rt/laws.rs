//! Properties of the scheduler that span several steps or several runs.

use vstd::prelude::*;

use crate::rt::clock::{AdvanceClock, AdvanceToNextWake};
use crate::rt::model::{clock_kept_or_forward, handed_ids, id_step, registered_state, round, advanced, advance_model, advance_result_view, earliest_index, settle_step, Answer, SchedulerState};
use crate::rt::{apply_wakes, cancel_waiting, lemma_cancel_waiting_shrinks, is_first_earliest, some_timer_due, AdvanceError, RuntimeInner};
use crate::time::instant::Instant;
use crate::time::timer::{Timer, Waiter, PendingTimer, PendingTimerHandlerEnum, TimerEntry, TimerHandler};

verus! {

/// Waking moves tasks, it never loses nor duplicates one: the tasks ready
/// before keep their places at the front, the blocked tasks that remain are
/// unchanged, and as many tasks join the ready queue as leave the blocked set.
pub proof fn lemma_wakes_conserve_tasks<T>(ready: Seq<T>, blocked: Map<u64, T>, ids: Seq<u64>)
    requires
        blocked.dom().finite(),
    ensures
        ({
            let (r, b) = apply_wakes(ready, blocked, ids);
            &&& b.dom().finite()
            &&& r.len() >= ready.len()
            &&& r.len() + b.len() == ready.len() + blocked.len()
            &&& r.subrange(0, ready.len() as int) == ready
            &&& forall|k: u64| #[trigger] b.contains_key(k) ==> blocked.contains_key(k) && b[k] == blocked[k]
        }),
    decreases ids.len(),
{
    if ids.len() > 0 {
        lemma_wakes_conserve_tasks(ready, blocked, ids.drop_last());
        let (r, b) = apply_wakes(ready, blocked, ids.drop_last());
        let id = ids.last();
        if b.contains_key(id) {
            assert(r.push(b[id]).subrange(0, ready.len() as int) =~= r.subrange(0, ready.len() as int));
            assert(b.remove(id).len() == b.len() - 1);
        }
    }
}

/// A wake request for a task that is not blocked (already woken, or unknown)
/// changes nothing.
pub proof fn lemma_wake_of_unblocked_is_noop<T>(ready: Seq<T>, blocked: Map<u64, T>, ids: Seq<u64>, id: u64)
    requires
        !apply_wakes(ready, blocked, ids).1.contains_key(id),
    ensures
        apply_wakes(ready, blocked, ids.push(id)) == apply_wakes(ready, blocked, ids),
{
    assert(ids.push(id).drop_last() =~= ids);
}

/// Waking the same task twice in a row has the effect of waking it once.
pub proof fn lemma_wake_twice_is_wake_once<T>(ready: Seq<T>, blocked: Map<u64, T>, ids: Seq<u64>, id: u64)
    ensures
        apply_wakes(ready, blocked, ids.push(id).push(id)) == apply_wakes(ready, blocked, ids.push(id)),
{
    assert(ids.push(id).drop_last() =~= ids);
    assert(ids.push(id).push(id).drop_last() =~= ids.push(id));
    let (r, b) = apply_wakes(ready, blocked, ids);
    if b.contains_key(id) {
        assert(!b.remove(id).contains_key(id));
    }
}

/// Handling a timer never moves the virtual clock backwards, whatever the
/// handler and the clock policy answer.
pub proof fn lemma_settle_keeps_time_monotone<T, W, H>(
    pre: RuntimeInner<T, W, H>,
    post: RuntimeInner<T, W, H>,
    timer_id: u64,
    elapsed_at: Instant,
    kind: PendingTimerHandlerEnum,
    clock_result: Option<Instant>,
    r: Result<(bool, Vec<W>), AdvanceError>,
)
    requires
        pre.settled_by(post, timer_id, elapsed_at, kind, clock_result, r),
    ensures
        pre.spec_now().spec_nanos() <= post.spec_now().spec_nanos(),
{
}

/// A wake-up that succeeds leaves the clock at or after the timer's deadline:
/// a timer never wakes its tasks early.
pub proof fn lemma_wake_reaches_deadline<T, W, H>(
    pre: RuntimeInner<T, W, H>,
    post: RuntimeInner<T, W, H>,
    timer_id: u64,
    elapsed_at: Instant,
    clock_result: Option<Instant>,
    r: Result<(bool, Vec<W>), AdvanceError>,
)
    requires
        pre.settled_by(post, timer_id, elapsed_at, PendingTimerHandlerEnum::WakeWaitingTasks, clock_result, r),
        r is Ok,
    ensures
        elapsed_at.spec_nanos() <= post.spec_now().spec_nanos(),
{
}

/// With `AdvanceToNextWake`, a wake-up whose deadline lies ahead moves the
/// clock to exactly that deadline, and always succeeds.
pub proof fn lemma_exact_policy_lands_on_deadline<T, W, H>(
    pre: RuntimeInner<T, W, H>,
    post: RuntimeInner<T, W, H>,
    timer_id: u64,
    elapsed_at: Instant,
    r: Result<(bool, Vec<W>), AdvanceError>,
)
    requires
        pre.spec_now().spec_nanos() < elapsed_at.spec_nanos(),
        pre.settled_by(post, timer_id, elapsed_at, PendingTimerHandlerEnum::WakeWaitingTasks, Some(elapsed_at), r),
    ensures
        r is Ok,
        post.spec_now() == elapsed_at,
{
}

/// Handling a timer is deterministic: from the same state, with the same
/// answers from the handler and the clock policy, it reaches the same state
/// and returns the same result.
pub proof fn lemma_settle_is_deterministic<T, W, H>(
    pre: RuntimeInner<T, W, H>,
    post1: RuntimeInner<T, W, H>,
    post2: RuntimeInner<T, W, H>,
    timer_id: u64,
    elapsed_at: Instant,
    kind: PendingTimerHandlerEnum,
    clock_result: Option<Instant>,
    r1: Result<(bool, Vec<W>), AdvanceError>,
    r2: Result<(bool, Vec<W>), AdvanceError>,
)
    requires
        pre.settled_by(post1, timer_id, elapsed_at, kind, clock_result, r1),
        pre.settled_by(post2, timer_id, elapsed_at, kind, clock_result, r2),
    ensures
        post1.spec_now() == post2.spec_now(),
        post1.spec_next_id() == post2.spec_next_id(),
        post1.spec_ready() == post2.spec_ready(),
        post1.spec_timers() == post2.spec_timers(),
        post1.spec_waiters() == post2.spec_waiters(),
        post1.spec_blocked() == post2.spec_blocked(),
        r1 is Ok <==> r2 is Ok,
        r1 matches Ok((w1, v1)) ==> (r2 matches Ok((w2, v2)) && w1 == w2 && v1@ == v2@),
        r1 is Err ==> r1 == r2,
{
}

/// Entry `i` is the first earliest among the first `k` pending timers.
spec fn first_earliest_in_prefix<H>(ts: Seq<TimerEntry<H>>, k: int, i: int) -> bool {
    &&& 0 <= i < k
    &&& forall|j: int| 0 <= j < k ==> ts[i].elapsed_at.spec_nanos() <= #[trigger] ts[j].elapsed_at.spec_nanos()
    &&& forall|j: int| 0 <= j < i ==> ts[i].elapsed_at.spec_nanos() < #[trigger] ts[j].elapsed_at.spec_nanos()
}

/// A non-empty timer queue has a first earliest timer.
pub proof fn lemma_earliest_exists<H>(ts: Seq<TimerEntry<H>>)
    requires
        ts.len() > 0,
    ensures
        is_first_earliest(ts, earliest_index(ts)),
{
    lemma_earliest_in_prefix(ts, ts.len() as int);
    let i = choose|i: int| #[trigger] first_earliest_in_prefix(ts, ts.len() as int, i);
    assert(is_first_earliest(ts, i));
}

proof fn lemma_earliest_in_prefix<H>(ts: Seq<TimerEntry<H>>, k: int)
    requires
        0 < k <= ts.len(),
    ensures
        exists|i: int| #[trigger] first_earliest_in_prefix(ts, k, i),
    decreases k,
{
    if k == 1 {
        assert(first_earliest_in_prefix(ts, 1, 0));
    } else {
        lemma_earliest_in_prefix(ts, k - 1);
        let i = choose|i: int| #[trigger] first_earliest_in_prefix(ts, k - 1, i);
        if ts[k - 1].elapsed_at.spec_nanos() < ts[i].elapsed_at.spec_nanos() {
            assert(first_earliest_in_prefix(ts, k, k - 1));
        } else {
            assert(first_earliest_in_prefix(ts, k, i));
        }
    }
}

/// Once a wake-up happened, advancing only handles timers that are already
/// due: the clock does not move any more and advancing succeeds, whatever the
/// handlers and the clock policy answer.
pub proof fn lemma_after_wake_clock_stays<T, W, H: TimerHandler, C: AdvanceClock>(
    clock: &C,
    s: SchedulerState<T, W, H>,
    acc: Seq<W>,
    answers: Seq<Answer>,
)
    requires
        advance_model(clock, s, true, acc, answers) is Some,
    ensures
        ({
            let (s2, res) = advance_model(clock, s, true, acc, answers).unwrap();
            &&& s2.now == s.now
            &&& res is Ok
        }),
    decreases answers.len(),
{
    if !some_timer_due(s.timers, s.now) {
    } else {
        let j = choose|j: int| 0 <= j < s.timers.len() && #[trigger] s.timers[j].elapsed_at.spec_nanos() <= s.now.spec_nanos();
        lemma_earliest_exists(s.timers);
        let i = earliest_index(s.timers);
        assert(s.timers[i].elapsed_at.spec_nanos() <= s.timers[j].elapsed_at.spec_nanos());
        let t = s.timers[i];
        let s1 = SchedulerState {
            now: s.now,
            next_id: s.next_id,
            ready: s.ready,
            timers: s.timers.remove(i),
            waiters: s.waiters,
            blocked: s.blocked,
        };
        let (kind, clock_result) = answers[0];
        let (s2, res) = settle_step(s1, t.timer_id, t.elapsed_at, kind, clock_result);
        lemma_after_wake_clock_stays(clock, s2, acc + res->Ok_0.1, answers.drop_first());
    }
}

/// With `AdvanceToNextWake` and handlers that keep their answer, advancing
/// the clock stops exactly at the earliest deadline among the timers that
/// wake their waiters (or leaves the clock where it is, when that deadline has
/// passed already), and succeeds.
pub proof fn lemma_exact_policy_stops_at_first_wake<T, W>(
    clock: &AdvanceToNextWake,
    s: SchedulerState<T, W, PendingTimerHandlerEnum>,
    acc: Seq<W>,
    answers: Seq<Answer>,
    w: int,
)
    requires
        advance_model(clock, s, false, acc, answers) is Some,
        is_earliest_wake(s.timers, w),
    ensures
        ({
            let (s2, res) = advance_model(clock, s, false, acc, answers).unwrap();
            let e = s.timers[w].elapsed_at;
            &&& res is Ok
            &&& s2.now == (if s.now.spec_nanos() < e.spec_nanos() { e } else { s.now })
        }),
    decreases answers.len(),
{
    lemma_earliest_exists(s.timers);
    let i = earliest_index(s.timers);
    let t = s.timers[i];
    let s1 = SchedulerState {
        now: s.now,
        next_id: s.next_id,
        ready: s.ready,
        timers: s.timers.remove(i),
        waiters: s.waiters,
        blocked: s.blocked,
    };
    let (kind, clock_result) = answers[0];
    assert(kind == t.handler);
    let (s2, res) = settle_step(s1, t.timer_id, t.elapsed_at, kind, clock_result);
    assert(t.elapsed_at.spec_nanos() <= s.timers[w].elapsed_at.spec_nanos());
    if kind == PendingTimerHandlerEnum::WakeWaitingTasks {
        assert(s.timers[w].elapsed_at.spec_nanos() <= t.elapsed_at.spec_nanos());
        t.elapsed_at.lemma_nanos_injective(s.timers[w].elapsed_at);
        if s.now.spec_nanos() < t.elapsed_at.spec_nanos() {
            assert(clock_result == Some(t.elapsed_at));
        }
        assert(res is Ok);
        assert(advance_model(clock, s, false, acc, answers) == advance_model(clock, s2, true, acc + res->Ok_0.1, answers.drop_first()));
        lemma_after_wake_clock_stays(clock, s2, acc + res->Ok_0.1, answers.drop_first());
    } else {
        assert(i != w);
        let w2 = if w < i { w } else { w - 1 };
        assert(s2.timers == s.timers.remove(i));
        assert(s2.timers[w2] == s.timers[w]);
        assert forall|j: int| 0 <= j < s2.timers.len() && #[trigger] s2.timers[j].handler == PendingTimerHandlerEnum::WakeWaitingTasks
            implies s2.timers[w2].elapsed_at.spec_nanos() <= s2.timers[j].elapsed_at.spec_nanos() by {
            if j < i {
                assert(s2.timers[j] == s.timers[j]);
            } else {
                assert(s2.timers[j] == s.timers[j + 1]);
            }
        }
        assert(is_earliest_wake(s2.timers, w2));
        assert(advance_model(clock, s, false, acc, answers) == advance_model(clock, s2, false, acc + res->Ok_0.1, answers.drop_first()));
        lemma_exact_policy_stops_at_first_wake(clock, s2, acc + res->Ok_0.1, answers.drop_first(), w2);
    }
}

/// No pending timer wakes its waiters.
pub open spec fn no_wake_timer(ts: Seq<TimerEntry<PendingTimerHandlerEnum>>) -> bool {
    forall|j: int| 0 <= j < ts.len() ==> #[trigger] ts[j].handler != PendingTimerHandlerEnum::WakeWaitingTasks
}

/// Whatever the clock policy, with handlers that keep their answer, advancing
/// the clock is stuck exactly when no pending timer wakes its waiters; when
/// one does, advancing either succeeds or fails only because the policy
/// answered before the deadline.
pub proof fn lemma_stuck_iff_no_wake<T, W, C: AdvanceClock>(
    clock: &C,
    s: SchedulerState<T, W, PendingTimerHandlerEnum>,
    acc: Seq<W>,
    answers: Seq<Answer>,
)
    requires
        advance_model(clock, s, false, acc, answers) is Some,
    ensures
        ({
            let (post, res) = advance_model(clock, s, false, acc, answers).unwrap();
            &&& (res matches Err(AdvanceError::Stuck { .. })) <==> no_wake_timer(s.timers)
            &&& res matches Err(AdvanceError::Stuck { blocked_tasks }) ==> blocked_tasks == post.blocked.len() as usize
            &&& !no_wake_timer(s.timers) ==> (res is Ok || res == Err::<Seq<W>, AdvanceError>(AdvanceError::ClockBehindDeadline))
        }),
    decreases answers.len(),
{
    if s.timers.len() > 0 {
        lemma_earliest_exists(s.timers);
        let i = earliest_index(s.timers);
        let t = s.timers[i];
        let s1 = SchedulerState {
            now: s.now,
            next_id: s.next_id,
            ready: s.ready,
            timers: s.timers.remove(i),
            waiters: s.waiters,
            blocked: s.blocked,
        };
        let (kind, clock_result) = answers[0];
        assert(kind == t.handler);
        let (s2, res) = settle_step(s1, t.timer_id, t.elapsed_at, kind, clock_result);
        if kind == PendingTimerHandlerEnum::WakeWaitingTasks {
            assert(!no_wake_timer(s.timers));
            if res is Ok {
                assert(advance_model(clock, s, false, acc, answers) == advance_model(clock, s2, true, acc + res->Ok_0.1, answers.drop_first()));
                lemma_after_wake_clock_stays(clock, s2, acc + res->Ok_0.1, answers.drop_first());
            }
        } else {
            assert(no_wake_timer(s.timers) <==> no_wake_timer(s2.timers)) by {
                assert forall|j: int| 0 <= j < s2.timers.len() implies #[trigger] s2.timers[j] == (if j < i { s.timers[j] } else { s.timers[j + 1] }) by {}
                if !no_wake_timer(s.timers) {
                    let j = choose|j: int| 0 <= j < s.timers.len() && #[trigger] s.timers[j].handler == PendingTimerHandlerEnum::WakeWaitingTasks;
                    assert(j != i);
                    let j2 = if j < i { j } else { j - 1 };
                    assert(s2.timers[j2] == s.timers[j]);
                }
                if !no_wake_timer(s2.timers) {
                    let j = choose|j: int| 0 <= j < s2.timers.len() && #[trigger] s2.timers[j].handler == PendingTimerHandlerEnum::WakeWaitingTasks;
                    let j1 = if j < i { j } else { j + 1 };
                    assert(s.timers[j1] == s2.timers[j]);
                }
            }
            assert(advance_model(clock, s, false, acc, answers) == advance_model(clock, s2, false, acc + res->Ok_0.1, answers.drop_first()));
            lemma_stuck_iff_no_wake(clock, s2, acc + res->Ok_0.1, answers.drop_first());
        }
    }
}

/// Entry `w` wakes its waiters and has the earliest deadline among the
/// timers that do.
pub open spec fn is_earliest_wake(ts: Seq<TimerEntry<PendingTimerHandlerEnum>>, w: int) -> bool {
    &&& 0 <= w < ts.len()
    &&& ts[w].handler == PendingTimerHandlerEnum::WakeWaitingTasks
    &&& forall|j: int| 0 <= j < ts.len() && #[trigger] ts[j].handler == PendingTimerHandlerEnum::WakeWaitingTasks
        ==> ts[w].elapsed_at.spec_nanos() <= ts[j].elapsed_at.spec_nanos()
}

proof fn lemma_wake_minimum_exists(ts: Seq<TimerEntry<PendingTimerHandlerEnum>>)
    requires
        exists|j: int| 0 <= j < ts.len() && #[trigger] ts[j].handler == PendingTimerHandlerEnum::WakeWaitingTasks,
    ensures
        exists|w: int| #[trigger] is_earliest_wake(ts, w),
    decreases ts.len(),
{
    let last = ts.len() - 1;
    let init = ts.drop_last();
    if exists|j: int| 0 <= j < init.len() && #[trigger] init[j].handler == PendingTimerHandlerEnum::WakeWaitingTasks {
        lemma_wake_minimum_exists(init);
        let w = choose|w: int| #[trigger] is_earliest_wake(init, w);
        assert(init[w] == ts[w]);
        if ts[last].handler == PendingTimerHandlerEnum::WakeWaitingTasks && ts[last].elapsed_at.spec_nanos() < ts[w].elapsed_at.spec_nanos() {
            assert forall|j: int| 0 <= j < ts.len() && #[trigger] ts[j].handler == PendingTimerHandlerEnum::WakeWaitingTasks
                implies ts[last].elapsed_at.spec_nanos() <= ts[j].elapsed_at.spec_nanos() by {
                if j < last {
                    assert(init[j] == ts[j]);
                }
            }
            assert(is_earliest_wake(ts, last));
        } else {
            assert forall|j: int| 0 <= j < ts.len() && #[trigger] ts[j].handler == PendingTimerHandlerEnum::WakeWaitingTasks
                implies ts[w].elapsed_at.spec_nanos() <= ts[j].elapsed_at.spec_nanos() by {
                if j < last {
                    assert(init[j] == ts[j]);
                }
            }
            assert(is_earliest_wake(ts, w));
        }
    } else {
        assert(ts[last].handler == PendingTimerHandlerEnum::WakeWaitingTasks) by {
            let j = choose|j: int| 0 <= j < ts.len() && #[trigger] ts[j].handler == PendingTimerHandlerEnum::WakeWaitingTasks;
            if j < last {
                assert(init[j] == ts[j]);
            }
        }
        assert forall|j: int| 0 <= j < ts.len() && #[trigger] ts[j].handler == PendingTimerHandlerEnum::WakeWaitingTasks
            implies ts[last].elapsed_at.spec_nanos() <= ts[j].elapsed_at.spec_nanos() by {
            if j < last {
                assert(init[j] == ts[j]);
            }
        }
        assert(is_earliest_wake(ts, last));
    }
}

/// The handlers' and the clock policy's answers are functions of what they
/// are asked: the same handler always gives the same answer, and the policy
/// gives the same instant for the same current time and deadline.
pub open spec fn answers_determined<H: TimerHandler, C: AdvanceClock>(clock: &C) -> bool {
    &&& forall|h: H, k1: PendingTimerHandlerEnum, k2: PendingTimerHandlerEnum|
        #[trigger] call_ensures(H::as_enum, (&h,), k1) && #[trigger] call_ensures(H::as_enum, (&h,), k2) ==> k1 == k2
    &&& forall|n: Instant, e: Instant, x1: Instant, x2: Instant|
        #[trigger] call_ensures(C::advance_clock, (clock, n, e), x1) && #[trigger] call_ensures(C::advance_clock, (clock, n, e), x2)
            ==> x1 == x2
}

/// `AdvanceToNextWake` and handlers that keep their answer answer as
/// functions of what they are asked.
pub proof fn lemma_exact_policy_answers_determined(clock: &AdvanceToNextWake)
    ensures
        answers_determined::<PendingTimerHandlerEnum, AdvanceToNextWake>(clock),
{
}

/// Advancing the clock is deterministic: when the handlers and the clock
/// policy answer as functions of what they are asked, every run from the
/// same state ends in the same state with the same result.
pub proof fn lemma_advance_model_deterministic<T, W, H: TimerHandler, C: AdvanceClock>(
    clock: &C,
    s: SchedulerState<T, W, H>,
    woke: bool,
    acc: Seq<W>,
    answers1: Seq<Answer>,
    answers2: Seq<Answer>,
)
    requires
        answers_determined::<H, C>(clock),
        advance_model(clock, s, woke, acc, answers1) is Some,
        advance_model(clock, s, woke, acc, answers2) is Some,
    ensures
        advance_model(clock, s, woke, acc, answers1) == advance_model(clock, s, woke, acc, answers2),
    decreases answers1.len(),
{
    if !(woke && !some_timer_due(s.timers, s.now)) && s.timers.len() > 0 {
        let i = earliest_index(s.timers);
        let t = s.timers[i];
        let (k1, c1) = answers1[0];
        let (k2, c2) = answers2[0];
        assert(call_ensures(H::as_enum, (&t.handler,), k1) && call_ensures(H::as_enum, (&t.handler,), k2));
        assert(k1 == k2);
        if c1 is Some {
            assert(call_ensures(C::advance_clock, (clock, s.now, t.elapsed_at), c1.unwrap()));
            assert(call_ensures(C::advance_clock, (clock, s.now, t.elapsed_at), c2.unwrap()));
            assert(c1 == c2);
        }
        assert(answers1[0] == answers2[0]);
        let s1 = SchedulerState {
            now: s.now,
            next_id: s.next_id,
            ready: s.ready,
            timers: s.timers.remove(i),
            waiters: s.waiters,
            blocked: s.blocked,
        };
        let (s2, res) = settle_step(s1, t.timer_id, t.elapsed_at, k1, c1);
        if res is Ok {
            lemma_advance_model_deterministic(
                clock,
                s2,
                woke || res->Ok_0.0,
                acc + res->Ok_0.1,
                answers1.drop_first(),
                answers2.drop_first(),
            );
        }
    }
}

/// With `AdvanceToNextWake` and handlers that keep their answer, advancing
/// the clock succeeds as soon as some pending timer wakes its waiters, and
/// stops exactly at the earliest deadline among those timers (the clock
/// stays where it is when that deadline has passed already).
pub proof fn lemma_advance_lands_on_earliest_wake<T, W>(
    clock: &AdvanceToNextWake,
    pre: SchedulerState<T, W, PendingTimerHandlerEnum>,
    post: SchedulerState<T, W, PendingTimerHandlerEnum>,
    r: Result<Vec<W>, AdvanceError>,
    w: int,
)
    requires
        advanced(clock, pre, post, r),
        is_earliest_wake(pre.timers, w),
    ensures
        r is Ok,
        post.now == (if pre.now.spec_nanos() < pre.timers[w].elapsed_at.spec_nanos() {
            pre.timers[w].elapsed_at
        } else {
            pre.now
        }),
{
    let answers = choose|answers: Seq<Answer>| #[trigger] advance_model(clock, pre, false, Seq::<W>::empty(), answers)
        == Some((post, advance_result_view(r)));
    lemma_exact_policy_stops_at_first_wake(clock, pre, Seq::<W>::empty(), answers, w);
}

/// Whatever the clock policy, with handlers that keep their answer,
/// `advance_clock` is stuck exactly when no pending timer wakes its waiters;
/// when one does, it succeeds or fails only because the policy answered
/// before the deadline.
pub proof fn lemma_advance_stuck_iff_no_wake<T, W, C: AdvanceClock>(
    clock: &C,
    pre: SchedulerState<T, W, PendingTimerHandlerEnum>,
    post: SchedulerState<T, W, PendingTimerHandlerEnum>,
    r: Result<Vec<W>, AdvanceError>,
)
    requires
        advanced(clock, pre, post, r),
    ensures
        (r matches Err(AdvanceError::Stuck { .. })) <==> no_wake_timer(pre.timers),
        r matches Err(AdvanceError::Stuck { blocked_tasks }) ==> blocked_tasks == post.blocked.len() as usize,
        !no_wake_timer(pre.timers) ==> (r is Ok || r == Err::<Vec<W>, AdvanceError>(AdvanceError::ClockBehindDeadline)),
{
    let answers = choose|answers: Seq<Answer>| #[trigger] advance_model(clock, pre, false, Seq::<W>::empty(), answers)
        == Some((post, advance_result_view(r)));
    lemma_stuck_iff_no_wake(clock, pre, Seq::<W>::empty(), answers);
}

/// Fully deterministic: when the handlers and the clock policy answer as
/// functions of what they are asked (as `AdvanceToNextWake` and fixed handlers
/// do), two runs of `advance_clock` from the same state end in the same state
/// and hand back the same wakers.
pub proof fn lemma_advance_is_deterministic<T, W, H: TimerHandler, C: AdvanceClock>(
    clock: &C,
    pre: SchedulerState<T, W, H>,
    post1: SchedulerState<T, W, H>,
    r1: Result<Vec<W>, AdvanceError>,
    post2: SchedulerState<T, W, H>,
    r2: Result<Vec<W>, AdvanceError>,
)
    requires
        answers_determined::<H, C>(clock),
        advanced(clock, pre, post1, r1),
        advanced(clock, pre, post2, r2),
    ensures
        post1 == post2,
        advance_result_view(r1) == advance_result_view(r2),
{
    let a1 = choose|answers: Seq<Answer>| #[trigger] advance_model(clock, pre, false, Seq::<W>::empty(), answers)
        == Some((post1, advance_result_view(r1)));
    let a2 = choose|answers: Seq<Answer>| #[trigger] advance_model(clock, pre, false, Seq::<W>::empty(), answers)
        == Some((post2, advance_result_view(r2)));
    lemma_advance_model_deterministic(clock, pre, false, Seq::<W>::empty(), a1, a2);
}

/// Fully deterministic, for a whole round of `block_on` after the main future
/// stayed pending (`finish_round`): from the same state, with the same timer
/// registrations, and handlers and a clock policy that answer as functions of
/// what they are asked, two rounds end in the same state and hand back the
/// same wakers.
pub proof fn lemma_round_is_deterministic<T, W, H: TimerHandler, C: AdvanceClock>(
    clock: &C,
    pre: SchedulerState<T, W, H>,
    pending: Seq<PendingTimer<W, H>>,
    post1: SchedulerState<T, W, H>,
    r1: Result<Vec<W>, AdvanceError>,
    post2: SchedulerState<T, W, H>,
    r2: Result<Vec<W>, AdvanceError>,
)
    requires
        answers_determined::<H, C>(clock),
        round(clock, pre, pending, post1, r1),
        round(clock, pre, pending, post2, r2),
    ensures
        post1 == post2,
        advance_result_view(r1) == advance_result_view(r2),
{
    if pre.ready.len() == 0 {
        lemma_advance_is_deterministic(clock, registered_state(pre, pending), post1, r1, post2, r2);
    }
}

/// The virtual clock never goes back across any sequence of calls: when each
/// call keeps it or moves it forward, every later reading is at least every
/// earlier one.
pub proof fn lemma_clock_never_goes_back<T, W, H>(states: Seq<SchedulerState<T, W, H>>)
    requires
        forall|i: int| #![trigger states[i]] 0 < i < states.len() ==> clock_kept_or_forward(states[i - 1], states[i]),
    ensures
        forall|i: int, j: int| 0 <= i <= j < states.len() ==> #[trigger] states[i].now.spec_nanos() <= #[trigger] states[j].now.spec_nanos(),
    decreases states.len(),
{
    if states.len() > 1 {
        let init = states.drop_last();
        assert forall|i: int| #![trigger init[i]] 0 < i < init.len() implies clock_kept_or_forward(init[i - 1], init[i]) by {
            assert(clock_kept_or_forward(states[i - 1], states[i]));
        }
        lemma_clock_never_goes_back(init);
        let last = states.len() - 1;
        assert(clock_kept_or_forward(states[last - 1], states[last]));
        assert forall|i: int, j: int| 0 <= i <= j < states.len() implies #[trigger] states[i].now.spec_nanos() <= #[trigger] states[j].now.spec_nanos() by {
            if j < last {
                assert(init[i] == states[i] && init[j] == states[j]);
            } else if i < last {
                assert(init[i] == states[i] && init[last - 1] == states[last - 1]);
                assert(init[i].now.spec_nanos() <= init[last - 1].now.spec_nanos());
            }
        }
    }
}

/// Ids are handed out in counting order: over any sequence of calls on a
/// runtime, each of which keeps the id counter or hands out its value
/// (`id_step`), the ids handed out are the counter's start value, then the
/// next one, and so on; from a fresh runtime (counter at 0) they are
/// 0, 1, 2, ..., so no id is ever handed out twice.
pub proof fn lemma_ids_handed_out_in_order<T, W, H>(states: Seq<SchedulerState<T, W, H>>, handed: Seq<Option<u64>>)
    requires
        states.len() == handed.len() + 1,
        forall|i: int| #![trigger handed[i]] 0 <= i < handed.len() ==> id_step(states[i], states[i + 1], handed[i]),
    ensures
        handed_ids(handed).len() == states.last().next_id - states[0].next_id,
        forall|k: int| 0 <= k < handed_ids(handed).len() ==> #[trigger] handed_ids(handed)[k] == states[0].next_id + k,
    decreases handed.len(),
{
    if handed.len() > 0 {
        let n = handed.len() - 1;
        let hs = handed.drop_last();
        let ss = states.drop_last();
        assert forall|i: int| #![trigger hs[i]] 0 <= i < hs.len() implies id_step(ss[i], ss[i + 1], hs[i]) by {
            assert(id_step(states[i], states[i + 1], handed[i]));
        }
        lemma_ids_handed_out_in_order(ss, hs);
        assert(id_step(states[n], states[n + 1], handed[n]));
        assert(ss.last() == states[n]);
    }
}

/// `sleep(d)` is `sleep_until(now + d)`: from the same state, the timer that
/// `sleep` hands out (its contract: the next id, a deadline `d` after now) and
/// the one that `sleep_until` hands out for the instant `d` after now (the
/// next id, that deadline) are the same timer.
pub proof fn lemma_sleep_is_sleep_until_now_plus<T, W, H>(
    pre: SchedulerState<T, W, H>,
    duration_nanos: nat,
    slept: Timer,
    until: Timer,
)
    requires
        slept.timer_id == pre.next_id,
        slept.deadline.spec_nanos() == pre.now.spec_nanos() + duration_nanos,
        until.timer_id == pre.next_id,
        until.deadline.spec_nanos() == pre.now.spec_nanos() + duration_nanos,
    ensures
        slept == until,
{
    slept.deadline.lemma_nanos_injective(until.deadline);
}

/// Waking unblocks exactly the blocked tasks that some request names: such a
/// task leaves the blocked set and joins the ready queue (behind the tasks that
/// were ready already), whatever other requests come before or after it; a
/// blocked task that no request names stays blocked, unchanged.
pub proof fn lemma_wakes_unblock_exactly_the_named<T>(ready: Seq<T>, blocked: Map<u64, T>, ids: Seq<u64>)
    ensures
        ({
            let (r, b) = apply_wakes(ready, blocked, ids);
            &&& forall|k: u64| #[trigger] b.contains_key(k) <==> (blocked.contains_key(k) && !ids.contains(k))
            &&& forall|k: u64| #[trigger] b.contains_key(k) ==> b[k] == blocked[k]
            &&& forall|k: u64| #[trigger] blocked.contains_key(k) && ids.contains(k) ==> r.contains(blocked[k])
            &&& r.len() >= ready.len()
            &&& r.subrange(0, ready.len() as int) == ready
        }),
    decreases ids.len(),
{
    let (r, b) = apply_wakes(ready, blocked, ids);
    if ids.len() > 0 {
        let prev_ids = ids.drop_last();
        let id = ids.last();
        lemma_wakes_unblock_exactly_the_named(ready, blocked, prev_ids);
        let (r0, b0) = apply_wakes(ready, blocked, prev_ids);
        assert forall|k: u64| ids.contains(k) <==> (prev_ids.contains(k) || k == id) by {
            if ids.contains(k) {
                let j = choose|j: int| 0 <= j < ids.len() && ids[j] == k;
                if j < ids.len() - 1 {
                    assert(prev_ids[j] == k);
                }
            }
            if prev_ids.contains(k) {
                let j = choose|j: int| 0 <= j < prev_ids.len() && prev_ids[j] == k;
                assert(ids[j] == k);
            }
            if k == id {
                assert(ids[ids.len() - 1] == k);
            }
        }
        if b0.contains_key(id) {
            assert(r == r0.push(b0[id]));
            assert forall|k: u64| #[trigger] blocked.contains_key(k) && ids.contains(k) implies r.contains(blocked[k]) by {
                if k == id {
                    assert(r[r0.len() as int] == blocked[k]);
                } else {
                    let j = choose|j: int| 0 <= j < r0.len() && r0[j] == blocked[k];
                    assert(r[j] == blocked[k]);
                }
            }
            assert(r.subrange(0, ready.len() as int) =~= r0.subrange(0, ready.len() as int));
        } else {
            assert(r == r0);
        }
    }
}

/// A wake request for a task that is not blocked at that point changes
/// nothing, wherever it stands among the requests: the requests after it are
/// handled as if it were not there.
pub proof fn lemma_unblocked_wake_changes_nothing_anywhere<T>(
    ready: Seq<T>,
    blocked: Map<u64, T>,
    ids1: Seq<u64>,
    id: u64,
    ids2: Seq<u64>,
)
    requires
        !apply_wakes(ready, blocked, ids1).1.contains_key(id),
    ensures
        apply_wakes(ready, blocked, ids1.push(id) + ids2) == apply_wakes(ready, blocked, ids1 + ids2),
    decreases ids2.len(),
{
    if ids2.len() == 0 {
        assert(ids1.push(id) + ids2 =~= ids1.push(id));
        assert(ids1 + ids2 =~= ids1);
        lemma_wake_of_unblocked_is_noop(ready, blocked, ids1, id);
    } else {
        lemma_unblocked_wake_changes_nothing_anywhere(ready, blocked, ids1, id, ids2.drop_last());
        assert((ids1.push(id) + ids2).drop_last() =~= ids1.push(id) + ids2.drop_last());
        assert((ids1 + ids2).drop_last() =~= ids1 + ids2.drop_last());
        assert((ids1.push(id) + ids2).last() == ids2.last());
        assert((ids1 + ids2).last() == ids2.last());
    }
}

/// Some waiter in `ws` belongs to task `k`.
pub open spec fn waits_on<W>(ws: Seq<Waiter<W>>, k: u64) -> bool {
    exists|j: int| 0 <= j < ws.len() && #[trigger] ws[j].task_id == Some(k)
}

/// Cancelling drops exactly the blocked tasks that some waiter belongs to,
/// wherever that waiter stands among the waiters; every other blocked task
/// stays, unchanged.
pub proof fn lemma_cancel_drops_exactly_the_waiting<T, W>(blocked: Map<u64, T>, ws: Seq<Waiter<W>>)
    ensures
        forall|k: u64| #[trigger] cancel_waiting(blocked, ws).contains_key(k) <==> (blocked.contains_key(k) && !waits_on(ws, k)),
        forall|k: u64| #[trigger] cancel_waiting(blocked, ws).contains_key(k) ==> cancel_waiting(blocked, ws)[k] == blocked[k],
    decreases ws.len(),
{
    lemma_cancel_waiting_shrinks(blocked, ws);
    if ws.len() > 0 {
        let prev = ws.drop_last();
        lemma_cancel_drops_exactly_the_waiting(blocked, prev);
        assert forall|k: u64| waits_on(ws, k) <==> (waits_on(prev, k) || ws.last().task_id == Some(k)) by {
            if waits_on(ws, k) {
                let j = choose|j: int| 0 <= j < ws.len() && #[trigger] ws[j].task_id == Some(k);
                if j < ws.len() - 1 {
                    assert(prev[j] == ws[j]);
                }
            }
            if waits_on(prev, k) {
                let j = choose|j: int| 0 <= j < prev.len() && #[trigger] prev[j].task_id == Some(k);
                assert(ws[j] == prev[j]);
            }
            if ws.last().task_id == Some(k) {
                assert(ws[ws.len() - 1].task_id == Some(k));
            }
        }
        let b0 = cancel_waiting(blocked, prev);
        assert forall|k: u64| #[trigger] cancel_waiting(blocked, ws).contains_key(k) <==> (blocked.contains_key(k) && !waits_on(ws, k)) by {
            assert(b0.contains_key(k) <==> (blocked.contains_key(k) && !waits_on(prev, k)));
        }
    } else {
        assert forall|k: u64| !waits_on(ws, k) by {}
    }
}

/// A waiter that belongs to no task (such as the main future's) changes
/// nothing when cancelling, wherever it stands among the waiters.
pub proof fn lemma_taskless_waiter_changes_nothing<T, W>(
    blocked: Map<u64, T>,
    ws1: Seq<Waiter<W>>,
    w: Waiter<W>,
    ws2: Seq<Waiter<W>>,
)
    requires
        w.task_id is None,
    ensures
        cancel_waiting(blocked, ws1.push(w) + ws2) == cancel_waiting(blocked, ws1 + ws2),
{
    let a = ws1.push(w) + ws2;
    let c = ws1 + ws2;
    lemma_cancel_drops_exactly_the_waiting(blocked, a);
    lemma_cancel_drops_exactly_the_waiting(blocked, c);
    assert forall|k: u64| waits_on(a, k) <==> waits_on(c, k) by {
        if waits_on(a, k) {
            let j = choose|j: int| 0 <= j < a.len() && #[trigger] a[j].task_id == Some(k);
            if j < ws1.len() {
                assert(c[j] == a[j]);
            } else {
                assert(j > ws1.len());
                assert(c[j - 1] == a[j]);
            }
        }
        if waits_on(c, k) {
            let j = choose|j: int| 0 <= j < c.len() && #[trigger] c[j].task_id == Some(k);
            if j < ws1.len() {
                assert(a[j] == c[j]);
            } else {
                assert(a[j + 1] == c[j]);
            }
        }
    }
    assert(cancel_waiting(blocked, a) =~= cancel_waiting(blocked, c));
}

} // verus!
