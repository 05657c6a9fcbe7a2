//! The abstract state of the scheduler and the step functions that the
//! executable code follows.

use vstd::prelude::*;

use crate::rt::clock::AdvanceClock;
use crate::rt::{cancel_waiting, entry_of, register_waiters, is_first_earliest, some_timer_due, wakers_of, waiters_at, AdvanceError, RuntimeInner};
use crate::time::instant::Instant;
use crate::time::timer::{PendingTimer, PendingTimerHandlerEnum, TimerEntry, TimerHandler, Waiter};

verus! {

/// The abstract state of a scheduler.
#[verifier::ext_equal]
pub struct SchedulerState<T, W, H> {
    /// The virtual time.
    pub now: Instant,
    /// The id that the next poll or timer gets.
    pub next_id: u64,
    /// The tasks ready to be polled, front first.
    pub ready: Seq<T>,
    /// The pending timers, in the order in which they were registered.
    pub timers: Seq<TimerEntry<H>>,
    /// The waiters registered on each timer, in order of registration.
    pub waiters: Map<u64, Seq<Waiter<W>>>,
    /// The blocked tasks, by id.
    pub blocked: Map<u64, T>,
}

impl<T, W, H> View for RuntimeInner<T, W, H> {
    type V = SchedulerState<T, W, H>;

    open spec fn view(&self) -> SchedulerState<T, W, H> {
        SchedulerState {
            now: self.spec_now(),
            next_id: self.spec_next_id(),
            ready: self.spec_ready(),
            timers: self.spec_timers(),
            waiters: self.spec_waiters(),
            blocked: self.spec_blocked(),
        }
    }
}

/// An answer obtained while handling one timer: what its handler said, and
/// what the clock policy said (when it was asked).
pub type Answer = (PendingTimerHandlerEnum, Option<Instant>);

/// The abstract result of handling a timer.
pub open spec fn settle_result_view<W>(r: Result<(bool, Vec<W>), AdvanceError>) -> Result<(bool, Seq<W>), AdvanceError> {
    match r {
        Ok((woke, wakers)) => Ok((woke, wakers@)),
        Err(e) => Err(e),
    }
}

/// The abstract result of advancing the clock.
pub open spec fn advance_result_view<W>(r: Result<Vec<W>, AdvanceError>) -> Result<Seq<W>, AdvanceError> {
    match r {
        Ok(wakers) => Ok(wakers@),
        Err(e) => Err(e),
    }
}

/// Handling the elapsed timer `timer_id`, due at `elapsed_at`, in state `s`,
/// given what its handler answered (`kind`) and, for a wake-up whose deadline
/// lies ahead, what the clock policy answered (`clock_result`): the new state,
/// and whether a wake-up happened together with the wakers to call.
pub open spec fn settle_step<T, W, H>(
    s: SchedulerState<T, W, H>,
    timer_id: u64,
    elapsed_at: Instant,
    kind: PendingTimerHandlerEnum,
    clock_result: Option<Instant>,
) -> (SchedulerState<T, W, H>, Result<(bool, Seq<W>), AdvanceError>) {
    let ws = waiters_at(s.waiters, timer_id);
    match kind {
        PendingTimerHandlerEnum::WakeWaitingTasks => {
            let must_jump = s.now.spec_nanos() < elapsed_at.spec_nanos();
            if must_jump && clock_result.unwrap().spec_nanos() < elapsed_at.spec_nanos() {
                (s, Err(AdvanceError::ClockBehindDeadline))
            } else {
                (
                    SchedulerState {
                        now: if must_jump {
                            clock_result.unwrap()
                        } else {
                            s.now
                        },
                        next_id: s.next_id,
                        ready: s.ready,
                        timers: s.timers,
                        waiters: s.waiters.remove(timer_id),
                        blocked: s.blocked,
                    },
                    Ok((true, wakers_of(ws))),
                )
            }
        },
        PendingTimerHandlerEnum::Ignore => (s, Ok((false, Seq::empty()))),
        PendingTimerHandlerEnum::CancelWaitingTasks => (
            SchedulerState {
                now: s.now,
                next_id: s.next_id,
                ready: s.ready,
                timers: s.timers,
                waiters: s.waiters.remove(timer_id),
                blocked: cancel_waiting(s.blocked, ws),
            },
            Ok((false, Seq::empty())),
        ),
    }
}

/// The state after registering the timers polled before their deadline:
/// each adds its entry at the end of the timer queue and its waker at the end
/// of its timer's waiters.
pub open spec fn registered_state<T, W, H>(s: SchedulerState<T, W, H>, pending: Seq<PendingTimer<W, H>>) -> SchedulerState<T, W, H> {
    SchedulerState {
        now: s.now,
        next_id: s.next_id,
        ready: s.ready,
        timers: s.timers + pending.map_values(|p: PendingTimer<W, H>| entry_of(p)),
        waiters: register_waiters(s.waiters, pending),
        blocked: s.blocked,
    }
}

/// The index of the earliest pending timer, the first registered among those
/// with the same deadline.
pub open spec fn earliest_index<H>(ts: Seq<TimerEntry<H>>) -> int {
    choose|i: int| is_first_earliest(ts, i)
}

/// `kind` and `clock_result` are answers that the handler of timer `t` and the
/// clock policy `clock` may give when `t` is handled at virtual time `now`:
/// the policy is asked exactly for a wake-up whose deadline lies ahead, and is
/// asked to jump from `now` to the deadline.
pub open spec fn answer_fits<C: AdvanceClock, H: TimerHandler>(
    clock: &C,
    now: Instant,
    t: TimerEntry<H>,
    kind: PendingTimerHandlerEnum,
    clock_result: Option<Instant>,
) -> bool {
    &&& call_ensures(H::as_enum, (&t.handler,), kind)
    &&& (clock_result is Some <==> (kind == PendingTimerHandlerEnum::WakeWaitingTasks
        && now.spec_nanos() < t.elapsed_at.spec_nanos()))
    &&& (clock_result matches Some(x) ==> call_ensures(C::advance_clock, (clock, now, t.elapsed_at), x))
}

/// Advancing the clock from state `s`, given the answers obtained, one per
/// timer handled: `woke` tells whether a wake-up already happened and `acc`
/// holds the wakers collected so far.
///
/// Once a wake-up happened and no pending timer is due, advancing stops and
/// returns the wakers. Otherwise the earliest pending timer is taken out and
/// handled; running out of timers before any wake-up is `Stuck`. `None` means
/// that the answers do not fit the run (wrong answer, too few or too many).
pub open spec fn advance_model<T, W, H: TimerHandler, C: AdvanceClock>(
    clock: &C,
    s: SchedulerState<T, W, H>,
    woke: bool,
    acc: Seq<W>,
    answers: Seq<Answer>,
) -> Option<(SchedulerState<T, W, H>, Result<Seq<W>, AdvanceError>)>
    decreases answers.len(),
{
    if woke && !some_timer_due(s.timers, s.now) {
        if answers.len() == 0 {
            Some((s, Ok(acc)))
        } else {
            None
        }
    } else if s.timers.len() == 0 {
        if answers.len() == 0 {
            Some((s, Err(AdvanceError::Stuck { blocked_tasks: s.blocked.len() as usize })))
        } else {
            None
        }
    } else if answers.len() == 0 {
        None
    } else {
        let i = earliest_index(s.timers);
        let t = s.timers[i];
        let s1 = SchedulerState {
            now: s.now,
            next_id: s.next_id,
            ready: s.ready,
            timers: s.timers.remove(i),
            waiters: s.waiters,
            blocked: s.blocked,
        };
        let (kind, clock_result) = answers[0];
        if !answer_fits(clock, s1.now, t, kind, clock_result) {
            None
        } else {
            let (s2, res) = settle_step(s1, t.timer_id, t.elapsed_at, kind, clock_result);
            match res {
                Err(e) => if answers.len() == 1 {
                    Some((s2, Err(e)))
                } else {
                    None
                },
                Ok((w, ws)) => advance_model(clock, s2, woke || w, acc + ws, answers.drop_first()),
            }
        }
    }
}

/// One scheduler step: every operation of `RuntimeInner` leaves the clock
/// where it was or moves it forward.
pub open spec fn clock_kept_or_forward<T, W, H>(pre: SchedulerState<T, W, H>, post: SchedulerState<T, W, H>) -> bool {
    pre.now.spec_nanos() <= post.now.spec_nanos()
}

/// One step's effect on the id counter: either no id is handed out and the
/// counter stays, or the counter's value is handed out and it moves on by one.
pub open spec fn id_step<T, W, H>(pre: SchedulerState<T, W, H>, post: SchedulerState<T, W, H>, handed: Option<u64>) -> bool {
    match handed {
        None => post.next_id == pre.next_id,
        Some(id) => id == pre.next_id && post.next_id == pre.next_id + 1,
    }
}

/// The ids handed out by a sequence of steps, in order.
pub open spec fn handed_ids(handed: Seq<Option<u64>>) -> Seq<u64>
    decreases handed.len(),
{
    if handed.len() == 0 {
        Seq::empty()
    } else {
        let prev = handed_ids(handed.drop_last());
        match handed.last() {
            Some(id) => prev.push(id),
            None => prev,
        }
    }
}

/// Advancing the clock from `pre` can end in `post` returning `r`: for some
/// answers of the handlers and the clock policy, `advance_model` describes
/// that run.
pub open spec fn advanced<T, W, H: TimerHandler, C: AdvanceClock>(
    clock: &C,
    pre: SchedulerState<T, W, H>,
    post: SchedulerState<T, W, H>,
    r: Result<Vec<W>, AdvanceError>,
) -> bool {
    exists|answers: Seq<Answer>| #[trigger] advance_model(clock, pre, false, Seq::<W>::empty(), answers)
        == Some((post, advance_result_view(r)))
}

/// One round of `block_on` after the main future stayed pending, from `pre`
/// with the timer registrations `pending`, can end in `post` returning `r`:
/// the registrations are added; then, when some task is ready, nothing more
/// happens and no waker is returned; otherwise the clock is advanced.
pub open spec fn round<T, W, H: TimerHandler, C: AdvanceClock>(
    clock: &C,
    pre: SchedulerState<T, W, H>,
    pending: Seq<PendingTimer<W, H>>,
    post: SchedulerState<T, W, H>,
    r: Result<Vec<W>, AdvanceError>,
) -> bool {
    if pre.ready.len() > 0 {
        &&& post == registered_state(pre, pending)
        &&& advance_result_view(r) == Ok::<Seq<W>, AdvanceError>(Seq::empty())
    } else {
        advanced(clock, registered_state(pre, pending), post, r)
    }
}

/// Only one pending timer is the first earliest one.
pub proof fn lemma_earliest_index_unique<H>(ts: Seq<TimerEntry<H>>, i: int)
    requires
        is_first_earliest(ts, i),
    ensures
        earliest_index(ts) == i,
{
    let j = earliest_index(ts);
    assert(is_first_earliest(ts, j));
    if j < i {
        assert(ts[i].elapsed_at.spec_nanos() < ts[j].elapsed_at.spec_nanos());
    } else if i < j {
        assert(ts[j].elapsed_at.spec_nanos() < ts[i].elapsed_at.spec_nanos());
    }
}

/// `settled_by` is the step function `settle_step` applied to the states.
pub proof fn lemma_settled_by_is_step<T, W, H>(
    pre: RuntimeInner<T, W, H>,
    post: RuntimeInner<T, W, H>,
    timer_id: u64,
    elapsed_at: Instant,
    kind: PendingTimerHandlerEnum,
    clock_result: Option<Instant>,
    r: Result<(bool, Vec<W>), AdvanceError>,
)
    requires
        pre.settled_by(post, timer_id, elapsed_at, kind, clock_result, r),
    ensures
        settle_step(pre@, timer_id, elapsed_at, kind, clock_result) == (post@, settle_result_view(r)),
{
    let (s, res) = settle_step(pre@, timer_id, elapsed_at, kind, clock_result);
    assert(s =~= post@);
    match r {
        Ok((woke, wakers)) => {
            if !woke {
                assert(wakers@ =~= Seq::<W>::empty());
            }
        },
        Err(e) => {},
    }
    assert(res == settle_result_view(r));
}

} // verus!
