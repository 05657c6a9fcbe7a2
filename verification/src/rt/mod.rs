//! The runtime's scheduler: its virtual clock, the tasks ready to be polled,
//! the blocked tasks and the pending timers.
//!
//! The scheduler owns the tasks (of any type `T`) and the wakers (of any type
//! `W`) registered on timers, but never polls a task nor calls a waker: the
//! caller polls the tasks that it takes out of the ready queue, reports those
//! still pending, and calls the wakers that advancing the clock hands back.

pub mod clock;
pub mod laws;
pub mod model;
pub mod task;

use std::collections::{HashMap, VecDeque};
use vstd::prelude::*;

use crate::rt::clock::AdvanceClock;
use crate::rt::task::WakeTask;
use crate::time::instant::{Instant, MAX_NANOS};
use crate::rt::laws::waits_on;
use crate::rt::model::{clock_kept_or_forward, id_step, round, advanced, advance_model, advance_result_view, answer_fits, registered_state, lemma_earliest_index_unique, lemma_settled_by_is_step, Answer, SchedulerState};
use crate::time::timer::{PendingTimer, PendingTimerHandlerEnum, Timer, TimerEntry, TimerHandler, Waiter};

verus! {

broadcast use vstd::std_specs::hash::group_hash_axioms;

/// Why the clock could not be advanced (the runtime cannot go on).
#[derive(Clone, Copy, Debug, PartialEq, Eq, Structural)]
pub enum AdvanceError {
    /// The main future is pending, no task is ready and no timer is pending:
    /// nothing can make progress. Holds the number of blocked tasks.
    Stuck { blocked_tasks: usize },
    /// The clock policy answered with an instant before the deadline of the
    /// timer that was due.
    ClockBehindDeadline,
}

/// The tasks woken by a sequence of wake requests, in order: each request
/// whose task is blocked moves it to the back of the ready queue; a request
/// for a task that is not blocked (already woken, or unknown) does nothing.
pub open spec fn apply_wakes<T>(ready: Seq<T>, blocked: Map<u64, T>, ids: Seq<u64>) -> (Seq<T>, Map<u64, T>)
    decreases ids.len(),
{
    if ids.len() == 0 {
        (ready, blocked)
    } else {
        let (r, b) = apply_wakes(ready, blocked, ids.drop_last());
        let id = ids.last();
        if b.contains_key(id) {
            (r.push(b[id]), b.remove(id))
        } else {
            (r, b)
        }
    }
}

/// The waiters registered on timer `id` in a map of waiter lists (none when
/// the timer has no entry).
pub open spec fn waiters_at<W>(m: Map<u64, Seq<Waiter<W>>>, id: u64) -> Seq<Waiter<W>> {
    if m.contains_key(id) {
        m[id]
    } else {
        Seq::empty()
    }
}

/// The waiter that a timer registration adds.
pub open spec fn waiter_of<W, H>(p: PendingTimer<W, H>) -> Waiter<W> {
    Waiter { task_id: p.waiting_task, waker: p.waker }
}

/// The timer queue entry that a timer registration adds.
pub open spec fn entry_of<W, H>(p: PendingTimer<W, H>) -> TimerEntry<H> {
    TimerEntry { timer_id: p.timer_id, elapsed_at: p.elapsed_at, handler: p.handler }
}

/// The waiter lists after a sequence of timer registrations: each adds its
/// waker at the end of its timer's list.
pub open spec fn register_waiters<W, H>(m: Map<u64, Seq<Waiter<W>>>, ps: Seq<PendingTimer<W, H>>) -> Map<u64, Seq<Waiter<W>>>
    decreases ps.len(),
{
    if ps.len() == 0 {
        m
    } else {
        let prev = register_waiters(m, ps.drop_last());
        let p = ps.last();
        prev.insert(p.timer_id, waiters_at(prev, p.timer_id).push(waiter_of(p)))
    }
}

/// The blocked tasks left after cancelling the tasks that wait through `ws`.
pub open spec fn cancel_waiting<T, W>(blocked: Map<u64, T>, ws: Seq<Waiter<W>>) -> Map<u64, T>
    decreases ws.len(),
{
    if ws.len() == 0 {
        blocked
    } else {
        let b = cancel_waiting(blocked, ws.drop_last());
        match ws.last().task_id {
            Some(id) => b.remove(id),
            None => b,
        }
    }
}

/// The wakers of a list of waiters, in order.
pub open spec fn wakers_of<W>(ws: Seq<Waiter<W>>) -> Seq<W> {
    ws.map_values(|w: Waiter<W>| w.waker)
}

/// Entry `i` is the earliest pending timer, and the first one among those
/// with the same deadline.
pub open spec fn is_first_earliest<H>(ts: Seq<TimerEntry<H>>, i: int) -> bool {
    &&& 0 <= i < ts.len()
    &&& forall|j: int| 0 <= j < ts.len() ==> ts[i].elapsed_at.spec_nanos() <= #[trigger] ts[j].elapsed_at.spec_nanos()
    &&& forall|j: int| 0 <= j < i ==> ts[i].elapsed_at.spec_nanos() < #[trigger] ts[j].elapsed_at.spec_nanos()
}

/// Some pending timer has reached its deadline at virtual time `now`.
pub open spec fn some_timer_due<H>(ts: Seq<TimerEntry<H>>, now: Instant) -> bool {
    exists|j: int| 0 <= j < ts.len() && #[trigger] ts[j].elapsed_at.spec_nanos() <= now.spec_nanos()
}

/// The scheduler state of a runtime.
pub struct RuntimeInner<T, W, H> {
    now: Instant,
    next_task_id: u64,
    ready_to_poll_tasks: VecDeque<T>,
    pending_timers: Vec<TimerEntry<H>>,
    wakers_by_timer_id: HashMap<u64, Vec<Waiter<W>>>,
    blocked_tasks_by_id: HashMap<u64, T>,
}

impl<T, W, H> RuntimeInner<T, W, H> {
    /// Every blocked task carries an id that was handed out already.
    #[verifier::type_invariant]
    spec fn ids_handed_out(self) -> bool {
        forall|k: u64| #[trigger] self.blocked_tasks_by_id@.contains_key(k) ==> k < self.next_task_id
    }

    /// The current virtual time.
    pub closed spec fn spec_now(&self) -> Instant {
        self.now
    }

    /// The id that the next poll or timer gets.
    pub closed spec fn spec_next_id(&self) -> u64 {
        self.next_task_id
    }

    /// The tasks ready to be polled, front first.
    pub closed spec fn spec_ready(&self) -> Seq<T> {
        self.ready_to_poll_tasks@
    }

    /// The pending timers, in the order in which they were registered.
    pub closed spec fn spec_timers(&self) -> Seq<TimerEntry<H>> {
        self.pending_timers@
    }

    /// The waiters registered on each timer, in order of registration.
    pub closed spec fn spec_waiters(&self) -> Map<u64, Seq<Waiter<W>>> {
        self.wakers_by_timer_id@.map_values(|v: Vec<Waiter<W>>| v@)
    }

    /// The blocked tasks, by the id that they got when last polled.
    pub closed spec fn spec_blocked(&self) -> Map<u64, T> {
        self.blocked_tasks_by_id@
    }

    /// A runtime whose clock reads `now`, with no task and no timer.
    pub fn new(now: Instant) -> (r: Self)
        ensures
            r.spec_now() == now,
            r.spec_next_id() == 0,
            r.spec_ready() == Seq::<T>::empty(),
            r.spec_timers() == Seq::<TimerEntry<H>>::empty(),
            r.spec_waiters() == Map::<u64, Seq<Waiter<W>>>::empty(),
            r.spec_blocked() == Map::<u64, T>::empty(),
    {
        let r = RuntimeInner {
            now,
            next_task_id: 0,
            ready_to_poll_tasks: VecDeque::new(),
            pending_timers: Vec::new(),
            wakers_by_timer_id: HashMap::new(),
            blocked_tasks_by_id: HashMap::new(),
        };
        assert(r.spec_waiters() =~= Map::<u64, Seq<Waiter<W>>>::empty());
        r
    }

    /// The current virtual time.
    pub fn now(&self) -> (r: Instant)
        ensures
            r == self.spec_now(),
    {
        self.now
    }

    /// The id that the next poll or timer gets.
    pub fn next_id(&self) -> (r: u64)
        ensures
            r == self.spec_next_id(),
    {
        self.next_task_id
    }

    /// The number of tasks ready to be polled.
    pub fn ready_len(&self) -> (r: usize)
        ensures
            r == self.spec_ready().len(),
    {
        self.ready_to_poll_tasks.len()
    }

    /// Whether no task is ready to be polled.
    pub fn ready_is_empty(&self) -> (r: bool)
        ensures
            r == (self.spec_ready().len() == 0),
    {
        self.ready_to_poll_tasks.len() == 0
    }

    /// The number of blocked tasks.
    pub fn blocked_len(&self) -> (r: usize)
        ensures
            r == self.spec_blocked().len(),
    {
        self.blocked_tasks_by_id.len()
    }

    /// The number of pending timer entries.
    pub fn pending_timers_len(&self) -> (r: usize)
        ensures
            r == self.spec_timers().len(),
    {
        self.pending_timers.len()
    }

    /// Whether the task with id `task_id` is blocked.
    pub fn is_blocked(&self, task_id: u64) -> (r: bool)
        ensures
            r == self.spec_blocked().contains_key(task_id),
    {
        self.blocked_tasks_by_id.contains_key(&task_id)
    }

    /// Hands out a fresh id: the counter moves on by one.
    pub fn get_next_id(&mut self) -> (r: u64)
        requires
            old(self).spec_next_id() < u64::MAX,
        ensures
            clock_kept_or_forward(old(self)@, final(self)@),
            id_step(old(self)@, final(self)@, Some(r)),
            r == old(self).spec_next_id(),
            final(self).spec_next_id() == old(self).spec_next_id() + 1,
            final(self).spec_now() == old(self).spec_now(),
            final(self).spec_ready() == old(self).spec_ready(),
            final(self).spec_timers() == old(self).spec_timers(),
            final(self).spec_waiters() == old(self).spec_waiters(),
            final(self).spec_blocked() == old(self).spec_blocked(),
    {
        proof {
            use_type_invariant(&*self);
        }
        let id = self.next_task_id;
        self.next_task_id = id + 1;
        id
    }

    /// A timer that completes at `deadline`, with a fresh id.
    pub fn new_timer(&mut self, deadline: Instant) -> (r: Timer)
        requires
            old(self).spec_next_id() < u64::MAX,
        ensures
            clock_kept_or_forward(old(self)@, final(self)@),
            id_step(old(self)@, final(self)@, Some(r.timer_id)),
            r.timer_id == old(self).spec_next_id(),
            r.deadline == deadline,
            final(self).spec_next_id() == old(self).spec_next_id() + 1,
            final(self).spec_now() == old(self).spec_now(),
            final(self).spec_ready() == old(self).spec_ready(),
            final(self).spec_timers() == old(self).spec_timers(),
            final(self).spec_waiters() == old(self).spec_waiters(),
            final(self).spec_blocked() == old(self).spec_blocked(),
    {
        let timer_id = self.get_next_id();
        Timer { timer_id, deadline }
    }

    /// A timer that completes `duration_nanos` after the current virtual time.
    pub fn sleep(&mut self, duration_nanos: u128) -> (r: Timer)
        requires
            old(self).spec_next_id() < u64::MAX,
            old(self).spec_now().spec_nanos() + duration_nanos <= MAX_NANOS,
        ensures
            clock_kept_or_forward(old(self)@, final(self)@),
            id_step(old(self)@, final(self)@, Some(r.timer_id)),
            r.timer_id == old(self).spec_next_id(),
            r.deadline.spec_nanos() == old(self).spec_now().spec_nanos() + duration_nanos,
            final(self).spec_next_id() == old(self).spec_next_id() + 1,
            final(self).spec_now() == old(self).spec_now(),
            final(self).spec_ready() == old(self).spec_ready(),
            final(self).spec_timers() == old(self).spec_timers(),
            final(self).spec_waiters() == old(self).spec_waiters(),
            final(self).spec_blocked() == old(self).spec_blocked(),
    {
        let deadline = self.now.add_nanos(duration_nanos);
        self.new_timer(deadline)
    }

    /// A timer that completes at the absolute virtual time `deadline`.
    pub fn sleep_until(&mut self, deadline: Instant) -> (r: Timer)
        requires
            old(self).spec_next_id() < u64::MAX,
        ensures
            clock_kept_or_forward(old(self)@, final(self)@),
            id_step(old(self)@, final(self)@, Some(r.timer_id)),
            r.timer_id == old(self).spec_next_id(),
            r.deadline == deadline,
            final(self).spec_next_id() == old(self).spec_next_id() + 1,
            final(self).spec_now() == old(self).spec_now(),
            final(self).spec_ready() == old(self).spec_ready(),
            final(self).spec_timers() == old(self).spec_timers(),
            final(self).spec_waiters() == old(self).spec_waiters(),
            final(self).spec_blocked() == old(self).spec_blocked(),
    {
        self.new_timer(deadline)
    }

    /// Adds a task at the back of the ready queue.
    pub fn spawn(&mut self, task: T)
        ensures
            clock_kept_or_forward(old(self)@, final(self)@),
            id_step(old(self)@, final(self)@, None),
            final(self).spec_ready() == old(self).spec_ready().push(task),
            final(self).spec_now() == old(self).spec_now(),
            final(self).spec_next_id() == old(self).spec_next_id(),
            final(self).spec_timers() == old(self).spec_timers(),
            final(self).spec_waiters() == old(self).spec_waiters(),
            final(self).spec_blocked() == old(self).spec_blocked(),
    {
        proof {
            use_type_invariant(&*self);
        }
        let mut ready = VecDeque::new();
        std::mem::swap(&mut ready, &mut self.ready_to_poll_tasks);
        ready.push_back(task);
        self.ready_to_poll_tasks = ready;
    }
}


impl<T, W, H> RuntimeInner<T, W, H> {
    /// The first step of polling a task: takes the task at the front of the
    /// ready queue and gives it a fresh id, the id under which its waker will
    /// report it. No blocked task carries that id.
    pub fn pop_ready_task(&mut self) -> (r: Option<(u64, T)>)
        requires
            old(self).spec_ready().len() > 0 ==> old(self).spec_next_id() < u64::MAX,
        ensures
            clock_kept_or_forward(old(self)@, final(self)@),
            id_step(old(self)@, final(self)@, match r { Some((id, _)) => Some(id), None => None }),
            old(self).spec_ready().len() == 0 ==> {
                &&& r is None
                &&& final(self).spec_next_id() == old(self).spec_next_id()
                &&& final(self).spec_ready() == old(self).spec_ready()
            },
            old(self).spec_ready().len() > 0 ==> {
                &&& r == Some((old(self).spec_next_id(), old(self).spec_ready()[0]))
                &&& !old(self).spec_blocked().contains_key(old(self).spec_next_id())
                &&& final(self).spec_next_id() == old(self).spec_next_id() + 1
                &&& final(self).spec_ready() == old(self).spec_ready().drop_first()
            },
            final(self).spec_now() == old(self).spec_now(),
            final(self).spec_timers() == old(self).spec_timers(),
            final(self).spec_waiters() == old(self).spec_waiters(),
            final(self).spec_blocked() == old(self).spec_blocked(),
    {
        proof {
            use_type_invariant(&*self);
        }
        let mut ready = VecDeque::new();
        std::mem::swap(&mut ready, &mut self.ready_to_poll_tasks);
        let front = ready.pop_front();
        self.ready_to_poll_tasks = ready;
        match front {
            Some(task) => {
                let id = self.get_next_id();
                assert(self.ready_to_poll_tasks@ =~= old(self).spec_ready().drop_first());
                Some((id, task))
            },
            None => None,
        }
    }

    /// The second step of polling a task: the task, still pending after the
    /// poll, joins the blocked tasks under the id that it was polled with.
    pub fn block_task(&mut self, task_id: u64, task: T)
        requires
            task_id < old(self).spec_next_id(),
        ensures
            clock_kept_or_forward(old(self)@, final(self)@),
            id_step(old(self)@, final(self)@, None),
            final(self).spec_blocked() == old(self).spec_blocked().insert(task_id, task),
            final(self).spec_now() == old(self).spec_now(),
            final(self).spec_next_id() == old(self).spec_next_id(),
            final(self).spec_ready() == old(self).spec_ready(),
            final(self).spec_timers() == old(self).spec_timers(),
            final(self).spec_waiters() == old(self).spec_waiters(),
    {
        proof {
            use_type_invariant(&*self);
        }
        let mut blocked = HashMap::new();
        std::mem::swap(&mut blocked, &mut self.blocked_tasks_by_id);
        blocked.insert(task_id, task);
        self.blocked_tasks_by_id = blocked;
    }

    /// Handles the wake requests made since the last advance of the clock, in
    /// order: each blocked task that a request names moves to the back of the
    /// ready queue; a request for a task that is not blocked does nothing.
    pub fn wake_tasks_since_last_advance_clock(&mut self, wakes: Vec<WakeTask>)
        ensures
            clock_kept_or_forward(old(self)@, final(self)@),
            id_step(old(self)@, final(self)@, None),
            (final(self).spec_ready(), final(self).spec_blocked()) == apply_wakes(
                old(self).spec_ready(),
                old(self).spec_blocked(),
                wakes@.map_values(|w: WakeTask| w.task_id),
            ),
            forall|k: u64| #[trigger] final(self).spec_blocked().contains_key(k) <==> (old(self).spec_blocked().contains_key(k)
                && !wakes@.map_values(|w: WakeTask| w.task_id).contains(k)),
            forall|k: u64| #[trigger] final(self).spec_blocked().contains_key(k) ==> final(self).spec_blocked()[k] == old(self).spec_blocked()[k],
            forall|k: u64| old(self).spec_blocked().contains_key(k) && wakes@.map_values(|w: WakeTask| w.task_id).contains(k)
                ==> #[trigger] final(self).spec_ready().contains(old(self).spec_blocked()[k]),
            final(self).spec_ready().len() >= old(self).spec_ready().len(),
            final(self).spec_ready().subrange(0, old(self).spec_ready().len() as int) == old(self).spec_ready(),
            final(self).spec_now() == old(self).spec_now(),
            final(self).spec_next_id() == old(self).spec_next_id(),
            final(self).spec_timers() == old(self).spec_timers(),
            final(self).spec_waiters() == old(self).spec_waiters(),
    {
        proof {
            use_type_invariant(&*self);
        }
        let ghost ids = wakes@.map_values(|w: WakeTask| w.task_id);
        let ghost ready0 = self.ready_to_poll_tasks@;
        let ghost blocked0 = self.blocked_tasks_by_id@;
        let mut ready = VecDeque::new();
        std::mem::swap(&mut ready, &mut self.ready_to_poll_tasks);
        let mut blocked = HashMap::new();
        std::mem::swap(&mut blocked, &mut self.blocked_tasks_by_id);
        let next_id = self.next_task_id;
        let mut i: usize = 0;
        while i < wakes.len()
            invariant
                i <= wakes.len(),
                ids == wakes@.map_values(|w: WakeTask| w.task_id),
                (ready@, blocked@) == apply_wakes(ready0, blocked0, ids.take(i as int)),
                forall|k: u64| #[trigger] blocked@.contains_key(k) ==> k < next_id,
            decreases wakes.len() - i,
        {
            let id = wakes[i].task_id;
            assert(ids.take(i + 1).drop_last() =~= ids.take(i as int));
            assert(ids.take(i + 1).last() == id);
            match blocked.remove(&id) {
                Some(task) => {
                    ready.push_back(task);
                },
                None => {},
            }
            i = i + 1;
        }
        assert(ids.take(wakes.len() as int) =~= ids);
        proof {
            crate::rt::laws::lemma_wakes_unblock_exactly_the_named(ready0, blocked0, ids);
            let res = apply_wakes(ready0, blocked0, ids);
            assert(ready@ == res.0 && blocked@ == res.1);
            assert(forall|k: u64| #[trigger] res.1.contains_key(k) <==> (blocked0.contains_key(k) && !ids.contains(k)));
            assert(forall|k: u64| #[trigger] res.1.contains_key(k) ==> res.1[k] == blocked0[k]);
        }
        self.blocked_tasks_by_id = blocked;
        self.ready_to_poll_tasks = ready;
    }

    /// Registers the timers polled before their deadline since the last advance
    /// of the clock, in order: each adds its waker at the end of its timer's
    /// list of waiters, and its entry at the end of the timer queue.
    pub fn set_timer_wakers_since_last_advance_clock(&mut self, pending: Vec<PendingTimer<W, H>>)
        ensures
            clock_kept_or_forward(old(self)@, final(self)@),
            id_step(old(self)@, final(self)@, None),
            final(self).spec_timers() == old(self).spec_timers() + pending@.map_values(
                |p: PendingTimer<W, H>| entry_of(p),
            ),
            final(self).spec_waiters() == register_waiters(old(self).spec_waiters(), pending@),
            final(self).spec_now() == old(self).spec_now(),
            final(self).spec_next_id() == old(self).spec_next_id(),
            final(self).spec_ready() == old(self).spec_ready(),
            final(self).spec_blocked() == old(self).spec_blocked(),
    {
        proof {
            use_type_invariant(&*self);
        }
        let ghost ps = pending@;
        let ghost timers0 = self.pending_timers@;
        let ghost waiters0 = self.spec_waiters();
        let mut timers = Vec::new();
        std::mem::swap(&mut timers, &mut self.pending_timers);
        let mut waiters = HashMap::new();
        std::mem::swap(&mut waiters, &mut self.wakers_by_timer_id);
        let mut rest = pending;
        let ghost mut i: int = 0;
        while rest.len() > 0
            invariant
                0 <= i <= ps.len(),
                rest@ == ps.subrange(i, ps.len() as int),
                timers@ == timers0 + ps.take(i).map_values(|p: PendingTimer<W, H>| entry_of(p)),
                waiters@.map_values(|v: Vec<Waiter<W>>| v@) == register_waiters(waiters0, ps.take(i)),
            decreases rest.len(),
        {
            let p = rest.remove(0);
            assert(p == ps[i]);
            assert(ps.take(i + 1).drop_last() =~= ps.take(i));
            assert(ps.take(i + 1).last() == p);
            let PendingTimer { timer_id, elapsed_at, waker, waiting_task, handler } = p;
            let ghost before = waiters@.map_values(|v: Vec<Waiter<W>>| v@);
            let mut list = match waiters.remove(&timer_id) {
                Some(v) => v,
                None => Vec::new(),
            };
            assert(list@ == waiters_at(before, timer_id));
            list.push(Waiter { task_id: waiting_task, waker });
            waiters.insert(timer_id, list);
            assert(waiters@.map_values(|v: Vec<Waiter<W>>| v@) =~= before.insert(
                timer_id,
                waiters_at(before, timer_id).push(waiter_of(p)),
            ));
            timers.push(TimerEntry { timer_id, elapsed_at, handler });
            assert(ps.take(i + 1).map_values(|p: PendingTimer<W, H>| entry_of(p)) =~= ps.take(
                i,
            ).map_values(|p: PendingTimer<W, H>| entry_of(p)).push(entry_of(p)));
            proof {
                i = i + 1;
            }
        }
        assert(ps.take(i) =~= ps);
        self.pending_timers = timers;
        self.wakers_by_timer_id = waiters;
    }
}

/// Cancelling tasks only ever removes blocked tasks: what is left was blocked
/// before, with the same task.
pub proof fn lemma_cancel_waiting_shrinks<T, W>(blocked: Map<u64, T>, ws: Seq<Waiter<W>>)
    ensures
        forall|k: u64| #[trigger] cancel_waiting(blocked, ws).contains_key(k) ==> blocked.contains_key(k)
            && cancel_waiting(blocked, ws)[k] == blocked[k],
    decreases ws.len(),
{
    if ws.len() > 0 {
        lemma_cancel_waiting_shrinks(blocked, ws.drop_last());
        let prev = cancel_waiting(blocked, ws.drop_last());
        assert forall|k: u64| #[trigger] cancel_waiting(blocked, ws).contains_key(k) implies blocked.contains_key(k)
            && cancel_waiting(blocked, ws)[k] == blocked[k] by {
            assert(prev.contains_key(k));
        }
    }
}

impl<T, W, H> RuntimeInner<T, W, H> {
    /// The effect of handling the elapsed timer `timer_id` (due at
    /// `elapsed_at`), given what its handler answered (`kind`) and, for a
    /// wake-up whose deadline is still ahead, the instant that the clock
    /// policy returned (`clock_result`); `r` is what the handling returns: whether a
    /// wake-up happened, and the wakers to call.
    pub open spec fn settled_by(
        self,
        post: Self,
        timer_id: u64,
        elapsed_at: Instant,
        kind: PendingTimerHandlerEnum,
        clock_result: Option<Instant>,
        r: Result<(bool, Vec<W>), AdvanceError>,
    ) -> bool {
        let ws = waiters_at(self.spec_waiters(), timer_id);
        &&& post.spec_next_id() == self.spec_next_id()
        &&& post.spec_ready() == self.spec_ready()
        &&& post.spec_timers() == self.spec_timers()
        &&& match kind {
            PendingTimerHandlerEnum::WakeWaitingTasks => {
                let must_jump = self.spec_now().spec_nanos() < elapsed_at.spec_nanos();
                if must_jump && clock_result.unwrap().spec_nanos() < elapsed_at.spec_nanos() {
                    &&& r == Err::<(bool, Vec<W>), AdvanceError>(AdvanceError::ClockBehindDeadline)
                    &&& post.spec_now() == self.spec_now()
                    &&& post.spec_waiters() == self.spec_waiters()
                    &&& post.spec_blocked() == self.spec_blocked()
                } else {
                    &&& r matches Ok((woke, wakers)) && woke && wakers@ == wakers_of(ws)
                    &&& post.spec_now() == (if must_jump {
                        clock_result.unwrap()
                    } else {
                        self.spec_now()
                    })
                    &&& post.spec_waiters() == self.spec_waiters().remove(timer_id)
                    &&& post.spec_blocked() == self.spec_blocked()
                }
            },
            PendingTimerHandlerEnum::Ignore => {
                &&& r matches Ok((woke, wakers)) && !woke && wakers@.len() == 0
                &&& post.spec_now() == self.spec_now()
                &&& post.spec_waiters() == self.spec_waiters()
                &&& post.spec_blocked() == self.spec_blocked()
            },
            PendingTimerHandlerEnum::CancelWaitingTasks => {
                &&& r matches Ok((woke, wakers)) && !woke && wakers@.len() == 0
                &&& post.spec_now() == self.spec_now()
                &&& post.spec_waiters() == self.spec_waiters().remove(timer_id)
                &&& post.spec_blocked() == cancel_waiting(self.spec_blocked(), ws)
            },
        }
    }

    /// Takes out the waiters registered on timer `timer_id`.
    fn take_waiters(&mut self, timer_id: u64) -> (r: Vec<Waiter<W>>)
        ensures
            r@ == waiters_at(old(self).spec_waiters(), timer_id),
            final(self).spec_waiters() == old(self).spec_waiters().remove(timer_id),
            final(self).spec_now() == old(self).spec_now(),
            final(self).spec_next_id() == old(self).spec_next_id(),
            final(self).spec_ready() == old(self).spec_ready(),
            final(self).spec_timers() == old(self).spec_timers(),
            final(self).spec_blocked() == old(self).spec_blocked(),
    {
        proof {
            use_type_invariant(&*self);
        }
        let mut waiters = HashMap::new();
        std::mem::swap(&mut waiters, &mut self.wakers_by_timer_id);
        let ghost before = waiters@;
        let list = match waiters.remove(&timer_id) {
            Some(v) => v,
            None => Vec::new(),
        };
        assert(waiters@.map_values(|v: Vec<Waiter<W>>| v@) =~= before.map_values(
            |v: Vec<Waiter<W>>| v@,
        ).remove(timer_id));
        self.wakers_by_timer_id = waiters;
        list
    }

    /// Handles the elapsed timer `timer_id`, due at `elapsed_at`, given what
    /// its handler answered and, for a wake-up whose deadline lies after the
    /// current virtual time, the instant that the clock policy returned.
    ///
    /// - A wake-up moves the clock to the policy's answer (refusing an answer
    ///   before the deadline), takes out the timer's waiters and returns their
    ///   wakers, to be called in order.
    /// - An ignored timer changes nothing.
    /// - A cancelling timer takes out its waiters and drops the blocked tasks
    ///   that they belong to.
    pub fn settle_elapsed_timer(
        &mut self,
        timer_id: u64,
        elapsed_at: Instant,
        kind: PendingTimerHandlerEnum,
        clock_result: Option<Instant>,
    ) -> (r: Result<(bool, Vec<W>), AdvanceError>)
        requires
            kind == PendingTimerHandlerEnum::WakeWaitingTasks && old(self).spec_now().spec_nanos()
                < elapsed_at.spec_nanos() ==> clock_result is Some,
        ensures
            clock_kept_or_forward(old(self)@, final(self)@),
            id_step(old(self)@, final(self)@, None),
            old(self).settled_by(*final(self), timer_id, elapsed_at, kind, clock_result, r),
            kind == PendingTimerHandlerEnum::CancelWaitingTasks ==> {
                &&& forall|k: u64| #[trigger] final(self).spec_blocked().contains_key(k) <==> (old(self).spec_blocked().contains_key(k)
                    && !waits_on(waiters_at(old(self).spec_waiters(), timer_id), k))
                &&& forall|k: u64| #[trigger] final(self).spec_blocked().contains_key(k) ==> final(self).spec_blocked()[k] == old(self).spec_blocked()[k]
            },
    {
        proof {
            use_type_invariant(&*self);
        }
        match kind {
            PendingTimerHandlerEnum::WakeWaitingTasks => {
                if self.now.is_before(&elapsed_at) {
                    let new_time = match clock_result {
                        Some(t) => t,
                        None => self.now,
                    };
                    if new_time.is_before(&elapsed_at) {
                        return Err(AdvanceError::ClockBehindDeadline);
                    }
                    self.now = new_time;
                }
                let ghost ws0 = waiters_at(old(self).spec_waiters(), timer_id);
                let mut rest = self.take_waiters(timer_id);
                let mut wakers: Vec<W> = Vec::new();
                let ghost mut k: int = 0;
                while rest.len() > 0
                    invariant
                        0 <= k <= ws0.len(),
                        rest@ == ws0.subrange(k, ws0.len() as int),
                        wakers@ == wakers_of(ws0.take(k)),
                    decreases rest.len(),
                {
                    let w = rest.remove(0);
                    assert(w == ws0[k]);
                    wakers.push(w.waker);
                    assert(wakers_of(ws0.take(k + 1)) =~= wakers_of(ws0.take(k)).push(w.waker));
                    proof {
                        k = k + 1;
                    }
                }
                assert(ws0.take(k) =~= ws0);
                Ok((true, wakers))
            },
            PendingTimerHandlerEnum::Ignore => Ok((false, Vec::new())),
            PendingTimerHandlerEnum::CancelWaitingTasks => {
                let ws = self.take_waiters(timer_id);
                let ghost blocked0 = self.blocked_tasks_by_id@;
                let next_id = self.next_task_id;
                let mut blocked = HashMap::new();
                std::mem::swap(&mut blocked, &mut self.blocked_tasks_by_id);
                let mut i: usize = 0;
                while i < ws.len()
                    invariant
                        i <= ws.len(),
                        blocked@ == cancel_waiting(blocked0, ws@.take(i as int)),
                        forall|k: u64| #[trigger] blocked@.contains_key(k) ==> k < next_id,
                    decreases ws.len() - i,
                {
                    assert(ws@.take(i + 1).drop_last() =~= ws@.take(i as int));
                    assert(ws@.take(i + 1).last() == ws@[i as int]);
                    match ws[i].task_id {
                        Some(id) => {
                            blocked.remove(&id);
                        },
                        None => {},
                    }
                    i = i + 1;
                }
                assert(ws@.take(ws.len() as int) =~= ws@);
                proof {
                    crate::rt::laws::lemma_cancel_drops_exactly_the_waiting(blocked0, ws@);
                }
                self.blocked_tasks_by_id = blocked;
                Ok((false, Vec::new()))
            },
        }
    }

    /// The index of the earliest pending timer (the first registered among
    /// those with the same deadline), or `None` when no timer is pending.
    fn earliest_timer_index(&self) -> (r: Option<usize>)
        ensures
            r is None <==> self.spec_timers().len() == 0,
            r matches Some(i) ==> is_first_earliest(self.spec_timers(), i as int),
    {
        let n = self.pending_timers.len();
        if n == 0 {
            return None;
        }
        let ghost ts = self.pending_timers@;
        let mut best: usize = 0;
        let mut i: usize = 1;
        while i < n
            invariant
                n == ts.len(),
                ts == self.pending_timers@,
                best < i <= n,
                forall|j: int| 0 <= j < i ==> ts[best as int].elapsed_at.spec_nanos() <= #[trigger] ts[j].elapsed_at.spec_nanos(),
                forall|j: int| 0 <= j < best ==> ts[best as int].elapsed_at.spec_nanos() < #[trigger] ts[j].elapsed_at.spec_nanos(),
            decreases n - i,
        {
            if self.pending_timers[i].elapsed_at.is_before(&self.pending_timers[best].elapsed_at) {
                best = i;
            }
            i = i + 1;
        }
        Some(best)
    }

    /// Takes the earliest pending timer out of the timer queue; among timers
    /// with the same deadline, the first registered goes first.
    pub fn pop_earliest_timer(&mut self) -> (r: Option<TimerEntry<H>>)
        ensures
            clock_kept_or_forward(old(self)@, final(self)@),
            id_step(old(self)@, final(self)@, None),
            old(self).spec_timers().len() == 0 ==> r is None && final(self).spec_timers() == old(self).spec_timers(),
            old(self).spec_timers().len() > 0 ==> exists|i: int| {
                &&& is_first_earliest(old(self).spec_timers(), i)
                &&& r == Some(old(self).spec_timers()[i])
                &&& final(self).spec_timers() == old(self).spec_timers().remove(i)
            },
            final(self).spec_now() == old(self).spec_now(),
            final(self).spec_next_id() == old(self).spec_next_id(),
            final(self).spec_ready() == old(self).spec_ready(),
            final(self).spec_waiters() == old(self).spec_waiters(),
            final(self).spec_blocked() == old(self).spec_blocked(),
    {
        proof {
            use_type_invariant(&*self);
        }
        match self.earliest_timer_index() {
            None => None,
            Some(i) => {
                let mut timers = Vec::new();
                std::mem::swap(&mut timers, &mut self.pending_timers);
                let t = timers.remove(i);
                self.pending_timers = timers;
                assert(is_first_earliest(old(self).spec_timers(), i as int));
                Some(t)
            },
        }
    }

    /// Whether some pending timer has reached its deadline at the current
    /// virtual time.
    pub fn next_timer_ready(&self) -> (r: bool)
        ensures
            r == some_timer_due(self.spec_timers(), self.spec_now()),
    {
        let n = self.pending_timers.len();
        let mut i: usize = 0;
        while i < n
            invariant
                n == self.pending_timers@.len(),
                i <= n,
                forall|j: int| 0 <= j < i ==> #[trigger] self.pending_timers@[j].elapsed_at.spec_nanos() > self.now.spec_nanos(),
            decreases n - i,
        {
            if !self.now.is_before(&self.pending_timers[i].elapsed_at) {
                assert(self.pending_timers@[i as int].elapsed_at.spec_nanos() <= self.now.spec_nanos());
                return true;
            }
            i = i + 1;
        }
        false
    }
}

impl<T, W, H: TimerHandler> RuntimeInner<T, W, H> {
    /// Handles one elapsed timer: asks its handler what to do and, for a
    /// wake-up whose deadline lies ahead of the current virtual time, asks the
    /// clock policy where to jump; then settles the timer accordingly. The
    /// clock is consulted exactly in that case.
    pub fn handle_timer_elapsed<C: AdvanceClock>(&mut self, timer: TimerEntry<H>, clock: &C) -> (r: Result<(bool, Vec<W>), AdvanceError>)
        ensures
            clock_kept_or_forward(old(self)@, final(self)@),
            id_step(old(self)@, final(self)@, None),
            exists|kind: PendingTimerHandlerEnum, clock_result: Option<Instant>| {
                &&& (clock_result is Some <==> (kind == PendingTimerHandlerEnum::WakeWaitingTasks
                    && old(self).spec_now().spec_nanos() < timer.elapsed_at.spec_nanos()))
                &&& #[trigger] old(self).settled_by(*final(self), timer.timer_id, timer.elapsed_at, kind, clock_result, r)
                &&& call_ensures(H::as_enum, (&timer.handler,), kind)
                &&& clock_result matches Some(t) ==> call_ensures(C::advance_clock, (clock, old(self).spec_now(), timer.elapsed_at), t)
            },
    {
        let kind = timer.handler.as_enum();
        let clock_result = match kind {
            PendingTimerHandlerEnum::WakeWaitingTasks => {
                if self.now.is_before(&timer.elapsed_at) {
                    Some(clock.advance_clock(self.now, timer.elapsed_at))
                } else {
                    None
                }
            },
            _ => None,
        };
        self.settle_elapsed_timer(timer.timer_id, timer.elapsed_at, kind, clock_result)
    }

    /// Advances the virtual clock once every task is blocked: handles the
    /// pending timers, earliest first, until one of them woke its waiters and
    /// no pending timer is due at the new virtual time. Returns the wakers to
    /// call, in order.
    ///
    /// Fails with `Stuck` when it runs out of pending timers before a wake-up,
    /// and with `ClockBehindDeadline` when the clock policy answers with an
    /// instant before the deadline of the timer being handled.
    ///
    /// The run is the one that `advance_model` describes, for the answers that
    /// the timers' handlers and the clock policy gave along the way.
    pub fn advance_clock<C: AdvanceClock>(&mut self, clock: &C) -> (r: Result<Vec<W>, AdvanceError>)
        ensures
            clock_kept_or_forward(old(self)@, final(self)@),
            id_step(old(self)@, final(self)@, None),
            advanced(clock, old(self)@, final(self)@, r),
            old(self).spec_now().spec_nanos() <= final(self).spec_now().spec_nanos(),
            final(self).spec_next_id() == old(self).spec_next_id(),
            final(self).spec_ready() == old(self).spec_ready(),
            forall|k: u64| #[trigger] final(self).spec_blocked().contains_key(k)
                ==> old(self).spec_blocked().contains_key(k)
                && final(self).spec_blocked()[k] == old(self).spec_blocked()[k],
            r matches Err(AdvanceError::Stuck { blocked_tasks }) ==> {
                &&& final(self).spec_timers().len() == 0
                &&& blocked_tasks == final(self).spec_blocked().len()
            },
            old(self).spec_timers().len() == 0 ==> {
                &&& r == Err::<Vec<W>, AdvanceError>(AdvanceError::Stuck { blocked_tasks: old(self).spec_blocked().len() as usize })
                &&& final(self).spec_now() == old(self).spec_now()
                &&& final(self).spec_blocked() == old(self).spec_blocked()
                &&& final(self).spec_waiters() == old(self).spec_waiters()
            },
            r is Ok ==> {
                &&& final(self).spec_timers().len() < old(self).spec_timers().len()
                &&& !some_timer_due(final(self).spec_timers(), final(self).spec_now())
            },
    {
        let mut woken: Vec<W> = Vec::new();
        let mut woke = false;
        let ghost mut answers: Seq<Answer> = Seq::empty();
        loop
            invariant
                old(self).spec_now().spec_nanos() <= self.spec_now().spec_nanos(),
                self.spec_next_id() == old(self).spec_next_id(),
                self.spec_ready() == old(self).spec_ready(),
                self.spec_timers().len() <= old(self).spec_timers().len(),
                woke ==> self.spec_timers().len() < old(self).spec_timers().len(),
                forall|k: u64| #[trigger] self.spec_blocked().contains_key(k)
                    ==> old(self).spec_blocked().contains_key(k)
                    && self.spec_blocked()[k] == old(self).spec_blocked()[k],
                old(self).spec_timers().len() == 0 ==> {
                    &&& self@ == old(self)@
                    &&& !woke
                },
                forall|rest: Seq<Answer>| #[trigger] advance_model(clock, old(self)@, false, Seq::<W>::empty(), answers + rest)
                    == advance_model(clock, self@, woke, woken@, rest),
            decreases self.spec_timers().len(),
        {
            if woke && !self.next_timer_ready() {
                proof {
                    assert(answers + Seq::<Answer>::empty() =~= answers);
                    assert(advance_model(clock, old(self)@, false, Seq::<W>::empty(), answers + Seq::<Answer>::empty())
                        == advance_model(clock, self@, woke, woken@, Seq::<Answer>::empty()));
                }
                return Ok(woken);
            }
            let blocked_tasks = self.blocked_len();
            let ghost before = *self;
            let timer = match self.pop_earliest_timer() {
                Some(timer) => timer,
                None => {
                    proof {
                        assert(self@ =~= before@);
                        assert(answers + Seq::<Answer>::empty() =~= answers);
                        assert(advance_model(clock, old(self)@, false, Seq::<W>::empty(), answers + Seq::<Answer>::empty())
                            == advance_model(clock, self@, woke, woken@, Seq::<Answer>::empty()));
                    }
                    return Err(AdvanceError::Stuck { blocked_tasks });
                },
            };
            let ghost popped = *self;
            let ghost i = choose|i: int| {
                &&& is_first_earliest(before.spec_timers(), i)
                &&& Some(timer) == Some(before.spec_timers()[i])
                &&& popped.spec_timers() == before.spec_timers().remove(i)
            };
            proof {
                lemma_earliest_index_unique(before.spec_timers(), i);
                assert(popped@ =~= SchedulerState {
                    now: before@.now,
                    next_id: before@.next_id,
                    ready: before@.ready,
                    timers: before@.timers.remove(i),
                    waiters: before@.waiters,
                    blocked: before@.blocked,
                });
            }
            let handled = self.handle_timer_elapsed(timer, clock);
            let ghost answer = choose|a: Answer| {
                &&& (a.1 is Some <==> (a.0 == PendingTimerHandlerEnum::WakeWaitingTasks
                    && popped.spec_now().spec_nanos() < timer.elapsed_at.spec_nanos()))
                &&& #[trigger] popped.settled_by(*self, timer.timer_id, timer.elapsed_at, a.0, a.1, handled)
                &&& call_ensures(H::as_enum, (&timer.handler,), a.0)
                &&& a.1 matches Some(t) ==> call_ensures(C::advance_clock, (clock, popped.spec_now(), timer.elapsed_at), t)
            };
            proof {
                let (kind, clock_result) = choose|kind: PendingTimerHandlerEnum, clock_result: Option<Instant>| {
                    &&& (clock_result is Some <==> (kind == PendingTimerHandlerEnum::WakeWaitingTasks
                        && popped.spec_now().spec_nanos() < timer.elapsed_at.spec_nanos()))
                    &&& #[trigger] popped.settled_by(*self, timer.timer_id, timer.elapsed_at, kind, clock_result, handled)
                    &&& call_ensures(H::as_enum, (&timer.handler,), kind)
                    &&& clock_result matches Some(t) ==> call_ensures(C::advance_clock, (clock, popped.spec_now(), timer.elapsed_at), t)
                };
                assert(popped.settled_by(*self, timer.timer_id, timer.elapsed_at, (kind, clock_result).0, (kind, clock_result).1, handled));
                lemma_settled_by_is_step(popped, *self, timer.timer_id, timer.elapsed_at, answer.0, answer.1, handled);
                assert(answer_fits(clock, popped@.now, timer, answer.0, answer.1));
                if answer.0 == PendingTimerHandlerEnum::CancelWaitingTasks {
                    lemma_cancel_waiting_shrinks(
                        popped.spec_blocked(),
                        waiters_at(popped.spec_waiters(), timer.timer_id),
                    );
                }
            }
            match handled {
                Err(e) => {
                    proof {
                        let one = seq![answer];
                        assert(answers.push(answer) =~= answers + one);
                        assert(advance_model(clock, old(self)@, false, Seq::<W>::empty(), answers + one)
                            == advance_model(clock, before@, woke, woken@, one));
                        assert(answers.push(answer) + Seq::<Answer>::empty() =~= answers.push(answer));
                    }
                    return Err(e);
                },
                Ok((unblocked, wakers)) => {
                    let ghost acc0 = woken@;
                    let ghost woke0 = woke;
                    let mut wakers = wakers;
                    let ghost ws = wakers@;
                    woken.append(&mut wakers);
                    if unblocked {
                        woke = true;
                    }
                    proof {
                        assert forall|rest: Seq<Answer>| #[trigger] advance_model(clock, old(self)@, false, Seq::<W>::empty(), answers.push(answer) + rest)
                            == advance_model(clock, self@, woke, woken@, rest) by {
                            let more = seq![answer] + rest;
                            assert(answers.push(answer) + rest =~= answers + more);
                            assert(more.drop_first() =~= rest);
                            assert(more[0] == answer);
                            assert(advance_model(clock, old(self)@, false, Seq::<W>::empty(), answers + more)
                                == advance_model(clock, before@, woke0, acc0, more));
                            assert(woken@ == acc0 + ws);
                        }
                        answers = answers.push(answer);
                    }
                },
            }
        }
    }
}

impl<T, W, H: TimerHandler> RuntimeInner<T, W, H> {
    /// The end of one round of `block_on` once the main future is still
    /// pending: registers the timers polled since the last advance of the
    /// clock, then advances the clock if no task is ready to be polled.
    /// Returns the wakers to call, in order.
    pub fn finish_round<C: AdvanceClock>(&mut self, pending: Vec<PendingTimer<W, H>>, clock: &C) -> (r: Result<Vec<W>, AdvanceError>)
        ensures
            clock_kept_or_forward(old(self)@, final(self)@),
            id_step(old(self)@, final(self)@, None),
            old(self).spec_ready().len() > 0 ==> {
                &&& r matches Ok(wakers) && wakers@.len() == 0
                &&& final(self).spec_timers() == old(self).spec_timers() + pending@.map_values(
                    |p: PendingTimer<W, H>| entry_of(p),
                )
                &&& final(self).spec_waiters() == register_waiters(old(self).spec_waiters(), pending@)
                &&& final(self).spec_now() == old(self).spec_now()
                &&& final(self).spec_blocked() == old(self).spec_blocked()
            },
            old(self).spec_ready().len() == 0 ==> {
                &&& r matches Err(AdvanceError::Stuck { blocked_tasks }) ==> final(self).spec_timers().len() == 0
                    && blocked_tasks == final(self).spec_blocked().len()
                &&& r is Ok ==> !some_timer_due(final(self).spec_timers(), final(self).spec_now())
                &&& (old(self).spec_timers().len() == 0 && pending@.len() == 0) ==> r
                    == Err::<Vec<W>, AdvanceError>(AdvanceError::Stuck { blocked_tasks: old(self).spec_blocked().len() as usize })
            },
            old(self).spec_now().spec_nanos() <= final(self).spec_now().spec_nanos(),
            old(self).spec_ready().len() == 0 ==> advanced(clock, registered_state(old(self)@, pending@), final(self)@, r),
            round(clock, old(self)@, pending@, final(self)@, r),
            final(self).spec_next_id() == old(self).spec_next_id(),
            final(self).spec_ready() == old(self).spec_ready(),
            forall|k: u64| #[trigger] final(self).spec_blocked().contains_key(k)
                ==> old(self).spec_blocked().contains_key(k)
                && final(self).spec_blocked()[k] == old(self).spec_blocked()[k],
    {
        let ghost ps = pending@;
        self.set_timer_wakers_since_last_advance_clock(pending);
        assert(self@ =~= registered_state(old(self)@, ps));
        if self.ready_is_empty() {
            self.advance_clock(clock)
        } else {
            let r: Result<Vec<W>, AdvanceError> = Ok(Vec::new());
            assert(advance_result_view(r) =~~= Ok::<Seq<W>, AdvanceError>(Seq::empty()));
            r
        }
    }
}
} // verus!
