use vstd::prelude::*;

use crate::time::instant::Instant;

verus! {

/// What the runtime does with a pending timer when it becomes the earliest one.
#[derive(Clone, Copy, Debug, PartialEq, Eq, Structural)]
pub enum PendingTimerHandlerEnum {
    /// Advance the clock to the deadline (if needed) and wake the waiting tasks.
    WakeWaitingTasks,
    /// The timer no longer matters: drop it without advancing the clock.
    Ignore,
    /// Drop the tasks that wait on the timer, without advancing the clock.
    CancelWaitingTasks,
}

/// The handle through which the runtime learns, when a pending timer is
/// handled, what should happen to it. Its owner may change the answer while
/// the timer is pending (for instance when the timer future is dropped).
pub trait TimerHandler {
    fn as_enum(&self) -> PendingTimerHandlerEnum;
}

/// A handler fixed once and for all.
impl TimerHandler for PendingTimerHandlerEnum {
    fn as_enum(&self) -> (r: PendingTimerHandlerEnum)
        ensures
            r == *self,
    {
        *self
    }
}

/// A timer of the virtual clock: it completes once the clock reaches its
/// deadline.
#[derive(Clone, Copy, Debug, PartialEq, Eq, Structural)]
pub struct Timer {
    pub timer_id: u64,
    pub deadline: Instant,
}

impl Timer {
    /// Whether the timer has completed at virtual time `now`.
    pub fn is_elapsed(&self, now: Instant) -> (r: bool)
        ensures
            r == (self.deadline.spec_nanos() <= now.spec_nanos()),
    {
        !now.is_before(&self.deadline)
    }
}

/// A registration made by a timer that was polled before its deadline: the
/// waker to call once the deadline is reached, the task that waits on it (if
/// the waker belongs to a task of the runtime) and the timer's handler.
pub struct PendingTimer<W, H> {
    pub timer_id: u64,
    pub elapsed_at: Instant,
    pub waker: W,
    pub waiting_task: Option<u64>,
    pub handler: H,
}

/// A pending timer as the runtime's timer queue holds it.
pub struct TimerEntry<H> {
    pub timer_id: u64,
    pub elapsed_at: Instant,
    pub handler: H,
}

/// A waker registered on a timer, with the task it belongs to, if any.
pub struct Waiter<W> {
    pub task_id: Option<u64>,
    pub waker: W,
}

} // verus!
