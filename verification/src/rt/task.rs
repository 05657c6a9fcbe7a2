use vstd::prelude::*;

verus! {

/// A request, made by a task's waker, to move the task from the blocked set
/// back to the queue of tasks ready to be polled.
#[derive(Clone, Copy, Debug, PartialEq, Eq, Structural)]
pub struct WakeTask {
    pub task_id: u64,
}

} // verus!
