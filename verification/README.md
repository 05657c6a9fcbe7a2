# sittard

A sans-IO, tickless, fully deterministic async runtime.

- `src/` is the verified library: the runtime's scheduler (`rt::RuntimeInner`):
  its virtual clock, the queue of tasks ready to be polled, the blocked tasks,
  the pending timers and the wakers registered on them; the clock policies
  (`rt::clock`); virtual instants and timers (`time`). Tasks and wakers are
  generic: the scheduler moves them around but never polls a task nor calls a
  waker. `rt::model` holds the abstract state and the step functions that
  the scheduler follows (`settle_step`, `advance_model`); `rt::laws` holds
  the properties that span several steps.
- `app/` runs futures on top of it: the `Runtime` with its `block_on` loop,
  task wakers, timer futures, `spawn`/`JoinHandle`, `timeout`, the
  thread-local active runtime, the conversion between virtual instants and
  `std::time::Instant`, and the granular clock policy (its jump is computed
  by the verified `rt::clock::granular_jump`).
- `tests/` exercises the library on concrete values.
