//! Virtual time: instants on the runtime's clock and timers.

pub mod instant;
pub mod timer;

use vstd::prelude::*;

use crate::rt::model::{clock_kept_or_forward, id_step};
use crate::rt::RuntimeInner;
use crate::time::instant::{Instant, MAX_NANOS};
use crate::time::timer::Timer;

verus! {

/// A timer of the runtime `rt` that completes `duration_nanos` after the
/// current virtual time.
pub fn sleep<T, W, H>(rt: &mut RuntimeInner<T, W, H>, duration_nanos: u128) -> (r: Timer)
    requires
        old(rt).spec_next_id() < u64::MAX,
        old(rt).spec_now().spec_nanos() + duration_nanos <= MAX_NANOS,
    ensures
        clock_kept_or_forward(old(rt)@, final(rt)@),
        id_step(old(rt)@, final(rt)@, Some(r.timer_id)),
        r.timer_id == old(rt).spec_next_id(),
        r.deadline.spec_nanos() == old(rt).spec_now().spec_nanos() + duration_nanos,
        final(rt).spec_next_id() == old(rt).spec_next_id() + 1,
        final(rt).spec_now() == old(rt).spec_now(),
        final(rt).spec_ready() == old(rt).spec_ready(),
        final(rt).spec_timers() == old(rt).spec_timers(),
        final(rt).spec_waiters() == old(rt).spec_waiters(),
        final(rt).spec_blocked() == old(rt).spec_blocked(),
{
    rt.sleep(duration_nanos)
}

/// A timer of the runtime `rt` that completes at the absolute virtual time
/// `instant`.
pub fn sleep_until<T, W, H>(rt: &mut RuntimeInner<T, W, H>, instant: Instant) -> (r: Timer)
    requires
        old(rt).spec_next_id() < u64::MAX,
    ensures
        clock_kept_or_forward(old(rt)@, final(rt)@),
        id_step(old(rt)@, final(rt)@, Some(r.timer_id)),
        r.timer_id == old(rt).spec_next_id(),
        r.deadline == instant,
        final(rt).spec_next_id() == old(rt).spec_next_id() + 1,
        final(rt).spec_now() == old(rt).spec_now(),
        final(rt).spec_ready() == old(rt).spec_ready(),
        final(rt).spec_timers() == old(rt).spec_timers(),
        final(rt).spec_waiters() == old(rt).spec_waiters(),
        final(rt).spec_blocked() == old(rt).spec_blocked(),
{
    rt.sleep_until(instant)
}

} // verus!
