use vstd::prelude::*;

use crate::time::instant::{saturating_diff, Instant, MAX_NANOS};

verus! {

/// The policy by which the runtime advances its virtual clock once every task
/// is blocked.
///
/// `advance_clock` receives the current virtual time and the deadline of the
/// earliest pending timer (which lies after `now`) and returns the new virtual
/// time. The runtime refuses an answer that lies before the deadline.
pub trait AdvanceClock {
    fn advance_clock(&self, now: Instant, next_timer_elapsed: Instant) -> Instant;
}

/// Advances the clock to the exact moment at which the next timer elapses.
pub struct AdvanceToNextWake;

impl AdvanceClock for AdvanceToNextWake {
    fn advance_clock(&self, now: Instant, next_timer_elapsed: Instant) -> (r: Instant)
        ensures
            r == next_timer_elapsed,
    {
        next_timer_elapsed
    }
}

/// The number of steps of `granularity` nanoseconds needed to cover `gap`
/// nanoseconds: the least `k` with `k * granularity >= gap`.
pub open spec fn steps_to_cover(gap: nat, granularity: nat) -> nat
    recommends
        granularity > 0,
{
    if gap == 0 {
        0
    } else {
        ((gap - 1) as nat / granularity + 1) as nat
    }
}

/// The instant a granular clock jumps to: from its last jump target (or from
/// `now` when it has not jumped yet), the least whole number of steps of
/// `granularity_nanos` that reaches `next_timer_elapsed`. A zero granularity
/// has no step that moves: the answer is `now` itself, which the runtime then
/// refuses as lying before the deadline. `None` when the instant would lie
/// beyond the latest instant.
pub fn granular_jump(
    last_time_jump_to: Option<Instant>,
    now: Instant,
    next_timer_elapsed: Instant,
    granularity_nanos: u128,
) -> (r: Option<Instant>)
    ensures
        ({
            let base = match last_time_jump_to {
                Some(last) => last,
                None => now,
            };
            let b = base.spec_nanos();
            let gap = saturating_diff(next_timer_elapsed.spec_nanos(), b);
            let g = granularity_nanos as nat;
            &&& g == 0 ==> r == Some(now)
            &&& g > 0 ==> {
                &&& (r is Some <==> b + g * steps_to_cover(gap, g) <= MAX_NANOS)
                &&& r matches Some(t) ==> {
                    &&& t.spec_nanos() == b + g * steps_to_cover(gap, g)
                    &&& next_timer_elapsed.spec_nanos() <= t.spec_nanos()
                    &&& (t.spec_nanos() - b) % (g as int) == 0
                    &&& gap > 0 ==> t.spec_nanos() < next_timer_elapsed.spec_nanos() + g
                }
            }
        }),
{
    let base = match last_time_jump_to {
        Some(last) => last,
        None => now,
    };
    let gap = next_timer_elapsed.duration_since(&base);
    let g = granularity_nanos;
    if g == 0 {
        return Some(now);
    }
    let k: u128 = if gap == 0 { 0 } else { (gap - 1) / g + 1 };
    proof {
        let gi = g as int;
        let ki = k as int;
        if gap > 0 {
            let q = (gap - 1) as int / gi;
            assert(0 <= q && gi * q <= gap - 1 && gap - 1 < gi * q + gi) by (nonlinear_arith)
                requires
                    gi > 0,
                    q == (gap - 1) as int / gi,
                    gap >= 1,
            ;
            assert(gi * ki == gi * q + gi) by (nonlinear_arith)
                requires
                    ki == q + 1,
            ;
            assert((gi * ki) % gi == 0) by (nonlinear_arith)
                requires
                    gi > 0,
            ;
            assert(gap <= MAX_NANOS);
            if q >= 1 {
                assert(gi <= gi * q) by (nonlinear_arith)
                    requires
                        q >= 1,
                        gi > 0,
                ;
                assert(gi * ki <= 2 * MAX_NANOS);
            } else {
                assert(q == 0);
                assert(gi * q == 0) by (nonlinear_arith)
                    requires
                        q == 0,
                ;
                assert(gi * ki == gi);
            }
            assert(gi * ki <= u128::MAX);
        } else {
            assert(gi * ki == 0);
        }
        assert(gap <= MAX_NANOS);
    }
    let step = g * k;
    match base.checked_add_nanos(step) {
        Some(t) => {
            proof {
                assert(t.spec_nanos() - base.spec_nanos() == step);
            }
            Some(t)
        },
        None => None,
    }
}

} // verus!
