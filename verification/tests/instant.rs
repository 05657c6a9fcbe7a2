use sittard::rt::clock::granular_jump;
use sittard::time::instant::MAX_NANOS;
use sittard::time::timer::Timer;
use sittard::{AdvanceClock, AdvanceToNextWake, Instant};

const SEC: u128 = 1_000_000_000;

#[test]
fn instant_roundtrips_its_nanos() {
    let i = Instant::from_nanos(42);
    assert_eq!(i.as_nanos(), 42);
    assert_eq!(Instant::from_nanos(MAX_NANOS).as_nanos(), MAX_NANOS);
}

#[test]
fn max_nanos_is_the_largest_duration() {
    assert_eq!(MAX_NANOS, std::time::Duration::MAX.as_nanos());
}

#[test]
fn instants_order_by_nanos() {
    let a = Instant::from_nanos(5);
    let b = Instant::from_nanos(7);
    assert!(a.is_before(&b));
    assert!(!b.is_before(&a));
    assert!(!a.is_before(&a));
    assert!(a < b);
    assert_eq!(a, Instant::from_nanos(5));
}

#[test]
fn add_then_measure_gives_the_duration() {
    let start = Instant::from_nanos(3 * SEC);
    let later = start.add_nanos(SEC);
    assert_eq!(later.as_nanos(), 4 * SEC);
    assert_eq!(later.duration_since(&start), SEC);
}

#[test]
fn measuring_backwards_saturates_to_zero() {
    let start = Instant::from_nanos(3 * SEC);
    let later = Instant::from_nanos(5 * SEC);
    assert_eq!(start.duration_since(&later), 0);
    assert_eq!(later.elapsed(start), 0);
    assert_eq!(start.elapsed(later), 2 * SEC);
}

#[test]
fn measures_add_up() {
    let a = Instant::from_nanos(1);
    let b = Instant::from_nanos(10);
    let c = Instant::from_nanos(100);
    assert_eq!(c.duration_since(&a), c.duration_since(&b) + b.duration_since(&a));
}

#[test]
fn checked_add_refuses_past_the_latest_instant() {
    let i = Instant::from_nanos(MAX_NANOS - 10);
    assert_eq!(i.checked_add_nanos(10).map(|t| t.as_nanos()), Some(MAX_NANOS));
    assert_eq!(i.checked_add_nanos(11), None);
    assert_eq!(Instant::from_nanos(0).checked_add_nanos(u128::MAX), None);
}

#[test]
fn timer_elapses_at_its_deadline() {
    let t = Timer { timer_id: 3, deadline: Instant::from_nanos(100) };
    assert!(!t.is_elapsed(Instant::from_nanos(99)));
    assert!(t.is_elapsed(Instant::from_nanos(100)));
    assert!(t.is_elapsed(Instant::from_nanos(101)));
}

#[test]
fn exact_policy_jumps_to_the_next_deadline() {
    let now = Instant::from_nanos(SEC);
    let next = Instant::from_nanos(61 * SEC);
    assert_eq!(AdvanceToNextWake.advance_clock(now, next), next);
}

#[test]
fn granular_jump_takes_the_least_whole_number_of_steps() {
    let now = Instant::from_nanos(10);
    // From now: gap 25, steps of 10 -> 3 steps.
    assert_eq!(granular_jump(None, now, Instant::from_nanos(35), 10).map(|t| t.as_nanos()), Some(40));
    // An exact multiple needs no extra step.
    assert_eq!(granular_jump(None, now, Instant::from_nanos(30), 10).map(|t| t.as_nanos()), Some(30));
    // Counted from the last jump rather than from now.
    assert_eq!(granular_jump(Some(Instant::from_nanos(4)), now, Instant::from_nanos(35), 10).map(|t| t.as_nanos()), Some(44));
    // A step longer than the gap is taken whole.
    assert_eq!(granular_jump(None, now, Instant::from_nanos(11), 1_000).map(|t| t.as_nanos()), Some(1_010));
}

#[test]
fn granular_jump_with_a_passed_deadline_stays_on_the_base() {
    let now = Instant::from_nanos(10);
    assert_eq!(granular_jump(Some(Instant::from_nanos(50)), now, Instant::from_nanos(35), 10).map(|t| t.as_nanos()), Some(50));
}

#[test]
fn granular_jump_with_zero_granularity_does_not_move() {
    let now = Instant::from_nanos(10);
    assert_eq!(granular_jump(None, now, Instant::from_nanos(35), 0).map(|t| t.as_nanos()), Some(10));
    assert_eq!(granular_jump(Some(Instant::from_nanos(4)), now, Instant::from_nanos(35), 0).map(|t| t.as_nanos()), Some(10));
}

#[test]
fn granular_jump_refuses_past_the_latest_instant() {
    let now = Instant::from_nanos(MAX_NANOS - 5);
    assert_eq!(granular_jump(None, now, Instant::from_nanos(MAX_NANOS - 4), 10), None);
    assert_eq!(granular_jump(None, now, Instant::from_nanos(MAX_NANOS), 5).map(|t| t.as_nanos()), Some(MAX_NANOS));
}
