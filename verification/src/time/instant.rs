use vstd::prelude::*;

use crate::rt::RuntimeInner;

verus! {

/// The largest number of nanoseconds that a `std::time::Duration` can hold:
/// `u64::MAX` seconds plus 999_999_999 nanoseconds.
pub const MAX_NANOS: u128 = 18_446_744_073_709_551_615_999_999_999u128;

/// An instant on sittard's virtual clock, counted in nanoseconds from the
/// clock's origin.
///
/// Every instant lies at most `MAX_NANOS` after the origin, so the distance
/// between two instants always fits in a `std::time::Duration`.
/// Durations are handled as whole nanoseconds (`u128`).
#[derive(Copy, Clone, Debug, PartialEq, Eq, Structural, PartialOrd, Ord, Hash)]
pub struct Instant {
    nanos: u128,
}

/// The distance from `earlier` to `later`, or zero when `earlier` is not
/// before `later` (the saturating difference of two instants).
pub open spec fn saturating_diff(later: nat, earlier: nat) -> nat {
    if later >= earlier {
        (later - earlier) as nat
    } else {
        0
    }
}

impl Instant {
    #[verifier::type_invariant]
    spec fn bounded(self) -> bool {
        self.nanos <= MAX_NANOS
    }

    /// Nanoseconds from the origin of the clock to this instant.
    pub closed spec fn spec_nanos(self) -> nat {
        self.nanos as nat
    }

    /// Two instants are equal exactly when they lie at the same distance from
    /// the origin.
    pub proof fn lemma_nanos_injective(self, other: Instant)
        ensures
            self.spec_nanos() == other.spec_nanos() <==> self == other,
    {
    }

    /// The instant `nanos` nanoseconds after the origin.
    pub fn from_nanos(nanos: u128) -> (r: Instant)
        requires
            nanos <= MAX_NANOS,
        ensures
            r.spec_nanos() == nanos,
    {
        Instant { nanos }
    }

    /// Nanoseconds from the origin of the clock to this instant.
    pub fn as_nanos(&self) -> (r: u128)
        ensures
            r == self.spec_nanos(),
            r <= MAX_NANOS,
    {
        proof {
            use_type_invariant(self);
        }
        self.nanos
    }

    /// Whether `self` lies strictly before `other`.
    pub fn is_before(&self, other: &Instant) -> (r: bool)
        ensures
            r == (self.spec_nanos() < other.spec_nanos()),
    {
        self.nanos < other.nanos
    }

    /// The instant `duration_nanos` after `self`, or `None` when it would lie
    /// beyond `MAX_NANOS`.
    pub fn checked_add_nanos(&self, duration_nanos: u128) -> (r: Option<Instant>)
        ensures
            r is Some <==> self.spec_nanos() + duration_nanos <= MAX_NANOS,
            r matches Some(i) ==> i.spec_nanos() == self.spec_nanos() + duration_nanos,
    {
        proof {
            use_type_invariant(self);
        }
        if duration_nanos <= MAX_NANOS - self.nanos {
            Some(Instant { nanos: self.nanos + duration_nanos })
        } else {
            None
        }
    }

    /// The instant `duration_nanos` after `self` (`Instant + Duration`).
    pub fn add_nanos(&self, duration_nanos: u128) -> (r: Instant)
        requires
            self.spec_nanos() + duration_nanos <= MAX_NANOS,
        ensures
            r.spec_nanos() == self.spec_nanos() + duration_nanos,
    {
        Instant { nanos: self.nanos + duration_nanos }
    }

    /// The time from `earlier` to `self`, or zero when `earlier` is later than
    /// `self` (`Instant - Instant`).
    pub fn duration_since(&self, earlier: &Instant) -> (r: u128)
        ensures
            r == saturating_diff(self.spec_nanos(), earlier.spec_nanos()),
            r <= MAX_NANOS,
    {
        proof {
            use_type_invariant(self);
            use_type_invariant(earlier);
        }
        if self.nanos >= earlier.nanos {
            self.nanos - earlier.nanos
        } else {
            0
        }
    }

    /// The current virtual time of the runtime `rt`.
    pub fn now<T, W, H>(rt: &RuntimeInner<T, W, H>) -> (r: Instant)
        ensures
            r == rt.spec_now(),
    {
        rt.now()
    }

    /// The time elapsed from `self` to `now`, the current virtual time: zero
    /// when `self` lies in the future.
    pub fn elapsed(&self, now: Instant) -> (r: u128)
        ensures
            r == saturating_diff(now.spec_nanos(), self.spec_nanos()),
    {
        now.duration_since(self)
    }
}

/// Adding a duration to an instant and measuring back gives that duration.
pub proof fn lemma_add_then_measure(start: Instant, later: Instant, duration_nanos: nat)
    requires
        later.spec_nanos() == start.spec_nanos() + duration_nanos,
    ensures
        saturating_diff(later.spec_nanos(), start.spec_nanos()) == duration_nanos,
{
}

/// Measuring from a later instant to an earlier one gives zero.
pub proof fn lemma_measure_backwards_is_zero(earlier: Instant, later: Instant)
    requires
        earlier.spec_nanos() <= later.spec_nanos(),
    ensures
        saturating_diff(earlier.spec_nanos(), later.spec_nanos()) == 0,
{
}

/// Durations between ordered instants add up.
pub proof fn lemma_measures_add_up(a: Instant, b: Instant, c: Instant)
    requires
        a.spec_nanos() <= b.spec_nanos() <= c.spec_nanos(),
    ensures
        saturating_diff(c.spec_nanos(), a.spec_nanos()) == saturating_diff(c.spec_nanos(), b.spec_nanos())
            + saturating_diff(b.spec_nanos(), a.spec_nanos()),
{
}

} // verus!
