//! A span of time, as the middleware counts it.
//!
//! The same range and arithmetic as `std::time::Duration`, held as one count of
//! nanoseconds so that every quantity a contract speaks of is a plain number.

use vstd::prelude::*;

verus! {

/// The longest span that can be held: `u64::MAX` seconds and 999 999 999
/// nanoseconds.
pub const MAX_NANOS: u128 = 18_446_744_073_709_551_615_999_999_999u128;

/// Nanoseconds in a second.
pub const NANOS_PER_SEC: u128 = 1_000_000_000u128;

/// Nanoseconds in a millisecond.
pub const NANOS_PER_MILLI: u128 = 1_000_000u128;

/// A span of time, with nanosecond resolution.
#[derive(Clone, Copy, Debug, PartialEq, Eq, PartialOrd, Ord, Hash, Structural)]
pub struct Duration {
    nanos: u128,
}

impl View for Duration {
    type V = nat;

    /// The span in nanoseconds.
    closed spec fn view(&self) -> nat {
        self.nanos as nat
    }
}

/// `a` if it is at most `b`, else `b`.
pub open spec fn min_nat(a: nat, b: nat) -> nat {
    if a <= b {
        a
    } else {
        b
    }
}

/// Whole seconds in `nanos`, rounded up.
pub open spec fn ceil_secs(nanos: nat) -> nat {
    ((nanos + 999_999_999) / 1_000_000_000) as nat
}

impl Duration {
    #[verifier::type_invariant]
    spec fn fits(self) -> bool {
        self.nanos <= MAX_NANOS
    }

    /// No time at all.
    pub fn zero() -> (r: Duration)
        ensures
            r@ == 0,
    {
        Duration { nanos: 0 }
    }

    /// `secs` seconds.
    pub fn from_secs(secs: u64) -> (r: Duration)
        ensures
            r@ == secs * 1_000_000_000,
    {
        assert(secs * 1_000_000_000 <= MAX_NANOS) by (nonlinear_arith)
            requires
                secs <= u64::MAX,
        ;
        Duration { nanos: (secs as u128) * NANOS_PER_SEC }
    }

    /// `millis` milliseconds.
    pub fn from_millis(millis: u64) -> (r: Duration)
        ensures
            r@ == millis * 1_000_000,
    {
        assert(millis * 1_000_000 <= MAX_NANOS) by (nonlinear_arith)
            requires
                millis <= u64::MAX,
        ;
        Duration { nanos: (millis as u128) * NANOS_PER_MILLI }
    }

    /// `nanos` nanoseconds.
    pub fn from_nanos(nanos: u64) -> (r: Duration)
        ensures
            r@ == nanos,
    {
        Duration { nanos: nanos as u128 }
    }

    /// The nanoseconds past the last whole second.
    pub fn subsec_nanos(&self) -> (r: u32)
        ensures
            r == self@ % 1_000_000_000,
    {
        (self.nanos % NANOS_PER_SEC) as u32
    }

    /// Whole seconds, the fraction dropped.
    pub fn as_secs(&self) -> (r: u64)
        ensures
            r == self@ / 1_000_000_000,
    {
        proof {
            use_type_invariant(self);
        }
        (self.nanos / NANOS_PER_SEC) as u64
    }

    /// Whole milliseconds, the fraction dropped.
    pub fn as_millis(&self) -> (r: u128)
        ensures
            r == self@ / 1_000_000,
    {
        self.nanos / NANOS_PER_MILLI
    }

    /// Whether the span is empty.
    pub fn is_zero(&self) -> (r: bool)
        ensures
            r == (self@ == 0),
    {
        self.nanos == 0
    }

    /// `self - other`, or zero where `other` is the longer.
    pub fn saturating_sub(self, other: Duration) -> (r: Duration)
        ensures
            r@ == (if self@ >= other@ {
                self@ - other@
            } else {
                0
            }),
    {
        proof {
            use_type_invariant(self);
        }
        if self.nanos >= other.nanos {
            Duration { nanos: self.nanos - other.nanos }
        } else {
            Duration { nanos: 0 }
        }
    }

    /// `self + other`, or the longest span where that would not fit.
    pub fn saturating_add(self, other: Duration) -> (r: Duration)
        ensures
            r@ == min_nat(self@ + other@, MAX_NANOS as nat),
    {
        proof {
            use_type_invariant(self);
            use_type_invariant(other);
        }
        if self.nanos <= MAX_NANOS - other.nanos {
            Duration { nanos: self.nanos + other.nanos }
        } else {
            Duration { nanos: MAX_NANOS }
        }
    }

    /// `self × factor`, or the longest span where that would not fit.
    pub fn saturating_mul(self, factor: u32) -> (r: Duration)
        ensures
            r@ == min_nat((self@ * factor) as nat, MAX_NANOS as nat),
    {
        proof {
            use_type_invariant(self);
        }
        if factor == 0 {
            assert(self@ * factor == 0) by (nonlinear_arith)
                requires
                    factor == 0,
            ;
            return Duration { nanos: 0 };
        }
        let f = factor as u128;
        if self.nanos <= MAX_NANOS / f {
            assert(self.nanos * f <= MAX_NANOS) by (nonlinear_arith)
                requires
                    self.nanos <= MAX_NANOS / f,
                    f > 0,
            ;
            Duration { nanos: self.nanos * f }
        } else {
            assert(self.nanos * f > MAX_NANOS) by (nonlinear_arith)
                requires
                    self.nanos > MAX_NANOS / f,
                    f > 0,
            ;
            Duration { nanos: MAX_NANOS }
        }
    }

    /// The longer of the two.
    pub fn max(self, other: Duration) -> (r: Duration)
        ensures
            r@ == (if self@ >= other@ {
                self@
            } else {
                other@
            }),
            r == self || r == other,
    {
        if self.nanos >= other.nanos {
            self
        } else {
            other
        }
    }

    /// Whether `self` is strictly shorter than `other`.
    pub fn shorter_than(&self, other: &Duration) -> (r: bool)
        ensures
            r == (self@ < other@),
    {
        self.nanos < other.nanos
    }

    /// Whole seconds, rounded up, so that a span shorter than a second but not
    /// empty reads as one.
    pub fn whole_seconds(&self) -> (r: u64)
        ensures
            r == min_nat(ceil_secs(self@), u64::MAX as nat),
    {
        proof {
            use_type_invariant(self);
        }
        let secs = (self.nanos / NANOS_PER_SEC) as u64;
        if self.nanos % NANOS_PER_SEC == 0 {
            secs
        } else if secs == u64::MAX {
            secs
        } else {
            secs + 1
        }
    }
}

impl Default for Duration {
    fn default() -> (r: Self)
        ensures
            r@ == 0,
    {
        Duration { nanos: 0 }
    }
}

/// Rounding up to whole seconds reads an empty span as zero and every other
/// span as at least one second, and never less than the truncated count.
pub proof fn whole_seconds_round_up(nanos: nat)
    ensures
        (min_nat(ceil_secs(nanos), u64::MAX as nat) == 0) == (nanos == 0),
        nanos / 1_000_000_000 <= u64::MAX ==> nanos / 1_000_000_000 <= min_nat(ceil_secs(nanos), u64::MAX as nat),
{
}

} // verus!
