//! A span of time with nanosecond precision, measured as whole seconds plus a
//! sub-second part, in the way `std::time::Duration` measures it.
use vstd::prelude::*;

verus! {

pub const NANOS_PER_SEC: u64 = 1_000_000_000;

pub const NANOS_PER_MILLI: u64 = 1_000_000;

/// A span of time: `secs` seconds plus `nanos` nanoseconds, `nanos < 10^9`.
#[derive(Clone, Copy, Debug, PartialEq, Eq, Structural)]
pub struct Duration {
    secs: u64,
    nanos: u32,
}

impl View for Duration {
    /// The span in nanoseconds.
    type V = int;

    closed spec fn view(&self) -> int {
        self.secs * NANOS_PER_SEC + self.nanos
    }
}

impl Duration {
    #[verifier::type_invariant]
    spec fn inv(self) -> bool {
        self.nanos < NANOS_PER_SEC
    }

    /// Every duration spans a non-negative time.
    pub proof fn lemma_nonneg(&self)
        ensures
            self@ >= 0,
    {
    }

    /// The zero duration.
    pub fn zero() -> (d: Duration)
        ensures
            d@ == 0,
    {
        Duration { secs: 0, nanos: 0 }
    }

    /// A duration of `secs` whole seconds.
    pub fn from_secs(secs: u64) -> (d: Duration)
        ensures
            d@ == secs * NANOS_PER_SEC,
    {
        Duration { secs, nanos: 0 }
    }

    /// A duration of `millis` milliseconds.
    pub fn from_millis(millis: u64) -> (d: Duration)
        ensures
            d@ == millis * NANOS_PER_MILLI,
    {
        let secs = millis / 1000;
        let rest = millis % 1000;
        assert(rest * NANOS_PER_MILLI < NANOS_PER_SEC) by (nonlinear_arith)
            requires
                rest < 1000,
        ;
        let nanos = (rest * NANOS_PER_MILLI) as u32;
        assert(secs * NANOS_PER_SEC + nanos == millis * NANOS_PER_MILLI) by (nonlinear_arith)
            requires
                secs == millis / 1000,
                rest == millis % 1000,
                nanos == rest * NANOS_PER_MILLI,
        ;
        Duration { secs, nanos }
    }

    /// Whole seconds of the span.
    pub fn as_secs(&self) -> (r: u64)
        ensures
            r == self@ / (NANOS_PER_SEC as int),
    {
        proof {
            use_type_invariant(self);
            assert((self.secs * NANOS_PER_SEC + self.nanos) / (NANOS_PER_SEC as int) == self.secs)
                by (nonlinear_arith)
                requires
                    self.nanos < NANOS_PER_SEC,
            ;
        }
        self.secs
    }

    /// The nanoseconds of the span beyond its whole seconds.
    pub fn subsec_nanos(&self) -> (r: u32)
        ensures
            r == self@ % (NANOS_PER_SEC as int),
    {
        proof {
            use_type_invariant(self);
            assert((self.secs * NANOS_PER_SEC + self.nanos) % (NANOS_PER_SEC as int) == self.nanos)
                by (nonlinear_arith)
                requires
                    self.nanos < NANOS_PER_SEC,
            ;
        }
        self.nanos
    }

    /// Whole milliseconds of the span.
    pub fn as_millis(&self) -> (r: u128)
        ensures
            r == self@ / (NANOS_PER_MILLI as int),
    {
        proof {
            use_type_invariant(self);
        }
        let ms_in_secs: u128 = (self.secs as u128) * 1000;
        let r = ms_in_secs + (self.nanos / 1_000_000) as u128;
        assert(r == (self.secs * NANOS_PER_SEC + self.nanos) / (NANOS_PER_MILLI as int)) by (
        nonlinear_arith)
            requires
                r == self.secs * 1000 + self.nanos / 1_000_000,
                self.nanos < NANOS_PER_SEC,
        ;
        r
    }

    /// `self` is shorter than `other`.
    pub fn lt(&self, other: &Duration) -> (r: bool)
        ensures
            r == (self@ < other@),
    {
        proof {
            use_type_invariant(self);
            use_type_invariant(other);
            lemma_lex_order(self.secs, self.nanos, other.secs, other.nanos);
        }
        self.secs < other.secs || (self.secs == other.secs && self.nanos < other.nanos)
    }

    /// `self` is at most as long as `other`.
    pub fn le(&self, other: &Duration) -> (r: bool)
        ensures
            r == (self@ <= other@),
    {
        !other.lt(self)
    }

    /// `self - other`, or zero when `other` is longer.
    pub fn saturating_sub(&self, other: &Duration) -> (d: Duration)
        ensures
            d@ == if self@ >= other@ {
                self@ - other@
            } else {
                0
            },
    {
        proof {
            use_type_invariant(self);
            use_type_invariant(other);
        }
        if self.lt(other) {
            return Duration::zero();
        }
        proof {
            lemma_lex_order(self.secs, self.nanos, other.secs, other.nanos);
        }
        if self.nanos >= other.nanos {
            Duration { secs: self.secs - other.secs, nanos: self.nanos - other.nanos }
        } else {
            assert(self.secs > other.secs);
            Duration {
                secs: self.secs - other.secs - 1,
                nanos: (self.nanos as u64 + NANOS_PER_SEC - other.nanos as u64) as u32,
            }
        }
    }
}

proof fn lemma_lex_order(s1: u64, n1: u32, s2: u64, n2: u32)
    requires
        n1 < NANOS_PER_SEC,
        n2 < NANOS_PER_SEC,
    ensures
        (s1 * NANOS_PER_SEC + n1 < s2 * NANOS_PER_SEC + n2) == (s1 < s2 || (s1 == s2 && n1 < n2)),
{
    if s1 < s2 {
        assert(s1 * NANOS_PER_SEC + NANOS_PER_SEC <= s2 * NANOS_PER_SEC) by (nonlinear_arith)
            requires
                s1 < s2,
        ;
    } else if s1 > s2 {
        assert(s2 * NANOS_PER_SEC + NANOS_PER_SEC <= s1 * NANOS_PER_SEC) by (nonlinear_arith)
            requires
                s2 < s1,
        ;
    }
}

} // verus!
