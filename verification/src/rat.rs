//! Exact rational scalars for probe coordinates and probe results.

use vstd::prelude::*;

verus! {

/// Largest numerator magnitude accepted for a probe coordinate (`2^60`).
pub const PROBE_NUM_LIMIT: i128 = 1152921504606846976;

/// Largest denominator accepted for a probe coordinate (`2^30`).
pub const PROBE_DEN_LIMIT: i128 = 1073741824;

/// Largest magnitude accepted by the exact comparison helpers (`2^62`), so
/// that cross-multiplied products stay within `i128`.
pub const CMP_LIMIT: i128 = 4611686018427387904;

/// An exact rational number `num / den` with `den > 0`.
///
/// Sampling a segment at a rational probe coordinate yields rational results,
/// so every crossing is reported exactly, with no rounding near bounds or at
/// degenerate slopes.
#[derive(Clone, Copy, Debug, PartialEq, Eq, Structural)]
pub struct Rat {
    pub num: i128,
    pub den: i128,
}

/// A probe coordinate: well formed, with numerator and denominator small
/// enough that every sampling computation fits in `i128`.
pub open spec fn probe_wf(r: Rat) -> bool {
    &&& 0 < r.den <= PROBE_DEN_LIMIT
    &&& -PROBE_NUM_LIMIT <= r.num <= PROBE_NUM_LIMIT
}

impl Rat {
    /// Well formed: positive denominator.
    pub open spec fn wf(self) -> bool {
        self.den > 0
    }

    /// The value of `self` equals the rational `n / d` (`d != 0`).
    pub open spec fn is_frac(self, n: int, d: int) -> bool {
        &&& self.den > 0
        &&& d != 0
        &&& self.num * d == n * self.den
    }

    /// The value of `self` equals the integer `i`.
    pub open spec fn is_int(self, i: int) -> bool {
        &&& self.den > 0
        &&& self.num == i * self.den
    }

    /// Value equality with `other` (equal as rationals, not as field pairs).
    pub open spec fn eq_val_spec(self, other: Rat) -> bool {
        self.num * other.den == other.num * self.den
    }

    /// Value order: `self <= other` (both well formed).
    pub open spec fn le_val_spec(self, other: Rat) -> bool {
        self.num * other.den <= other.num * self.den
    }

    /// Build `n / d` as a well-formed rational, normalising the sign of `d`.
    pub fn new(n: i128, d: i128) -> (r: Rat)
        requires
            d != 0,
            i128::MIN < n,
            i128::MIN < d,
        ensures
            r.wf(),
            r.is_frac(n as int, d as int),
    {
        if d < 0 {
            let r = Rat { num: -n, den: -d };
            proof {
                assert(r.num * d == n * r.den) by (nonlinear_arith)
                    requires
                        r.num == -n,
                        r.den == -d;
            }
            r
        } else {
            Rat { num: n, den: d }
        }
    }

    /// The integer `i` as a rational.
    pub fn from_int(i: i64) -> (r: Rat)
        ensures
            r.wf(),
            r.num == i,
            r.den == 1,
            r.is_int(i as int),
    {
        Rat { num: i as i128, den: 1 }
    }

    /// Exact value equality: `a/b == c/d` iff `a*d == c*b`.
    pub fn eq_val(&self, other: &Rat) -> (r: bool)
        requires
            self.wf(),
            other.wf(),
            -CMP_LIMIT <= self.num <= CMP_LIMIT,
            self.den <= CMP_LIMIT,
            -CMP_LIMIT <= other.num <= CMP_LIMIT,
            other.den <= CMP_LIMIT,
        ensures
            r == self.eq_val_spec(*other),
    {
        proof {
            lemma_mul_bound(self.num as int, other.den as int, CMP_LIMIT as int, CMP_LIMIT as int);
            lemma_mul_bound(other.num as int, self.den as int, CMP_LIMIT as int, CMP_LIMIT as int);
        }
        self.num * other.den == other.num * self.den
    }

    /// Exact value order: `a/b <= c/d` iff `a*d <= c*b` (positive denominators).
    pub fn le_val(&self, other: &Rat) -> (r: bool)
        requires
            self.wf(),
            other.wf(),
            -CMP_LIMIT <= self.num <= CMP_LIMIT,
            self.den <= CMP_LIMIT,
            -CMP_LIMIT <= other.num <= CMP_LIMIT,
            other.den <= CMP_LIMIT,
        ensures
            r == self.le_val_spec(*other),
    {
        proof {
            lemma_mul_bound(self.num as int, other.den as int, CMP_LIMIT as int, CMP_LIMIT as int);
            lemma_mul_bound(other.num as int, self.den as int, CMP_LIMIT as int, CMP_LIMIT as int);
        }
        self.num * other.den <= other.num * self.den
    }
}

/// A product of two bounded factors is bounded by the product of the bounds.
pub proof fn lemma_mul_bound(a: int, b: int, bound_a: int, bound_b: int)
    by (nonlinear_arith)
    requires
        -bound_a <= a <= bound_a,
        -bound_b <= b <= bound_b,
        0 <= bound_a,
        0 <= bound_b,
    ensures
        -(bound_a * bound_b) <= a * b <= bound_a * bound_b,
{
}

} // verus!
