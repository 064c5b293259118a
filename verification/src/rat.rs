//! Exact rational numbers used for ray parameters.
//!
//! A ray meets an integer-lattice shape at a rational parameter; keeping the
//! exact fraction lets hits be compared without rounding.

use vstd::prelude::*;

verus! {

/// Bound on numerator magnitude and denominator under which two rationals can
/// be compared by cross-multiplication in `i128`.
pub const RAT_LIMIT: i128 = 0x8000_0000_0000_0000;

/// An exact fraction `num / den` with a positive denominator.
#[derive(Clone, Copy, Debug, PartialEq, Eq, Structural, Hash)]
pub struct Rat {
    pub num: i128,
    pub den: i128,
}

impl Rat {
    /// A positive denominator within comparison range, and a numerator within
    /// comparison range.
    pub open spec fn wf(self) -> bool {
        &&& 0 < self.den <= RAT_LIMIT as int
        &&& -(RAT_LIMIT as int) <= self.num <= RAT_LIMIT as int
    }

    pub fn new(num: i128, den: i128) -> (r: Rat)
        requires
            0 < den <= RAT_LIMIT as int,
            -(RAT_LIMIT as int) <= num <= RAT_LIMIT as int,
        ensures
            r == (Rat { num, den }),
            r.wf(),
    {
        Rat { num, den }
    }

    pub fn from_int(n: i64) -> (r: Rat)
        ensures
            r == (Rat { num: n as i128, den: 1 as i128 }),
            r.wf(),
    {
        Rat { num: n as i128, den: 1 }
    }

    pub fn lt(self, o: Rat) -> (r: bool)
        requires
            self.wf(),
            o.wf(),
        ensures
            r == rat_lt(self, o),
    {
        proof {
            lemma_cross_mul_in_range(self, o);
        }
        self.num * o.den < o.num * self.den
    }

    pub fn le(self, o: Rat) -> (r: bool)
        requires
            self.wf(),
            o.wf(),
        ensures
            r == rat_le(self, o),
    {
        proof {
            lemma_cross_mul_in_range(self, o);
        }
        self.num * o.den <= o.num * self.den
    }

    /// Whether the fraction is strictly greater than zero.
    pub fn is_positive(self) -> (r: bool)
        requires
            self.wf(),
        ensures
            r == rat_pos(self),
    {
        self.num > 0
    }
}

/// `a < b` as fractions; both denominators are positive.
pub open spec fn rat_lt(a: Rat, b: Rat) -> bool {
    a.num * b.den < b.num * a.den
}

/// `a <= b` as fractions; both denominators are positive.
pub open spec fn rat_le(a: Rat, b: Rat) -> bool {
    a.num * b.den <= b.num * a.den
}

/// `a > 0` as a fraction; the denominator is positive.
pub open spec fn rat_pos(a: Rat) -> bool {
    a.num > 0
}

/// The two fractions denote the same number.
pub open spec fn rat_eq(a: Rat, b: Rat) -> bool {
    a.num * b.den == b.num * a.den
}

proof fn lemma_cross_mul_in_range(a: Rat, b: Rat)
    requires
        a.wf(),
        b.wf(),
    ensures
        i128::MIN <= a.num * b.den <= i128::MAX,
        i128::MIN <= b.num * a.den <= i128::MAX,
{
    crate::vector::lemma_abs_mul_bound(a.num as int, b.den as int, RAT_LIMIT as int);
    crate::vector::lemma_abs_mul_bound(b.num as int, a.den as int, RAT_LIMIT as int);
    assert((RAT_LIMIT as int) * (RAT_LIMIT as int) < i128::MAX) by (nonlinear_arith);
}

/// The rational order is total: of two well-formed fractions, one is `<=` the
/// other.
pub proof fn lemma_rat_le_total(a: Rat, b: Rat)
    requires
        a.wf(),
        b.wf(),
    ensures
        rat_le(a, b) || rat_le(b, a),
        rat_lt(a, b) ==> !rat_le(b, a),
{
}

/// The rational order is transitive over positive denominators.
pub proof fn lemma_rat_le_trans(a: Rat, b: Rat, c: Rat)
    requires
        a.den > 0,
        b.den > 0,
        c.den > 0,
        rat_le(a, b),
        rat_le(b, c),
    ensures
        rat_le(a, c),
{
    assert(a.num * c.den <= c.num * a.den) by (nonlinear_arith)
        requires
            a.num * b.den <= b.num * a.den,
            b.num * c.den <= c.num * b.den,
            a.den > 0,
            b.den > 0,
            c.den > 0,
    ;
}

} // verus!
