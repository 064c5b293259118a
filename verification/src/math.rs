//! Integer square roots and greatest common divisors.

use vstd::prelude::*;

verus! {

/// Floor of the square root: the unique `r >= 0` with `r^2 <= x < (r+1)^2`.
pub fn isqrt(x: i128) -> (r: i128)
    requires
        0 <= x,
        x < 0x8000_0000_0000_0000 * 0x8000_0000_0000_0000,
    ensures
        0 <= r,
        r * r <= x,
        x < (r + 1) * (r + 1),
        r == spec_isqrt(x as nat),
{
    let mut lo: i128 = 0;
    let mut hi: i128 = 0x8000_0000_0000_0000;
    while lo + 1 < hi
        invariant
            0 <= lo < hi <= 0x8000_0000_0000_0000,
            lo * lo <= x,
            x < hi * hi,
        decreases hi - lo,
    {
        let mid = lo + (hi - lo) / 2;
        assert(lo < mid < hi);
        assert(mid * mid <= 0x8000_0000_0000_0000 * 0x8000_0000_0000_0000) by (nonlinear_arith)
            requires
                0 < mid <= 0x8000_0000_0000_0000,
        ;
        if mid * mid <= x {
            lo = mid;
        } else {
            hi = mid;
        }
    }
    proof {
        lemma_isqrt_unique(x as nat, lo as nat);
    }
    lo
}

/// Ceiling of the square root: the floor root, bumped by one when it does
/// not land exactly.
pub open spec fn spec_isqrt_up(x: nat) -> nat {
    if spec_isqrt(x) * spec_isqrt(x) == x {
        spec_isqrt(x)
    } else {
        spec_isqrt(x) + 1
    }
}

/// The ceiling square root: never an underestimate, and at most one above
/// the floor root.
pub fn isqrt_up(x: i128) -> (r: i128)
    requires
        0 <= x,
        x < 0x8000_0000_0000_0000 * 0x8000_0000_0000_0000,
    ensures
        r == spec_isqrt_up(x as nat),
        spec_isqrt(x as nat) <= r <= spec_isqrt(x as nat) + 1,
        x <= r * r,
{
    let s = isqrt(x);
    proof {
        lemma_square_nonneg_int(s as int);
        assert(s < 0x8000_0000_0000_0000) by (nonlinear_arith)
            requires
                0 <= s,
                s * s <= x,
                x < 0x8000_0000_0000_0000 * 0x8000_0000_0000_0000,
        ;
    }
    if s * s == x {
        s
    } else {
        proof {
            assert(x <= (s + 1) * (s + 1));
        }
        s + 1
    }
}

proof fn lemma_square_nonneg_int(a: int)
    ensures
        a * a >= 0,
{
    assert(a * a >= 0) by (nonlinear_arith);
}

/// If `|a| <= ab` and `|b| <= bb` then `|a * b| <= ab * bb`.
pub proof fn lemma_mul_bounds(a: int, b: int, ab: int, bb: int)
    requires
        -ab <= a <= ab,
        -bb <= b <= bb,
        0 <= ab,
        0 <= bb,
    ensures
        -(ab * bb) <= a * b <= ab * bb,
{
    assert(-(ab * bb) <= a * b <= ab * bb) by (nonlinear_arith)
        requires
            -ab <= a <= ab,
            -bb <= b <= bb,
            0 <= ab,
            0 <= bb,
    ;
}

/// Replacing one factor by an equal value keeps the product; bridges
/// products of variables with products by a known constant.
pub proof fn lemma_mul_subst(a: int, b: int, c: int)
    requires
        a == c,
    ensures
        a * b == c * b,
{
    assert(a * b == c * b) by (nonlinear_arith)
        requires
            a == c,
    ;
}

/// The floor square root of `x`, at the specification level.
pub open spec fn spec_isqrt(x: nat) -> nat
    decreases x,
{
    if x == 0 {
        0
    } else {
        let p = spec_isqrt((x - 1) as nat);
        if (p + 1) * (p + 1) <= x {
            p + 1
        } else {
            p
        }
    }
}

/// `spec_isqrt(x)` brackets `x` between consecutive squares.
pub proof fn lemma_isqrt_correct(x: nat)
    ensures
        spec_isqrt(x) * spec_isqrt(x) <= x,
        x < (spec_isqrt(x) + 1) * (spec_isqrt(x) + 1),
    decreases x,
{
    let s = spec_isqrt(x);
    if x == 0 {
        assert(s * s <= x && x < (s + 1) * (s + 1)) by (nonlinear_arith)
            requires
                s == 0,
                x == 0,
        ;
    } else {
        lemma_isqrt_correct((x - 1) as nat);
        let p = spec_isqrt((x - 1) as nat);
        if (p + 1) * (p + 1) <= x {
            assert(s * s <= x && x < (s + 1) * (s + 1)) by (nonlinear_arith)
                requires
                    s == p + 1,
                    (p + 1) * (p + 1) <= x,
                    x - 1 < (p + 1) * (p + 1),
                    p >= 0,
            ;
        } else {
            assert(s * s <= x && x < (s + 1) * (s + 1)) by (nonlinear_arith)
                requires
                    s == p,
                    p * p <= x - 1,
                    !((p + 1) * (p + 1) <= x),
                    p >= 0,
            ;
        }
    }
}

/// Any value bracketing `x` between consecutive squares is the floor square
/// root.
pub proof fn lemma_isqrt_unique(x: nat, r: nat)
    requires
        r * r <= x,
        x < (r + 1) * (r + 1),
    ensures
        r == spec_isqrt(x),
{
    lemma_isqrt_correct(x);
    let s = spec_isqrt(x);
    if r < s {
        assert((r + 1) * (r + 1) <= s * s) by (nonlinear_arith)
            requires
                r + 1 <= s,
                r >= 0,
        ;
    }
    if s < r {
        assert((s + 1) * (s + 1) <= r * r) by (nonlinear_arith)
            requires
                s + 1 <= r,
                s >= 0,
        ;
    }
}

/// The nearest multiple of `size` to `x`: `((x + size/2) / size) * size`
/// with floor division, so halves round toward positive infinity.
pub open spec fn spec_lattice_cell(x: int, size: int) -> int {
    ((x + size / 2) / size) * size
}

/// Snaps a coordinate to the center of its cell of side `size`, for
/// quantizing section vertices onto a voxel grid.
pub fn lattice_cell(x: i64, size: i64) -> (r: i64)
    requires
        1 <= size <= 1048576,
        -0x1000_0000_0000 <= x <= 0x1000_0000_0000,
    ensures
        r == spec_lattice_cell(x as int, size as int),
        r - x <= size,
        x - r <= size,
{
    let h = ((size as u128) / 2) as i64;
    let n = x + h;
    let q: i64 = if n >= 0 {
        ((n as u128) / (size as u128)) as i64
    } else {
        let m = ((-(n as i128)) as u128 - 1) as i64;
        let qm = ((m as u128) / (size as u128)) as i64;
        proof {
            vstd::arithmetic::div_mod::lemma_fundamental_div_mod(m as int, size as int);
            vstd::arithmetic::div_mod::lemma_mod_division_less_than_divisor(m as int, size as int);
            assert(n as int == (-(m as int / size as int) - 1) * size + (size - 1 - (m as int
                % size as int))) by (nonlinear_arith)
                requires
                    m as int == -(n as int) - 1,
                    m as int == size * (m as int / size as int) + m as int % size as int,
            ;
            vstd::arithmetic::div_mod::lemma_fundamental_div_mod_converse(
                n as int,
                size as int,
                -(m as int / size as int) - 1,
                size - 1 - (m as int % size as int),
            );
            vstd::arithmetic::div_mod::lemma_div_is_ordered_by_denominator(m as int, 1, size as int);
            vstd::arithmetic::div_mod::lemma_div_by_multiple(m as int, 1);
        }
        -qm - 1
    };
    proof {
        vstd::arithmetic::div_mod::lemma_fundamental_div_mod(n as int, size as int);
        vstd::arithmetic::div_mod::lemma_mod_division_less_than_divisor(n as int, size as int);
        if n >= 0 {
            vstd::arithmetic::div_mod::lemma_div_is_ordered_by_denominator(n as int, 1, size as int);
            vstd::arithmetic::div_mod::lemma_div_by_multiple(n as int, 1);
            vstd::arithmetic::div_mod::lemma_div_pos_is_pos(n as int, size as int);
        }
        assert(q * size == n - n as int % size as int) by (nonlinear_arith)
            requires
                n as int == q * size + n as int % size as int,
        ;
    }
    q * size
}

/// Greatest common divisor of two naturals, by Euclid's algorithm.
pub open spec fn spec_gcd(a: nat, b: nat) -> nat
    decreases b,
{
    if b == 0 {
        a
    } else {
        spec_gcd(b, a % b)
    }
}

/// `d` divides `x`.
pub open spec fn divides(d: nat, x: nat) -> bool {
    exists|k: nat| x == #[trigger] (k * d)
}

/// The gcd divides both of its arguments.
pub proof fn lemma_gcd_divides(a: nat, b: nat)
    ensures
        divides(spec_gcd(a, b), a),
        divides(spec_gcd(a, b), b),
    decreases b,
{
    if b == 0 {
        assert(a == 1 * spec_gcd(a, 0));
        assert(b == 0 * spec_gcd(a, 0));
    } else {
        lemma_gcd_divides(b, a % b);
        let g = spec_gcd(b, a % b);
        let k1 = choose|k: nat| b == #[trigger] (k * g);
        let k2 = choose|k: nat| (a % b) == #[trigger] (k * g);
        vstd::arithmetic::div_mod::lemma_fundamental_div_mod(a as int, b as int);
        assert(a == b * (a as int / b as int) + a % b);
        let q = a as int / b as int;
        assert(q >= 0) by {
            vstd::arithmetic::div_mod::lemma_div_pos_is_pos(a as int, b as int);
        }
        assert(b * q == (k1 * g) * q);
        assert((k1 * g) * q == (k1 * q) * g) by (nonlinear_arith);
        assert(a == (k1 * q) * g + k2 * g);
        assert((k1 * q) * g + k2 * g == (k1 * q + k2) * g) by (nonlinear_arith);
        assert(a == ((k1 * q + k2) as nat) * g);
    }
}

/// The gcd of naturals not both zero is positive.
pub proof fn lemma_gcd_pos(a: nat, b: nat)
    requires
        a > 0 || b > 0,
    ensures
        spec_gcd(a, b) > 0,
    decreases b,
{
    if b == 0 {
    } else {
        if a % b > 0 || b > 0 {
            lemma_gcd_pos(b, a % b);
        }
    }
}

/// Greatest common divisor of two unsigned machine integers.
pub fn gcd(a: u64, b: u64) -> (r: u64)
    ensures
        r == spec_gcd(a as nat, b as nat),
    decreases b,
{
    if b == 0 {
        a
    } else {
        gcd(b, a % b)
    }
}

} // verus!
