//! 4x4 affine transforms in fixed-point arithmetic.
//!
//! An entry holds its coefficient times [`MAT_ONE`]; a translation by `t`
//! units stores `t * MAT_ONE`. Applying a matrix divides by `MAT_ONE` once,
//! truncating toward zero, so lattice points map to lattice points.

use vstd::prelude::*;
use crate::vector::Vector;

verus! {

/// The fixed-point unit of matrix entries.
pub const MAT_ONE: i64 = 65536;

/// A 4x4 matrix, row-major.
#[derive(Clone, Copy, Debug)]
pub struct Matrix {
    pub e: [i64; 16],
}

/// Division truncating toward zero, for a positive divisor.
pub open spec fn spec_tdiv(a: int, b: int) -> int {
    if a >= 0 {
        a / b
    } else {
        -((-a) / b)
    }
}

/// The `(i, j)` entry of the product of `a` and `b`, before the fixed-point
/// division.
pub open spec fn spec_msum(a: Seq<i64>, b: Seq<i64>, i: int, j: int) -> int {
    a[4 * i] * b[j] + a[4 * i + 1] * b[4 + j] + a[4 * i + 2] * b[8 + j] + a[4 * i + 3] * b[12 + j]
}

/// The `(i, j)` entry of the fixed-point product.
pub open spec fn spec_mentry(a: Seq<i64>, b: Seq<i64>, i: int, j: int) -> int {
    spec_tdiv(spec_msum(a, b, i, j), MAT_ONE as int)
}

/// Every entry of the product stays within `i64` after the fixed-point
/// division.
pub open spec fn spec_mul_fits(a: Seq<i64>, b: Seq<i64>) -> bool {
    forall|i: int, j: int|
        0 <= i < 4 && 0 <= j < 4 ==> -0x7FFF_FFFF_FFFF_FFFF * 0x10000 <= #[trigger] spec_msum(
            a,
            b,
            i,
            j,
        ) <= 0x7FFF_FFFF_FFFF_FFFF * 0x10000
}

/// The row `i` of the matrix applied to the homogeneous point `[v, 1]`,
/// before the fixed-point division.
pub open spec fn spec_vsum(m: Seq<i64>, v: Vector, i: int) -> int {
    m[4 * i] * v.x + m[4 * i + 1] * v.y + m[4 * i + 2] * v.z + m[4 * i + 3]
}

/// Applying the matrix to the point stays within `i64` on every axis.
pub open spec fn spec_pos_fits(m: Seq<i64>, v: Vector) -> bool {
    forall|i: int|
        0 <= i < 3 ==> -0x7FFF_FFFF_FFFF_FFFF * 0x10000 <= #[trigger] spec_vsum(m, v, i)
            <= 0x7FFF_FFFF_FFFF_FFFF * 0x10000
}

/// Every entry of the matrix lies within `b` in absolute value.
pub open spec fn spec_entries_bounded(m: Seq<i64>, b: int) -> bool {
    forall|k: int| 0 <= k < 16 ==> -b <= #[trigger] m[k] <= b
}

/// The last row is `[0, 0, 0, MAT_ONE]`: the transform is affine and the
/// homogeneous coordinate stays 1.
pub open spec fn spec_affine(m: Seq<i64>) -> bool {
    m[12] == 0 && m[13] == 0 && m[14] == 0 && m[15] == MAT_ONE as int
}

/// The matrix applied to a point, componentwise.
pub open spec fn spec_mul_position(m: Seq<i64>, v: Vector) -> Vector {
    Vector {
        x: spec_tdiv(spec_vsum(m, v, 0), MAT_ONE as int) as i64,
        y: spec_tdiv(spec_vsum(m, v, 1), MAT_ONE as int) as i64,
        z: spec_tdiv(spec_vsum(m, v, 2), MAT_ONE as int) as i64,
    }
}


/// The entries of the identity matrix.
pub open spec fn spec_identity_mat() -> Seq<i64> {
    seq![
        MAT_ONE, 0i64, 0i64, 0i64,
        0i64, MAT_ONE, 0i64, 0i64,
        0i64, 0i64, MAT_ONE, 0i64,
        0i64, 0i64, 0i64, MAT_ONE,
    ]
}

/// The entries of the matrix translating by `v` units.
pub open spec fn spec_translate_mat(v: Vector) -> Seq<i64> {
    seq![
        MAT_ONE, 0i64, 0i64, (v.x * MAT_ONE) as i64,
        0i64, MAT_ONE, 0i64, (v.y * MAT_ONE) as i64,
        0i64, 0i64, MAT_ONE, (v.z * MAT_ONE) as i64,
        0i64, 0i64, 0i64, MAT_ONE,
    ]
}

/// The entries of the matrix scaling by the fixed-point factors in `v`.
pub open spec fn spec_scale_mat(v: Vector) -> Seq<i64> {
    seq![
        v.x, 0i64, 0i64, 0i64,
        0i64, v.y, 0i64, 0i64,
        0i64, 0i64, v.z, 0i64,
        0i64, 0i64, 0i64, MAT_ONE,
    ]
}

/// Truncating division of an `i128` by a positive divisor.
pub(crate) fn tdiv(a: i128, b: i128) -> (r: i128)
    requires
        0 < b,
        -0x4000_0000_0000_0000_0000_0000_0000_0000 < a,
    ensures
        r == spec_tdiv(a as int, b as int),
        -a <= r <= a || a <= r <= -a,
{
    if a >= 0 {
        let q = (a as u128) / (b as u128);
        proof {
            vstd::arithmetic::div_mod::lemma_div_is_ordered_by_denominator(a as int, 1, b as int);
            vstd::arithmetic::div_mod::lemma_div_by_multiple(a as int, 1);
        }
        q as i128
    } else {
        let q = ((-a) as u128) / (b as u128);
        proof {
            vstd::arithmetic::div_mod::lemma_div_is_ordered_by_denominator(-a as int, 1, b as int);
            vstd::arithmetic::div_mod::lemma_div_by_multiple(-a as int, 1);
        }
        -(q as i128)
    }
}

impl Matrix {
    pub open spec fn view(self) -> Seq<i64> {
        self.e@
    }

    /// The identity transform.
    pub fn identity() -> (r: Matrix)
        ensures
            r@ =~= spec_identity_mat(),
            spec_affine(r@),
    {
        Matrix {
            e: [
                MAT_ONE, 0, 0, 0,
                0, MAT_ONE, 0, 0,
                0, 0, MAT_ONE, 0,
                0, 0, 0, MAT_ONE,
            ],
        }
    }

    /// Translation by `v` units.
    pub fn translate(v: Vector) -> (r: Matrix)
        requires
            crate::vector::in_range(v, 0x4000_0000_0000),
        ensures
            r@ =~= spec_translate_mat(v),
            spec_affine(r@),
    {
        Matrix {
            e: [
                MAT_ONE, 0, 0, v.x * MAT_ONE,
                0, MAT_ONE, 0, v.y * MAT_ONE,
                0, 0, MAT_ONE, v.z * MAT_ONE,
                0, 0, 0, MAT_ONE,
            ],
        }
    }

    /// Scaling by the fixed-point factors in `v`: a factor of one is
    /// [`MAT_ONE`].
    pub fn scale(v: Vector) -> (r: Matrix)
        ensures
            r@ =~= spec_scale_mat(v),
            spec_affine(r@),
    {
        Matrix {
            e: [
                v.x, 0, 0, 0,
                0, v.y, 0, 0,
                0, 0, v.z, 0,
                0, 0, 0, MAT_ONE,
            ],
        }
    }

    /// Fixed-point matrix product `self * o`.
    pub fn mul(&self, o: &Matrix) -> (r: Matrix)
        requires
            spec_entries_bounded(self@, 0x4000_0000_0000_0000),
            spec_entries_bounded(o@, 0x4000_0000_0000_0000),
            spec_mul_fits(self@, o@),
        ensures
            forall|i: int, j: int|
                0 <= i < 4 && 0 <= j < 4 ==> r@[4 * i + j] == spec_mentry(self@, o@, i, j),
    {
        let e = [
            Self::mentry(&self.e, &o.e, 0, 0), Self::mentry(&self.e, &o.e, 0, 1),
            Self::mentry(&self.e, &o.e, 0, 2), Self::mentry(&self.e, &o.e, 0, 3),
            Self::mentry(&self.e, &o.e, 1, 0), Self::mentry(&self.e, &o.e, 1, 1),
            Self::mentry(&self.e, &o.e, 1, 2), Self::mentry(&self.e, &o.e, 1, 3),
            Self::mentry(&self.e, &o.e, 2, 0), Self::mentry(&self.e, &o.e, 2, 1),
            Self::mentry(&self.e, &o.e, 2, 2), Self::mentry(&self.e, &o.e, 2, 3),
            Self::mentry(&self.e, &o.e, 3, 0), Self::mentry(&self.e, &o.e, 3, 1),
            Self::mentry(&self.e, &o.e, 3, 2), Self::mentry(&self.e, &o.e, 3, 3),
        ];
        Matrix { e }
    }

    /// Pre-composes a translation: the translation applies after `self`.
    pub fn translated(&self, v: Vector) -> (r: Matrix)
        requires
            crate::vector::in_range(v, 0x4000_0000_0000),
            spec_entries_bounded(self@, 0x4000_0000_0000_0000),
            spec_mul_fits(spec_translate_mat(v), self@),
        ensures
            forall|i: int, j: int|
                0 <= i < 4 && 0 <= j < 4 ==> r@[4 * i + j] == #[trigger] spec_mentry(
                    spec_translate_mat(v),
                    self@,
                    i,
                    j,
                ),
    {
        Matrix::translate(v).mul(self)
    }

    /// Pre-composes a scaling: the scaling applies after `self`.
    pub fn scaled(&self, v: Vector) -> (r: Matrix)
        requires
            spec_entries_bounded(self@, 0x4000_0000_0000_0000),
            crate::vector::in_range(v, 0x4000_0000_0000_0000),
            spec_mul_fits(spec_scale_mat(v), self@),
        ensures
            forall|i: int, j: int|
                0 <= i < 4 && 0 <= j < 4 ==> r@[4 * i + j] == #[trigger] spec_mentry(
                    spec_scale_mat(v),
                    self@,
                    i,
                    j,
                ),
    {
        Matrix::scale(v).mul(self)
    }

    /// Applies the affine transform to a point, dividing once by the
    /// fixed-point unit with truncation toward zero.
    pub fn mul_position(&self, v: Vector) -> (r: Vector)
        requires
            spec_affine(self@),
            spec_entries_bounded(self@, 0x4000_0000_0000_0000),
            spec_pos_fits(self@, v),
        ensures
            r == spec_mul_position(self@, v),
    {
        Vector {
            x: Self::ventry(&self.e, v, 0),
            y: Self::ventry(&self.e, v, 1),
            z: Self::ventry(&self.e, v, 2),
        }
    }

    fn mentry(a: &[i64; 16], b: &[i64; 16], i: usize, j: usize) -> (r: i64)
        requires
            i < 4,
            j < 4,
            spec_entries_bounded(a@, 0x4000_0000_0000_0000),
            spec_entries_bounded(b@, 0x4000_0000_0000_0000),
            spec_mul_fits(a@, b@),
        ensures
            r == spec_mentry(a@, b@, i as int, j as int),
    {
        proof {
            let bb: int = 0x4000_0000_0000_0000;
            crate::math::lemma_mul_bounds(a@[4 * i] as int, b@[j as int] as int, bb, bb);
            crate::math::lemma_mul_bounds(a@[4 * i + 1] as int, b@[4 + j] as int, bb, bb);
            crate::math::lemma_mul_bounds(a@[4 * i + 2] as int, b@[8 + j] as int, bb, bb);
            crate::math::lemma_mul_bounds(a@[4 * i + 3] as int, b@[12 + j] as int, bb, bb);
        }
        let s = (a[4 * i] as i128) * (b[j] as i128) + (a[4 * i + 1] as i128) * (b[4 + j] as i128) + (
        a[4 * i + 2] as i128) * (b[8 + j] as i128) + (a[4 * i + 3] as i128) * (b[12 + j] as i128);
        assert(s == spec_msum(a@, b@, i as int, j as int));
        let q = tdiv(s, MAT_ONE as i128);
        proof {
            lemma_tdiv_fits(s as int);
        }
        q as i64
    }

    fn ventry(m: &[i64; 16], v: Vector, i: usize) -> (r: i64)
        requires
            i < 3,
            spec_entries_bounded(m@, 0x4000_0000_0000_0000),
            spec_pos_fits(m@, v),
        ensures
            r == spec_tdiv(spec_vsum(m@, v, i as int), MAT_ONE as int),
    {
        proof {
            let bb: int = 0x4000_0000_0000_0000;
            let vb: int = 0x8000_0000_0000_0000;
            crate::math::lemma_mul_bounds(m@[4 * i] as int, v.x as int, bb, vb);
            crate::math::lemma_mul_bounds(m@[4 * i + 1] as int, v.y as int, bb, vb);
            crate::math::lemma_mul_bounds(m@[4 * i + 2] as int, v.z as int, bb, vb);
        }
        let s = (m[4 * i] as i128) * (v.x as i128) + (m[4 * i + 1] as i128) * (v.y as i128) + (m[4
            * i + 2] as i128) * (v.z as i128) + (m[4 * i + 3] as i128);
        assert(s == spec_vsum(m@, v, i as int));
        let q = tdiv(s, MAT_ONE as i128);
        proof {
            lemma_tdiv_fits(s as int);
        }
        q as i64
    }
}

/// A sum within `MAT_ONE * i64::MAX` divides down into `i64` range.
proof fn lemma_tdiv_fits(s: int)
    requires
        -0x7FFF_FFFF_FFFF_FFFF * 0x10000 <= s <= 0x7FFF_FFFF_FFFF_FFFF * 0x10000,
    ensures
        -0x7FFF_FFFF_FFFF_FFFF <= spec_tdiv(s, MAT_ONE as int) <= 0x7FFF_FFFF_FFFF_FFFF,
{
    if s >= 0 {
        vstd::arithmetic::div_mod::lemma_div_is_ordered(s, (0x7FFF_FFFF_FFFF_FFFF * 0x10000) as int, 0x10000);
        vstd::arithmetic::div_mod::lemma_div_multiples_vanish(0x7FFF_FFFF_FFFF_FFFF, 0x10000);
        vstd::arithmetic::div_mod::lemma_div_pos_is_pos(s, 0x10000);
    } else {
        vstd::arithmetic::div_mod::lemma_div_is_ordered(-s, (0x7FFF_FFFF_FFFF_FFFF * 0x10000) as int, 0x10000);
        vstd::arithmetic::div_mod::lemma_div_multiples_vanish(0x7FFF_FFFF_FFFF_FFFF, 0x10000);
        vstd::arithmetic::div_mod::lemma_div_pos_is_pos(-s, 0x10000);
    }
}

/// Entrywise bounds give the product-fits condition: when `a`'s entries stay
/// within `ab` and `b`'s within `bb`, with `4 * ab * bb` within the
/// fixed-point headroom, every product entry fits.
pub proof fn lemma_mul_fits_bounded(a: Seq<i64>, b: Seq<i64>, ab: int, bb: int)
    requires
        a.len() == 16,
        b.len() == 16,
        0 <= ab,
        0 <= bb,
        forall|k: int| 0 <= k < 16 ==> -ab <= #[trigger] a[k] <= ab,
        forall|k: int| 0 <= k < 16 ==> -bb <= #[trigger] b[k] <= bb,
        4 * ab * bb <= 0x7FFF_FFFF_FFFF_FFFF * 0x10000,
    ensures
        spec_mul_fits(a, b),
{
    assert forall|i: int, j: int| 0 <= i < 4 && 0 <= j < 4 implies -0x7FFF_FFFF_FFFF_FFFF * 0x10000
        <= #[trigger] spec_msum(a, b, i, j) <= 0x7FFF_FFFF_FFFF_FFFF * 0x10000 by {
        let t = ab * bb;
        assert(t >= 0 && 4 * t == 4 * ab * bb) by (nonlinear_arith)
            requires
                0 <= ab,
                0 <= bb,
                t == ab * bb,
        ;
        crate::math::lemma_mul_bounds(a[4 * i] as int, b[j] as int, ab, bb);
        crate::math::lemma_mul_bounds(a[4 * i + 1] as int, b[4 + j] as int, ab, bb);
        crate::math::lemma_mul_bounds(a[4 * i + 2] as int, b[8 + j] as int, ab, bb);
        crate::math::lemma_mul_bounds(a[4 * i + 3] as int, b[12 + j] as int, ab, bb);
    }
}

} // verus!

verus! {

/// The entries of a combined scale-and-translate matrix: uniform diagonal
/// `s` with translation column `c3`.
pub open spec fn spec_st_mat(s: i64, c3: Vector) -> Seq<i64> {
    seq![
        s, 0i64, 0i64, c3.x,
        0i64, s, 0i64, c3.y,
        0i64, 0i64, s, c3.z,
        0i64, 0i64, 0i64, MAT_ONE,
    ]
}

/// `MAT_ONE * k` divides back down to `k` exactly.
pub proof fn lemma_tdiv_exact(k: int)
    ensures
        spec_tdiv(65536 * k, 65536) == k,
{
    if k >= 0 {
        vstd::arithmetic::div_mod::lemma_div_multiples_vanish(k, 65536);
    } else {
        vstd::arithmetic::div_mod::lemma_div_multiples_vanish(-k, 65536);
    }
}

/// A quotient by the fixed-point unit keeps a scaled bound.
pub proof fn lemma_tdiv_bound(a: int, b: int)
    requires
        0 <= b,
        -(b * 65536) <= a <= b * 65536,
    ensures
        -b <= spec_tdiv(a, 65536) <= b,
{
    if a >= 0 {
        vstd::arithmetic::div_mod::lemma_div_is_ordered(a, b * 65536, 65536);
        vstd::arithmetic::div_mod::lemma_div_multiples_vanish(b, 65536);
        vstd::arithmetic::div_mod::lemma_div_pos_is_pos(a, 65536);
    } else {
        vstd::arithmetic::div_mod::lemma_div_is_ordered(-a, b * 65536, 65536);
        vstd::arithmetic::div_mod::lemma_div_multiples_vanish(b, 65536);
        vstd::arithmetic::div_mod::lemma_div_pos_is_pos(-a, 65536);
    }
}

/// A quotient keeps a scaled bound, for any positive divisor.
pub proof fn lemma_tdiv_bound_gen(a: int, b: int, den: int)
    requires
        den > 0,
        0 <= b,
        -(b * den) <= a <= b * den,
    ensures
        -b <= spec_tdiv(a, den) <= b,
{
    vstd::arithmetic::mul::lemma_mul_is_commutative(b, den);
    if a >= 0 {
        vstd::arithmetic::div_mod::lemma_div_is_ordered(a, b * den, den);
        vstd::arithmetic::div_mod::lemma_div_multiples_vanish(b, den);
        vstd::arithmetic::div_mod::lemma_div_pos_is_pos(a, den);
    } else {
        vstd::arithmetic::div_mod::lemma_div_is_ordered(-a, b * den, den);
        vstd::arithmetic::div_mod::lemma_div_multiples_vanish(b, den);
        vstd::arithmetic::div_mod::lemma_div_pos_is_pos(-a, den);
    }
}

/// Exact division of a multiple, for any positive divisor.
pub proof fn lemma_tdiv_exact_gen(k: int, den: int)
    requires
        den > 0,
    ensures
        spec_tdiv(k * den, den) == k,
{
    vstd::arithmetic::mul::lemma_mul_is_commutative(k, den);
    if k >= 0 {
        vstd::arithmetic::div_mod::lemma_div_multiples_vanish(k, den);
        vstd::arithmetic::mul::lemma_mul_nonnegative(k, den);
    } else {
        vstd::arithmetic::div_mod::lemma_div_multiples_vanish(-k, den);
        vstd::arithmetic::mul::lemma_mul_is_commutative(-k, den);
        assert(-(k * den) == (-k) * den) by (nonlinear_arith);
        assert(k * den < 0) by (nonlinear_arith)
            requires
                k < 0,
                den > 0,
        ;
    }
}

/// A translation matrix applies exactly: each coordinate moves by the
/// translation, with no rounding.
#[verifier::rlimit(50)]
pub proof fn lemma_translate_apply(t: Vector, v: Vector)
    requires
        crate::vector::in_range(t, 0x4000_0000_0000),
        crate::vector::in_range(v, 0x8000_0000_0000),
    ensures
        spec_affine(spec_translate_mat(t)),
        spec_entries_bounded(spec_translate_mat(t), 0x4000_0000_0000_0000),
        spec_pos_fits(spec_translate_mat(t), v),
        spec_mul_position(spec_translate_mat(t), v) == (Vector {
            x: (v.x + t.x) as i64,
            y: (v.y + t.y) as i64,
            z: (v.z + t.z) as i64,
        }),
{
    let m = spec_translate_mat(t);
    assert(m[0] == MAT_ONE && m[1] == 0 && m[2] == 0 && m[3] == (t.x * MAT_ONE) as i64);
    assert(m[4] == 0 && m[5] == MAT_ONE && m[6] == 0 && m[7] == (t.y * MAT_ONE) as i64);
    assert(m[8] == 0 && m[9] == 0 && m[10] == MAT_ONE && m[11] == (t.z * MAT_ONE) as i64);
    assert(m[12] == 0 && m[13] == 0 && m[14] == 0 && m[15] == MAT_ONE);
    crate::math::lemma_mul_subst(m[0] as int, v.x as int, 65536);
    crate::math::lemma_mul_subst(m[1] as int, v.y as int, 0);
    crate::math::lemma_mul_subst(m[2] as int, v.z as int, 0);
    crate::math::lemma_mul_subst(m[4] as int, v.x as int, 0);
    crate::math::lemma_mul_subst(m[5] as int, v.y as int, 65536);
    crate::math::lemma_mul_subst(m[6] as int, v.z as int, 0);
    crate::math::lemma_mul_subst(m[8] as int, v.x as int, 0);
    crate::math::lemma_mul_subst(m[9] as int, v.y as int, 0);
    crate::math::lemma_mul_subst(m[10] as int, v.z as int, 65536);
    assert(spec_vsum(m, v, 0) == m[0] * v.x + m[1] * v.y + m[2] * v.z + m[3]);
    assert(m[0] * v.x == 65536 * v.x);
    assert(m[1] * v.y == 0);
    assert(m[2] * v.z == 0);
    assert(m[3] == t.x * 65536);
    assert(spec_vsum(m, v, 0) == 65536 * (v.x + t.x));
    assert(spec_vsum(m, v, 1) == m[4] * v.x + m[5] * v.y + m[6] * v.z + m[7]);
    assert(m[4] * v.x == 0);
    assert(m[5] * v.y == 65536 * v.y);
    assert(m[6] * v.z == 0);
    assert(m[7] == t.y * 65536);
    assert(spec_vsum(m, v, 1) == 65536 * (v.y + t.y));
    assert(spec_vsum(m, v, 2) == m[8] * v.x + m[9] * v.y + m[10] * v.z + m[11]);
    assert(spec_vsum(m, v, 2) == 65536 * (v.z + t.z));
    lemma_tdiv_exact(v.x + t.x);
    lemma_tdiv_exact(v.y + t.y);
    lemma_tdiv_exact(v.z + t.z);
}

/// A scale-and-translate matrix fits on a bounded point, and each coordinate
/// comes out within range.
#[verifier::rlimit(50)]
pub proof fn lemma_st_apply(s: i64, c3: Vector, v: Vector)
    requires
        -0x40_0000_0000 <= s <= 0x40_0000_0000,
        crate::vector::in_range(c3, 0x0800_0000_0000_0000),
        crate::vector::in_range(v, 0x20_0000),
    ensures
        spec_affine(spec_st_mat(s, c3)),
        spec_entries_bounded(spec_st_mat(s, c3), 0x4000_0000_0000_0000),
        spec_pos_fits(spec_st_mat(s, c3), v),
        ({
            let r = spec_mul_position(spec_st_mat(s, c3), v);
            &&& r.x == spec_tdiv(s * v.x + c3.x, 65536) as i64
            &&& r.y == spec_tdiv(s * v.y + c3.y, 65536) as i64
            &&& r.z == spec_tdiv(s * v.z + c3.z, 65536) as i64
            &&& -0x2000_0000_0000 <= spec_tdiv(s * v.x + c3.x, 65536) <= 0x2000_0000_0000
            &&& -0x2000_0000_0000 <= spec_tdiv(s * v.y + c3.y, 65536) <= 0x2000_0000_0000
            &&& -0x2000_0000_0000 <= spec_tdiv(s * v.z + c3.z, 65536) <= 0x2000_0000_0000
            &&& crate::vector::in_range(r, 0x2000_0000_0000)
        }),
{
    let m = spec_st_mat(s, c3);
    assert(m[0] == s && m[1] == 0 && m[2] == 0 && m[3] == c3.x);
    assert(m[4] == 0 && m[5] == s && m[6] == 0 && m[7] == c3.y);
    assert(m[8] == 0 && m[9] == 0 && m[10] == s && m[11] == c3.z);
    assert(m[12] == 0 && m[13] == 0 && m[14] == 0 && m[15] == MAT_ONE);
    crate::math::lemma_mul_subst(m[0] as int, v.x as int, s as int);
    crate::math::lemma_mul_subst(m[5] as int, v.y as int, s as int);
    crate::math::lemma_mul_subst(m[10] as int, v.z as int, s as int);
    crate::math::lemma_mul_bounds(s as int, v.x as int, 0x40_0000_0000, 0x20_0000);
    crate::math::lemma_mul_bounds(s as int, v.y as int, 0x40_0000_0000, 0x20_0000);
    crate::math::lemma_mul_bounds(s as int, v.z as int, 0x40_0000_0000, 0x20_0000);
    crate::math::lemma_mul_subst(m[1] as int, v.y as int, 0);
    crate::math::lemma_mul_subst(m[2] as int, v.z as int, 0);
    crate::math::lemma_mul_subst(m[4] as int, v.x as int, 0);
    crate::math::lemma_mul_subst(m[6] as int, v.z as int, 0);
    crate::math::lemma_mul_subst(m[8] as int, v.x as int, 0);
    crate::math::lemma_mul_subst(m[9] as int, v.y as int, 0);
    assert(spec_vsum(m, v, 0) == m[0] * v.x + m[1] * v.y + m[2] * v.z + m[3]);
    assert(m[0] * v.x == s * v.x);
    assert(m[1] * v.y == 0);
    assert(m[2] * v.z == 0);
    assert(spec_vsum(m, v, 0) == s * v.x + c3.x);
    assert(spec_vsum(m, v, 1) == m[4] * v.x + m[5] * v.y + m[6] * v.z + m[7]);
    assert(m[4] * v.x == 0);
    assert(m[5] * v.y == s * v.y);
    assert(m[6] * v.z == 0);
    assert(spec_vsum(m, v, 1) == s * v.y + c3.y);
    assert(spec_vsum(m, v, 2) == m[8] * v.x + m[9] * v.y + m[10] * v.z + m[11]);
    assert(m[8] * v.x == 0);
    assert(m[9] * v.y == 0);
    assert(m[10] * v.z == s * v.z);
    assert(spec_vsum(m, v, 2) == s * v.z + c3.z);
    lemma_tdiv_bound(s * v.x + c3.x, 0x2000_0000_0000);
    lemma_tdiv_bound(s * v.y + c3.y, 0x2000_0000_0000);
    lemma_tdiv_bound(s * v.z + c3.z, 0x2000_0000_0000);
}

} // verus!

verus! {

/// Composition of transforms, exactly, for translations: applying the
/// translation by `t1` and then by `t2` lands every point where the single
/// translation by `t1 + t2` does, with no rounding and no tolerance.
pub proof fn lemma_translate_compose(t1: Vector, t2: Vector, v: Vector)
    requires
        crate::vector::in_range(t1, 0x1000_0000_0000),
        crate::vector::in_range(t2, 0x1000_0000_0000),
        crate::vector::in_range(v, 0x1000_0000_0000),
    ensures
        spec_mul_position(
            spec_translate_mat(t2),
            spec_mul_position(spec_translate_mat(t1), v),
        ) == spec_mul_position(
            spec_translate_mat(
                Vector {
                    x: (t1.x + t2.x) as i64,
                    y: (t1.y + t2.y) as i64,
                    z: (t1.z + t2.z) as i64,
                },
            ),
            v,
        ),
{
    lemma_translate_apply(t1, v);
    let mid = Vector {
        x: (v.x + t1.x) as i64,
        y: (v.y + t1.y) as i64,
        z: (v.z + t1.z) as i64,
    };
    lemma_translate_apply(t2, mid);
    let t12 = Vector {
        x: (t1.x + t2.x) as i64,
        y: (t1.y + t2.y) as i64,
        z: (t1.z + t2.z) as i64,
    };
    lemma_translate_apply(t12, v);
}

} // verus!
