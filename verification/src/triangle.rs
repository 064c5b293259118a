//! Triangles and the exact ray-triangle intersection kernel.

use vstd::prelude::*;
use crate::bbox::BBox;
use crate::hit::Hit;
use crate::math::lemma_mul_bounds;
use crate::path::{Path, Paths, paths_view};
use crate::rat::{Rat, rat_pos};
use crate::ray::Ray;
use crate::vector::{Vector, in_range};
use crate::COORD_LIMIT;

verus! {

/// A coordinate triple as mathematical integers.
pub open spec fn t3(v: Vector) -> (int, int, int) {
    (v.x as int, v.y as int, v.z as int)
}

pub open spec fn tsub(a: (int, int, int), b: (int, int, int)) -> (int, int, int) {
    (a.0 - b.0, a.1 - b.1, a.2 - b.2)
}

pub open spec fn tdot(a: (int, int, int), b: (int, int, int)) -> int {
    a.0 * b.0 + a.1 * b.1 + a.2 * b.2
}

pub open spec fn tcross(a: (int, int, int), b: (int, int, int)) -> (int, int, int) {
    (a.1 * b.2 - a.2 * b.1, a.2 * b.0 - a.0 * b.2, a.0 * b.1 - a.1 * b.0)
}

/// The Moller-Trumbore ray-triangle test over exact integers.
///
/// With `det` the triple product of the two edges and the ray direction, the
/// barycentric coordinates of the meeting point are `u/det` and `v/det`, and
/// the ray parameter is `dn/det`; the sign-free conditions below say
/// `0 <= u/det`, `u/det <= 1`, `0 <= v/det`, `u/det + v/det <= 1` and
/// `dn/det > 0`. A zero determinant (ray parallel to the triangle's plane, or
/// a degenerate triangle) is a miss.
pub open spec fn spec_triangle_intersect(v1: Vector, v2: Vector, v3: Vector, r: Ray) -> Hit {
    let e1 = tsub(t3(v2), t3(v1));
    let e2 = tsub(t3(v3), t3(v1));
    let tv = tsub(t3(r.origin), t3(v1));
    let d = t3(r.direction);
    let p = tcross(d, e2);
    let det = tdot(e1, p);
    let u = tdot(tv, p);
    let q = tcross(tv, e1);
    let v = tdot(d, q);
    let dn = tdot(e2, q);
    if det == 0 {
        Hit::Miss
    } else if u * det < 0 || u * det > det * det {
        Hit::Miss
    } else if v * det < 0 || (u + v) * det > det * det {
        Hit::Miss
    } else if dn * det <= 0 {
        Hit::Miss
    } else if det > 0 {
        Hit::At(Rat { num: dn as i128, den: det as i128 })
    } else {
        Hit::At(Rat { num: (-dn) as i128, den: (-det) as i128 })
    }
}

/// Exact dot product of `i128` triples, with bounds carried as ghost values.
fn dot3(a: (i128, i128, i128), b: (i128, i128, i128), Ghost(ab): Ghost<int>, Ghost(bb): Ghost<
    int,
>) -> (r: i128)
    requires
        0 <= ab,
        0 <= bb,
        -ab <= a.0 <= ab && -ab <= a.1 <= ab && -ab <= a.2 <= ab,
        -bb <= b.0 <= bb && -bb <= b.1 <= bb && -bb <= b.2 <= bb,
        3 * ab * bb <= i128::MAX,
    ensures
        r == tdot((a.0 as int, a.1 as int, a.2 as int), (b.0 as int, b.1 as int, b.2 as int)),
        -(3 * ab * bb) <= r <= 3 * ab * bb,
{
    proof {
        let t = ab * bb;
        assert(t >= 0 && 3 * t == 3 * ab * bb) by (nonlinear_arith)
            requires
                0 <= ab,
                0 <= bb,
                t == ab * bb,
        ;
        lemma_mul_bounds(a.0 as int, b.0 as int, ab, bb);
        lemma_mul_bounds(a.1 as int, b.1 as int, ab, bb);
        lemma_mul_bounds(a.2 as int, b.2 as int, ab, bb);
    }
    a.0 * b.0 + a.1 * b.1 + a.2 * b.2
}

/// Exact cross product of `i128` triples, with bounds carried as ghost values.
fn cross3(a: (i128, i128, i128), b: (i128, i128, i128), Ghost(ab): Ghost<int>, Ghost(bb): Ghost<
    int,
>) -> (r: (i128, i128, i128))
    requires
        0 <= ab,
        0 <= bb,
        -ab <= a.0 <= ab && -ab <= a.1 <= ab && -ab <= a.2 <= ab,
        -bb <= b.0 <= bb && -bb <= b.1 <= bb && -bb <= b.2 <= bb,
        2 * ab * bb <= i128::MAX,
    ensures
        (r.0 as int, r.1 as int, r.2 as int) == tcross(
            (a.0 as int, a.1 as int, a.2 as int),
            (b.0 as int, b.1 as int, b.2 as int),
        ),
        -(2 * ab * bb) <= r.0 <= 2 * ab * bb,
        -(2 * ab * bb) <= r.1 <= 2 * ab * bb,
        -(2 * ab * bb) <= r.2 <= 2 * ab * bb,
{
    proof {
        let t = ab * bb;
        assert(t >= 0 && 2 * t == 2 * ab * bb) by (nonlinear_arith)
            requires
                0 <= ab,
                0 <= bb,
                t == ab * bb,
        ;
        lemma_mul_bounds(a.1 as int, b.2 as int, ab, bb);
        lemma_mul_bounds(a.2 as int, b.1 as int, ab, bb);
        lemma_mul_bounds(a.2 as int, b.0 as int, ab, bb);
        lemma_mul_bounds(a.0 as int, b.2 as int, ab, bb);
        lemma_mul_bounds(a.0 as int, b.1 as int, ab, bb);
        lemma_mul_bounds(a.1 as int, b.0 as int, ab, bb);
    }
    (a.1 * b.2 - a.2 * b.1, a.2 * b.0 - a.0 * b.2, a.0 * b.1 - a.1 * b.0)
}

/// A triangle with a cached bounding box.
#[derive(Clone, Copy, Debug, PartialEq, Eq, Structural)]
pub struct Triangle {
    pub v1: Vector,
    pub v2: Vector,
    pub v3: Vector,
    pub bx: BBox,
}

impl Triangle {
    /// The cached box is the componentwise envelope of the three vertices.
    pub open spec fn wf(self) -> bool {
        self.bx == (BBox {
            min: self.v1.spec_min3(self.v2).spec_min3(self.v3),
            max: self.v1.spec_max3(self.v2).spec_max3(self.v3),
        })
    }

    pub fn new(v1: Vector, v2: Vector, v3: Vector) -> (r: Triangle)
        ensures
            r.v1 == v1 && r.v2 == v2 && r.v3 == v3,
            r.wf(),
    {
        Triangle { v1, v2, v3, bx: BBox { min: v1.min(v2).min(v3), max: v1.max(v2).max(v3) } }
    }

    /// Runs the Moller-Trumbore kernel on three vertices.
    pub fn intersect_vertices(v1: Vector, v2: Vector, v3: Vector, r: Ray) -> (h: Hit)
        requires
            in_range(v1, COORD_LIMIT as int),
            in_range(v2, COORD_LIMIT as int),
            in_range(v3, COORD_LIMIT as int),
            in_range(r.origin, COORD_LIMIT as int),
            in_range(r.direction, COORD_LIMIT as int),
        ensures
            h == spec_triangle_intersect(v1, v2, v3, r),
            h.wf(),
            h is At ==> rat_pos(h->0),
    {
        let e1 = (
            v2.x as i128 - v1.x as i128,
            v2.y as i128 - v1.y as i128,
            v2.z as i128 - v1.z as i128,
        );
        let e2 = (
            v3.x as i128 - v1.x as i128,
            v3.y as i128 - v1.y as i128,
            v3.z as i128 - v1.z as i128,
        );
        let tv = (
            r.origin.x as i128 - v1.x as i128,
            r.origin.y as i128 - v1.y as i128,
            r.origin.z as i128 - v1.z as i128,
        );
        let d = (r.direction.x as i128, r.direction.y as i128, r.direction.z as i128);
        let p = cross3(d, e2, Ghost(524288), Ghost(1048576));
        let det = dot3(e1, p, Ghost(1048576), Ghost(1099511627776));
        let u = dot3(tv, p, Ghost(1048576), Ghost(1099511627776));
        let q = cross3(tv, e1, Ghost(1048576), Ghost(1048576));
        let v = dot3(d, q, Ghost(524288), Ghost(2199023255552));
        let dn = dot3(e2, q, Ghost(1048576), Ghost(2199023255552));
        proof {
            lemma_mul_bounds(u as int, det as int, 3458764513820540928, 3458764513820540928);
            lemma_mul_bounds(det as int, det as int, 3458764513820540928, 3458764513820540928);
            lemma_mul_bounds(v as int, det as int, 3458764513820540928, 3458764513820540928);
            lemma_mul_bounds(
                (u + v) as int,
                det as int,
                6917529027641081856,
                3458764513820540928,
            );
            lemma_mul_bounds(dn as int, det as int, 6917529027641081856, 3458764513820540928);
        }
        if det == 0 {
            return Hit::no_hit();
        }
        if u * det < 0 || u * det > det * det {
            return Hit::no_hit();
        }
        if v * det < 0 || (u + v) * det > det * det {
            return Hit::no_hit();
        }
        if dn * det <= 0 {
            return Hit::no_hit();
        }
        proof {
            assert(det > 0 ==> dn > 0) by (nonlinear_arith)
                requires
                    dn * det > 0,
            ;
            assert(det < 0 ==> -dn > 0) by (nonlinear_arith)
                requires
                    dn * det > 0,
            ;
        }
        if det > 0 {
            Hit::new(Rat::new(dn, det))
        } else {
            Hit::new(Rat::new(-dn, -det))
        }
    }

    pub fn bounding_box(&self) -> (r: BBox)
        ensures
            r == self.bx,
    {
        self.bx
    }

    /// A triangle has no interior as a solid.
    pub fn contains(&self, _v: Vector, _f: i64) -> (r: bool)
        ensures
            r == false,
    {
        false
    }

    pub fn intersect(&self, r: Ray) -> (h: Hit)
        requires
            in_range(self.v1, COORD_LIMIT as int),
            in_range(self.v2, COORD_LIMIT as int),
            in_range(self.v3, COORD_LIMIT as int),
            in_range(r.origin, COORD_LIMIT as int),
            in_range(r.direction, COORD_LIMIT as int),
        ensures
            h == spec_triangle_intersect(self.v1, self.v2, self.v3, r),
            h.wf(),
            h is At ==> rat_pos(h->0),
    {
        Self::intersect_vertices(self.v1, self.v2, self.v3, r)
    }

    /// The three edges, as three two-point polylines.
    pub fn paths(&self) -> (r: Paths)
        ensures
            paths_view(r) =~= seq![
                seq![self.v1, self.v2],
                seq![self.v2, self.v3],
                seq![self.v3, self.v1],
            ],
    {
        let mut out: Vec<Path> = Vec::new();
        let e1: Path = vec![self.v1, self.v2];
        let e2: Path = vec![self.v2, self.v3];
        let e3: Path = vec![self.v3, self.v1];
        out.push(e1);
        out.push(e2);
        out.push(e3);
        Paths::from_vec(out)
    }
}

} // verus!
