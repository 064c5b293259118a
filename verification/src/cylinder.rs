//! Cylinder primitive, aligned along the Z axis.
//!
//! The outline and striped path generators place points by trigonometry,
//! which this library does not hold; the geometric queries live here.

use vstd::prelude::*;
use crate::bbox::BBox;
use crate::hit::Hit;
use crate::math::{isqrt, isqrt_up, lemma_mul_bounds, spec_isqrt, spec_isqrt_up};
use crate::rat::{Rat, rat_pos};
use crate::ray::Ray;
use crate::vector::{Vector, in_range, lemma_square_nonneg};
use crate::COORD_LIMIT;

verus! {

/// Texture options for cylinders.
#[derive(Clone, Copy, Debug, PartialEq, Eq, Structural)]
pub enum CylinderTexture {
    /// The silhouette seen from the camera.
    Outline,
    /// Vertical lines at equally spaced azimuths.
    Striped(u64),
}

impl CylinderTexture {
    /// The silhouette texture.
    pub fn outline() -> (r: CylinderTexture)
        ensures
            r == CylinderTexture::Outline,
    {
        CylinderTexture::Outline
    }

    /// A striped texture with the given number of lines.
    pub fn striped(num: u64) -> (r: CylinderTexture)
        ensures
            r == CylinderTexture::Striped(num),
    {
        CylinderTexture::Striped(num)
    }
}

/// A cylinder of the given radius spanning `z0..z1` around the Z axis.
#[derive(Clone, Copy, Debug, PartialEq, Eq, Structural)]
pub struct Cylinder {
    /// The radius.
    pub radius: i64,
    /// The smallest Z coordinate.
    pub z0: i64,
    /// The largest Z coordinate.
    pub z1: i64,
    /// The texture style.
    pub texture: CylinderTexture,
}

/// The Z coordinate of the ray point at parameter `tnum/den` lies strictly
/// between `z0` and `z1`, by cross-multiplication with the positive `den`.
pub open spec fn spec_cyl_zcheck(oz: int, dz: int, z0: int, z1: int, tnum: int, den: int) -> bool {
    z0 * den < oz * den + tnum * dz && oz * den + tnum * dz < z1 * den
}

/// The quadratic ray-cylinder test over exact integers: the quadratic
/// `a t^2 + b t + c = 0` in the ray parameter comes from the radial distance.
/// The irrational root is bracketed by integer square roots — the near
/// parameter uses the floor root, the far parameter the ceiling root, so an
/// exit from inside never truncates away — and the nearer root whose
/// parameter is positive and whose Z lies strictly inside the span is
/// returned. A ray parallel to the axis (`a == 0`) or a negative discriminant
/// is a miss; the end caps are not a surface here, as in the radial quadratic
/// itself.
pub open spec fn spec_cylinder_intersect(radius: int, z0: int, z1: int, r: Ray) -> Hit {
    let o = r.origin;
    let d = r.direction;
    let a = d.x * d.x + d.y * d.y;
    let b = 2 * (o.x * d.x + o.y * d.y);
    let c = o.x * o.x + o.y * o.y - radius * radius;
    let q = b * b - 4 * (a * c);
    if a == 0 || q < 0 {
        Hit::Miss
    } else {
        let s = spec_isqrt(q as nat) as int;
        let su = spec_isqrt_up(q as nat) as int;
        let den = 2 * a;
        if -b - s > 0 && spec_cyl_zcheck(o.z as int, d.z as int, z0, z1, -b - s, den) {
            Hit::At(Rat { num: (-b - s) as i128, den: den as i128 })
        } else if -b + su > 0 && spec_cyl_zcheck(o.z as int, d.z as int, z0, z1, -b + su, den) {
            Hit::At(Rat { num: (-b + su) as i128, den: den as i128 })
        } else {
            Hit::Miss
        }
    }
}

/// The point lies within the inflated cylinder: radially within `radius + f`
/// (compared by squares) and with `z` within the inflated span.
pub open spec fn spec_cylinder_contains(radius: int, z0: int, z1: int, v: Vector, f: int) -> bool {
    &&& radius + f >= 0
    &&& v.x * v.x + v.y * v.y <= (radius + f) * (radius + f)
    &&& z0 - f <= v.z <= z1 + f
}

impl Cylinder {
    pub fn new(radius: i64, z0: i64, z1: i64) -> (r: Cylinder)
        ensures
            r == (Cylinder { radius, z0, z1, texture: CylinderTexture::Outline }),
    {
        Cylinder { radius, z0, z1, texture: CylinderTexture::Outline }
    }

    /// The same cylinder with another texture.
    pub fn with_texture(self, texture: CylinderTexture) -> (r: Cylinder)
        ensures
            r == (Cylinder { texture, ..self }),
    {
        Cylinder { texture, ..self }
    }

    pub fn bounding_box(&self) -> (r: BBox)
        requires
            0 <= self.radius,
        ensures
            r == (BBox {
                min: Vector { x: -self.radius as i64, y: -self.radius as i64, z: self.z0 },
                max: Vector { x: self.radius, y: self.radius, z: self.z1 },
            }),
    {
        BBox {
            min: Vector { x: -self.radius, y: -self.radius, z: self.z0 },
            max: Vector { x: self.radius, y: self.radius, z: self.z1 },
        }
    }

    /// Whether the point lies in the cylinder inflated by `f`, comparing the
    /// radial distance by squares.
    pub fn contains(&self, v: Vector, f: i64) -> (r: bool)
        requires
            in_range(v, COORD_LIMIT as int),
            0 <= self.radius <= COORD_LIMIT,
            -COORD_LIMIT <= self.z0 <= COORD_LIMIT,
            -COORD_LIMIT <= self.z1 <= COORD_LIMIT,
            -COORD_LIMIT <= f <= COORD_LIMIT,
        ensures
            r == spec_cylinder_contains(self.radius as int, self.z0 as int, self.z1 as int, v, f as int),
    {
        let rf = self.radius + f;
        if rf < 0 {
            return false;
        }
        proof {
            lemma_mul_bounds(v.x as int, v.x as int, 524288, 524288);
            lemma_mul_bounds(v.y as int, v.y as int, 524288, 524288);
            lemma_mul_bounds(rf as int, rf as int, 1048576, 1048576);
        }
        let rad_sq = (v.x as i128) * (v.x as i128) + (v.y as i128) * (v.y as i128);
        rad_sq <= (rf as i128) * (rf as i128) && self.z0 - f <= v.z && v.z <= self.z1 + f
    }

    /// Quadratic intersection clipped to the Z span; the irrational root is
    /// bracketed by the floor root on the near side and the ceiling root on
    /// the far side.
    pub fn intersect(&self, r: Ray) -> (h: Hit)
        requires
            in_range(r.origin, COORD_LIMIT as int),
            in_range(r.direction, COORD_LIMIT as int),
            0 <= self.radius <= COORD_LIMIT,
            -COORD_LIMIT <= self.z0 <= COORD_LIMIT,
            -COORD_LIMIT <= self.z1 <= COORD_LIMIT,
        ensures
            h == spec_cylinder_intersect(self.radius as int, self.z0 as int, self.z1 as int, r),
            h.wf(),
            h is At ==> rat_pos(h->0),
    {
        let ox = r.origin.x as i128;
        let oy = r.origin.y as i128;
        let oz = r.origin.z as i128;
        let dx = r.direction.x as i128;
        let dy = r.direction.y as i128;
        let dz = r.direction.z as i128;
        proof {
            lemma_mul_bounds(dx as int, dx as int, 524288, 524288);
            lemma_mul_bounds(dy as int, dy as int, 524288, 524288);
            lemma_mul_bounds(ox as int, dx as int, 524288, 524288);
            lemma_mul_bounds(oy as int, dy as int, 524288, 524288);
            lemma_mul_bounds(ox as int, ox as int, 524288, 524288);
            lemma_mul_bounds(oy as int, oy as int, 524288, 524288);
            lemma_mul_bounds(self.radius as int, self.radius as int, 524288, 524288);
            lemma_square_nonneg(dx as int);
            lemma_square_nonneg(dy as int);
            lemma_square_nonneg(ox as int);
            lemma_square_nonneg(oy as int);
            lemma_square_nonneg(self.radius as int);
        }
        let a = dx * dx + dy * dy;
        let b = 2 * (ox * dx + oy * dy);
        let c = ox * ox + oy * oy - (self.radius as i128) * (self.radius as i128);
        proof {
            lemma_mul_bounds(b as int, b as int, 1099511627776, 1099511627776);
            lemma_mul_bounds(a as int, c as int, 549755813888, 549755813888);
        }
        let q = b * b - 4 * (a * c);
        if a == 0 || q < 0 {
            return Hit::no_hit();
        }
        let s = isqrt(q);
        let su = isqrt_up(q);
        proof {
            assert(s <= 2_000_000_000_000) by (nonlinear_arith)
                requires
                    0 <= s,
                    s * s <= q,
                    q <= 2_417_851_639_229_258_349_412_352,
            ;
        }
        let den = 2 * a;
        let t0n = -b - s;
        let t1n = -b + su;
        if t0n > 0 && self.zcheck(oz, dz, t0n, den) {
            Hit::new(Rat::new(t0n, den))
        } else if t1n > 0 && self.zcheck(oz, dz, t1n, den) {
            Hit::new(Rat::new(t1n, den))
        } else {
            Hit::no_hit()
        }
    }

    fn zcheck(&self, oz: i128, dz: i128, tnum: i128, den: i128) -> (r: bool)
        requires
            -COORD_LIMIT <= self.z0 <= COORD_LIMIT,
            -COORD_LIMIT <= self.z1 <= COORD_LIMIT,
            -524288 <= oz <= 524288,
            -524288 <= dz <= 524288,
            -4_000_000_000_000 <= tnum <= 4_000_000_000_000,
            0 < den <= 1_099_511_627_776,
        ensures
            r == spec_cyl_zcheck(oz as int, dz as int, self.z0 as int, self.z1 as int, tnum as int, den as int),
    {
        proof {
            lemma_mul_bounds(self.z0 as int, den as int, 524288, 1_099_511_627_776);
            lemma_mul_bounds(self.z1 as int, den as int, 524288, 1_099_511_627_776);
            lemma_mul_bounds(oz as int, den as int, 524288, 1_099_511_627_776);
            lemma_mul_bounds(tnum as int, dz as int, 4_000_000_000_000, 524288);
        }
        let z = oz * den + tnum * dz;
        (self.z0 as i128) * den < z && z < (self.z1 as i128) * den
    }
}

/// A ray whose origin lies strictly inside the cylinder, pointing across it
/// (a nonzero radial component and no axial one), always meets the side
/// surface at a strictly positive parameter. An axial component can carry the
/// exit through an end cap, which the radial quadratic does not model, here
/// or in the textbook slab-free form.
pub proof fn lemma_cylinder_inside_hit(radius: int, z0: int, z1: int, r: Ray)
    requires
        in_range(r.origin, COORD_LIMIT as int),
        in_range(r.direction, COORD_LIMIT as int),
        0 <= radius <= COORD_LIMIT,
        -COORD_LIMIT <= z0 <= COORD_LIMIT,
        -COORD_LIMIT <= z1 <= COORD_LIMIT,
        !(r.direction.x == 0 && r.direction.y == 0),
        r.direction.z == 0,
        r.origin.x * r.origin.x + r.origin.y * r.origin.y < radius * radius,
        z0 < r.origin.z < z1,
    ensures
        spec_cylinder_intersect(radius, z0, z1, r) is At,
        rat_pos(spec_cylinder_intersect(radius, z0, z1, r)->0),
{
    let o = r.origin;
    let d = r.direction;
    let a = d.x * d.x + d.y * d.y;
    let b = 2 * (o.x * d.x + o.y * d.y);
    let c = o.x * o.x + o.y * o.y - radius * radius;
    let q = b * b - 4 * (a * c);
    assert(a > 0) by (nonlinear_arith)
        requires
            a == d.x * d.x + d.y * d.y,
            !(d.x == 0 && d.y == 0),
    ;
    assert(c < 0);
    assert(b * b >= 0) by (nonlinear_arith);
    assert(a * c <= -a) by (nonlinear_arith)
        requires
            a > 0,
            c < 0,
    ;
    assert(q >= b * b + 4);
    let s = spec_isqrt(q as nat) as int;
    let su = spec_isqrt_up(q as nat) as int;
    let den = 2 * a;
    crate::math::lemma_isqrt_correct(q as nat);
    assert(q <= su * su) by (nonlinear_arith)
        requires
            su == s || su == s + 1,
            s >= 0,
            (su == s ==> s * s == q),
            (su == s + 1 ==> q < (s + 1) * (s + 1)),
    ;
    // With no axial motion, the Z check reduces to the origin's own height.
    assert forall|tnum: int| spec_cyl_zcheck(o.z as int, d.z as int, z0, z1, tnum, den) by {
        assert(tnum * (d.z as int) == 0) by (nonlinear_arith)
            requires
                d.z == 0,
        ;
        assert(z0 * den < o.z * den && o.z * den < z1 * den) by (nonlinear_arith)
            requires
                z0 < o.z < z1,
                den > 0,
        ;
    }
    if -b - s > 0 {
    } else {
        if b >= 0 {
            assert(su > b) by (nonlinear_arith)
                requires
                    su >= 0,
                    b >= 0,
                    q <= su * su,
                    q >= b * b + 1,
            ;
        }
        assert(-b + su > 0);
    }
    lemma_mul_bounds(d.x as int, d.x as int, 524288, 524288);
    lemma_mul_bounds(d.y as int, d.y as int, 524288, 524288);
    lemma_mul_bounds(o.x as int, d.x as int, 524288, 524288);
    lemma_mul_bounds(o.y as int, d.y as int, 524288, 524288);
    lemma_mul_bounds(o.x as int, o.x as int, 524288, 524288);
    lemma_mul_bounds(o.y as int, o.y as int, 524288, 524288);
    lemma_mul_bounds(radius, radius, 524288, 524288);
    lemma_square_nonneg(o.x as int);
    lemma_square_nonneg(o.y as int);
    lemma_mul_bounds(b, b, 1099511627776, 1099511627776);
    lemma_mul_bounds(a, c, 549755813888, 549755813888);
    assert(s <= 2_000_000_000_000) by (nonlinear_arith)
        requires
            0 <= s,
            s * s <= q,
            q <= 2_417_851_639_229_258_349_412_352,
    ;
}

} // verus!
