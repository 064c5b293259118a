//! Sphere primitive.
//!
//! Texture path generation (latitude grids, random equators, fuzz, circles)
//! depends on trigonometry and a floating-point random stream, which this
//! library does not hold; the geometric queries live here.

use vstd::prelude::*;
use crate::bbox::BBox;
use crate::hit::Hit;
use crate::math::{isqrt, isqrt_up, lemma_mul_bounds, spec_isqrt, spec_isqrt_up};
use crate::rat::{Rat, rat_pos};
use crate::ray::Ray;
use crate::triangle::{t3, tdot, tsub};
use crate::vector::{Vector, in_range, lemma_square_nonneg};
use crate::COORD_LIMIT;

verus! {

/// Texture style for spheres.
#[derive(Clone, Copy, Debug, PartialEq, Eq, Structural)]
pub enum SphereTexture {
    /// Latitude/longitude grid texture.
    LatLng,
    /// Random rotated equators (great circles), from the given seed.
    RandomEquators(u64),
    /// Random fuzz stubs on the surface, from the given seed.
    RandomFuzz(u64),
    /// Random concentric circle patterns, from the given seed.
    RandomCircles(u64),
}

/// A sphere given by center and radius.
#[derive(Clone, Copy, Debug, PartialEq, Eq, Structural)]
pub struct Sphere {
    /// The center point.
    pub center: Vector,
    /// The radius.
    pub radius: i64,
    /// Cached bounding box.
    pub bx: BBox,
    /// The texture style.
    pub texture: SphereTexture,
}

/// The quadratic ray-sphere test over exact integers: with `a` the squared
/// direction length, `b` the half mixed term and `c` the squared center
/// offset less the squared radius, the discriminant is `b^2 - a c`. The
/// irrational root is bracketed by integer square roots: the near parameter
/// `(-b - s)/a` uses the floor root, the far parameter `(-b + su)/a` the
/// ceiling root, so an exit from inside the solid never truncates away. A
/// non-positive discriminant or a zero direction is a miss.
pub open spec fn spec_sphere_intersect(c: Vector, radius: int, r: Ray) -> Hit {
    let to = tsub(t3(r.origin), t3(c));
    let d = t3(r.direction);
    let a = tdot(d, d);
    let b = tdot(to, d);
    let cc = tdot(to, to) - radius * radius;
    let disc = b * b - a * cc;
    if a == 0 || disc <= 0 {
        Hit::Miss
    } else {
        let s = spec_isqrt(disc as nat) as int;
        let su = spec_isqrt_up(disc as nat) as int;
        if -b - s > 0 {
            Hit::At(Rat { num: (-b - s) as i128, den: a as i128 })
        } else if -b + su > 0 {
            Hit::At(Rat { num: (-b + su) as i128, den: a as i128 })
        } else {
            Hit::Miss
        }
    }
}

/// The point lies within the sphere inflated by `f`: the inflated radius is
/// nonnegative and the squared center distance is at most its square.
pub open spec fn spec_sphere_contains(c: Vector, radius: int, v: Vector, f: int) -> bool {
    let to = tsub(t3(v), t3(c));
    &&& radius + f >= 0
    &&& tdot(to, to) <= (radius + f) * (radius + f)
}

impl Sphere {
    /// The cached box spans the radius around the center.
    pub open spec fn wf(self) -> bool {
        &&& self.bx == (BBox {
            min: Vector {
                x: (self.center.x - self.radius) as i64,
                y: (self.center.y - self.radius) as i64,
                z: (self.center.z - self.radius) as i64,
            },
            max: Vector {
                x: (self.center.x + self.radius) as i64,
                y: (self.center.y + self.radius) as i64,
                z: (self.center.z + self.radius) as i64,
            },
        })
        &&& 0 <= self.radius
    }

    pub fn new(center: Vector, radius: i64) -> (r: Sphere)
        requires
            in_range(center, COORD_LIMIT as int),
            0 <= radius <= COORD_LIMIT,
        ensures
            r.center == center && r.radius == radius && r.texture == SphereTexture::LatLng,
            r.wf(),
    {
        let min = Vector { x: center.x - radius, y: center.y - radius, z: center.z - radius };
        let max = Vector { x: center.x + radius, y: center.y + radius, z: center.z + radius };
        Sphere { center, radius, bx: BBox { min, max }, texture: SphereTexture::LatLng }
    }

    /// The same sphere with another texture.
    pub fn with_texture(self, texture: SphereTexture) -> (r: Sphere)
        ensures
            r == (Sphere { texture, ..self }),
    {
        Sphere { texture, ..self }
    }

    pub fn bounding_box(&self) -> (r: BBox)
        ensures
            r == self.bx,
    {
        self.bx
    }

    /// Whether the point lies in the sphere inflated by `f`, by comparing
    /// squared distances exactly.
    pub fn contains(&self, v: Vector, f: i64) -> (r: bool)
        requires
            in_range(self.center, COORD_LIMIT as int),
            in_range(v, COORD_LIMIT as int),
            0 <= self.radius <= COORD_LIMIT,
            -COORD_LIMIT <= f <= COORD_LIMIT,
        ensures
            r == spec_sphere_contains(self.center, self.radius as int, v, f as int),
    {
        let rf = self.radius + f;
        if rf < 0 {
            return false;
        }
        let tox = v.x as i128 - self.center.x as i128;
        let toy = v.y as i128 - self.center.y as i128;
        let toz = v.z as i128 - self.center.z as i128;
        proof {
            lemma_mul_bounds(tox as int, tox as int, 1048576, 1048576);
            lemma_mul_bounds(toy as int, toy as int, 1048576, 1048576);
            lemma_mul_bounds(toz as int, toz as int, 1048576, 1048576);
            lemma_mul_bounds(rf as int, rf as int, 1048576, 1048576);
        }
        let dist_sq = tox * tox + toy * toy + toz * toz;
        dist_sq <= (rf as i128) * (rf as i128)
    }

    /// Quadratic intersection; the irrational root is bracketed by the floor
    /// root on the near side and the ceiling root on the far side, so an exit
    /// from inside the solid is never truncated away.
    pub fn intersect(&self, r: Ray) -> (h: Hit)
        requires
            in_range(self.center, COORD_LIMIT as int),
            in_range(r.origin, COORD_LIMIT as int),
            in_range(r.direction, COORD_LIMIT as int),
            0 <= self.radius <= COORD_LIMIT,
        ensures
            h == spec_sphere_intersect(self.center, self.radius as int, r),
            h.wf(),
            h is At ==> rat_pos(h->0),
    {
        let tox = r.origin.x as i128 - self.center.x as i128;
        let toy = r.origin.y as i128 - self.center.y as i128;
        let toz = r.origin.z as i128 - self.center.z as i128;
        let dx = r.direction.x as i128;
        let dy = r.direction.y as i128;
        let dz = r.direction.z as i128;
        proof {
            lemma_mul_bounds(dx as int, dx as int, 524288, 524288);
            lemma_mul_bounds(dy as int, dy as int, 524288, 524288);
            lemma_mul_bounds(dz as int, dz as int, 524288, 524288);
            lemma_mul_bounds(tox as int, dx as int, 1048576, 524288);
            lemma_mul_bounds(toy as int, dy as int, 1048576, 524288);
            lemma_mul_bounds(toz as int, dz as int, 1048576, 524288);
            lemma_mul_bounds(tox as int, tox as int, 1048576, 1048576);
            lemma_mul_bounds(toy as int, toy as int, 1048576, 1048576);
            lemma_mul_bounds(toz as int, toz as int, 1048576, 1048576);
            lemma_mul_bounds(self.radius as int, self.radius as int, 524288, 524288);
            lemma_square_nonneg(dx as int);
            lemma_square_nonneg(dy as int);
            lemma_square_nonneg(dz as int);
            lemma_square_nonneg(tox as int);
            lemma_square_nonneg(toy as int);
            lemma_square_nonneg(toz as int);
            lemma_square_nonneg(self.radius as int);
        }
        let a = dx * dx + dy * dy + dz * dz;
        let b = tox * dx + toy * dy + toz * dz;
        let c = tox * tox + toy * toy + toz * toz - (self.radius as i128) * (self.radius as i128);
        proof {
            lemma_mul_bounds(b as int, b as int, 1649267441664, 1649267441664);
            lemma_mul_bounds(a as int, c as int, 824633720832, 3298534883328);
        }
        let disc = b * b - a * c;
        if a == 0 || disc <= 0 {
            return Hit::no_hit();
        }
        let s = isqrt(disc);
        let su = isqrt_up(disc);
        proof {
            assert(s <= 3_000_000_000_000) by (nonlinear_arith)
                requires
                    0 <= s,
                    s * s <= disc,
                    disc <= 5_440_724_416_184_385_536_917_504,
            ;
        }
        if -b - s > 0 {
            Hit::new(Rat::new(-b - s, a))
        } else if -b + su > 0 {
            Hit::new(Rat::new(-b + su, a))
        } else {
            Hit::no_hit()
        }
    }
}

/// A sphere that renders as its silhouette circle; the geometric queries
/// delegate to the underlying sphere.
#[derive(Clone, Copy, Debug, PartialEq, Eq, Structural)]
pub struct OutlineSphere {
    /// The underlying sphere geometry.
    pub sphere: Sphere,
}

impl OutlineSphere {
    pub fn new(center: Vector, radius: i64) -> (r: OutlineSphere)
        requires
            in_range(center, COORD_LIMIT as int),
            0 <= radius <= COORD_LIMIT,
        ensures
            r.sphere.center == center && r.sphere.radius == radius,
            r.sphere.wf(),
    {
        OutlineSphere { sphere: Sphere::new(center, radius) }
    }

    pub fn bounding_box(&self) -> (r: BBox)
        ensures
            r == self.sphere.bx,
    {
        self.sphere.bounding_box()
    }

    pub fn contains(&self, v: Vector, f: i64) -> (r: bool)
        requires
            in_range(self.sphere.center, COORD_LIMIT as int),
            in_range(v, COORD_LIMIT as int),
            0 <= self.sphere.radius <= COORD_LIMIT,
            -COORD_LIMIT <= f <= COORD_LIMIT,
        ensures
            r == spec_sphere_contains(self.sphere.center, self.sphere.radius as int, v, f as int),
    {
        self.sphere.contains(v, f)
    }

    pub fn intersect(&self, r: Ray) -> (h: Hit)
        requires
            in_range(self.sphere.center, COORD_LIMIT as int),
            in_range(r.origin, COORD_LIMIT as int),
            in_range(r.direction, COORD_LIMIT as int),
            0 <= self.sphere.radius <= COORD_LIMIT,
        ensures
            h == spec_sphere_intersect(self.sphere.center, self.sphere.radius as int, r),
            h.wf(),
            h is At ==> rat_pos(h->0),
    {
        self.sphere.intersect(r)
    }
}

} // verus!

verus! {

/// A ray whose origin lies strictly inside the sphere and whose direction is
/// not the zero vector always meets the surface at a strictly positive
/// parameter: the discriminant is positive and the ceiling root of the far
/// parameter clears the mixed term.
pub proof fn lemma_sphere_inside_hit(c: Vector, radius: int, r: Ray)
    requires
        in_range(c, COORD_LIMIT as int),
        in_range(r.origin, COORD_LIMIT as int),
        in_range(r.direction, COORD_LIMIT as int),
        0 <= radius <= COORD_LIMIT,
        !(r.direction.x == 0 && r.direction.y == 0 && r.direction.z == 0),
        tdot(tsub(t3(r.origin), t3(c)), tsub(t3(r.origin), t3(c))) < radius * radius,
    ensures
        spec_sphere_intersect(c, radius, r) is At,
        rat_pos(spec_sphere_intersect(c, radius, r)->0),
{
    let to = tsub(t3(r.origin), t3(c));
    let d = t3(r.direction);
    let a = tdot(d, d);
    let b = tdot(to, d);
    let cc = tdot(to, to) - radius * radius;
    let disc = b * b - a * cc;
    assert(a > 0) by (nonlinear_arith)
        requires
            a == d.0 * d.0 + d.1 * d.1 + d.2 * d.2,
            !(d.0 == 0 && d.1 == 0 && d.2 == 0),
    ;
    assert(cc < 0);
    assert(b * b >= 0) by (nonlinear_arith);
    assert(a * cc <= -a) by (nonlinear_arith)
        requires
            a > 0,
            cc < 0,
    ;
    assert(disc >= b * b + a);
    let s = spec_isqrt(disc as nat) as int;
    let su = spec_isqrt_up(disc as nat) as int;
    crate::math::lemma_isqrt_correct(disc as nat);
    assert(disc <= su * su) by (nonlinear_arith)
        requires
            su == s || su == s + 1,
            s >= 0,
            (su == s ==> s * s == disc),
            (su == s + 1 ==> disc < (s + 1) * (s + 1)),
    ;
    if -b - s > 0 {
    } else {
        // The far parameter is positive: its ceiling root exceeds the mixed
        // term, whichever sign that has.
        if b >= 0 {
            assert(su > b) by (nonlinear_arith)
                requires
                    su >= 0,
                    b >= 0,
                    disc <= su * su,
                    disc >= b * b + 1,
            ;
        }
        assert(-b + su > 0);
    }
    lemma_mul_bounds(to.0, d.0, 1048576, 524288);
    lemma_mul_bounds(to.1, d.1, 1048576, 524288);
    lemma_mul_bounds(to.2, d.2, 1048576, 524288);
    lemma_mul_bounds(d.0, d.0, 524288, 524288);
    lemma_mul_bounds(d.1, d.1, 524288, 524288);
    lemma_mul_bounds(d.2, d.2, 524288, 524288);
    lemma_mul_bounds(to.0, to.0, 1048576, 1048576);
    lemma_mul_bounds(to.1, to.1, 1048576, 1048576);
    lemma_mul_bounds(to.2, to.2, 1048576, 1048576);
    lemma_mul_bounds(radius, radius, 524288, 524288);
    lemma_square_nonneg(to.0);
    lemma_square_nonneg(to.1);
    lemma_square_nonneg(to.2);
    lemma_square_nonneg(radius);
    lemma_mul_bounds(b, b, 1649267441664, 1649267441664);
    lemma_mul_bounds(a, cc, 824633720832, 3298534883328);
    assert(s <= 3_000_000_000_000) by (nonlinear_arith)
        requires
            0 <= s,
            s * s <= disc,
            disc <= 5_440_724_416_184_385_536_917_504,
    ;
}

} // verus!
