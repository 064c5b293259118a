//! Axis-aligned cube primitive.

use vstd::prelude::*;
use crate::bbox::{BBox, spec_box_contains};
use crate::hit::Hit;
use crate::path::{Path, Paths, paths_view};
use crate::rat::{Rat, lemma_rat_le_trans, rat_le, rat_lt, rat_pos};
use crate::ray::Ray;
use crate::vector::{Vector, in_range};
use crate::COORD_LIMIT;

verus! {

/// Texture style for the cube.
#[derive(Clone, Copy, Debug, PartialEq, Eq, Structural)]
pub enum CubeTexture {
    /// Plain cube with edges only.
    Vanilla,
    /// Cube with striped pattern on faces.
    Striped(u64),
}

impl CubeTexture {
    /// A plain texture with edges only.
    pub fn vanilla() -> (r: CubeTexture)
        ensures
            r == CubeTexture::Vanilla,
    {
        CubeTexture::Vanilla
    }

    /// A striped texture with the given number of stripes.
    pub fn striped(stripes: u64) -> (r: CubeTexture)
        ensures
            r == CubeTexture::Striped(stripes),
    {
        CubeTexture::Striped(stripes)
    }
}

/// An axis-aligned cube (rectangular cuboid) given by two opposite corners.
#[derive(Clone, Copy, Debug, PartialEq, Eq, Structural)]
pub struct Cube {
    /// The corner with the smallest coordinates.
    pub min: Vector,
    /// The corner with the largest coordinates.
    pub max: Vector,
    /// Cached bounding box.
    pub bx: BBox,
    /// Texture style.
    pub texture: CubeTexture,
}

/// Entry parameter of the ray against one slab, as a positive-denominator
/// fraction; meaningful only for `dc != 0`.
pub open spec fn spec_axis_lo(minc: int, maxc: int, oc: int, dc: int) -> Rat {
    if dc > 0 {
        Rat { num: (minc - oc) as i128, den: dc as i128 }
    } else {
        Rat { num: (oc - maxc) as i128, den: (-dc) as i128 }
    }
}

/// Exit parameter of the ray against one slab; meaningful only for `dc != 0`.
pub open spec fn spec_axis_hi(minc: int, maxc: int, oc: int, dc: int) -> Rat {
    if dc > 0 {
        Rat { num: (maxc - oc) as i128, den: dc as i128 }
    } else {
        Rat { num: (oc - minc) as i128, den: (-dc) as i128 }
    }
}

/// The larger of an optional running entry parameter and a new one.
pub open spec fn spec_lo_join(acc: Option<Rat>, n: Rat) -> Option<Rat> {
    match acc {
        Option::None => Option::Some(n),
        Option::Some(a) => Option::Some(if rat_le(a, n) { n } else { a }),
    }
}

/// The smaller of an optional running exit parameter and a new one.
pub open spec fn spec_hi_join(acc: Option<Rat>, f: Rat) -> Option<Rat> {
    match acc {
        Option::None => Option::Some(f),
        Option::Some(a) => Option::Some(if rat_le(f, a) { f } else { a }),
    }
}

/// The slab interval of the ray against the box: `None` when a zero-direction
/// axis already misses the box or the direction is the zero vector, else the
/// entry and exit parameters folded over the axes in `x`, `y`, `z` order.
pub open spec fn spec_slab_interval(mn: Vector, mx: Vector, r: Ray) -> Option<(Rat, Rat)> {
    let o = r.origin;
    let d = r.direction;
    if d.x == 0 && (o.x < mn.x || o.x > mx.x) {
        Option::None
    } else if d.y == 0 && (o.y < mn.y || o.y > mx.y) {
        Option::None
    } else if d.z == 0 && (o.z < mn.z || o.z > mx.z) {
        Option::None
    } else if d.x == 0 && d.y == 0 && d.z == 0 {
        Option::None
    } else {
        let accx: (Option<Rat>, Option<Rat>) = if d.x == 0 {
            (Option::None, Option::None)
        } else {
            (
                Option::Some(spec_axis_lo(mn.x as int, mx.x as int, o.x as int, d.x as int)),
                Option::Some(spec_axis_hi(mn.x as int, mx.x as int, o.x as int, d.x as int)),
            )
        };
        let accy: (Option<Rat>, Option<Rat>) = if d.y == 0 {
            accx
        } else {
            (
                spec_lo_join(accx.0, spec_axis_lo(mn.y as int, mx.y as int, o.y as int, d.y as int)),
                spec_hi_join(accx.1, spec_axis_hi(mn.y as int, mx.y as int, o.y as int, d.y as int)),
            )
        };
        let accz: (Option<Rat>, Option<Rat>) = if d.z == 0 {
            accy
        } else {
            (
                spec_lo_join(accy.0, spec_axis_lo(mn.z as int, mx.z as int, o.z as int, d.z as int)),
                spec_hi_join(accy.1, spec_axis_hi(mn.z as int, mx.z as int, o.z as int, d.z as int)),
            )
        };
        Option::Some((accz.0->0, accz.1->0))
    }
}

/// The slab test: from inside or on the boundary (entry parameter `<= 0`) the
/// ray leaves through the exit parameter when that is positive; from outside
/// it enters at a positive entry parameter strictly before the exit.
pub open spec fn spec_cube_intersect(mn: Vector, mx: Vector, r: Ray) -> Hit {
    match spec_slab_interval(mn, mx, r) {
        Option::None => Hit::Miss,
        Option::Some((t0, t1)) => {
            let zero = Rat { num: 0, den: 1 };
            if rat_le(t0, zero) && rat_lt(zero, t1) {
                Hit::At(t1)
            } else if rat_lt(zero, t0) && rat_lt(t0, t1) {
                Hit::At(t0)
            } else {
                Hit::Miss
            }
        },
    }
}

impl Cube {
    /// The cached box spans exactly the two corners.
    pub open spec fn wf(self) -> bool {
        self.bx == (BBox { min: self.min, max: self.max })
    }

    pub fn new(min: Vector, max: Vector) -> (r: Cube)
        ensures
            r.min == min && r.max == max && r.texture == CubeTexture::Vanilla,
            r.wf(),
    {
        Cube { min, max, bx: BBox { min, max }, texture: CubeTexture::Vanilla }
    }

    /// The same cube with another texture.
    pub fn with_texture(self, texture: CubeTexture) -> (r: Cube)
        ensures
            r == (Cube { texture, ..self }),
    {
        Cube { texture, ..self }
    }

    pub fn bounding_box(&self) -> (r: BBox)
        ensures
            r == self.bx,
    {
        self.bx
    }

    /// Whether the point lies in the cube inflated by `f`.
    pub fn contains(&self, v: Vector, f: i64) -> (r: bool)
        requires
            in_range(self.min, COORD_LIMIT as int),
            in_range(self.max, COORD_LIMIT as int),
            -COORD_LIMIT <= f <= COORD_LIMIT,
        ensures
            r == spec_box_contains(BBox { min: self.min, max: self.max }, v, f as int),
    {
        if v.x < self.min.x - f || v.x > self.max.x + f {
            return false;
        }
        if v.y < self.min.y - f || v.y > self.max.y + f {
            return false;
        }
        if v.z < self.min.z - f || v.z > self.max.z + f {
            return false;
        }
        true
    }

    /// Slab intersection with exact rational parameters.
    pub fn intersect(&self, r: Ray) -> (h: Hit)
        requires
            in_range(self.min, COORD_LIMIT as int),
            in_range(self.max, COORD_LIMIT as int),
            in_range(r.origin, COORD_LIMIT as int),
            in_range(r.direction, COORD_LIMIT as int),
        ensures
            h == spec_cube_intersect(self.min, self.max, r),
            h.wf(),
            h is At ==> rat_pos(h->0),
    {
        let o = r.origin;
        let d = r.direction;
        if d.x == 0 && (o.x < self.min.x || o.x > self.max.x) {
            return Hit::no_hit();
        }
        if d.y == 0 && (o.y < self.min.y || o.y > self.max.y) {
            return Hit::no_hit();
        }
        if d.z == 0 && (o.z < self.min.z || o.z > self.max.z) {
            return Hit::no_hit();
        }
        if d.x == 0 && d.y == 0 && d.z == 0 {
            return Hit::no_hit();
        }
        let mut lo: Option<Rat> = None;
        let mut hi: Option<Rat> = None;
        if d.x != 0 {
            lo = Some(Self::axis_lo(self.min.x, self.max.x, o.x, d.x));
            hi = Some(Self::axis_hi(self.min.x, self.max.x, o.x, d.x));
        }
        if d.y != 0 {
            lo = Self::lo_join(lo, Self::axis_lo(self.min.y, self.max.y, o.y, d.y));
            hi = Self::hi_join(hi, Self::axis_hi(self.min.y, self.max.y, o.y, d.y));
        }
        if d.z != 0 {
            lo = Self::lo_join(lo, Self::axis_lo(self.min.z, self.max.z, o.z, d.z));
            hi = Self::hi_join(hi, Self::axis_hi(self.min.z, self.max.z, o.z, d.z));
        }
        let t0 = lo.unwrap();
        let t1 = hi.unwrap();
        let zero = Rat::from_int(0);
        if t0.le(zero) && zero.lt(t1) {
            Hit::new(t1)
        } else if zero.lt(t0) && t0.lt(t1) {
            Hit::new(t0)
        } else {
            Hit::no_hit()
        }
    }

    fn axis_lo(minc: i64, maxc: i64, oc: i64, dc: i64) -> (t: Rat)
        requires
            dc != 0,
            -COORD_LIMIT <= minc <= COORD_LIMIT,
            -COORD_LIMIT <= maxc <= COORD_LIMIT,
            -COORD_LIMIT <= oc <= COORD_LIMIT,
            -COORD_LIMIT <= dc <= COORD_LIMIT,
        ensures
            t == spec_axis_lo(minc as int, maxc as int, oc as int, dc as int),
            t.wf(),
    {
        if dc > 0 {
            Rat::new(minc as i128 - oc as i128, dc as i128)
        } else {
            Rat::new(oc as i128 - maxc as i128, -(dc as i128))
        }
    }

    fn axis_hi(minc: i64, maxc: i64, oc: i64, dc: i64) -> (t: Rat)
        requires
            dc != 0,
            -COORD_LIMIT <= minc <= COORD_LIMIT,
            -COORD_LIMIT <= maxc <= COORD_LIMIT,
            -COORD_LIMIT <= oc <= COORD_LIMIT,
            -COORD_LIMIT <= dc <= COORD_LIMIT,
        ensures
            t == spec_axis_hi(minc as int, maxc as int, oc as int, dc as int),
            t.wf(),
    {
        if dc > 0 {
            Rat::new(maxc as i128 - oc as i128, dc as i128)
        } else {
            Rat::new(oc as i128 - minc as i128, -(dc as i128))
        }
    }

    fn lo_join(acc: Option<Rat>, n: Rat) -> (r: Option<Rat>)
        requires
            acc is Some ==> acc->0.wf(),
            n.wf(),
        ensures
            r == spec_lo_join(acc, n),
            r is Some && r->0.wf(),
    {
        match acc {
            None => Some(n),
            Some(a) => Some(if a.le(n) { n } else { a }),
        }
    }

    fn hi_join(acc: Option<Rat>, f: Rat) -> (r: Option<Rat>)
        requires
            acc is Some ==> acc->0.wf(),
            f.wf(),
        ensures
            r == spec_hi_join(acc, f),
            r is Some && r->0.wf(),
    {
        match acc {
            None => Some(f),
            Some(a) => Some(if f.le(a) { f } else { a }),
        }
    }

    /// Dispatches on the texture; the plain cube is one stripe.
    pub fn paths(&self) -> (r: Paths)
        requires
            in_range(self.min, COORD_LIMIT as int),
            in_range(self.max, COORD_LIMIT as int),
            self.min.x <= self.max.x && self.min.y <= self.max.y && self.min.z <= self.max.z,
            self.texture matches CubeTexture::Striped(s) ==> 1 <= s < u64::MAX,
        ensures
            paths_view(r) == match self.texture {
                CubeTexture::Vanilla => spec_stripe_blocks(self.min, self.max, 1, 2),
                CubeTexture::Striped(s) => spec_stripe_blocks(self.min, self.max, s as int, s as int + 1),
            },
    {
        match self.texture {
            CubeTexture::Vanilla => self.paths_striped(1),
            CubeTexture::Striped(stripes) => self.paths_striped(stripes),
        }
    }

    /// Emits `s+1` vertical strokes on each vertical face and `s+1` perimeter
    /// rings on the top and bottom faces, at integer-interpolated offsets.
    pub fn paths_striped(&self, stripes: u64) -> (r: Paths)
        requires
            1 <= stripes < u64::MAX,
            in_range(self.min, COORD_LIMIT as int),
            in_range(self.max, COORD_LIMIT as int),
            self.min.x <= self.max.x && self.min.y <= self.max.y && self.min.z <= self.max.z,
        ensures
            paths_view(r) == spec_stripe_blocks(self.min, self.max, stripes as int, stripes as int + 1),
    {
        let mut out: Vec<Path> = Vec::new();
        let mut i: u64 = 0;
        while i <= stripes
            invariant
                1 <= stripes < u64::MAX,
                0 <= i <= stripes + 1,
                in_range(self.min, COORD_LIMIT as int),
                in_range(self.max, COORD_LIMIT as int),
                self.min.x <= self.max.x && self.min.y <= self.max.y && self.min.z <= self.max.z,
                out@.map_values(|q: Path| q@) == spec_stripe_blocks(
                    self.min,
                    self.max,
                    stripes as int,
                    i as int,
                ),
            decreases stripes + 1 - i,
        {
            let ghost before = out@.map_values(|q: Path| q@);
            let (x1, y1, z1) = (self.min.x, self.min.y, self.min.z);
            let (x2, y2, z2) = (self.max.x, self.max.y, self.max.z);
            let x = Self::lerp_lo(x1, x2, i, stripes);
            let y = Self::lerp_lo(y1, y2, i, stripes);
            let x_ = Self::lerp_hi(x1, x2, i, stripes);
            let y_ = Self::lerp_hi(y1, y2, i, stripes);
            if i != stripes {
                let p1: Path = vec![Vector { x, y: y1, z: z1 }, Vector { x, y: y1, z: z2 }];
                let p2: Path = vec![Vector { x: x_, y: y2, z: z1 }, Vector { x: x_, y: y2, z: z2 }];
                let p3: Path = vec![Vector { x: x1, y: y_, z: z1 }, Vector { x: x1, y: y_, z: z2 }];
                let p4: Path = vec![Vector { x: x2, y, z: z1 }, Vector { x: x2, y, z: z2 }];
                out.push(p1);
                out.push(p2);
                out.push(p3);
                out.push(p4);
            }
            let q1: Path = vec![Vector { x, y, z: z1 }, Vector { x: x_, y, z: z1 }];
            let q2: Path = vec![Vector { x, y, z: z1 }, Vector { x, y: y_, z: z1 }];
            let q3: Path = vec![Vector { x, y, z: z2 }, Vector { x: x_, y, z: z2 }];
            let q4: Path = vec![Vector { x, y, z: z2 }, Vector { x, y: y_, z: z2 }];
            out.push(q1);
            out.push(q2);
            out.push(q3);
            out.push(q4);
            proof {
                assert(out@.map_values(|q: Path| q@) =~= before + spec_stripe_block(
                    self.min,
                    self.max,
                    stripes as int,
                    i as int,
                ));
            }
            i += 1;
        }
        Paths::from_vec(out)
    }

    /// `a + (b - a) * i / n`, the lower interpolated coordinate.
    fn lerp_lo(a: i64, b: i64, i: u64, n: u64) -> (r: i64)
        requires
            n >= 1,
            i <= n,
            -COORD_LIMIT <= a <= b <= COORD_LIMIT,
        ensures
            r == spec_lerp_lo(a as int, b as int, i as int, n as int),
            a <= r <= b,
    {
        let delta = (b - a) as u128;
        proof {
            assert(delta * (i as u128) <= 0x100000 * 0xFFFF_FFFF_FFFF_FFFF) by (nonlinear_arith)
                requires
                    delta <= 0x100000,
                    i as u128 <= 0xFFFF_FFFF_FFFF_FFFF,
            ;
        }
        let q = delta * (i as u128) / (n as u128);
        proof {
            lemma_lerp_quotient_range(delta as int, i as int, n as int);
        }
        a + (q as i64)
    }

    /// `b - (b - a) * i / n`, the upper interpolated coordinate.
    fn lerp_hi(a: i64, b: i64, i: u64, n: u64) -> (r: i64)
        requires
            n >= 1,
            i <= n,
            -COORD_LIMIT <= a <= b <= COORD_LIMIT,
        ensures
            r == spec_lerp_hi(a as int, b as int, i as int, n as int),
            a <= r <= b,
    {
        let delta = (b - a) as u128;
        proof {
            assert(delta * (i as u128) <= 0x100000 * 0xFFFF_FFFF_FFFF_FFFF) by (nonlinear_arith)
                requires
                    delta <= 0x100000,
                    i as u128 <= 0xFFFF_FFFF_FFFF_FFFF,
            ;
        }
        let q = delta * (i as u128) / (n as u128);
        proof {
            lemma_lerp_quotient_range(delta as int, i as int, n as int);
        }
        b - (q as i64)
    }
}

/// `a + (b - a) * i / n` over the integers.
pub open spec fn spec_lerp_lo(a: int, b: int, i: int, n: int) -> int {
    a + (b - a) * i / n
}

/// `b - (b - a) * i / n` over the integers.
pub open spec fn spec_lerp_hi(a: int, b: int, i: int, n: int) -> int {
    b - (b - a) * i / n
}

proof fn lemma_lerp_quotient_range(delta: int, i: int, n: int)
    requires
        delta >= 0,
        0 <= i <= n,
        n >= 1,
    ensures
        0 <= delta * i / n <= delta,
{
    vstd::arithmetic::mul::lemma_mul_inequality(i, n, delta);
    vstd::arithmetic::mul::lemma_mul_is_commutative(i, delta);
    vstd::arithmetic::mul::lemma_mul_is_commutative(n, delta);
    vstd::arithmetic::mul::lemma_mul_nonnegative(delta, i);
    vstd::arithmetic::div_mod::lemma_div_is_ordered(delta * i, delta * n, n);
    vstd::arithmetic::div_mod::lemma_div_multiples_vanish(delta, n);
    vstd::arithmetic::div_mod::lemma_div_pos_is_pos(delta * i, n);
    assert(delta * n / n == delta);
}

/// The four vertical strokes of iteration `i` (absent for `i == s`), then the
/// four rim strokes on the bottom and top faces.
pub open spec fn spec_stripe_block(mn: Vector, mx: Vector, s: int, i: int) -> Seq<Seq<Vector>> {
    let x = spec_lerp_lo(mn.x as int, mx.x as int, i, s) as i64;
    let y = spec_lerp_lo(mn.y as int, mx.y as int, i, s) as i64;
    let x_ = spec_lerp_hi(mn.x as int, mx.x as int, i, s) as i64;
    let y_ = spec_lerp_hi(mn.y as int, mx.y as int, i, s) as i64;
    let (x1, y1, z1) = (mn.x, mn.y, mn.z);
    let (x2, y2, z2) = (mx.x, mx.y, mx.z);
    let rims = seq![
        seq![Vector { x, y, z: z1 }, Vector { x: x_, y, z: z1 }],
        seq![Vector { x, y, z: z1 }, Vector { x, y: y_, z: z1 }],
        seq![Vector { x, y, z: z2 }, Vector { x: x_, y, z: z2 }],
        seq![Vector { x, y, z: z2 }, Vector { x, y: y_, z: z2 }],
    ];
    if i < s {
        seq![
            seq![Vector { x, y: y1, z: z1 }, Vector { x, y: y1, z: z2 }],
            seq![Vector { x: x_, y: y2, z: z1 }, Vector { x: x_, y: y2, z: z2 }],
            seq![Vector { x: x1, y: y_, z: z1 }, Vector { x: x1, y: y_, z: z2 }],
            seq![Vector { x: x2, y, z: z1 }, Vector { x: x2, y, z: z2 }],
        ] + rims
    } else {
        rims
    }
}

/// The polylines of the first `k` iterations of the stripe loop, in order.
pub open spec fn spec_stripe_blocks(mn: Vector, mx: Vector, s: int, k: int) -> Seq<Seq<Vector>>
    decreases k,
{
    if k <= 0 {
        Seq::empty()
    } else {
        spec_stripe_blocks(mn, mx, s, k - 1) + spec_stripe_block(mn, mx, s, k - 1)
    }
}

} // verus!

verus! {

/// A ray whose origin lies strictly inside the cube and whose direction is
/// not the zero vector always meets the surface, at a strictly positive
/// parameter: the entry parameter of the slab interval is negative on every
/// axis and the exit parameter positive, so the slab test returns the exit.
pub proof fn lemma_cube_inside_hit(mn: Vector, mx: Vector, r: Ray)
    requires
        mn.x < r.origin.x < mx.x,
        mn.y < r.origin.y < mx.y,
        mn.z < r.origin.z < mx.z,
        !(r.direction.x == 0 && r.direction.y == 0 && r.direction.z == 0),
    ensures
        spec_cube_intersect(mn, mx, r) is At,
        rat_pos(spec_cube_intersect(mn, mx, r)->0),
{
    let o = r.origin;
    let d = r.direction;
    if d.x != 0 {
        let lo = spec_axis_lo(mn.x as int, mx.x as int, o.x as int, d.x as int);
        let hi = spec_axis_hi(mn.x as int, mx.x as int, o.x as int, d.x as int);
        assert(lo.num < 0 && lo.den > 0 && hi.num > 0 && hi.den > 0);
    }
    if d.y != 0 {
        let lo = spec_axis_lo(mn.y as int, mx.y as int, o.y as int, d.y as int);
        let hi = spec_axis_hi(mn.y as int, mx.y as int, o.y as int, d.y as int);
        assert(lo.num < 0 && lo.den > 0 && hi.num > 0 && hi.den > 0);
    }
    if d.z != 0 {
        let lo = spec_axis_lo(mn.z as int, mx.z as int, o.z as int, d.z as int);
        let hi = spec_axis_hi(mn.z as int, mx.z as int, o.z as int, d.z as int);
        assert(lo.num < 0 && lo.den > 0 && hi.num > 0 && hi.den > 0);
    }
    let interval = spec_slab_interval(mn, mx, r);
    assert(interval is Some);
    let pair = interval->0;
    let t0 = pair.0;
    let t1 = pair.1;
    assert(t0.num < 0 && t0.den > 0);
    assert(t1.num > 0 && t1.den > 0);
    let zero = Rat { num: 0, den: 1 };
    assert(rat_le(t0, zero));
    assert(rat_lt(zero, t1));
}

} // verus!

verus! {

/// The scaled ray point at rational `t` lies in the box: each coordinate of
/// the position times `t.den` sits between the box bounds times `t.den`.
pub open spec fn spec_contains_at(mn: Vector, mx: Vector, r: Ray, t: Rat) -> bool {
    let p = r.spec_position_scaled(t);
    &&& mn.x * t.den <= p.0 <= mx.x * t.den
    &&& mn.y * t.den <= p.1 <= mx.y * t.den
    &&& mn.z * t.den <= p.2 <= mx.z * t.den
}

/// From strictly inside the cube, the ray stays inside the cube all the way
/// to its exit hit: every rational parameter between zero and the hit lands
/// in the box.
pub proof fn lemma_cube_inside_segment(mn: Vector, mx: Vector, r: Ray, t: Rat)
    requires
        mn.x < r.origin.x < mx.x,
        mn.y < r.origin.y < mx.y,
        mn.z < r.origin.z < mx.z,
        !(r.direction.x == 0 && r.direction.y == 0 && r.direction.z == 0),
        t.den > 0,
        rat_le(Rat { num: 0, den: 1 }, t),
        rat_le(t, spec_cube_intersect(mn, mx, r)->0),
    ensures
        spec_contains_at(mn, mx, r, t),
{
    lemma_cube_inside_hit(mn, mx, r);
    let o = r.origin;
    let d = r.direction;
    let interval = spec_slab_interval(mn, mx, r);
    let pair = interval->0;
    let t1 = pair.1;
    assert(spec_cube_intersect(mn, mx, r)->0 == t1);
    assert(t.num >= 0);
    // The exit parameter is below every axis exit it was folded from.
    let hx = spec_axis_hi(mn.x as int, mx.x as int, o.x as int, d.x as int);
    let hy = spec_axis_hi(mn.y as int, mx.y as int, o.y as int, d.y as int);
    let hz = spec_axis_hi(mn.z as int, mx.z as int, o.z as int, d.z as int);
    assert(d.x != 0 ==> hx.den > 0 && rat_le(t1, hx) && rat_le(t, hx)) by {
        if d.x != 0 {
            lemma_fold_le(mn, mx, r, hx);
            lemma_rat_le_trans(t, t1, hx);
        }
    }
    assert(d.y != 0 ==> hy.den > 0 && rat_le(t1, hy) && rat_le(t, hy)) by {
        if d.y != 0 {
            lemma_fold_le(mn, mx, r, hy);
            lemma_rat_le_trans(t, t1, hy);
        }
    }
    assert(d.z != 0 ==> hz.den > 0 && rat_le(t1, hz) && rat_le(t, hz)) by {
        if d.z != 0 {
            lemma_fold_le(mn, mx, r, hz);
            lemma_rat_le_trans(t, t1, hz);
        }
    }
    lemma_axis_segment(mn.x as int, mx.x as int, o.x as int, d.x as int, t);
    lemma_axis_segment(mn.y as int, mx.y as int, o.y as int, d.y as int, t);
    lemma_axis_segment(mn.z as int, mx.z as int, o.z as int, d.z as int, t);
}

/// One axis of the segment argument: a nonnegative parameter below the axis
/// exit keeps the scaled coordinate between the scaled bounds.
proof fn lemma_axis_segment(mnc: int, mxc: int, oc: int, dc: int, t: Rat)
    requires
        -0x8000_0000_0000_0000 <= mnc <= 0x7FFF_FFFF_FFFF_FFFF,
        -0x8000_0000_0000_0000 <= mxc <= 0x7FFF_FFFF_FFFF_FFFF,
        -0x8000_0000_0000_0000 <= oc <= 0x7FFF_FFFF_FFFF_FFFF,
        -0x8000_0000_0000_0000 <= dc <= 0x7FFF_FFFF_FFFF_FFFF,
        mnc < oc < mxc,
        t.den > 0,
        t.num >= 0,
        dc != 0 ==> rat_le(t, spec_axis_hi(mnc, mxc, oc, dc)),
    ensures
        mnc * t.den <= oc * t.den + t.num * dc <= mxc * t.den,
{
    if dc == 0 {
        assert(t.num * dc == 0) by (nonlinear_arith)
            requires
                dc == 0,
        ;
        assert(mnc * t.den <= oc * t.den && oc * t.den <= mxc * t.den) by (nonlinear_arith)
            requires
                mnc < oc < mxc,
                t.den > 0,
        ;
    } else if dc > 0 {
        assert(t.num * dc <= (mxc - oc) * t.den);
        assert(oc * t.den + t.num * dc <= mxc * t.den) by (nonlinear_arith)
            requires
                t.num * dc <= (mxc - oc) * t.den,
        ;
        assert(t.num * dc >= 0) by (nonlinear_arith)
            requires
                t.num >= 0,
                dc > 0,
        ;
        assert(mnc * t.den <= oc * t.den) by (nonlinear_arith)
            requires
                mnc < oc,
                t.den > 0,
        ;
    } else {
        assert(t.num * (-dc) <= (oc - mnc) * t.den);
        assert(mnc * t.den <= oc * t.den + t.num * dc) by (nonlinear_arith)
            requires
                t.num * (-dc) <= (oc - mnc) * t.den,
        ;
        assert(t.num * dc <= 0) by (nonlinear_arith)
            requires
                t.num >= 0,
                dc < 0,
        ;
        assert(oc * t.den <= mxc * t.den) by (nonlinear_arith)
            requires
                oc < mxc,
                t.den > 0,
        ;
    }
}

/// The folded exit parameter is no later than any axis exit that fed it.
proof fn lemma_fold_le(mn: Vector, mx: Vector, r: Ray, h: Rat)
    requires
        mn.x < r.origin.x < mx.x,
        mn.y < r.origin.y < mx.y,
        mn.z < r.origin.z < mx.z,
        !(r.direction.x == 0 && r.direction.y == 0 && r.direction.z == 0),
        ({
            let o = r.origin;
            let d = r.direction;
            ||| (d.x != 0 && h == spec_axis_hi(mn.x as int, mx.x as int, o.x as int, d.x as int))
            ||| (d.y != 0 && h == spec_axis_hi(mn.y as int, mx.y as int, o.y as int, d.y as int))
            ||| (d.z != 0 && h == spec_axis_hi(mn.z as int, mx.z as int, o.z as int, d.z as int))
        }),
    ensures
        h.den > 0,
        rat_le((spec_slab_interval(mn, mx, r)->0).1, h),
{
    let o = r.origin;
    let d = r.direction;
    let hx = spec_axis_hi(mn.x as int, mx.x as int, o.x as int, d.x as int);
    let hy = spec_axis_hi(mn.y as int, mx.y as int, o.y as int, d.y as int);
    let hz = spec_axis_hi(mn.z as int, mx.z as int, o.z as int, d.z as int);
    if d.x != 0 {
        assert(hx.den > 0 && hx.num > 0);
    }
    if d.y != 0 {
        assert(hy.den > 0 && hy.num > 0);
    }
    if d.z != 0 {
        assert(hz.den > 0 && hz.num > 0);
    }
    let pair = spec_slab_interval(mn, mx, r)->0;
    let t1 = pair.1;
    assert forall|a: Rat, b: Rat| a.den > 0 && b.den > 0 implies rat_le(a, b) || rat_le(b, a) by {
        lemma_rat_le_total_pos(a, b);
    }
    assert forall|a: Rat, b: Rat, c: Rat|
        a.den > 0 && b.den > 0 && c.den > 0 && rat_le(a, b) && rat_le(b, c) implies rat_le(
        a,
        c,
    ) by {
        lemma_rat_le_trans(a, b, c);
    }
    assert(rat_le(t1, h));
}

/// Totality over positive denominators alone.
proof fn lemma_rat_le_total_pos(a: Rat, b: Rat)
    requires
        a.den > 0,
        b.den > 0,
    ensures
        rat_le(a, b) || rat_le(b, a),
{
}

} // verus!
