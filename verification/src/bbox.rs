//! Axis-aligned bounding boxes.

use vstd::prelude::*;
use crate::matrix::spec_tdiv;
use crate::vector::{Vector, in_range};

verus! {

/// An axis-aligned box given by its two extreme corners.
#[derive(Clone, Copy, Debug, PartialEq, Eq, Structural)]
pub struct BBox {
    pub min: Vector,
    pub max: Vector,
}

/// The point lies inside the box, inflated by `f` in every direction.
pub open spec fn spec_box_contains(b: BBox, v: Vector, f: int) -> bool {
    &&& b.min.x - f <= v.x <= b.max.x + f
    &&& b.min.y - f <= v.y <= b.max.y + f
    &&& b.min.z - f <= v.z <= b.max.z + f
}

/// `inner` lies entirely inside `outer`.
pub open spec fn spec_box_inside(inner: BBox, outer: BBox) -> bool {
    &&& outer.min.x <= inner.min.x && inner.max.x <= outer.max.x
    &&& outer.min.y <= inner.min.y && inner.max.y <= outer.max.y
    &&& outer.min.z <= inner.min.z && inner.max.z <= outer.max.z
}

impl BBox {
    pub fn new(min: Vector, max: Vector) -> (r: BBox)
        ensures
            r == (BBox { min, max }),
    {
        BBox { min, max }
    }

    /// The smallest box holding both `self` and `other`.
    pub fn extend(self, other: BBox) -> (r: BBox)
        ensures
            r.min == self.min.spec_min3(other.min),
            r.max == self.max.spec_max3(other.max),
            spec_box_inside(self, r),
            spec_box_inside(other, r),
    {
        BBox { min: self.min.min(other.min), max: self.max.max(other.max) }
    }

    pub fn contains(self, v: Vector, f: i64) -> (r: bool)
        requires
            i64::MIN <= self.min.x - f <= i64::MAX,
            i64::MIN <= self.min.y - f <= i64::MAX,
            i64::MIN <= self.min.z - f <= i64::MAX,
            i64::MIN <= self.max.x + f <= i64::MAX,
            i64::MIN <= self.max.y + f <= i64::MAX,
            i64::MIN <= self.max.z + f <= i64::MAX,
        ensures
            r == spec_box_contains(self, v, f as int),
    {
        self.min.x - f <= v.x && v.x <= self.max.x + f && self.min.y - f <= v.y && v.y
            <= self.max.y + f && self.min.z - f <= v.z && v.z <= self.max.z + f
    }

    /// The point at fixed-point fraction `a` of the way from `min` to `max`
    /// on each axis: `min + size * a / 65536`, truncating toward zero.
    pub fn anchor(self, a: Vector) -> (r: Vector)
        requires
            in_range(self.min, 0x2000_0000_0000),
            in_range(self.max, 0x2000_0000_0000),
            self.min.x <= self.max.x && self.min.y <= self.max.y && self.min.z <= self.max.z,
            0 <= a.x <= 65536 && 0 <= a.y <= 65536 && 0 <= a.z <= 65536,
        ensures
            r == spec_anchor(self, a),
            self.min.x <= r.x <= self.max.x,
            self.min.y <= r.y <= self.max.y,
            self.min.z <= r.z <= self.max.z,
    {
        proof {
            lemma_anchor_axis(self.min.x as int, self.max.x as int, a.x as int);
            lemma_anchor_axis(self.min.y as int, self.max.y as int, a.y as int);
            lemma_anchor_axis(self.min.z as int, self.max.z as int, a.z as int);
        }
        let qx = ((self.max.x - self.min.x) as u128) * (a.x as u128) / 65536;
        let qy = ((self.max.y - self.min.y) as u128) * (a.y as u128) / 65536;
        let qz = ((self.max.z - self.min.z) as u128) * (a.z as u128) / 65536;
        Vector {
            x: self.min.x + (qx as i64),
            y: self.min.y + (qy as i64),
            z: self.min.z + (qz as i64),
        }
    }

    /// Side lengths of the box.
    pub fn size(self) -> (r: Vector)
        requires
            i64::MIN <= self.max.x - self.min.x <= i64::MAX,
            i64::MIN <= self.max.y - self.min.y <= i64::MAX,
            i64::MIN <= self.max.z - self.min.z <= i64::MAX,
        ensures
            r.x == self.max.x - self.min.x,
            r.y == self.max.y - self.min.y,
            r.z == self.max.z - self.min.z,
    {
        self.max.sub(self.min)
    }
}

impl Default for BBox {
    fn default() -> (r: Self)
        ensures
            r == (BBox {
                min: Vector { x: 0, y: 0, z: 0 },
                max: Vector { x: 0, y: 0, z: 0 },
            }),
    {
        BBox { min: Vector { x: 0, y: 0, z: 0 }, max: Vector { x: 0, y: 0, z: 0 } }
    }
}

impl Vector {
    /// Component-wise minimum, at the specification level.
    pub open spec fn spec_min3(self, o: Vector) -> Vector {
        Vector {
            x: if self.x <= o.x { self.x } else { o.x },
            y: if self.y <= o.y { self.y } else { o.y },
            z: if self.z <= o.z { self.z } else { o.z },
        }
    }

    /// Component-wise maximum, at the specification level.
    pub open spec fn spec_max3(self, o: Vector) -> Vector {
        Vector {
            x: if self.x >= o.x { self.x } else { o.x },
            y: if self.y >= o.y { self.y } else { o.y },
            z: if self.z >= o.z { self.z } else { o.z },
        }
    }
}

/// The anchor point of a box, at the specification level.
pub open spec fn spec_anchor(b: BBox, a: Vector) -> Vector {
    Vector {
        x: (b.min.x + spec_tdiv((b.max.x - b.min.x) * a.x, 65536)) as i64,
        y: (b.min.y + spec_tdiv((b.max.y - b.min.y) * a.y, 65536)) as i64,
        z: (b.min.z + spec_tdiv((b.max.z - b.min.z) * a.z, 65536)) as i64,
    }
}

proof fn lemma_anchor_axis(mn: int, mx: int, a: int)
    requires
        -0x2000_0000_0000 <= mn <= 0x2000_0000_0000,
        -0x2000_0000_0000 <= mx <= 0x2000_0000_0000,
        mn <= mx,
        0 <= a <= 65536,
    ensures
        0 <= (mx - mn) * a <= (mx - mn) * 65536,
        0 <= spec_tdiv((mx - mn) * a, 65536) <= mx - mn,
{
    vstd::arithmetic::mul::lemma_mul_nonnegative(mx - mn, a);
    vstd::arithmetic::mul::lemma_mul_inequality(a, 65536, mx - mn);
    vstd::arithmetic::mul::lemma_mul_is_commutative(a, mx - mn);
    vstd::arithmetic::mul::lemma_mul_is_commutative(65536, mx - mn);
    let p = (mx - mn) * a;
    vstd::arithmetic::div_mod::lemma_div_is_ordered(p, (mx - mn) * 65536, 65536);
    vstd::arithmetic::div_mod::lemma_div_multiples_vanish(mx - mn, 65536);
    vstd::arithmetic::div_mod::lemma_div_pos_is_pos(p, 65536);
}

/// The anchor point lies inside the box, on every axis.
pub proof fn lemma_anchor_in_box(b: BBox, a: Vector)
    requires
        in_range(b.min, 0x2000_0000_0000),
        in_range(b.max, 0x2000_0000_0000),
        b.min.x <= b.max.x && b.min.y <= b.max.y && b.min.z <= b.max.z,
        0 <= a.x <= 65536 && 0 <= a.y <= 65536 && 0 <= a.z <= 65536,
    ensures
        b.min.x <= spec_anchor(b, a).x <= b.max.x,
        b.min.y <= spec_anchor(b, a).y <= b.max.y,
        b.min.z <= spec_anchor(b, a).z <= b.max.z,
{
    lemma_anchor_axis(b.min.x as int, b.max.x as int, a.x as int);
    lemma_anchor_axis(b.min.y as int, b.max.y as int, a.y as int);
    lemma_anchor_axis(b.min.z as int, b.max.z as int, a.z as int);
}

/// A point of a box spans a degenerate box that the box itself contains:
/// whenever `v` lies in `b` (with no inflation), the axis-aligned box formed
/// by `{v}` alone lies entirely inside `b`.
pub proof fn lemma_point_box_inside(b: BBox, v: Vector)
    requires
        spec_box_contains(b, v, 0),
    ensures
        spec_box_inside(BBox { min: v, max: v }, b),
{
}

} // verus!
