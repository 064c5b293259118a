//! 3D vectors with exact integer coordinates.

use vstd::prelude::*;

verus! {

/// Coordinate bound under which the degree-two products formed by `dot`,
/// `cross`, `length_squared` and `distance_squared` fit in their result types.
pub const PRODUCT_LIMIT: i64 = 0x4000_0000;

/// A point or direction on the integer lattice.
#[derive(Clone, Copy, Debug, PartialEq, Eq, Structural, Hash)]
pub struct Vector {
    pub x: i64,
    pub y: i64,
    pub z: i64,
}

/// All three coordinates lie within `b` in absolute value.
pub open spec fn in_range(v: Vector, b: int) -> bool {
    -b <= v.x <= b && -b <= v.y <= b && -b <= v.z <= b
}

/// Mathematical dot product of two coordinate triples.
pub open spec fn spec_dot(a: Vector, b: Vector) -> int {
    a.x * b.x + a.y * b.y + a.z * b.z
}

/// Mathematical cross product of two coordinate triples.
pub open spec fn spec_cross(a: Vector, b: Vector) -> (int, int, int) {
    (a.y * b.z - a.z * b.y, a.z * b.x - a.x * b.z, a.x * b.y - a.y * b.x)
}

impl Vector {
    pub fn new(x: i64, y: i64, z: i64) -> (r: Vector)
        ensures
            r == (Vector { x, y, z }),
    {
        Vector { x, y, z }
    }

    pub fn add(self, o: Vector) -> (r: Vector)
        requires
            i64::MIN <= self.x + o.x <= i64::MAX,
            i64::MIN <= self.y + o.y <= i64::MAX,
            i64::MIN <= self.z + o.z <= i64::MAX,
        ensures
            r.x == self.x + o.x,
            r.y == self.y + o.y,
            r.z == self.z + o.z,
    {
        Vector { x: self.x + o.x, y: self.y + o.y, z: self.z + o.z }
    }

    pub fn sub(self, o: Vector) -> (r: Vector)
        requires
            i64::MIN <= self.x - o.x <= i64::MAX,
            i64::MIN <= self.y - o.y <= i64::MAX,
            i64::MIN <= self.z - o.z <= i64::MAX,
        ensures
            r.x == self.x - o.x,
            r.y == self.y - o.y,
            r.z == self.z - o.z,
    {
        Vector { x: self.x - o.x, y: self.y - o.y, z: self.z - o.z }
    }

    /// Component-wise product.
    pub fn mul(self, o: Vector) -> (r: Vector)
        requires
            i64::MIN <= self.x * o.x <= i64::MAX,
            i64::MIN <= self.y * o.y <= i64::MAX,
            i64::MIN <= self.z * o.z <= i64::MAX,
        ensures
            r.x == self.x * o.x,
            r.y == self.y * o.y,
            r.z == self.z * o.z,
    {
        Vector { x: self.x * o.x, y: self.y * o.y, z: self.z * o.z }
    }

    pub fn mul_scalar(self, s: i64) -> (r: Vector)
        requires
            i64::MIN <= self.x * s <= i64::MAX,
            i64::MIN <= self.y * s <= i64::MAX,
            i64::MIN <= self.z * s <= i64::MAX,
        ensures
            r.x == self.x * s,
            r.y == self.y * s,
            r.z == self.z * s,
    {
        Vector { x: self.x * s, y: self.y * s, z: self.z * s }
    }

    pub fn add_scalar(self, s: i64) -> (r: Vector)
        requires
            i64::MIN <= self.x + s <= i64::MAX,
            i64::MIN <= self.y + s <= i64::MAX,
            i64::MIN <= self.z + s <= i64::MAX,
        ensures
            r.x == self.x + s,
            r.y == self.y + s,
            r.z == self.z + s,
    {
        Vector { x: self.x + s, y: self.y + s, z: self.z + s }
    }

    pub fn sub_scalar(self, s: i64) -> (r: Vector)
        requires
            i64::MIN <= self.x - s <= i64::MAX,
            i64::MIN <= self.y - s <= i64::MAX,
            i64::MIN <= self.z - s <= i64::MAX,
        ensures
            r.x == self.x - s,
            r.y == self.y - s,
            r.z == self.z - s,
    {
        Vector { x: self.x - s, y: self.y - s, z: self.z - s }
    }

    pub fn min(self, o: Vector) -> (r: Vector)
        ensures
            r.x == if self.x <= o.x { self.x } else { o.x },
            r.y == if self.y <= o.y { self.y } else { o.y },
            r.z == if self.z <= o.z { self.z } else { o.z },
    {
        Vector {
            x: if self.x <= o.x { self.x } else { o.x },
            y: if self.y <= o.y { self.y } else { o.y },
            z: if self.z <= o.z { self.z } else { o.z },
        }
    }

    pub fn max(self, o: Vector) -> (r: Vector)
        ensures
            r.x == if self.x >= o.x { self.x } else { o.x },
            r.y == if self.y >= o.y { self.y } else { o.y },
            r.z == if self.z >= o.z { self.z } else { o.z },
    {
        Vector {
            x: if self.x >= o.x { self.x } else { o.x },
            y: if self.y >= o.y { self.y } else { o.y },
            z: if self.z >= o.z { self.z } else { o.z },
        }
    }

    /// Smallest of the three coordinates.
    pub fn min_component(self) -> (r: i64)
        ensures
            r <= self.x && r <= self.y && r <= self.z,
            r == self.x || r == self.y || r == self.z,
    {
        let mut m = self.x;
        if self.y < m {
            m = self.y;
        }
        if self.z < m {
            m = self.z;
        }
        m
    }

    pub fn dot(self, o: Vector) -> (r: i64)
        requires
            in_range(self, PRODUCT_LIMIT as int),
            in_range(o, PRODUCT_LIMIT as int),
        ensures
            r == spec_dot(self, o),
    {
        proof {
            lemma_abs_mul_bound(self.x as int, o.x as int, PRODUCT_LIMIT as int);
            lemma_abs_mul_bound(self.y as int, o.y as int, PRODUCT_LIMIT as int);
            lemma_abs_mul_bound(self.z as int, o.z as int, PRODUCT_LIMIT as int);
        }
        self.x * o.x + self.y * o.y + self.z * o.z
    }

    pub fn cross(self, o: Vector) -> (r: Vector)
        requires
            in_range(self, PRODUCT_LIMIT as int),
            in_range(o, PRODUCT_LIMIT as int),
        ensures
            (r.x as int, r.y as int, r.z as int) == spec_cross(self, o),
            in_range(r, 2 * (PRODUCT_LIMIT as int) * (PRODUCT_LIMIT as int)),
    {
        proof {
            lemma_abs_mul_bound(self.y as int, o.z as int, PRODUCT_LIMIT as int);
            lemma_abs_mul_bound(self.z as int, o.y as int, PRODUCT_LIMIT as int);
            lemma_abs_mul_bound(self.z as int, o.x as int, PRODUCT_LIMIT as int);
            lemma_abs_mul_bound(self.x as int, o.z as int, PRODUCT_LIMIT as int);
            lemma_abs_mul_bound(self.x as int, o.y as int, PRODUCT_LIMIT as int);
            lemma_abs_mul_bound(self.y as int, o.x as int, PRODUCT_LIMIT as int);
        }
        Vector {
            x: self.y * o.z - self.z * o.y,
            y: self.z * o.x - self.x * o.z,
            z: self.x * o.y - self.y * o.x,
        }
    }

    pub fn length_squared(self) -> (r: i64)
        requires
            in_range(self, PRODUCT_LIMIT as int),
        ensures
            r == spec_dot(self, self),
            r >= 0,
    {
        proof {
            lemma_square_nonneg(self.x as int);
            lemma_square_nonneg(self.y as int);
            lemma_square_nonneg(self.z as int);
        }
        self.dot(self)
    }

    pub fn distance_squared(self, o: Vector) -> (r: i64)
        requires
            in_range(self, (PRODUCT_LIMIT as int) / 2),
            in_range(o, (PRODUCT_LIMIT as int) / 2),
        ensures
            r == (self.x - o.x) * (self.x - o.x) + (self.y - o.y) * (self.y - o.y) + (self.z - o.z)
                * (self.z - o.z),
            r >= 0,
    {
        self.sub(o).length_squared()
    }
}

/// If `|a| <= b` and `|c| <= b` then `|a * c| <= b * b`.
pub proof fn lemma_abs_mul_bound(a: int, c: int, b: int)
    requires
        -b <= a <= b,
        -b <= c <= b,
        b >= 0,
    ensures
        -(b * b) <= a * c <= b * b,
{
    assert(-(b * b) <= a * c <= b * b) by (nonlinear_arith)
        requires
            -b <= a <= b,
            -b <= c <= b,
            b >= 0,
    ;
}

pub proof fn lemma_square_nonneg(a: int)
    ensures
        a * a >= 0,
{
    assert(a * a >= 0) by (nonlinear_arith);
}

} // verus!
