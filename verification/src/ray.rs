//! Parametric rays.

use vstd::prelude::*;
use crate::rat::Rat;
use crate::vector::Vector;

verus! {

/// A ray `origin + t * direction`; the direction need not be normalized, so a
/// parameter is measured in multiples of the direction.
#[derive(Clone, Copy, Debug, PartialEq, Eq, Structural)]
pub struct Ray {
    pub origin: Vector,
    pub direction: Vector,
}

impl Ray {
    pub fn new(origin: Vector, direction: Vector) -> (r: Ray)
        ensures
            r == (Ray { origin, direction }),
    {
        Ray { origin, direction }
    }

    /// The point of the ray at rational parameter `t`, scaled by `t.den`:
    /// the true point is this triple divided componentwise by `t.den`.
    pub open spec fn spec_position_scaled(self, t: Rat) -> (int, int, int) {
        (
            self.origin.x * t.den + t.num * self.direction.x,
            self.origin.y * t.den + t.num * self.direction.y,
            self.origin.z * t.den + t.num * self.direction.z,
        )
    }
}

} // verus!
