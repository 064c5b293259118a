//! Height-field ("function") shape support.
//!
//! The height field itself is a real-valued closure and its path generators
//! sample it with trigonometry, which this library does not hold; the solid
//! side decision and the height clamp that those generators rely on live
//! here, over sampled integer heights.

use vstd::prelude::*;

verus! {

/// Which side of the height field is solid.
#[derive(Clone, Copy, Debug, PartialEq, Eq, Structural)]
pub enum Direction {
    Above,
    Below,
}

/// Texture style for height-field shapes.
#[derive(Clone, Copy, Debug, PartialEq, Eq, Structural)]
pub enum FunctionTexture {
    /// Lines along constant x and constant y.
    Grid,
    /// Radial arms with a depth-dependent twist.
    Swirl,
    /// One long spiral.
    Spiral,
}

/// Whether a point at height `vz` lies on the solid side of the surface
/// height `h`.
pub open spec fn spec_height_contains(direction: Direction, vz: int, h: int) -> bool {
    match direction {
        Direction::Below => vz < h,
        Direction::Above => vz > h,
    }
}

/// Decides the solid side for a sampled height.
pub fn height_contains(direction: Direction, vz: i64, h: i64) -> (r: bool)
    ensures
        r == spec_height_contains(direction, vz as int, h as int),
{
    match direction {
        Direction::Below => vz < h,
        Direction::Above => vz > h,
    }
}

/// Clamps a sampled height into the vertical extent of the bounding box.
pub fn clamp_height(z: i64, zmin: i64, zmax: i64) -> (r: i64)
    requires
        zmin <= zmax,
    ensures
        r == if z > zmax {
            zmax
        } else if z < zmin {
            zmin
        } else {
            z
        },
        zmin <= r <= zmax,
{
    if z > zmax {
        zmax
    } else if z < zmin {
        zmin
    } else {
        z
    }
}

} // verus!
