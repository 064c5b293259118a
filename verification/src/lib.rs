//! Line-art rendering geometry on exact integer coordinates.
//!
//! Shapes live on a 64-bit integer lattice: a caller picks a scale (units per
//! world unit) and hands in coordinates as plain `i64` values. All geometry
//! here is exact integer and rational arithmetic; ray parameters are
//! rationals, and irrational square roots are bracketed between their integer
//! floor and ceiling so that no hit truncates away.

use vstd::prelude::*;

pub mod bbox;
pub mod cube;
pub mod cylinder;
pub mod function;
pub mod hit;
pub mod math;
pub mod matrix;
pub mod mesh;
pub mod path;
pub mod plane;
pub mod rat;
pub mod ray;
pub mod sphere;
pub mod triangle;
pub mod vector;

verus! {

/// Bound on the absolute value of a coordinate accepted by the geometry
/// kernels: products of degree three and rational cross-multiplications stay
/// within `i128`.
pub const COORD_LIMIT: i64 = 524288;

} // verus!
