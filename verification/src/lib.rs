use vstd::prelude::*;

pub mod aabb;
pub mod bvh;
pub mod camera;
pub mod fx;
pub mod hittable;
pub mod materials;
pub mod ray;
pub mod render;
pub mod rng;
pub mod sphere;
pub mod vec;

verus! {

/// Fixed-point scale: all scalar quantities carry this many sub-unit steps,
/// so the value `x` represents the real number `x / FX_ONE`.
pub const FX_ONE: i64 = 4096;

/// Largest magnitude allowed for a scene coordinate, in fixed-point steps.
/// Keeping coordinates within this bound lets every intermediate product in
/// the intersection arithmetic fit comfortably in an `i128`.
pub const COORD_MAX: i64 = 16777216;

/// A scalar is in range when it can serve as a scene coordinate.
pub open spec fn fx_in_range(x: i64) -> bool {
    -COORD_MAX <= x <= COORD_MAX
}

} // verus!
