use vstd::prelude::*;
use crate::fx::{floor_div, lemma_div_magnitude_bound, lemma_mul_magnitude_bound};
use crate::vec::{v3_bounded, Vec3};
use crate::{fx_in_range, COORD_MAX, FX_ONE};

verus! {

/// A ray: origin plus direction, both fixed-point vectors. The direction is
/// kept near unit length by the constructors that aim rays, but nothing here
/// depends on that.
#[derive(Clone, Copy, PartialEq, Eq, Structural, Debug)]
pub struct Ray {
    pub origin: Vec3,
    pub direction: Vec3,
}

/// The origin stays within twice the coordinate bound (a scattered ray
/// starts on a primitive's surface), the direction within the bound itself.
pub open spec fn ray_bounded(r: Ray) -> bool {
    v3_bounded(r.origin, 2 * COORD_MAX as int) && v3_bounded(r.direction, COORD_MAX as int)
}

/// One coordinate of the point the ray reaches at parameter `t`: the origin
/// plus the scaled-down product of parameter and direction.
pub open spec fn point_axis(o: int, d: int, t: int) -> int {
    o + (t * d) / (FX_ONE as int)
}

impl Ray {
    /// The point reached at parameter `t`, each coordinate rounded toward
    /// negative infinity.
    pub fn point_at_parameter(&self, t: i64) -> (r: Vec3)
        requires
            ray_bounded(*self),
            fx_in_range(t),
        ensures
            r.x == point_axis(self.origin.x as int, self.direction.x as int, t as int),
            r.y == point_axis(self.origin.y as int, self.direction.y as int, t as int),
            r.z == point_axis(self.origin.z as int, self.direction.z as int, t as int),
    {
        Vec3 {
            x: point_at_axis(self.origin.x, self.direction.x, t),
            y: point_at_axis(self.origin.y, self.direction.y, t),
            z: point_at_axis(self.origin.z, self.direction.z, t),
        }
    }
}

/// One coordinate of `origin + t * direction`, scaled back down.
pub fn point_at_axis(o: i64, d: i64, t: i64) -> (r: i64)
    requires
        -2 * COORD_MAX <= o <= 2 * COORD_MAX,
        fx_in_range(d),
        fx_in_range(t),
    ensures
        r == point_axis(o as int, d as int, t as int),
{
    proof {
        lemma_mul_magnitude_bound(t as int, d as int, COORD_MAX as int, COORD_MAX as int);
        lemma_div_magnitude_bound(
            t as int * d as int,
            FX_ONE as int,
            COORD_MAX as int * COORD_MAX as int,
        );
    }
    let p: i128 = (t as i128) * (d as i128);
    let q = floor_div(p, FX_ONE as i128);
    o + (q as i64)
}

} // verus!
