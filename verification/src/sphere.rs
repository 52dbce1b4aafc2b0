use vstd::prelude::*;
use crate::aabb::{contains_coords, Aabb};
use crate::fx::{
    floor_div, isqrt, lemma_div_magnitude_bound, lemma_mul_magnitude_bound, sqrt_floor,
};
use crate::ray::{point_axis, ray_bounded, Ray};
use crate::vec::{dot_spec, v3_bounded, Vec3};
use crate::{COORD_MAX, FX_ONE};

verus! {

/// A sphere: center, radius and the index of its material in the scene's
/// material arena.
#[derive(Clone, Copy, PartialEq, Eq, Structural, Debug)]
pub struct Sphere {
    pub center: Vec3,
    pub radius: i64,
    pub material: usize,
}

/// One hit: parametric distance, hit point, outward normal (at the
/// fixed-point scale) and the material index at the hit point.
#[derive(Clone, Copy, PartialEq, Eq, Structural, Debug)]
pub struct HitRecord {
    pub t: i64,
    pub p: Vec3,
    pub normal: Vec3,
    pub material: usize,
}

/// A well-formed sphere: center in range, radius positive and in range.
pub open spec fn sphere_wf(s: Sphere) -> bool {
    v3_bounded(s.center, COORD_MAX as int) && 0 < s.radius <= COORD_MAX
}

/// The box enclosing the sphere: center offset by the radius on every axis.
pub open spec fn sphere_aabb_spec(s: Sphere) -> Aabb {
    Aabb {
        min: Vec3 {
            x: (s.center.x - s.radius) as i64,
            y: (s.center.y - s.radius) as i64,
            z: (s.center.z - s.radius) as i64,
        },
        max: Vec3 {
            x: (s.center.x + s.radius) as i64,
            y: (s.center.y + s.radius) as i64,
            z: (s.center.z + s.radius) as i64,
        },
    }
}

/// Quadratic coefficient `a`: the squared length of the ray direction.
pub open spec fn a_coef(r: Ray) -> int {
    dot_spec(r.direction, r.direction)
}

/// Quadratic coefficient `b` (halved form): origin-to-center offset dotted
/// with the direction.
pub open spec fn b_coef(s: Sphere, r: Ray) -> int {
    (r.origin.x - s.center.x) * r.direction.x + (r.origin.y - s.center.y) * r.direction.y + (
    r.origin.z - s.center.z) * r.direction.z
}

/// Quadratic coefficient `c`: squared offset length minus squared radius.
pub open spec fn c_coef(s: Sphere, r: Ray) -> int {
    (r.origin.x - s.center.x) * (r.origin.x - s.center.x) + (r.origin.y - s.center.y) * (r.origin.y
        - s.center.y) + (r.origin.z - s.center.z) * (r.origin.z - s.center.z) - s.radius * s.radius
}

/// The discriminant of the (halved-`b`) quadratic.
pub open spec fn disc_spec(s: Sphere, r: Ray) -> int {
    b_coef(s, r) * b_coef(s, r) - a_coef(r) * c_coef(s, r)
}

/// A candidate root is accepted when it lies in the queried interval and the
/// point it reaches lies inside the sphere's own box. The box check keeps
/// every reported hit inside every enclosing bounding box, which the tree
/// traversal's pruning argument rests on.
pub open spec fn root_ok(s: Sphere, r: Ray, t0: int, t1: int, t: int) -> bool {
    t0 <= t < t1 && contains_coords(
        sphere_aabb_spec(s),
        point_axis(r.origin.x as int, r.direction.x as int, t),
        point_axis(r.origin.y as int, r.direction.y as int, t),
        point_axis(r.origin.z as int, r.direction.z as int, t),
    )
}

/// The parameter the sphere reports for a ray over `[t0, t1)`: the smaller
/// quadratic root when acceptable, else the larger, else nothing; nothing
/// when the discriminant is negative.
pub open spec fn sphere_hit_spec(s: Sphere, r: Ray, t0: int, t1: int) -> Option<int> {
    let disc = disc_spec(s, r);
    if disc < 0 {
        Option::None
    } else {
        let sq = sqrt_floor(disc);
        let tlo = ((-b_coef(s, r) - sq) * (FX_ONE as int)) / a_coef(r);
        let thi = ((-b_coef(s, r) + sq) * (FX_ONE as int)) / a_coef(r);
        if root_ok(s, r, t0, t1, tlo) {
            Option::Some(tlo)
        } else if root_ok(s, r, t0, t1, thi) {
            Option::Some(thi)
        } else {
            Option::None
        }
    }
}

/// The record a sphere builds for an accepted parameter: the reached point,
/// and the outward normal as the offset from the center divided by the
/// radius.
pub open spec fn record_matches(s: Sphere, r: Ray, t: int, h: HitRecord) -> bool {
    h.t == t && h.material == s.material && h.p.x == point_axis(
        r.origin.x as int,
        r.direction.x as int,
        t,
    ) && h.p.y == point_axis(r.origin.y as int, r.direction.y as int, t) && h.p.z == point_axis(
        r.origin.z as int,
        r.direction.z as int,
        t,
    ) && h.normal.x == ((h.p.x - s.center.x) * (FX_ONE as int)) / (s.radius as int)
        && h.normal.y == ((h.p.y - s.center.y) * (FX_ONE as int)) / (s.radius as int)
        && h.normal.z == ((h.p.z - s.center.z) * (FX_ONE as int)) / (s.radius as int)
}

/// A record built for an accepted parameter stays within range: the hit
/// point within twice the coordinate bound, the normal within the
/// fixed-point unit scale.
pub proof fn lemma_record_bounds(s: Sphere, r: Ray, t0: int, t1: int, t: int, h: HitRecord)
    requires
        sphere_wf(s),
        root_ok(s, r, t0, t1, t),
        record_matches(s, r, t, h),
    ensures
        v3_bounded(h.p, 2 * COORD_MAX as int),
        v3_bounded(h.normal, FX_ONE as int),
{
    crate::fx::lemma_unit_div_bounds(h.p.x - s.center.x, s.radius as int);
    crate::fx::lemma_unit_div_bounds(h.p.y - s.center.y, s.radius as int);
    crate::fx::lemma_unit_div_bounds(h.p.z - s.center.z, s.radius as int);
}

impl Sphere {
    /// The sphere's bounding box.
    pub fn aabb(&self) -> (r: Aabb)
        requires
            sphere_wf(*self),
        ensures
            r == sphere_aabb_spec(*self),
    {
        Aabb {
            min: Vec3 {
                x: self.center.x - self.radius,
                y: self.center.y - self.radius,
                z: self.center.z - self.radius,
            },
            max: Vec3 {
                x: self.center.x + self.radius,
                y: self.center.y + self.radius,
                z: self.center.z + self.radius,
            },
        }
    }

    /// Nearest intersection with the ray strictly within `[t_min, t_max)`:
    /// the quadratic's smaller root first, then the larger, each checked
    /// against the interval and the sphere's own box.
    pub fn hit(&self, ray: &Ray, t_min: i64, t_max: i64) -> (r: Option<HitRecord>)
        requires
            sphere_wf(*self),
            ray_bounded(*ray),
            a_coef(*ray) > 0,
            0 <= t_min <= COORD_MAX,
            -COORD_MAX <= t_max <= COORD_MAX,
        ensures
            match r {
                Option::None => sphere_hit_spec(*self, *ray, t_min as int, t_max as int)
                    is None,
                Option::Some(h) => {
                    &&& sphere_hit_spec(*self, *ray, t_min as int, t_max as int) == Option::Some(
                        h.t as int,
                    )
                    &&& record_matches(*self, *ray, h.t as int, h)
                },
            },
    {
        let oc = ray.origin.sub(&self.center);
        let a = ray.direction.dot(&ray.direction);
        let b = oc.dot(&ray.direction);
        proof {
            let cm = COORD_MAX as int;
            let cm3 = 3 * COORD_MAX as int;
            lemma_mul_magnitude_bound(self.radius as int, self.radius as int, cm, cm);
            lemma_mul_magnitude_bound(oc.x as int, oc.x as int, cm3, cm3);
            lemma_mul_magnitude_bound(oc.y as int, oc.y as int, cm3, cm3);
            lemma_mul_magnitude_bound(oc.z as int, oc.z as int, cm3, cm3);
            lemma_mul_magnitude_bound(oc.x as int, ray.direction.x as int, cm3, cm);
            lemma_mul_magnitude_bound(oc.y as int, ray.direction.y as int, cm3, cm);
            lemma_mul_magnitude_bound(oc.z as int, ray.direction.z as int, cm3, cm);
            lemma_mul_magnitude_bound(ray.direction.x as int, ray.direction.x as int, cm, cm);
            lemma_mul_magnitude_bound(ray.direction.y as int, ray.direction.y as int, cm, cm);
            lemma_mul_magnitude_bound(ray.direction.z as int, ray.direction.z as int, cm, cm);
        }
        let c = oc.dot(&oc) - self.radius * self.radius;
        proof {
            lemma_mul_magnitude_bound(b as int, b as int, 0x10_0000_0000_0000int, 0x10_0000_0000_0000int);
            lemma_mul_magnitude_bound(a as int, c as int, 0x4_0000_0000_0000int, 0x20_0000_0000_0000int);
        }
        let disc: i128 = (b as i128) * (b as i128) - (a as i128) * (c as i128);
        if disc < 0 {
            return Option::None;
        }
        let sq = isqrt(disc as u128);
        proof {
            assert(sq as int <= 0x20_0000_0000_0000int) by (nonlinear_arith)
                requires
                    0 <= sq as int,
                    (sq as int) * (sq as int) <= 0x200_0000_0000_0000_0000_0000_0000int,
            ;
            lemma_mul_magnitude_bound(
                -(b as int) - sq as int,
                FX_ONE as int,
                0x50_0000_0000_0000int,
                FX_ONE as int,
            );
            lemma_mul_magnitude_bound(
                -(b as int) + sq as int,
                FX_ONE as int,
                0x50_0000_0000_0000int,
                FX_ONE as int,
            );
            lemma_div_magnitude_bound(
                (-(b as int) - sq as int) * (FX_ONE as int),
                a as int,
                0x50_0000_0000_0000int * (FX_ONE as int),
            );
            lemma_div_magnitude_bound(
                (-(b as int) + sq as int) * (FX_ONE as int),
                a as int,
                0x50_0000_0000_0000int * (FX_ONE as int),
            );
        }
        let tlo: i128 = floor_div((-(b as i128) - (sq as i128)) * (FX_ONE as i128), a as i128);
        if let Option::Some(h) = self.try_root(ray, t_min, t_max, tlo) {
            return Option::Some(h);
        }
        let thi: i128 = floor_div((-(b as i128) + (sq as i128)) * (FX_ONE as i128), a as i128);
        if let Option::Some(h) = self.try_root(ray, t_min, t_max, thi) {
            return Option::Some(h);
        }
        Option::None
    }

    /// Accepts a candidate parameter when it lies in the interval and its
    /// point lies inside the sphere's box, building the hit record.
    fn try_root(&self, ray: &Ray, t_min: i64, t_max: i64, t_wide: i128) -> (r: Option<HitRecord>)
        requires
            sphere_wf(*self),
            ray_bounded(*ray),
            0 <= t_min <= COORD_MAX,
            -COORD_MAX <= t_max <= COORD_MAX,
        ensures
            match r {
                Option::None => !root_ok(*self, *ray, t_min as int, t_max as int, t_wide as int),
                Option::Some(h) => root_ok(*self, *ray, t_min as int, t_max as int, t_wide as int)
                    && h.t == t_wide as int && record_matches(*self, *ray, t_wide as int, h),
            },
    {
        if t_wide < t_min as i128 || t_wide >= t_max as i128 {
            return Option::None;
        }
        let t: i64 = t_wide as i64;
        let p = ray.point_at_parameter(t);
        if p.x < self.center.x - self.radius || p.x > self.center.x + self.radius || p.y
            < self.center.y - self.radius || p.y > self.center.y + self.radius || p.z
            < self.center.z - self.radius || p.z > self.center.z + self.radius {
            return Option::None;
        }
        let normal = Vec3 {
            x: normal_axis(p.x, self.center.x, self.radius),
            y: normal_axis(p.y, self.center.y, self.radius),
            z: normal_axis(p.z, self.center.z, self.radius),
        };
        Option::Some(HitRecord { t, p, normal, material: self.material })
    }
}

/// One coordinate of the outward normal: the offset from the center divided
/// by the radius, at the fixed-point scale.
fn normal_axis(p: i64, c: i64, radius: i64) -> (r: i64)
    requires
        0 < radius <= COORD_MAX,
        c - radius <= p <= c + radius,
        -COORD_MAX <= c <= COORD_MAX,
    ensures
        r == ((p - c) * (FX_ONE as int)) / (radius as int),
{
    proof {
        lemma_mul_magnitude_bound(p as int - c as int, FX_ONE as int, COORD_MAX as int, FX_ONE as int);
        lemma_div_magnitude_bound(
            (p as int - c as int) * (FX_ONE as int),
            radius as int,
            COORD_MAX as int * FX_ONE as int,
        );
    }
    let n: i128 = ((p - c) as i128) * (FX_ONE as i128);
    let q = floor_div(n, radius as i128);
    q as i64
}

} // verus!
