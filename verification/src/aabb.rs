use vstd::prelude::*;
use crate::fx::{
    ceil_div, floor_div, lemma_ceil_div_bound, lemma_div_magnitude_bound,
    lemma_floor_div_bound, lemma_mul_magnitude_bound,
};
use crate::ray::{point_axis, ray_bounded, Ray};
use crate::vec::{v3_bounded, Vec3};
use crate::{COORD_MAX, FX_ONE};

verus! {

/// An axis-aligned bounding box: two corner points, component-wise
/// `min <= max` for a non-empty box. The canonical empty box keeps its
/// corners inverted at the extremes so that merging leaves the other
/// operand unchanged.
#[derive(Clone, Copy, PartialEq, Eq, Structural, Debug)]
pub struct Aabb {
    pub min: Vec3,
    pub max: Vec3,
}

/// The smaller of two scalars.
pub open spec fn min64(a: i64, b: i64) -> i64 {
    if a <= b {
        a
    } else {
        b
    }
}

/// The larger of two scalars.
pub open spec fn max64(a: i64, b: i64) -> i64 {
    if a >= b {
        a
    } else {
        b
    }
}

/// Both corners stay within twice the coordinate bound, as the box of any
/// in-range primitive does.
pub open spec fn aabb_bounded(b: Aabb) -> bool {
    v3_bounded(b.min, 2 * COORD_MAX as int) && v3_bounded(b.max, 2 * COORD_MAX as int)
}

/// The outer box contains the inner one, component-wise.
pub open spec fn contains_box(outer: Aabb, inner: Aabb) -> bool {
    outer.min.x <= inner.min.x && outer.min.y <= inner.min.y && outer.min.z <= inner.min.z
        && inner.max.x <= outer.max.x && inner.max.y <= outer.max.y && inner.max.z <= outer.max.z
}

/// The point lies inside the box, component-wise.
pub open spec fn contains_coords(b: Aabb, px: int, py: int, pz: int) -> bool {
    b.min.x <= px <= b.max.x && b.min.y <= py <= b.max.y && b.min.z <= pz <= b.max.z
}

/// The component-wise union of two boxes.
pub open spec fn merged_spec(a: Aabb, b: Aabb) -> Aabb {
    Aabb {
        min: Vec3 {
            x: min64(a.min.x, b.min.x),
            y: min64(a.min.y, b.min.y),
            z: min64(a.min.z, b.min.z),
        },
        max: Vec3 {
            x: max64(a.max.x, b.max.x),
            y: max64(a.max.y, b.max.y),
            z: max64(a.max.z, b.max.z),
        },
    }
}

/// The component-wise intersection of two boxes; may come out inverted, which
/// `volume_spec` reports as zero.
pub open spec fn intersect_spec(a: Aabb, b: Aabb) -> Aabb {
    Aabb {
        min: Vec3 {
            x: max64(a.min.x, b.min.x),
            y: max64(a.min.y, b.min.y),
            z: max64(a.min.z, b.min.z),
        },
        max: Vec3 {
            x: min64(a.max.x, b.max.x),
            y: min64(a.max.y, b.max.y),
            z: min64(a.max.z, b.max.z),
        },
    }
}

/// The squared diagonal when the box is strictly non-degenerate on every
/// axis, else zero: a monotone stand-in for the geometric volume, used only
/// to compare candidate splits.
pub open spec fn volume_spec(b: Aabb) -> int {
    if b.min.x < b.max.x && b.min.y < b.max.y && b.min.z < b.max.z {
        (b.max.x - b.min.x) * (b.max.x - b.min.x) + (b.max.y - b.min.y) * (b.max.y - b.min.y) + (
        b.max.z - b.min.z) * (b.max.z - b.min.z)
    } else {
        0
    }
}

/// The ray's point at parameter `t` lies between the slab planes of one axis.
pub open spec fn axis_sat(o: int, d: int, mn: int, mx: int, t: int) -> bool {
    mn <= point_axis(o, d, t) && point_axis(o, d, t) <= mx
}

/// `t` is a parameter at which the ray is inside the box, within the queried
/// interval and not behind the origin.
pub open spec fn t_admissible(b: Aabb, r: Ray, t0: int, t1: int, t: int) -> bool {
    t0 <= t && 0 <= t && t < t1 && axis_sat(
        r.origin.x as int,
        r.direction.x as int,
        b.min.x as int,
        b.max.x as int,
        t,
    ) && axis_sat(r.origin.y as int, r.direction.y as int, b.min.y as int, b.max.y as int, t)
        && axis_sat(r.origin.z as int, r.direction.z as int, b.min.z as int, b.max.z as int, t)
}

/// The slab test's meaning: some parameter in the interval puts the ray
/// inside the box.
pub open spec fn slab_spec(b: Aabb, r: Ray, t0: int, t1: int) -> bool {
    exists|t: int| t_admissible(b, r, t0, t1, t)
}

impl Aabb {
    pub fn new(min: Vec3, max: Vec3) -> (r: Aabb)
        ensures
            r == (Aabb { min, max }),
    {
        Aabb { min, max }
    }

    /// The canonical empty box: corners inverted at the extremes, the
    /// identity element of `merged`.
    pub fn empty() -> (r: Aabb)
        ensures
            r.min.x == i64::MAX && r.min.y == i64::MAX && r.min.z == i64::MAX,
            r.max.x == i64::MIN && r.max.y == i64::MIN && r.max.z == i64::MIN,
    {
        Aabb {
            min: Vec3 { x: i64::MAX, y: i64::MAX, z: i64::MAX },
            max: Vec3 { x: i64::MIN, y: i64::MIN, z: i64::MIN },
        }
    }

    /// The component-wise union: min of mins, max of maxes.
    pub fn merged(&self, o: &Aabb) -> (r: Aabb)
        ensures
            r == merged_spec(*self, *o),
    {
        Aabb {
            min: Vec3 {
                x: min_i64(self.min.x, o.min.x),
                y: min_i64(self.min.y, o.min.y),
                z: min_i64(self.min.z, o.min.z),
            },
            max: Vec3 {
                x: max_i64(self.max.x, o.max.x),
                y: max_i64(self.max.y, o.max.y),
                z: max_i64(self.max.z, o.max.z),
            },
        }
    }

    /// The component-wise intersection: max of mins, min of maxes.
    pub fn intersect(&self, o: &Aabb) -> (r: Aabb)
        ensures
            r == intersect_spec(*self, *o),
    {
        Aabb {
            min: Vec3 {
                x: max_i64(self.min.x, o.min.x),
                y: max_i64(self.min.y, o.min.y),
                z: max_i64(self.min.z, o.min.z),
            },
            max: Vec3 {
                x: min_i64(self.max.x, o.max.x),
                y: min_i64(self.max.y, o.max.y),
                z: min_i64(self.max.z, o.max.z),
            },
        }
    }

    /// The squared diagonal, or zero for a degenerate or inverted box.
    pub fn volume(&self) -> (r: i64)
        requires
            aabb_bounded(*self),
        ensures
            r == volume_spec(*self),
    {
        if self.min.x < self.max.x && self.min.y < self.max.y && self.min.z < self.max.z {
            proof {
                let m = 4 * COORD_MAX as int;
                lemma_mul_magnitude_bound(
                    self.max.x - self.min.x,
                    self.max.x - self.min.x,
                    m,
                    m,
                );
                lemma_mul_magnitude_bound(
                    self.max.y - self.min.y,
                    self.max.y - self.min.y,
                    m,
                    m,
                );
                lemma_mul_magnitude_bound(
                    self.max.z - self.min.z,
                    self.max.z - self.min.z,
                    m,
                    m,
                );
            }
            let dx: i128 = (self.max.x - self.min.x) as i128;
            let dy: i128 = (self.max.y - self.min.y) as i128;
            let dz: i128 = (self.max.z - self.min.z) as i128;
            (dx * dx + dy * dy + dz * dz) as i64
        } else {
            0
        }
    }

    /// The slab test: whether some parameter in `[max(t_min, 0), t_max)`
    /// puts the ray inside the box. Each axis narrows the parameter interval
    /// by exact integer bounds; an axis the ray runs parallel to constrains
    /// nothing unless the origin lies outside its slab.
    pub fn intersects(&self, ray: &Ray, t_min: i64, t_max: i64) -> (r: bool)
        requires
            aabb_bounded(*self),
            ray_bounded(*ray),
            0 <= t_min <= COORD_MAX,
            -COORD_MAX <= t_max <= COORD_MAX,
        ensures
            r == slab_spec(*self, *ray, t_min as int, t_max as int),
    {
        let ax = axis_slab(ray.origin.x, ray.direction.x, self.min.x, self.max.x);
        let ay = axis_slab(ray.origin.y, ray.direction.y, self.min.y, self.max.y);
        let az = axis_slab(ray.origin.z, ray.direction.z, self.min.z, self.max.z);
        if ax.0 || ay.0 || az.0 {
            proof {
                assert forall|t: int| !t_admissible(*self, *ray, t_min as int, t_max as int, t) by {
                    if t_admissible(*self, *ray, t_min as int, t_max as int, t) {
                        assert(-(COORD_MAX as int) <= t <= COORD_MAX as int);
                    }
                }
            }
            return false;
        }
        let mut lo: i64 = t_min;
        let mut hi: i64 = t_max - 1;
        lo = max_i64(lo, ax.1);
        hi = min_i64(hi, ax.2);
        lo = max_i64(lo, ay.1);
        hi = min_i64(hi, ay.2);
        lo = max_i64(lo, az.1);
        hi = min_i64(hi, az.2);
        if lo <= hi {
            proof {
                assert(-(COORD_MAX as int) <= lo as int <= COORD_MAX as int);
                assert(t_admissible(*self, *ray, t_min as int, t_max as int, lo as int));
            }
            true
        } else {
            proof {
                assert forall|t: int| !t_admissible(*self, *ray, t_min as int, t_max as int, t) by {
                    if t_admissible(*self, *ray, t_min as int, t_max as int, t) {
                        assert(-(COORD_MAX as int) <= t <= COORD_MAX as int);
                        assert(ax.1 <= t <= ax.2);
                        assert(ay.1 <= t <= ay.2);
                        assert(az.1 <= t <= az.2);
                    }
                }
            }
            false
        }
    }
}

/// Merging is commutative.
pub proof fn lemma_merged_commutative(a: Aabb, b: Aabb)
    ensures
        merged_spec(a, b) == merged_spec(b, a),
{
}

/// Merging is associative.
pub proof fn lemma_merged_associative(a: Aabb, b: Aabb, c: Aabb)
    ensures
        merged_spec(merged_spec(a, b), c) == merged_spec(a, merged_spec(b, c)),
{
}

/// The canonical empty box is the identity element of merging.
pub proof fn lemma_merged_empty_identity(e: Aabb, b: Aabb)
    requires
        e.min.x == i64::MAX && e.min.y == i64::MAX && e.min.z == i64::MAX,
        e.max.x == i64::MIN && e.max.y == i64::MIN && e.max.z == i64::MIN,
    ensures
        merged_spec(e, b) == b,
        merged_spec(b, e) == b,
{
}

/// Containment lemma for the union: the merged box contains both operands.
pub proof fn lemma_merged_contains(a: Aabb, b: Aabb)
    ensures
        contains_box(merged_spec(a, b), a),
        contains_box(merged_spec(a, b), b),
{
}

/// Box containment is transitive.
pub proof fn lemma_contains_trans(a: Aabb, b: Aabb, c: Aabb)
    requires
        contains_box(a, b),
        contains_box(b, c),
    ensures
        contains_box(a, c),
{
}

/// A point inside an inner box is inside any box containing it.
pub proof fn lemma_contains_coords_mono(outer: Aabb, inner: Aabb, px: int, py: int, pz: int)
    requires
        contains_box(outer, inner),
        contains_coords(inner, px, py, pz),
    ensures
        contains_coords(outer, px, py, pz),
{
}

/// A parameter that puts the ray inside the box, within the interval and not
/// behind the origin, makes the slab test succeed.
pub proof fn lemma_point_in_box_slab(b: Aabb, r: Ray, t0: int, t1: int, t: int)
    requires
        t0 <= t < t1,
        0 <= t,
        contains_coords(
            b,
            point_axis(r.origin.x as int, r.direction.x as int, t),
            point_axis(r.origin.y as int, r.direction.y as int, t),
            point_axis(r.origin.z as int, r.direction.z as int, t),
        ),
    ensures
        slab_spec(b, r, t0, t1),
{
    assert(t_admissible(b, r, t0, t1, t));
}

/// The smaller of two scalars.
pub fn min_i64(a: i64, b: i64) -> (r: i64)
    ensures
        r == min64(a, b),
{
    if a <= b {
        a
    } else {
        b
    }
}

/// The larger of two scalars.
pub fn max_i64(a: i64, b: i64) -> (r: i64)
    ensures
        r == max64(a, b),
{
    if a >= b {
        a
    } else {
        b
    }
}

/// One axis of the slab test: the exact set of integer parameters that keep
/// the ray between this axis' two planes, clamped to the window of
/// parameters the caller can ask about, as an interval.
fn axis_slab(o: i64, d: i64, mn: i64, mx: i64) -> (res: (bool, i64, i64))
    requires
        -2 * COORD_MAX <= o <= 2 * COORD_MAX,
        -COORD_MAX <= d <= COORD_MAX,
        -2 * COORD_MAX <= mn <= 2 * COORD_MAX,
        -2 * COORD_MAX <= mx <= 2 * COORD_MAX,
    ensures
        res.0 ==> forall|t: int|
            -(COORD_MAX as int) <= t <= COORD_MAX as int ==> !axis_sat(
                o as int,
                d as int,
                mn as int,
                mx as int,
                t,
            ),
        !res.0 ==> forall|t: int|
            -(COORD_MAX as int) <= t <= COORD_MAX as int ==> (axis_sat(
                o as int,
                d as int,
                mn as int,
                mx as int,
                t,
            ) <==> res.1 <= t <= res.2),
        !res.0 ==> -COORD_MAX <= res.1 && res.2 <= COORD_MAX,
{
    if d == 0 {
        if mn <= o && o <= mx {
            proof {
                assert forall|t: int|
                    -(COORD_MAX as int) <= t <= COORD_MAX as int implies (axis_sat(
                    o as int,
                    d as int,
                    mn as int,
                    mx as int,
                    t,
                ) <==> -(COORD_MAX as int) <= t <= COORD_MAX as int) by {
                    assert(t * (d as int) == 0) by (nonlinear_arith)
                        requires
                            d == 0,
                    ;
                    assert(point_axis(o as int, d as int, t) == o);
                }
            }
            (false, -COORD_MAX, COORD_MAX)
        } else {
            proof {
                assert forall|t: int|
                    -(COORD_MAX as int) <= t <= COORD_MAX as int implies !axis_sat(
                    o as int,
                    d as int,
                    mn as int,
                    mx as int,
                    t,
                ) by {
                    assert(t * (d as int) == 0) by (nonlinear_arith)
                        requires
                            d == 0,
                    ;
                    assert(point_axis(o as int, d as int, t) == o);
                }
            }
            (true, 0, 0)
        }
    } else {
        proof {
            assert(FX_ONE == 4096);
            assert(-0x80_0000_0000int <= ((mn - o) as int) * (FX_ONE as int) <= 0x80_0000_0000int
                && -0x80_0000_0000int <= ((mx - o) as int) * (FX_ONE as int)
                <= 0x80_0000_0000int) by (nonlinear_arith)
                requires
                    -0x600_0000 <= mn - o <= 0x600_0000,
                    -0x600_0000 <= mx - o <= 0x600_0000,
                    FX_ONE == 4096,
            ;
        }
        let a_num: i128 = ((mn - o) as i128) * (FX_ONE as i128);
        let b_num: i128 = ((mx - o) as i128) * (FX_ONE as i128) + ((FX_ONE - 1) as i128);
        let ghost gm: int = 0x80_0000_0000;
        let (alo_raw, ahi_raw): (i128, i128) = if d > 0 {
            let l = ceil_div(a_num, d as i128);
            let h = floor_div(b_num, d as i128);
            proof {
                lemma_div_magnitude_bound(-(a_num as int), d as int, gm);
                lemma_div_magnitude_bound(b_num as int, d as int, gm);
            }
            (l, h)
        } else {
            let dd: i64 = -d;
            let l = ceil_div(-b_num, dd as i128);
            let h = floor_div(-a_num, dd as i128);
            proof {
                lemma_div_magnitude_bound(b_num as int, dd as int, gm);
                lemma_div_magnitude_bound(-(a_num as int), dd as int, gm);
            }
            (l, h)
        };
        let alo: i64 = max_i64(alo_raw as i64, -COORD_MAX);
        let ahi: i64 = min_i64(ahi_raw as i64, COORD_MAX);
        proof {
            assert forall|t: int|
                -(COORD_MAX as int) <= t <= COORD_MAX as int implies (axis_sat(
                o as int,
                d as int,
                mn as int,
                mx as int,
                t,
            ) <==> alo_raw as int <= t <= ahi_raw as int) by {
                let oi = o as int;
                let di = d as int;
                let s = FX_ONE as int;
                let a = (mn - o) as int * s;
                let b = (mx - o) as int * s + (s - 1);
                lemma_floor_div_bound(t * di, s, mn as int - oi);
                lemma_floor_div_bound(t * di, s, mx as int - oi + 1);
                if d > 0 {
                    lemma_ceil_div_bound(a, di, t);
                    lemma_floor_div_bound(b, di, t);
                } else {
                    let ddi = -di;
                    assert(t * di == -(t * ddi)) by (nonlinear_arith)
                        requires
                            ddi == -di,
                    ;
                    lemma_ceil_div_bound(-b, ddi, t);
                    lemma_floor_div_bound(-a, ddi, t);
                }
            }
        }
        if alo <= ahi {
            (false, alo, ahi)
        } else {
            proof {
                assert forall|t: int|
                    -(COORD_MAX as int) <= t <= COORD_MAX as int implies !axis_sat(
                    o as int,
                    d as int,
                    mn as int,
                    mx as int,
                    t,
                ) by {
                }
            }
            (true, 0, 0)
        }
    }
}

} // verus!
