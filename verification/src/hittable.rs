use vstd::prelude::*;
use crate::aabb::{
    contains_box, lemma_contains_coords_mono, lemma_point_in_box_slab, slab_spec, Aabb,
};
use crate::ray::{ray_bounded, Ray};
use crate::sphere::{
    a_coef, record_matches, root_ok, sphere_aabb_spec, sphere_hit_spec, sphere_wf, HitRecord,
    Sphere,
};
use crate::COORD_MAX;

verus! {

/// Every sphere of the sequence is well-formed.
pub open spec fn spheres_wf(s: Seq<Sphere>) -> bool {
    forall|i: int| 0 <= i < s.len() ==> sphere_wf(#[trigger] s[i])
}

/// Shifts a scan result's index by `n`.
pub open spec fn shift_hit(o: Option<(int, int)>, n: int) -> Option<(int, int)> {
    match o {
        Option::None => Option::None,
        Option::Some(p) => Option::Some((p.0 + n, p.1)),
    }
}

/// The nearest hit of a linear scan over the sequence: each sphere is asked
/// for a hit strictly closer than the best found so far, so later candidates
/// can only improve on earlier ones. The result names the winning sphere's
/// position and its parameter.
pub open spec fn scan_hit(prims: Seq<Sphere>, r: Ray, t0: int, t1: int) -> Option<(int, int)>
    decreases prims.len(),
{
    if prims.len() == 0 {
        Option::None
    } else {
        match sphere_hit_spec(prims[0], r, t0, t1) {
            Option::None => shift_hit(scan_hit(prims.drop_first(), r, t0, t1), 1),
            Option::Some(t) => match scan_hit(prims.drop_first(), r, t0, t) {
                Option::Some(p) => Option::Some((p.0 + 1, p.1)),
                Option::None => Option::Some((0, t)),
            },
        }
    }
}

/// The runtime result agrees with the scan: absent together, or a record
/// built from the winning sphere at the winning parameter.
pub open spec fn scan_result_matches(
    prims: Seq<Sphere>,
    r: Ray,
    t0: int,
    t1: int,
    res: Option<HitRecord>,
) -> bool {
    match scan_hit(prims, r, t0, t1) {
        Option::None => res is None,
        Option::Some(p) => res matches Option::Some(h) && h.t == p.1 && record_matches(
            prims[p.0],
            r,
            p.1,
            h,
        ),
    }
}

/// A sphere that reports a hit reports one inside the queried interval.
pub proof fn lemma_hit_spec_some(s: Sphere, r: Ray, t0: int, t1: int, t: int)
    requires
        sphere_hit_spec(s, r, t0, t1) == Option::Some(t),
    ensures
        root_ok(s, r, t0, t1, t),
        t0 <= t < t1,
{
}

/// The scan's verdict names a sphere of the sequence and a parameter inside
/// the interval.
pub proof fn lemma_scan_props(prims: Seq<Sphere>, r: Ray, t0: int, t1: int)
    ensures
        scan_hit(prims, r, t0, t1) matches Option::Some(p) ==> 0 <= p.0 < prims.len() && t0 <= p.1
            < t1 && root_ok(prims[p.0], r, t0, t1, p.1),
    decreases prims.len(),
{
    if prims.len() > 0 {
        match sphere_hit_spec(prims[0], r, t0, t1) {
            Option::None => {
                lemma_scan_props(prims.drop_first(), r, t0, t1);
            },
            Option::Some(t) => {
                lemma_hit_spec_some(prims[0], r, t0, t1, t);
                lemma_scan_props(prims.drop_first(), r, t0, t);
            },
        }
    }
}

/// A sequence whose spheres all miss under the full interval scans to no
/// hit.
pub proof fn lemma_scan_of_misses(prims: Seq<Sphere>, r: Ray, t0: int, t1: int)
    requires
        forall|i: int|
            0 <= i < prims.len() ==> sphere_hit_spec(#[trigger] prims[i], r, t0, t1) is None,
    ensures
        scan_hit(prims, r, t0, t1) is None,
    decreases prims.len(),
{
    if prims.len() > 0 {
        assert(prims[0] == prims[0]);
        assert(forall|i: int|
            0 <= i < prims.drop_first().len() ==> #[trigger] prims.drop_first()[i] == prims[
                i + 1
            ]);
        lemma_scan_of_misses(prims.drop_first(), r, t0, t1);
    }
}

/// Pruning is sound: when a box contains every sphere's box and the slab
/// test rejects it over the interval, no sphere of the sequence has a hit
/// there, so the scan comes up empty.
pub proof fn lemma_box_miss_scan(prims: Seq<Sphere>, bbox: Aabb, r: Ray, t0: int, t1: int)
    requires
        0 <= t0,
        forall|i: int|
            0 <= i < prims.len() ==> contains_box(bbox, sphere_aabb_spec(#[trigger] prims[i])),
        !slab_spec(bbox, r, t0, t1),
    ensures
        scan_hit(prims, r, t0, t1) is None,
{
    assert forall|i: int| 0 <= i < prims.len() implies sphere_hit_spec(
        #[trigger] prims[i],
        r,
        t0,
        t1,
    ) is None by {
        match sphere_hit_spec(prims[i], r, t0, t1) {
            Option::Some(t) => {
                lemma_hit_spec_some(prims[i], r, t0, t1, t);
                lemma_contains_coords_mono(
                    bbox,
                    sphere_aabb_spec(prims[i]),
                    crate::ray::point_axis(r.origin.x as int, r.direction.x as int, t),
                    crate::ray::point_axis(r.origin.y as int, r.direction.y as int, t),
                    crate::ray::point_axis(r.origin.z as int, r.direction.z as int, t),
                );
                lemma_point_in_box_slab(bbox, r, t0, t1, t);
            },
            Option::None => {},
        }
    }
    lemma_scan_of_misses(prims, r, t0, t1);
}

/// The nearest hit over the index range `[start, end)` of the sphere array,
/// scanning left to right and narrowing to the closest hit found so far.
pub fn hit_range(
    spheres: &Vec<Sphere>,
    start: usize,
    end: usize,
    ray: &Ray,
    t_min: i64,
    t_max: i64,
) -> (r: Option<HitRecord>)
    requires
        start <= end <= spheres@.len(),
        spheres_wf(spheres@),
        ray_bounded(*ray),
        a_coef(*ray) > 0,
        0 <= t_min <= COORD_MAX,
        -COORD_MAX <= t_max <= COORD_MAX,
    ensures
        scan_result_matches(
            spheres@.subrange(start as int, end as int),
            *ray,
            t_min as int,
            t_max as int,
            r,
        ),
{
    let ghost full = spheres@.subrange(start as int, end as int);
    let mut best: Option<HitRecord> = Option::None;
    let ghost mut best_i: int = 0;
    let mut k: usize = start;
    while k < end
        invariant
            start <= k <= end <= spheres@.len(),
            spheres_wf(spheres@),
            ray_bounded(*ray),
            a_coef(*ray) > 0,
            0 <= t_min <= COORD_MAX,
            -COORD_MAX <= t_max <= COORD_MAX,
            full == spheres@.subrange(start as int, end as int),
            match best {
                Option::None => scan_hit(full, *ray, t_min as int, t_max as int) == shift_hit(
                    scan_hit(
                        spheres@.subrange(k as int, end as int),
                        *ray,
                        t_min as int,
                        t_max as int,
                    ),
                    k - start,
                ),
                Option::Some(h) => {
                    &&& 0 <= best_i < k - start
                    &&& t_min <= h.t < t_max
                    &&& record_matches(full[best_i], *ray, h.t as int, h)
                    &&& scan_hit(full, *ray, t_min as int, t_max as int) == (match scan_hit(
                        spheres@.subrange(k as int, end as int),
                        *ray,
                        t_min as int,
                        h.t as int,
                    ) {
                        Option::Some(p) => Option::Some((p.0 + (k - start), p.1)),
                        Option::None => Option::Some((best_i, h.t as int)),
                    })
                },
            },
        decreases end - k,
    {
        let closest: i64 = if let Option::Some(h) = &best {
            h.t
        } else {
            t_max
        };
        proof {
            assert(spheres@.subrange(k as int, end as int).drop_first() =~= spheres@.subrange(
                k as int + 1,
                end as int,
            ));
            assert(spheres@.subrange(k as int, end as int)[0] == spheres@[k as int]);
        }
        match spheres[k].hit(ray, t_min, closest) {
            Option::Some(h2) => {
                proof {
                    lemma_hit_spec_some(
                        spheres@[k as int],
                        *ray,
                        t_min as int,
                        closest as int,
                        h2.t as int,
                    );
                    best_i = k - start;
                }
                best = Option::Some(h2);
            },
            Option::None => {},
        }
        k = k + 1;
    }
    proof {
        assert(spheres@.subrange(k as int, end as int).len() == 0);
    }
    best
}

/// The nearest hit over the whole sphere array: the linear-scan reference
/// the tree traversal is measured against.
pub fn hit_spheres(spheres: &Vec<Sphere>, ray: &Ray, t_min: i64, t_max: i64) -> (r: Option<
    HitRecord,
>)
    requires
        spheres_wf(spheres@),
        ray_bounded(*ray),
        a_coef(*ray) > 0,
        0 <= t_min <= COORD_MAX,
        -COORD_MAX <= t_max <= COORD_MAX,
    ensures
        scan_result_matches(spheres@, *ray, t_min as int, t_max as int, r),
{
    let n = spheres.len();
    let r = hit_range(spheres, 0, n, ray, t_min, t_max);
    proof {
        assert(spheres@.subrange(0, n as int) =~= spheres@);
    }
    r
}

} // verus!
