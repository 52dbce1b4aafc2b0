use pathtracer::aabb::Aabb;
use pathtracer::bvh::Bvh;
use pathtracer::fx::{ceil_div, floor_div, isqrt};
use pathtracer::hittable::hit_spheres;
use pathtracer::ray::Ray;
use pathtracer::sphere::Sphere;
use pathtracer::vec::Vec3;
use pathtracer::FX_ONE;

const S: i64 = 4096;
const T_FAR: i64 = 16777216;

fn v(x: i64, y: i64, z: i64) -> Vec3 {
    Vec3 { x, y, z }
}

#[test]
fn scale_constant_is_4096() {
    assert_eq!(FX_ONE, 4096);
}

#[test]
fn floor_div_rounds_toward_negative_infinity() {
    assert_eq!(floor_div(7, 2), 3);
    assert_eq!(floor_div(-7, 2), -4);
    assert_eq!(floor_div(-8, 2), -4);
    assert_eq!(floor_div(0, 5), 0);
}

#[test]
fn ceil_div_rounds_toward_positive_infinity() {
    assert_eq!(ceil_div(7, 2), 4);
    assert_eq!(ceil_div(-7, 2), -3);
    assert_eq!(ceil_div(8, 2), 4);
}

#[test]
fn isqrt_floors_the_square_root() {
    assert_eq!(isqrt(0), 0);
    assert_eq!(isqrt(15), 3);
    assert_eq!(isqrt(16), 4);
    assert_eq!(isqrt(1 << 52), 1 << 26);
    assert_eq!(isqrt((1 << 52) - 1), (1 << 26) - 1);
}

#[test]
fn vector_normalize_scales_to_unit_length() {
    let a = v(3 * S, 4 * S, 0);
    let u = a.normalize();
    assert_eq!(u, v(2457, 3276, 0));
    let n = u.norm();
    assert!((n - S).abs() <= 2);
}

#[test]
fn vector_dot_and_cross() {
    let a = v(S, 0, 0);
    let b = v(0, S, 0);
    assert_eq!(a.dot(&b), 0);
    assert_eq!(a.cross(&b), v(0, 0, S));
    assert_eq!(b.cross(&a), v(0, 0, -S));
}

#[test]
fn merged_box_contains_both_operands() {
    let a = Aabb { min: v(-S, 0, 0), max: v(S, S, S) };
    let b = Aabb { min: v(0, -2 * S, S), max: v(3 * S, 0, 4 * S) };
    let m = a.merged(&b);
    assert_eq!(m.min, v(-S, -2 * S, 0));
    assert_eq!(m.max, v(3 * S, S, 4 * S));
    assert!(m.min.x <= a.min.x && a.max.x <= m.max.x);
    assert!(m.min.y <= b.min.y && b.max.y <= m.max.y);
    assert!(m.min.z <= a.min.z && a.max.z <= m.max.z);
}

#[test]
fn merge_with_empty_box_is_identity() {
    let a = Aabb { min: v(-S, -S, -S), max: v(S, S, S) };
    let e = Aabb::empty();
    let m = a.merged(&e);
    assert_eq!(m, a);
}

#[test]
fn intersect_of_disjoint_boxes_has_zero_volume() {
    let a = Aabb { min: v(0, 0, 0), max: v(S, S, S) };
    let b = Aabb { min: v(2 * S, 2 * S, 2 * S), max: v(3 * S, 3 * S, 3 * S) };
    assert_eq!(a.intersect(&b).volume(), 0);
}

#[test]
fn volume_is_the_squared_diagonal() {
    let a = Aabb { min: v(0, 0, 0), max: v(8192, 12288, 24576) };
    assert_eq!(a.volume(), 8192 * 8192 + 12288 * 12288 + 24576 * 24576);
}

/// A direct per-axis slab scan over floating-point arithmetic, the plain
/// reference the integer slab test is compared against.
fn direct_slab(b: &Aabb, r: &Ray, t_min: i64, t_max: i64) -> bool {
    let s = S as f64;
    let mut lo = (t_min as f64) / s;
    let mut hi = (t_max as f64) / s;
    let mins = [b.min.x, b.min.y, b.min.z];
    let maxs = [b.max.x, b.max.y, b.max.z];
    let os = [r.origin.x, r.origin.y, r.origin.z];
    let ds = [r.direction.x, r.direction.y, r.direction.z];
    for axis in 0..3 {
        let inv = s / (ds[axis] as f64);
        let t1 = ((mins[axis] - os[axis]) as f64) / s * inv;
        let t2 = ((maxs[axis] - os[axis]) as f64) / s * inv;
        lo = lo.max(t1.min(t2));
        hi = hi.min(t1.max(t2));
    }
    hi > lo.max(0.0)
}

#[test]
fn slab_test_agrees_with_direct_scan() {
    let b = Aabb { min: v(-S, -S, -S), max: v(S, S, S) };
    let cases = [
        (v(0, 0, -5 * S), v(0, 0, S), 0i64, T_FAR, true),
        (v(0, 0, -5 * S), v(0, 0, -S), 0, T_FAR, false),
        (v(0, 0, -5 * S), v(S, 0, 0), 0, T_FAR, false),
        (v(0, 0, 0), v(S, 0, 0), 0, T_FAR, true),
        (v(0, 0, -5 * S), v(0, 0, S), 0, 2 * S, false),
        (v(0, 0, -5 * S), v(0, 0, S), 0, 8 * S, true),
        (v(3 * S, 3 * S, -5 * S), v(0, 0, S), 0, T_FAR, false),
        (v(0, -5 * S, 0), v(0, S, 0), 0, T_FAR, true),
    ];
    for (o, d, t0, t1, expect) in cases {
        let ray = Ray { origin: o, direction: d };
        assert_eq!(b.intersects(&ray, t0, t1), expect);
        assert_eq!(direct_slab(&b, &ray, t0, t1), expect);
    }
}

#[test]
fn sphere_hit_matches_the_analytic_answer() {
    let sph = Sphere { center: v(0, 0, -5 * S), radius: S, material: 0 };
    let ray = Ray { origin: v(0, 0, 0), direction: v(0, 0, -S) };
    let hit = sph.hit(&ray, 0, T_FAR).expect("the ray aims at the sphere");
    assert_eq!(hit.t, 4 * S);
    assert_eq!(hit.p, v(0, 0, -4 * S));
    assert_eq!(hit.normal, v(0, 0, S));
    assert_eq!(hit.material, 0);
}

#[test]
fn sphere_miss_reports_nothing() {
    let sph = Sphere { center: v(0, 4 * S, -5 * S), radius: S, material: 0 };
    let ray = Ray { origin: v(0, 0, 0), direction: v(0, 0, -S) };
    assert!(sph.hit(&ray, 0, T_FAR).is_none());
}

#[test]
fn sphere_hit_respects_the_interval() {
    let sph = Sphere { center: v(0, 0, -5 * S), radius: S, material: 0 };
    let ray = Ray { origin: v(0, 0, 0), direction: v(0, 0, -S) };
    assert!(sph.hit(&ray, 0, 4 * S).is_none());
    // from inside the sphere, the near root is behind the interval and the
    // far root answers
    let hit = sph.hit(&ray, 5 * S, T_FAR).expect("the far root is in range");
    assert_eq!(hit.t, 6 * S);
}

fn test_spheres() -> Vec<Sphere> {
    let mut out = Vec::new();
    for i in 0i64..14 {
        let cx = (i % 5 - 2) * 3 * S;
        let cy = (i % 3 - 1) * 2 * S;
        let cz = -(6 + 2 * i) * S;
        let radius = S + (i % 2) * S;
        out.push(Sphere { center: v(cx, cy, cz), radius, material: (i % 3) as usize });
    }
    out
}

#[test]
fn bvh_build_keeps_every_sphere() {
    let spheres = test_spheres();
    let n = spheres.len();
    let mut centers: Vec<(i64, i64, i64)> =
        spheres.iter().map(|s| (s.center.x, s.center.y, s.center.z)).collect();
    let bvh = Bvh::new(spheres);
    assert_eq!(bvh.spheres.len(), n);
    let mut after: Vec<(i64, i64, i64)> =
        bvh.spheres.iter().map(|s| (s.center.x, s.center.y, s.center.z)).collect();
    centers.sort();
    after.sort();
    assert_eq!(centers, after);
}

#[test]
fn bvh_hit_equals_linear_scan() {
    let bvh = Bvh::new(test_spheres());
    let mut dirs = Vec::new();
    for dx in [-2048i64, 0, 2048] {
        for dy in [-2048i64, 0, 2048] {
            dirs.push(v(dx, dy, -S));
        }
    }
    for o in [v(0, 0, 0), v(S, -S, 2 * S), v(-4 * S, 2 * S, S)] {
        for d in &dirs {
            let ray = Ray { origin: o, direction: *d };
            let from_tree = bvh.hit(&ray, 4, T_FAR);
            let from_scan = hit_spheres(&bvh.spheres, &ray, 4, T_FAR);
            assert_eq!(from_tree, from_scan);
        }
    }
}

#[test]
fn bvh_handles_duplicate_split_keys() {
    // many spheres sharing center coordinates: the split key ties on every
    // axis, and the tree must still answer like the scan
    let mut spheres = Vec::new();
    for i in 0i64..12 {
        spheres.push(Sphere {
            center: v(0, 0, -(4 + 2 * (i % 3)) * S),
            radius: S,
            material: i as usize % 2,
        });
    }
    let bvh = Bvh::new(spheres);
    let ray = Ray { origin: v(0, 0, 0), direction: v(0, 0, -S) };
    let from_tree = bvh.hit(&ray, 4, T_FAR);
    let from_scan = hit_spheres(&bvh.spheres, &ray, 4, T_FAR);
    assert_eq!(from_tree, from_scan);
    assert_eq!(from_tree.expect("the ray runs through the pile").t, 3 * S);
}

#[test]
fn sphere_at_the_size_limit_still_reports_hits() {
    let big: i64 = 4096000; // a thousand units
    let sph = Sphere { center: v(0, -big, 0), radius: big, material: 0 };
    let ray = Ray { origin: v(0, 4 * S, 0), direction: v(0, -S, 0) };
    let hit = sph.hit(&ray, 4, T_FAR).expect("the ray drops onto the ground");
    assert_eq!(hit.t, 4 * S);
    assert_eq!(hit.p, v(0, 0, 0));
    assert_eq!(hit.normal, v(0, S, 0));
}

#[test]
fn bvh_of_empty_scene_reports_nothing() {
    let bvh = Bvh::new(Vec::new());
    let ray = Ray { origin: v(0, 0, 0), direction: v(0, 0, -S) };
    assert!(bvh.hit(&ray, 4, T_FAR).is_none());
}

#[test]
fn ray_point_at_parameter_walks_the_direction() {
    let ray = Ray { origin: v(S, 0, 0), direction: v(0, 0, -S) };
    assert_eq!(ray.point_at_parameter(4 * S), v(S, 0, -4 * S));
    assert_eq!(ray.point_at_parameter(0), v(S, 0, 0));
}
