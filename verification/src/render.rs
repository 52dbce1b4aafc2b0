use vstd::prelude::*;
use crate::bvh::{bvh_wf, Bvh};
use crate::camera::{camera_wf, Camera};
use crate::fx::{floor_div, lemma_floor_div_bound, lemma_fx_unit_mul_range};
use crate::hittable::{lemma_scan_props, scan_hit};
use crate::materials::{color_wf, material_wf, scatter, Material};
use crate::ray::{ray_bounded, Ray};
use crate::rng::DrawSource;
use crate::sphere::{a_coef, lemma_record_bounds, sphere_wf};
use crate::vec::{v3, v3_bounded, Vec3};
use crate::{COORD_MAX, FX_ONE};

verus! {

/// How close to its origin a ray may report a hit: keeps a scattered ray
/// from immediately hitting the surface it left.
pub const T_EPSILON: i64 = 4;

/// The fixed recursion cutoff of the estimator: a biased but deterministic
/// termination, part of the contract.
pub const MAX_DEPTH: u32 = 50;

/// A scene: the sphere hierarchy and the material arena its spheres index
/// into.
pub struct Scene {
    pub bvh: Bvh,
    pub materials: Vec<Material>,
}

/// A well-formed scene: a well-formed hierarchy, well-formed materials, and
/// every sphere's material index inside the arena.
pub open spec fn scene_wf(s: Scene) -> bool {
    &&& bvh_wf(s.bvh)
    &&& forall|i: int| 0 <= i < s.materials@.len() ==> material_wf(#[trigger] s.materials@[i])
    &&& forall|k: int|
        0 <= k < s.bvh.spheres@.len() ==> (#[trigger] s.bvh.spheres@[k]).material
            < s.materials@.len()
}

/// The sky gradient a missing ray returns: white blended toward sky blue by
/// the unit direction's upward component.
pub open spec fn background_spec(r: Ray) -> Vec3 {
    let u = crate::vec::unit_spec(r.direction);
    let t = (u.y + FX_ONE as int) / 2;
    v3(
        ((FX_ONE as int - t) * (FX_ONE as int) + t * 2048) / (FX_ONE as int),
        ((FX_ONE as int - t) * (FX_ONE as int) + t * 2867) / (FX_ONE as int),
        ((FX_ONE as int - t) * (FX_ONE as int) + t * 4096) / (FX_ONE as int),
    )
}

impl Scene {
    pub fn new(bvh: Bvh, materials: Vec<Material>) -> (r: Scene)
        ensures
            r.bvh == bvh,
            r.materials == materials,
    {
        Scene { bvh, materials }
    }
}

/// The sky gradient for a ray that hit nothing.
fn background(ray: &Ray) -> (c: Vec3)
    requires
        v3_bounded(ray.direction, COORD_MAX as int),
        a_coef(*ray) > 0,
    ensures
        c == background_spec(*ray),
        color_wf(c),
{
    let u = ray.direction.normalize();
    proof {
        assert(FX_ONE == 4096);
        lemma_floor_div_bound(u.y as int + 4096, 2, 4097);
        lemma_floor_div_bound(u.y as int + 4096, 2, 0);
    }
    let t = floor_div((u.y as i128) + (FX_ONE as i128), 2) as i64;
    Vec3 {
        x: lerp_component(t, 2048),
        y: lerp_component(t, 2867),
        z: lerp_component(t, 4096),
    }
}

/// One component of the white-to-sky blend at blend factor `t`.
fn lerp_component(t: i64, sky: i64) -> (c: i64)
    requires
        0 <= t <= FX_ONE,
        0 <= sky <= FX_ONE,
    ensures
        c == ((FX_ONE as int - t) * (FX_ONE as int) + t * sky) / (FX_ONE as int),
        0 <= c <= FX_ONE,
{
    proof {
        assert(FX_ONE == 4096);
        crate::fx::lemma_mul_magnitude_bound(t as int, sky as int, 4096, 4096);
        assert(t as int * sky as int >= 0) by (nonlinear_arith)
            requires
                t >= 0,
                sky >= 0,
        ;
        assert(t as int * sky as int <= t as int * 4096) by (nonlinear_arith)
            requires
                0 <= sky <= 4096,
                t >= 0,
        ;
        lemma_floor_div_bound(
            (FX_ONE as int - t) * (FX_ONE as int) + t as int * sky as int,
            4096,
            4097,
        );
        lemma_floor_div_bound(
            (FX_ONE as int - t) * (FX_ONE as int) + t as int * sky as int,
            4096,
            0,
        );
    }
    let num: i128 = ((FX_ONE - t) as i128) * (FX_ONE as i128) + (t as i128) * (sky as i128);
    floor_div(num, FX_ONE as i128) as i64
}

/// The recursive color estimator: the nearest hit's material scatters the
/// ray and tints the recursive estimate, absorption and the fixed depth
/// cutoff go black, and a miss returns the sky gradient. A degenerate
/// zero-length scattered direction counts as absorbed.
pub fn color(ray: &Ray, scene: &Scene, depth: u32, draws: &mut DrawSource) -> (c: Vec3)
    requires
        scene_wf(*scene),
        ray_bounded(*ray),
        v3_bounded(ray.direction, FX_ONE as int),
        a_coef(*ray) > 0,
        depth <= MAX_DEPTH,
    ensures
        color_wf(c),
        scan_hit(
            scene.bvh.spheres@,
            *ray,
            T_EPSILON as int,
            COORD_MAX as int,
        ) is None ==> c == background_spec(*ray),
        scan_hit(scene.bvh.spheres@, *ray, T_EPSILON as int, COORD_MAX as int) is Some && depth
            == MAX_DEPTH ==> c == v3(0, 0, 0),
    decreases MAX_DEPTH - depth,
{
    match scene.bvh.hit(ray, T_EPSILON, COORD_MAX) {
        Option::None => background(ray),
        Option::Some(rec) => {
            if depth < MAX_DEPTH {
                proof {
                    lemma_scan_props(
                        scene.bvh.spheres@,
                        *ray,
                        T_EPSILON as int,
                        COORD_MAX as int,
                    );
                    let p = scan_hit(
                        scene.bvh.spheres@,
                        *ray,
                        T_EPSILON as int,
                        COORD_MAX as int,
                    )->Some_0;
                    assert(sphere_wf(scene.bvh.spheres@[p.0]));
                    lemma_record_bounds(
                        scene.bvh.spheres@[p.0],
                        *ray,
                        T_EPSILON as int,
                        COORD_MAX as int,
                        p.1,
                        rec,
                    );
                }
                let mat = scene.materials[rec.material];
                match scatter(&mat, ray, &rec, draws) {
                    Option::Some(sc) => {
                        let a2 = sc.scattered.direction.norm_squared();
                        if a2 > 0 {
                            let bounced = color(&sc.scattered, scene, depth + 1, draws);
                            proof {
                                lemma_fx_unit_mul_range(
                                    sc.attenuation.x as int,
                                    bounced.x as int,
                                );
                                lemma_fx_unit_mul_range(
                                    sc.attenuation.y as int,
                                    bounced.y as int,
                                );
                                lemma_fx_unit_mul_range(
                                    sc.attenuation.z as int,
                                    bounced.z as int,
                                );
                            }
                            sc.attenuation.mul_components(&bounced)
                        } else {
                            Vec3 { x: 0, y: 0, z: 0 }
                        }
                    },
                    Option::None => Vec3 { x: 0, y: 0, z: 0 },
                }
            } else {
                Vec3 { x: 0, y: 0, z: 0 }
            }
        },
    }
}

/// One row of the image: each pixel the average of `samples` estimates, the
/// screen coordinate jittered by a fresh uniform draw per sample. Every
/// pixel is written exactly once, and rows are independent, so callers may
/// farm them out.
pub fn render_row(
    scene: &Scene,
    camera: &Camera,
    row: usize,
    width: usize,
    height: usize,
    samples: usize,
    draws: &mut DrawSource,
) -> (out: Vec<Vec3>)
    requires
        scene_wf(*scene),
        camera_wf(*camera),
        0 < width <= 4096,
        row < height <= 4096,
        0 < samples <= 4096,
    ensures
        out@.len() == width,
        forall|i: int| 0 <= i < out@.len() ==> color_wf(#[trigger] out@[i]),
{
    let mut out: Vec<Vec3> = Vec::new();
    let mut i: usize = 0;
    while i < width
        invariant
            i <= width <= 4096,
            row < height <= 4096,
            0 < samples <= 4096,
            scene_wf(*scene),
            camera_wf(*camera),
            out@.len() == i,
            forall|q: int| 0 <= q < out@.len() ==> color_wf(#[trigger] out@[q]),
        decreases width - i,
    {
        let mut sum = Vec3 { x: 0, y: 0, z: 0 };
        let mut k: usize = 0;
        while k < samples
            invariant
                k <= samples <= 4096,
                i < width <= 4096,
                row < height <= 4096,
                scene_wf(*scene),
                camera_wf(*camera),
                0 <= sum.x <= k * (FX_ONE as int),
                0 <= sum.y <= k * (FX_ONE as int),
                0 <= sum.z <= k * (FX_ONE as int),
            decreases samples - k,
        {
            let s = jitter_coord(i, width, draws);
            let t = jitter_coord(row, height, draws);
            let ray = camera.get_ray(s, t, draws);
            let sample = match check_direction(&ray) {
                Option::Some(_) => color(&ray, scene, 0, draws),
                Option::None => Vec3 { x: 0, y: 0, z: 0 },
            };
            sum = Vec3 { x: sum.x + sample.x, y: sum.y + sample.y, z: sum.z + sample.z };
            k = k + 1;
        }
        proof {
            assert(FX_ONE == 4096);
            crate::fx::lemma_floor_div_bound(sum.x as int, samples as int, 4097);
            crate::fx::lemma_floor_div_bound(sum.x as int, samples as int, 0);
            crate::fx::lemma_floor_div_bound(sum.y as int, samples as int, 4097);
            crate::fx::lemma_floor_div_bound(sum.y as int, samples as int, 0);
            crate::fx::lemma_floor_div_bound(sum.z as int, samples as int, 4097);
            crate::fx::lemma_floor_div_bound(sum.z as int, samples as int, 0);
            assert(4097 * (samples as int) > (samples as int) * 4096) by (nonlinear_arith)
                requires
                    samples as int > 0,
            ;
            assert(0 * (samples as int) <= sum.x as int) by (nonlinear_arith)
                requires
                    sum.x >= 0,
            ;
        }
        let avg = Vec3 {
            x: floor_div(sum.x as i128, samples as i128) as i64,
            y: floor_div(sum.y as i128, samples as i128) as i64,
            z: floor_div(sum.z as i128, samples as i128) as i64,
        };
        out.push(avg);
        i = i + 1;
    }
    out
}

/// A ray whose direction is usable: its squared length, when positive.
fn check_direction(ray: &Ray) -> (r: Option<i64>)
    requires
        v3_bounded(ray.direction, FX_ONE as int),
    ensures
        r matches Option::Some(a) ==> a_coef(*ray) > 0,
        r is None ==> a_coef(*ray) == 0,
{
    let a = ray.direction.norm_squared();
    if a > 0 {
        Option::Some(a)
    } else {
        Option::None
    }
}

/// The jittered normalized coordinate of pixel `i` of `n`, at the
/// fixed-point scale: `(i + draw) / n` with one fresh uniform draw.
fn jitter_coord(i: usize, n: usize, draws: &mut DrawSource) -> (s: i64)
    requires
        i < n <= 4096,
    ensures
        0 <= s <= FX_ONE,
{
    let d = draws.next_unit();
    proof {
        assert(FX_ONE == 4096);
        assert((i as int) * 4096 + d <= (n as int) * 4096 - 1) by (nonlinear_arith)
            requires
                i as int <= n as int - 1,
                0 <= d < 4096,
        ;
        crate::fx::lemma_floor_div_bound((i as int) * 4096 + d as int, n as int, 4097);
        crate::fx::lemma_floor_div_bound((i as int) * 4096 + d as int, n as int, 0);
        assert(4097 * (n as int) > (n as int) * 4096) by (nonlinear_arith)
            requires
                n as int > 0,
        ;
        assert(0 * (n as int) <= (i as int) * 4096 + d as int) by (nonlinear_arith)
            requires
                i >= 0,
                d >= 0,
        ;
    }
    let num: i128 = (i as i128) * (FX_ONE as i128) + (d as i128);
    floor_div(num, n as i128) as i64
}

} // verus!
