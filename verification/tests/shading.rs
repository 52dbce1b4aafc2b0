use pathtracer::bvh::Bvh;
use pathtracer::camera::Camera;
use pathtracer::materials::{scatter, scatter_with, schlick, Material};
use pathtracer::ray::Ray;
use pathtracer::render::{color, render_row, Scene};
use pathtracer::rng::DrawSource;
use pathtracer::sphere::{HitRecord, Sphere};
use pathtracer::vec::{random_in_unit_disk, random_in_unit_sphere, Vec3};
use pathtracer::FX_ONE;

const S: i64 = 4096;

fn v(x: i64, y: i64, z: i64) -> Vec3 {
    Vec3 { x, y, z }
}

fn record_at(p: Vec3, normal: Vec3) -> HitRecord {
    HitRecord { t: S, p, normal, material: 0 }
}

#[test]
fn draws_stay_in_the_unit_range() {
    let mut src = DrawSource::random();
    for _ in 0..200 {
        let d = src.next_unit();
        assert!(0 <= d && d < FX_ONE);
    }
}

#[test]
fn fixed_draws_replay_and_clamp() {
    let mut src = DrawSource::fixed(vec![7, 4095, -3, 9999]);
    assert_eq!(src.next_unit(), 7);
    assert_eq!(src.next_unit(), 4095);
    assert_eq!(src.next_unit(), 0);
    assert_eq!(src.next_unit(), 0);
    assert_eq!(src.next_unit(), 0);
}

#[test]
fn unit_sphere_samples_stay_inside() {
    let mut src = DrawSource::random();
    for _ in 0..50 {
        let p = random_in_unit_sphere(&mut src);
        assert!(p.x * p.x + p.y * p.y + p.z * p.z < S * S);
    }
    let mut fixed = DrawSource::fixed(vec![1024, 3000, 2000, 512, 100, 3900]);
    let p = random_in_unit_sphere(&mut fixed);
    assert_eq!(p, v(2 * 1024 - S, 2 * 3000 - S, 2 * 2000 - S));
}

#[test]
fn unit_disk_samples_stay_inside_the_plane() {
    let mut src = DrawSource::random();
    for _ in 0..50 {
        let p = random_in_unit_disk(&mut src);
        assert_eq!(p.z, 0);
        assert!(p.x * p.x + p.y * p.y < S * S);
    }
}

#[test]
fn lambertian_always_scatters() {
    let m = Material::Lambertian { albedo: v(2048, 1024, 512) };
    let ray = Ray { origin: v(0, 0, 0), direction: v(0, 0, -S) };
    let rec = record_at(v(0, 0, -4 * S), v(0, 0, S));
    let sc = scatter_with(&m, &ray, &rec, &v(0, 0, 0), 0).expect("diffuse never absorbs");
    assert_eq!(sc.attenuation, v(2048, 1024, 512));
    assert_eq!(sc.scattered.origin, rec.p);
    assert_eq!(sc.scattered.direction, v(0, 0, S));
    // and with randomness drawn from the generator
    let mut src = DrawSource::random();
    for _ in 0..20 {
        assert!(scatter(&m, &ray, &rec, &mut src).is_some());
    }
}

#[test]
fn metal_reflects_about_the_normal() {
    let m = Material::Metal { albedo: v(2867, 2457, 2048), fuzz: 0 };
    let ray = Ray { origin: v(0, 0, 0), direction: v(0, 0, -S) };
    let rec = record_at(v(0, 0, -4 * S), v(0, 0, S));
    let sc = scatter_with(&m, &ray, &rec, &v(0, 0, 0), 0).expect("head-on reflection leaves");
    assert_eq!(sc.scattered.direction, v(0, 0, S));
    assert_eq!(sc.attenuation, v(2867, 2457, 2048));
}

#[test]
fn metal_absorbs_when_the_reflection_points_inward() {
    let m = Material::Metal { albedo: v(2048, 2048, 2048), fuzz: 0 };
    // leaving along the normal reflects back into the surface
    let ray = Ray { origin: v(0, 0, -8 * S), direction: v(0, 0, S) };
    let rec = record_at(v(0, 0, -4 * S), v(0, 0, S));
    assert!(scatter_with(&m, &ray, &rec, &v(0, 0, 0), 0).is_none());
}

#[test]
fn dielectric_never_absorbs_and_keeps_all_light() {
    let m = Material::Dielectric { refraction_index: 6144 };
    let rec = record_at(v(0, 0, -4 * S), v(0, 0, S));
    for dir in [v(0, 0, -S), v(0, 0, S), v(2048, 0, -3548), v(-2048, 1024, -3000)] {
        for draw in [0i64, 2048, 4095] {
            let ray = Ray { origin: v(0, 0, 0), direction: dir };
            let sc = scatter_with(&m, &ray, &rec, &v(0, 0, 0), draw)
                .expect("a dielectric always scatters");
            assert_eq!(sc.attenuation, v(S, S, S));
            assert_eq!(sc.scattered.origin, rec.p);
        }
    }
}

#[test]
fn refraction_at_normal_incidence_passes_straight_through() {
    // entering glass head-on: the ratio is 1/1.5 at the unit scale
    let dir = v(0, 0, -S);
    let outward = v(0, 0, S);
    let u = pathtracer::materials::refract(&dir, &outward, 2730)
        .expect("normal incidence always refracts");
    assert_eq!(u, v(0, 0, -S));
}

#[test]
fn shallow_exit_reflects_internally() {
    // leaving glass at a shallow angle: no real refraction solution
    let dir = v(S, 0, 1000);
    let outward = v(0, 0, -S);
    assert!(pathtracer::materials::refract(&dir, &outward, 6144).is_none());
}

#[test]
fn schlick_matches_hand_computed_values() {
    // normal incidence on glass: r0 = ((1 - 1.5) / (1 + 1.5))^2 = 0.04
    let r = schlick(S, 6144);
    // a = (4096 - 6144) * 4096 / (4096 + 6144) = -820 (rounded down from
    // -819.2); r0 = 820^2 / 4096 = 164 (0.04); the fifth power term is zero
    assert_eq!(r, 164);
    // grazing incidence approaches full reflection
    let g = schlick(0, 6144);
    assert!(g > 3000);
}

fn test_camera() -> Camera {
    Camera::new(
        v(0, 0, 4 * S),
        v(0, 0, 0),
        v(0, S, 0),
        S,
        2 * S,
        0,
        4 * S,
    )
}

#[test]
fn camera_with_zero_aperture_casts_a_fixed_ray() {
    let cam = test_camera();
    let mut src = DrawSource::random();
    let first = cam.get_ray(2048, 2048, &mut src);
    for _ in 0..10 {
        let again = cam.get_ray(2048, 2048, &mut src);
        assert_eq!(first, again);
    }
    // the lens sample makes no difference either
    let a = cam.get_ray_with(1024, 3072, &v(4000, -4000, 0));
    let b = cam.get_ray_with(1024, 3072, &v(-123, 45, 0));
    assert_eq!(a, b);
}

#[test]
fn camera_center_ray_aims_forward() {
    let cam = test_camera();
    let ray = cam.get_ray_with(2048, 2048, &v(0, 0, 0));
    assert_eq!(ray.origin, v(0, 0, 4 * S));
    // the viewport center sits straight ahead, toward negative z
    assert!(ray.direction.z < 0);
    assert!(ray.direction.x.abs() <= 8 && ray.direction.y.abs() <= 8);
}

#[test]
fn missing_ray_returns_the_sky_gradient() {
    let scene = Scene::new(Bvh::new(Vec::new()), Vec::new());
    let mut src = DrawSource::fixed(vec![]);
    let ray = Ray { origin: v(0, 0, 0), direction: v(0, 0, -S) };
    let c = color(&ray, &scene, 0, &mut src);
    // horizon-level direction blends white and sky at one half
    assert_eq!(c, v(3072, 3481, 4096));
    let up = Ray { origin: v(0, 0, 0), direction: v(0, S, 0) };
    // straight up is all sky
    assert_eq!(color(&up, &scene, 0, &mut src), v(2048, 2867, 4096));
}

fn ground_and_metal_scene() -> Scene {
    let materials = vec![
        Material::Lambertian { albedo: v(2048, 2048, 2048) },
        Material::Metal { albedo: v(2867, 2457, 2048), fuzz: 0 },
    ];
    let spheres = vec![
        Sphere { center: v(0, -1000 * S, 0), radius: 1000 * S, material: 0 },
        Sphere { center: v(0, S, 0), radius: S, material: 1 },
    ];
    Scene::new(Bvh::new(spheres), materials)
}

#[test]
fn depth_cutoff_returns_black() {
    let scene = ground_and_metal_scene();
    let mut src = DrawSource::fixed(vec![0; 16]);
    let ray = Ray { origin: v(0, 4 * S, 0), direction: v(0, -S, 0) };
    assert_eq!(color(&ray, &scene, 50, &mut src), v(0, 0, 0));
}

#[test]
fn two_sphere_scene_renders_deterministically_with_fixed_draws() {
    let scene = ground_and_metal_scene();
    let cam = Camera::new(
        v(0, 2 * S, 12 * S),
        v(0, S, 0),
        v(0, S, 0),
        S,
        2 * S,
        0,
        12 * S,
    );
    let draws: Vec<i64> = (0..40000).map(|i| (i * 37) % 4096).collect();
    let mut src1 = DrawSource::fixed(draws.clone());
    let mut src2 = DrawSource::fixed(draws);
    let row1 = render_row(&scene, &cam, 5, 20, 10, 4, &mut src1);
    let row2 = render_row(&scene, &cam, 5, 20, 10, 4, &mut src2);
    assert_eq!(row1.len(), 20);
    assert_eq!(row1, row2);
    for px in &row1 {
        assert!(0 <= px.x && px.x <= S);
        assert!(0 <= px.y && px.y <= S);
        assert!(0 <= px.z && px.z <= S);
    }
    // the sky above the scene stays bright: the top row is not black
    let mut src3 = DrawSource::fixed(vec![2048; 4000]);
    let top = render_row(&scene, &cam, 9, 20, 10, 1, &mut src3);
    assert!(top.iter().any(|p| p.z > 2048));
}

#[test]
fn render_row_has_one_entry_per_pixel() {
    let scene = ground_and_metal_scene();
    let cam = test_camera();
    let mut src = DrawSource::random();
    let row = render_row(&scene, &cam, 0, 7, 3, 2, &mut src);
    assert_eq!(row.len(), 7);
}
