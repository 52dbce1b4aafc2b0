use vstd::prelude::*;
use crate::fx::{
    floor_div, fx_div_spec, fx_mul_spec, isqrt, lemma_div_magnitude_bound,
    lemma_floor_div_bound, lemma_mul_magnitude_bound, sqrt_floor,
};
use crate::ray::Ray;
use crate::rng::DrawSource;
use crate::sphere::HitRecord;
use crate::vec::{
    add_spec, dot_spec, neg_spec, scale_spec, unit_spec, v3, v3_bounded, Vec3,
};
use crate::{COORD_MAX, FX_ONE};

verus! {

/// One scattering outcome: the attenuation color and the outgoing ray.
#[derive(Clone, Copy, PartialEq, Eq, Structural, Debug)]
pub struct Scatter {
    pub attenuation: Vec3,
    pub scattered: Ray,
}

/// The closed set of materials: ideal diffuse, fuzzy specular, and a
/// dielectric with Fresnel-weighted reflection, dispatched by a single
/// match.
#[derive(Clone, Copy, PartialEq, Eq, Structural, Debug)]
pub enum Material {
    Lambertian { albedo: Vec3 },
    Metal { albedo: Vec3, fuzz: i64 },
    Dielectric { refraction_index: i64 },
}

/// A color's components stay within `[0, 1]` at the fixed-point scale.
pub open spec fn color_wf(c: Vec3) -> bool {
    0 <= c.x <= FX_ONE && 0 <= c.y <= FX_ONE && 0 <= c.z <= FX_ONE
}

/// A well-formed material: colors in range, fuzz within the unit scale, a
/// refraction index between one half and four.
pub open spec fn material_wf(m: Material) -> bool {
    match m {
        Material::Lambertian { albedo } => color_wf(albedo),
        Material::Metal { albedo, fuzz } => color_wf(albedo) && 0 <= fuzz <= FX_ONE,
        Material::Dielectric { refraction_index } => FX_ONE / 2 <= refraction_index <= 4 * FX_ONE,
    }
}

/// The incoming direction reflected about the normal.
pub open spec fn reflect_spec(dir: Vec3, n: Vec3) -> Vec3 {
    v3(
        dir.x - (2 * dot_spec(dir, n) * n.x) / ((FX_ONE as int) * (FX_ONE as int)),
        dir.y - (2 * dot_spec(dir, n) * n.y) / ((FX_ONE as int) * (FX_ONE as int)),
        dir.z - (2 * dot_spec(dir, n) * n.z) / ((FX_ONE as int) * (FX_ONE as int)),
    )
}

/// The diffuse bounce target direction: normal plus a random point in the
/// unit sphere. A degenerate all-zero sum falls back to the normal itself.
pub open spec fn lambertian_dir(n: Vec3, rnd: Vec3) -> Vec3 {
    let t = add_spec(n, rnd);
    if dot_spec(t, t) > 0 {
        unit_spec(t)
    } else {
        n
    }
}

/// The perturbed specular direction before normalization: the reflection
/// plus fuzz times a random point in the unit sphere.
pub open spec fn metal_perturbed(dir: Vec3, n: Vec3, rnd: Vec3, fuzz: i64) -> Vec3 {
    add_spec(reflect_spec(dir, n), scale_spec(rnd, fuzz))
}

/// The cosine between ray and outward normal, carried at the unit scale.
pub open spec fn refract_dt(dir: Vec3, outward: Vec3) -> int {
    dot_spec(dir, outward) / (FX_ONE as int)
}

/// The refraction discriminant at the squared unit scale; at most zero
/// means total internal reflection.
pub open spec fn refract_disc(dir: Vec3, outward: Vec3, ratio: i64) -> int {
    (FX_ONE as int) * (FX_ONE as int) - ((ratio as int) * (ratio as int) * ((FX_ONE as int) * (
    FX_ONE as int) - refract_dt(dir, outward) * refract_dt(dir, outward))) / ((FX_ONE as int) * (
    FX_ONE as int))
}

/// One coordinate of the refracted direction by Snell's law.
pub open spec fn refract_axis(dir: int, outward: int, dt: int, ratio: i64, root: int) -> int {
    ((ratio as int) * (dir - (outward * dt) / (FX_ONE as int))) / (FX_ONE as int) - (outward
        * root) / (FX_ONE as int)
}

/// The refracted direction, defined when the discriminant is positive.
pub open spec fn refract_spec(dir: Vec3, outward: Vec3, ratio: i64) -> Vec3 {
    let dt = refract_dt(dir, outward);
    let root = sqrt_floor(refract_disc(dir, outward, ratio));
    v3(
        refract_axis(dir.x as int, outward.x as int, dt, ratio, root),
        refract_axis(dir.y as int, outward.y as int, dt, ratio, root),
        refract_axis(dir.z as int, outward.z as int, dt, ratio, root),
    )
}

/// The Schlick estimate of Fresnel reflectance, at the unit scale.
pub open spec fn schlick_spec(cosine: int, eta: int) -> int {
    let s = FX_ONE as int;
    let a = ((s - eta) * s) / (s + eta);
    let r0 = (a * a) / s;
    let x = s - cosine;
    let p2 = (x * x) / s;
    let p3 = (p2 * x) / s;
    let p4 = (p3 * x) / s;
    let p5 = (p4 * x) / s;
    r0 + ((s - r0) * p5) / s
}

/// The normal oriented against the ray: entering flips it.
pub open spec fn diel_outward(dir: Vec3, n: Vec3) -> Vec3 {
    if dot_spec(dir, n) > 0 {
        neg_spec(n)
    } else {
        n
    }
}

/// The refraction-index ratio for the crossing: entering inverts the
/// index.
pub open spec fn diel_ratio(dir: Vec3, n: Vec3, eta: i64) -> int {
    if dot_spec(dir, n) > 0 {
        eta as int
    } else {
        fx_div_spec(FX_ONE as int, eta as int)
    }
}

/// The dielectric's outgoing direction before normalization: refract when
/// possible and the uniform draw exceeds the Schlick estimate, else
/// reflect.
pub open spec fn diel_dir0(dir: Vec3, n: Vec3, eta: i64, draw: i64) -> Vec3 {
    let outward = diel_outward(dir, n);
    let ratio = diel_ratio(dir, n, eta) as i64;
    if refract_disc(dir, outward, ratio) > 0 {
        let cos = (-dot_spec(dir, outward)) / (FX_ONE as int);
        if draw > schlick_spec(cos, eta as int) {
            refract_spec(dir, outward, ratio)
        } else {
            reflect_spec(dir, n)
        }
    } else {
        reflect_spec(dir, n)
    }
}

/// The dielectric's outgoing direction, normalized; a degenerate all-zero
/// direction falls back to the outward normal.
pub open spec fn diel_dir(dir: Vec3, n: Vec3, eta: i64, draw: i64) -> Vec3 {
    let d0 = diel_dir0(dir, n, eta, draw);
    if dot_spec(d0, d0) > 0 {
        unit_spec(d0)
    } else {
        diel_outward(dir, n)
    }
}

/// The scattering verdict for a material, with the random inputs passed in:
/// a diffuse surface always scatters; a metal absorbs exactly when the
/// normalized perturbed reflection leaves along or into the surface; a
/// dielectric always scatters with no color loss.
pub fn scatter_with(m: &Material, ray: &Ray, rec: &HitRecord, rnd: &Vec3, draw: i64) -> (r:
    Option<Scatter>)
    requires
        material_wf(*m),
        v3_bounded(ray.direction, FX_ONE as int),
        v3_bounded(rec.p, 2 * COORD_MAX as int),
        v3_bounded(rec.normal, FX_ONE as int),
        v3_bounded(*rnd, FX_ONE as int),
        0 <= draw < FX_ONE,
    ensures
        match *m {
            Material::Lambertian { albedo } => r matches Option::Some(sc) && sc.attenuation
                == albedo && sc.scattered.origin == rec.p && sc.scattered.direction
                == lambertian_dir(rec.normal, *rnd),
            Material::Metal { albedo, fuzz } => {
                let p = metal_perturbed(ray.direction, rec.normal, *rnd, fuzz);
                &&& (r is Some <==> dot_spec(p, p) > 0 && dot_spec(unit_spec(p), rec.normal) > 0)
                &&& (r matches Option::Some(sc) ==> sc.attenuation == albedo
                    && sc.scattered.origin == rec.p && sc.scattered.direction == unit_spec(p))
            },
            Material::Dielectric { refraction_index } => r matches Option::Some(sc)
                && sc.attenuation == v3(FX_ONE as int, FX_ONE as int, FX_ONE as int)
                && sc.scattered.origin == rec.p && sc.scattered.direction == diel_dir(
                ray.direction,
                rec.normal,
                refraction_index,
                draw,
            ),
        },
        r matches Option::Some(sc) ==> v3_bounded(sc.scattered.direction, FX_ONE as int)
            && sc.scattered.origin == rec.p,
{
    match m {
        Material::Lambertian { albedo } => {
            let target = rec.normal.add(rnd);
            let n2 = target.norm_squared();
            let dir = if n2 > 0 {
                target.normalize()
            } else {
                rec.normal
            };
            Option::Some(
                Scatter { attenuation: *albedo, scattered: Ray { origin: rec.p, direction: dir } },
            )
        },
        Material::Metal { albedo, fuzz } => {
            let refl = reflect(&ray.direction, &rec.normal);
            let offset = rnd.scale(*fuzz);
            proof {
                lemma_mul_magnitude_bound(rnd.x as int, *fuzz as int, FX_ONE as int, FX_ONE as int);
                lemma_mul_magnitude_bound(rnd.y as int, *fuzz as int, FX_ONE as int, FX_ONE as int);
                lemma_mul_magnitude_bound(rnd.z as int, *fuzz as int, FX_ONE as int, FX_ONE as int);
                lemma_div_magnitude_bound(rnd.x as int * *fuzz as int, FX_ONE as int, 16777216);
                lemma_div_magnitude_bound(rnd.y as int * *fuzz as int, FX_ONE as int, 16777216);
                lemma_div_magnitude_bound(rnd.z as int * *fuzz as int, FX_ONE as int, 16777216);
            }
            let pert = refl.add(&offset);
            let n2 = pert.norm_squared();
            if n2 == 0 {
                return Option::None;
            }
            let dir = pert.normalize();
            let align = dir.dot(&rec.normal);
            if align <= 0 {
                return Option::None;
            }
            Option::Some(
                Scatter { attenuation: *albedo, scattered: Ray { origin: rec.p, direction: dir } },
            )
        },
        Material::Dielectric { refraction_index } => {
            let eta = *refraction_index;
            let dvn = ray.direction.dot(&rec.normal);
            let outward: Vec3;
            let ratio: i64;
            if dvn > 0 {
                outward = rec.normal.neg();
                ratio = eta;
            } else {
                outward = rec.normal;
                ratio = crate::vec::fx_div_by(FX_ONE, eta);
                proof {
                    assert(FX_ONE == 4096);
                    lemma_div_magnitude_bound(16777216, eta as int, 16777216);
                    lemma_floor_div_bound(16777216, eta as int, 1);
                    assert(1 * (eta as int) <= 16777216);
                    lemma_floor_div_bound(16777216, eta as int, 8193);
                    assert(8193 * (eta as int) >= 8193 * 2048) by (nonlinear_arith)
                        requires
                            eta as int >= 2048,
                    ;
                }
            }
            let refr = refract(&ray.direction, &outward, ratio);
            let dir0: Vec3 = match refr {
                Option::Some(u) => {
                    let dvo = ray.direction.dot(&outward);
                    proof {
                        assert(FX_ONE == 4096);
                        lemma_mul_magnitude_bound(ray.direction.x as int, outward.x as int, 4096, 4096);
                        lemma_mul_magnitude_bound(ray.direction.y as int, outward.y as int, 4096, 4096);
                        lemma_mul_magnitude_bound(ray.direction.z as int, outward.z as int, 4096, 4096);
                        lemma_floor_div_bound(-(dvo as int), 4096, 12289);
                        lemma_floor_div_bound(-(dvo as int), 4096, -12288);
                    }
                    let cos = small_div(-dvo, FX_ONE);
                    let sch = schlick(cos, eta);
                    if draw > sch {
                        u
                    } else {
                        reflect(&ray.direction, &rec.normal)
                    }
                },
                Option::None => reflect(&ray.direction, &rec.normal),
            };
            let n2 = dir0.norm_squared();
            let dir = if n2 > 0 {
                dir0.normalize()
            } else {
                outward
            };
            Option::Some(
                Scatter {
                    attenuation: Vec3 { x: FX_ONE, y: FX_ONE, z: FX_ONE },
                    scattered: Ray { origin: rec.p, direction: dir },
                },
            )
        },
    }
}

/// The scattering verdict with the random inputs drawn from the given
/// source: what survives of the contract no longer depends on the draws.
pub fn scatter(m: &Material, ray: &Ray, rec: &HitRecord, draws: &mut DrawSource) -> (r: Option<
    Scatter,
>)
    requires
        material_wf(*m),
        v3_bounded(ray.direction, FX_ONE as int),
        v3_bounded(rec.p, 2 * COORD_MAX as int),
        v3_bounded(rec.normal, FX_ONE as int),
    ensures
        m matches Material::Lambertian { .. } ==> r is Some,
        m matches Material::Dielectric { .. } ==> r is Some && (r matches Option::Some(sc)
            ==> sc.attenuation == v3(FX_ONE as int, FX_ONE as int, FX_ONE as int)),
        r matches Option::Some(sc) ==> v3_bounded(sc.scattered.direction, FX_ONE as int)
            && sc.scattered.origin == rec.p && color_wf(sc.attenuation),
{
    let rnd = crate::vec::random_in_unit_sphere(draws);
    let draw = draws.next_unit();
    scatter_with(m, ray, rec, &rnd, draw)
}

/// The incoming direction reflected about the normal:
/// `v - 2 (v . n) n`, with the products scaled back down.
pub fn reflect(dir: &Vec3, n: &Vec3) -> (r: Vec3)
    requires
        v3_bounded(*dir, 2 * FX_ONE as int),
        v3_bounded(*n, 2 * FX_ONE as int),
    ensures
        r == reflect_spec(*dir, *n),
        v3_bounded(r, 205000),
{
    let d = dir.dot(n);
    proof {
        assert(FX_ONE == 4096);
        lemma_mul_magnitude_bound(dir.x as int, n.x as int, 8192, 8192);
        lemma_mul_magnitude_bound(dir.y as int, n.y as int, 8192, 8192);
        lemma_mul_magnitude_bound(dir.z as int, n.z as int, 8192, 8192);
        lemma_mul_magnitude_bound(2 * d as int, n.x as int, 402653184, 8192);
        lemma_mul_magnitude_bound(2 * d as int, n.y as int, 402653184, 8192);
        lemma_mul_magnitude_bound(2 * d as int, n.z as int, 402653184, 8192);
        lemma_floor_div_bound(2 * (d as int) * (n.x as int), 16777216, 196609);
        lemma_floor_div_bound(2 * (d as int) * (n.x as int), 16777216, -196608);
        lemma_floor_div_bound(2 * (d as int) * (n.y as int), 16777216, 196609);
        lemma_floor_div_bound(2 * (d as int) * (n.y as int), 16777216, -196608);
        lemma_floor_div_bound(2 * (d as int) * (n.z as int), 16777216, 196609);
        lemma_floor_div_bound(2 * (d as int) * (n.z as int), 16777216, -196608);
    }
    let s2: i128 = (FX_ONE as i128) * (FX_ONE as i128);
    let rx = (dir.x as i128) - floor_div(2 * (d as i128) * (n.x as i128), s2);
    let ry = (dir.y as i128) - floor_div(2 * (d as i128) * (n.y as i128), s2);
    let rz = (dir.z as i128) - floor_div(2 * (d as i128) * (n.z as i128), s2);
    Vec3 { x: rx as i64, y: ry as i64, z: rz as i64 }
}

/// Snell's-law refraction of the incoming direction through the surface,
/// when the discriminant admits it; nothing on total internal reflection.
pub fn refract(dir: &Vec3, outward: &Vec3, ratio: i64) -> (r: Option<Vec3>)
    requires
        v3_bounded(*dir, FX_ONE as int),
        v3_bounded(*outward, FX_ONE as int),
        0 < ratio <= 4 * FX_ONE,
    ensures
        match r {
            Option::None => refract_disc(*dir, *outward, ratio) <= 0,
            Option::Some(u) => refract_disc(*dir, *outward, ratio) > 0 && u == refract_spec(
                *dir,
                *outward,
                ratio,
            ) && v3_bounded(u, 131072),
        },
{
    let dv = dir.dot(outward);
    proof {
        assert(FX_ONE == 4096);
        lemma_mul_magnitude_bound(dir.x as int, outward.x as int, 4096, 4096);
        lemma_mul_magnitude_bound(dir.y as int, outward.y as int, 4096, 4096);
        lemma_mul_magnitude_bound(dir.z as int, outward.z as int, 4096, 4096);
        lemma_floor_div_bound(dv as int, 4096, 12289);
        lemma_floor_div_bound(dv as int, 4096, -12288);
    }
    let dt = small_div(dv, FX_ONE);
    proof {
        lemma_mul_magnitude_bound(dt as int, dt as int, 12288, 12288);
        assert((dt as int) * (dt as int) >= 0) by (nonlinear_arith);
        lemma_mul_magnitude_bound(ratio as int, ratio as int, 16384, 16384);
        assert((ratio as int) * (ratio as int) >= 0) by (nonlinear_arith);
        lemma_mul_magnitude_bound(
            (ratio as int) * (ratio as int),
            16777216 - (dt as int) * (dt as int),
            268435456,
            134217728,
        );
        lemma_floor_div_bound(
            (ratio as int) * (ratio as int) * (16777216 - (dt as int) * (dt as int)),
            16777216,
            -2147483648,
        );
        lemma_floor_div_bound(
            (ratio as int) * (ratio as int) * (16777216 - (dt as int) * (dt as int)),
            16777216,
            268435457,
        );
    }
    let s2: i128 = (FX_ONE as i128) * (FX_ONE as i128);
    let m1: i128 = s2 - (dt as i128) * (dt as i128);
    let num: i128 = (ratio as i128) * (ratio as i128) * m1;
    let disc: i128 = s2 - floor_div(num, s2);
    if disc <= 0 {
        return Option::None;
    }
    let root_u = isqrt(disc as u128);
    proof {
        assert(root_u as int <= 65536) by (nonlinear_arith)
            requires
                0 <= root_u as int,
                (root_u as int) * (root_u as int) <= 2164260864int,
        ;
    }
    let root = root_u as i64;
    Option::Some(
        Vec3 {
            x: refract_component(dir.x, outward.x, dt, ratio, root),
            y: refract_component(dir.y, outward.y, dt, ratio, root),
            z: refract_component(dir.z, outward.z, dt, ratio, root),
        },
    )
}

/// One coordinate of the refracted direction.
fn refract_component(d: i64, o: i64, dt: i64, ratio: i64, root: i64) -> (r: i64)
    requires
        -FX_ONE <= d <= FX_ONE,
        -FX_ONE <= o <= FX_ONE,
        -3 * FX_ONE <= dt <= 3 * FX_ONE,
        0 < ratio <= 4 * FX_ONE,
        0 <= root <= 16 * FX_ONE,
    ensures
        r == refract_axis(d as int, o as int, dt as int, ratio, root as int),
        -131072 <= r <= 131072,
{
    proof {
        assert(FX_ONE == 4096);
        lemma_mul_magnitude_bound(o as int, dt as int, 4096, 12288);
        lemma_floor_div_bound((o as int) * (dt as int), 4096, 12289);
        lemma_floor_div_bound((o as int) * (dt as int), 4096, -12288);
        lemma_mul_magnitude_bound(
            ratio as int,
            d as int - ((o as int) * (dt as int)) / 4096,
            16384,
            16384,
        );
        lemma_floor_div_bound(
            (ratio as int) * (d as int - ((o as int) * (dt as int)) / 4096),
            4096,
            65537,
        );
        lemma_floor_div_bound(
            (ratio as int) * (d as int - ((o as int) * (dt as int)) / 4096),
            4096,
            -65536,
        );
        lemma_mul_magnitude_bound(o as int, root as int, 4096, 65536);
        lemma_floor_div_bound((o as int) * (root as int), 4096, 65537);
        lemma_floor_div_bound((o as int) * (root as int), 4096, -65536);
    }
    let s: i128 = FX_ONE as i128;
    let w: i128 = (d as i128) - floor_div((o as i128) * (dt as i128), s);
    let t1 = floor_div((ratio as i128) * w, s);
    let t2 = floor_div((o as i128) * (root as i128), s);
    (t1 - t2) as i64
}

/// The Schlick approximation `r0 + (1 - r0)(1 - cos)^5` with
/// `r0 = ((1 - eta) / (1 + eta))^2`, at the unit scale.
pub fn schlick(cosine: i64, eta: i64) -> (r: i64)
    requires
        -4 * FX_ONE <= cosine <= 4 * FX_ONE,
        FX_ONE / 2 <= eta <= 4 * FX_ONE,
    ensures
        r == schlick_spec(cosine as int, eta as int),
{
    proof {
        assert(FX_ONE == 4096);
        let si = 4096int;
        let numer = (si - eta as int) * si;
        assert(-50331648 <= numer <= 50331648) by (nonlinear_arith)
            requires
                -12288 <= si - eta as int <= 12288,
                si == 4096,
                numer == (si - eta as int) * si,
        ;
        let bv = si + eta as int;
        lemma_floor_div_bound(numer, bv, 8193);
        lemma_floor_div_bound(numer, bv, -8192);
        assert(8193 * bv >= 8193 * 6144) by (nonlinear_arith)
            requires
                bv >= 6144,
        ;
        assert((-8192) * bv <= (-8192) * 6144) by (nonlinear_arith)
            requires
                bv >= 6144,
        ;
        let a = numer / bv;
        lemma_mul_magnitude_bound(a, a, 8192, 8192);
        assert(a * a >= 0) by (nonlinear_arith);
        lemma_floor_div_bound(a * a, si, 16385);
        lemma_floor_div_bound(a * a, si, 0);
        let r0 = (a * a) / si;
        let x = si - cosine as int;
        lemma_mul_magnitude_bound(x, x, 20480, 20480);
        lemma_floor_div_bound(x * x, si, 102401);
        lemma_floor_div_bound(x * x, si, -102400);
        let p2 = (x * x) / si;
        lemma_mul_magnitude_bound(p2, x, 102400, 20480);
        lemma_floor_div_bound(p2 * x, si, 512001);
        lemma_floor_div_bound(p2 * x, si, -512000);
        let p3 = (p2 * x) / si;
        lemma_mul_magnitude_bound(p3, x, 512000, 20480);
        lemma_floor_div_bound(p3 * x, si, 2560001);
        lemma_floor_div_bound(p3 * x, si, -2560000);
        let p4 = (p3 * x) / si;
        lemma_mul_magnitude_bound(p4, x, 2560000, 20480);
        lemma_floor_div_bound(p4 * x, si, 12800001);
        lemma_floor_div_bound(p4 * x, si, -12800000);
        let p5 = (p4 * x) / si;
        lemma_mul_magnitude_bound(si - r0, p5, 16384, 12800000);
        lemma_floor_div_bound((si - r0) * p5, si, 51200001);
        lemma_floor_div_bound((si - r0) * p5, si, -51200000);
    }
    let s: i128 = FX_ONE as i128;
    let a = floor_div((s - eta as i128) * s, s + eta as i128);
    let r0 = floor_div(a * a, s);
    let x: i128 = s - cosine as i128;
    let p2 = floor_div(x * x, s);
    let p3 = floor_div(p2 * x, s);
    let p4 = floor_div(p3 * x, s);
    let p5 = floor_div(p4 * x, s);
    (r0 + floor_div((s - r0) * p5, s)) as i64
}

/// Division of one small scalar by a positive one, rounded toward negative
/// infinity.
fn small_div(a: i64, b: i64) -> (r: i64)
    requires
        0 < b,
        -0x1000_0000_0000 <= a <= 0x1000_0000_0000,
    ensures
        r == a as int / b as int,
{
    proof {
        lemma_div_magnitude_bound(a as int, b as int, 0x1000_0000_0000);
    }
    floor_div(a as i128, b as i128) as i64
}

} // verus!
