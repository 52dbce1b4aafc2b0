use vstd::prelude::*;
use crate::fx::floor_div;
use crate::ray::Ray;
use crate::rng::DrawSource;
use crate::vec::{
    add_spec, cross_spec, dot_spec, lemma_scale_spec_bounded, scale_spec, sub_spec, unit_spec,
    v3_bounded, Vec3,
};
use crate::{COORD_MAX, FX_ONE};

verus! {

/// The camera: an orthonormal view basis and viewport extents, computed once
/// from the user-facing parameters, plus the lens radius for depth of field.
#[derive(Clone, Copy, PartialEq, Eq, Structural, Debug)]
pub struct Camera {
    pub origin: Vec3,
    pub lower_left_corner: Vec3,
    pub horizontal: Vec3,
    pub vertical: Vec3,
    pub u: Vec3,
    pub v: Vec3,
    pub lens_radius: i64,
}

/// Every stored vector stays within twice the coordinate bound and the lens
/// radius within the unit scale: enough headroom for ray generation.
pub open spec fn camera_wf(c: Camera) -> bool {
    &&& v3_bounded(c.origin, COORD_MAX as int)
    &&& v3_bounded(c.lower_left_corner, 2 * COORD_MAX as int)
    &&& v3_bounded(c.horizontal, 2 * COORD_MAX as int)
    &&& v3_bounded(c.vertical, 2 * COORD_MAX as int)
    &&& v3_bounded(c.u, 2 * FX_ONE as int)
    &&& v3_bounded(c.v, 3 * FX_ONE as int)
    &&& 0 <= c.lens_radius <= FX_ONE
}

/// The view-backward basis vector: from the target toward the eye.
pub open spec fn cam_w(look_from: Vec3, look_at: Vec3) -> Vec3 {
    unit_spec(sub_spec(look_from, look_at))
}

/// The view-right basis vector.
pub open spec fn cam_u(look_from: Vec3, look_at: Vec3, up: Vec3) -> Vec3 {
    unit_spec(cross_spec(up, cam_w(look_from, look_at)))
}

/// The view-up basis vector.
pub open spec fn cam_v(look_from: Vec3, look_at: Vec3, up: Vec3) -> Vec3 {
    cross_spec(cam_w(look_from, look_at), cam_u(look_from, look_at, up))
}

/// The ray cast for normalized screen coordinates `(s, t)` and a lens
/// sample: the origin offset across the lens disk, aimed at the viewport
/// point, the direction normalized; a degenerate aim comes out as the zero
/// vector, which downstream users reject.
pub open spec fn get_ray_spec(c: Camera, s: i64, t: i64, disk: Vec3) -> Ray {
    let rd = scale_spec(disk, c.lens_radius);
    let offset = add_spec(scale_spec(c.u, rd.x), scale_spec(c.v, rd.y));
    let origin = add_spec(c.origin, offset);
    let d0 = sub_spec(
        sub_spec(
            add_spec(
                add_spec(c.lower_left_corner, scale_spec(c.horizontal, s)),
                scale_spec(c.vertical, t),
            ),
            c.origin,
        ),
        offset,
    );
    let dir = if dot_spec(d0, d0) > 0 {
        unit_spec(d0)
    } else {
        crate::vec::v3(0, 0, 0)
    };
    Ray { origin, direction: dir }
}

/// With a closed aperture the lens sample has no effect: the cast ray is a
/// function of the screen coordinates alone.
pub proof fn lemma_camera_zero_aperture(c: Camera, s: i64, t: i64, d1: Vec3, d2: Vec3)
    requires
        c.lens_radius == 0,
    ensures
        get_ray_spec(c, s, t, d1) == get_ray_spec(c, s, t, d2),
{
    assert(FX_ONE == 4096);
    vstd::arithmetic::div_mod::lemma_div_of0(4096);
    assert(scale_spec(d1, 0) == scale_spec(d2, 0));
    assert(get_ray_spec(c, s, t, d1) == get_ray_spec(c, s, t, d2));
}

impl Camera {
    /// Builds the view basis and viewport extents once. The viewport half
    /// extents arrive precomputed (the field-of-view bookkeeping stays with
    /// the caller); the eye must differ from the target and the up vector
    /// must not be parallel to the view direction.
    pub fn new(
        look_from: Vec3,
        look_at: Vec3,
        up: Vec3,
        half_height: i64,
        half_width: i64,
        aperture: i64,
        focus_distance: i64,
    ) -> (r: Camera)
        requires
            v3_bounded(look_from, COORD_MAX as int / 2),
            v3_bounded(look_at, COORD_MAX as int / 2),
            v3_bounded(up, 4 * FX_ONE as int),
            0 < half_height <= 8 * FX_ONE,
            0 < half_width <= 8 * FX_ONE,
            0 <= aperture <= 2 * FX_ONE,
            0 < focus_distance <= COORD_MAX / 64,
            dot_spec(sub_spec(look_from, look_at), sub_spec(look_from, look_at)) > 0,
            dot_spec(
                cross_spec(up, cam_w(look_from, look_at)),
                cross_spec(up, cam_w(look_from, look_at)),
            ) > 0,
        ensures
            camera_wf(r),
            r.origin == look_from,
            r.u == cam_u(look_from, look_at, up),
            r.v == cam_v(look_from, look_at, up),
            r.lens_radius == aperture as int / 2,
            r.horizontal == scale_spec(
                cam_u(look_from, look_at, up),
                (2 * crate::fx::fx_mul_spec(half_width as int, focus_distance as int)) as i64,
            ),
            r.vertical == scale_spec(
                cam_v(look_from, look_at, up),
                (2 * crate::fx::fx_mul_spec(half_height as int, focus_distance as int)) as i64,
            ),
            r.lower_left_corner == sub_spec(
                sub_spec(
                    sub_spec(
                        look_from,
                        scale_spec(
                            cam_u(look_from, look_at, up),
                            crate::fx::fx_mul_spec(half_width as int, focus_distance as int) as i64,
                        ),
                    ),
                    scale_spec(
                        cam_v(look_from, look_at, up),
                        crate::fx::fx_mul_spec(half_height as int, focus_distance as int) as i64,
                    ),
                ),
                scale_spec(cam_w(look_from, look_at), focus_distance),
            ),
    {
        let w = look_from.sub(&look_at).normalize();
        proof {
            crate::vec::lemma_cross_spec_bounded(up, w, 4 * FX_ONE as int, FX_ONE as int);
        }
        let u = up.cross(&w).normalize();
        proof {
            crate::vec::lemma_cross_spec_bounded(w, u, FX_ONE as int, FX_ONE as int);
        }
        let v = w.cross(&u);
        let kw = crate::vec::fx_mul_scalar(half_width, focus_distance);
        let kh = crate::vec::fx_mul_scalar(half_height, focus_distance);
        proof {
            assert(FX_ONE == 4096);
            crate::fx::lemma_mul_magnitude_bound(
                half_width as int,
                focus_distance as int,
                8 * FX_ONE as int,
                COORD_MAX as int / 64,
            );
            crate::fx::lemma_fx_div_shrink(
                half_width as int * focus_distance as int,
                COORD_MAX as int / 8,
            );
            crate::fx::lemma_mul_magnitude_bound(
                half_height as int,
                focus_distance as int,
                8 * FX_ONE as int,
                COORD_MAX as int / 64,
            );
            crate::fx::lemma_fx_div_shrink(
                half_height as int * focus_distance as int,
                COORD_MAX as int / 8,
            );
            lemma_scale_spec_bounded(u, kw, FX_ONE as int, COORD_MAX as int / 8);
            lemma_scale_spec_bounded(v, kh, 3 * FX_ONE as int, COORD_MAX as int / 8);
            lemma_scale_spec_bounded(w, focus_distance, FX_ONE as int, COORD_MAX as int / 64);
            lemma_scale_spec_bounded(u, (2 * kw) as i64, FX_ONE as int, COORD_MAX as int / 4);
            lemma_scale_spec_bounded(v, (2 * kh) as i64, 3 * FX_ONE as int, COORD_MAX as int / 4);
        }
        let uw = u.scale(kw);
        let vh = v.scale(kh);
        let wf = w.scale(focus_distance);
        let lower_left_corner = look_from.sub(&uw).sub(&vh).sub(&wf);
        let horizontal = u.scale(2 * kw);
        let vertical = v.scale(2 * kh);
        let lens_radius = floor_div(aperture as i128, 2) as i64;
        Camera { origin: look_from, lower_left_corner, horizontal, vertical, u, v, lens_radius }
    }

    /// The ray for screen coordinates `(s, t)` and the given lens sample.
    pub fn get_ray_with(&self, s: i64, t: i64, disk: &Vec3) -> (r: Ray)
        requires
            camera_wf(*self),
            0 <= s <= FX_ONE,
            0 <= t <= FX_ONE,
            v3_bounded(*disk, FX_ONE as int),
        ensures
            r == get_ray_spec(*self, s, t, *disk),
            v3_bounded(r.origin, 2 * COORD_MAX as int),
            v3_bounded(r.direction, FX_ONE as int),
    {
        proof {
            assert(FX_ONE == 4096);
            lemma_scale_spec_bounded(*disk, self.lens_radius, FX_ONE as int, FX_ONE as int);
        }
        let rd = disk.scale(self.lens_radius);
        proof {
            lemma_scale_spec_bounded(self.u, rd.x, 2 * FX_ONE as int, FX_ONE as int + 1);
            lemma_scale_spec_bounded(self.v, rd.y, 3 * FX_ONE as int, FX_ONE as int + 1);
            lemma_scale_spec_bounded(self.horizontal, s, 2 * COORD_MAX as int, FX_ONE as int);
            lemma_scale_spec_bounded(self.vertical, t, 2 * COORD_MAX as int, FX_ONE as int);
        }
        let offset = self.u.scale(rd.x).add(&self.v.scale(rd.y));
        let origin = self.origin.add(&offset);
        let d0 = self.lower_left_corner.add(&self.horizontal.scale(s)).add(
            &self.vertical.scale(t),
        ).sub(&self.origin).sub(&offset);
        let n2 = d0.norm_squared();
        let direction = if n2 > 0 {
            d0.normalize()
        } else {
            Vec3 { x: 0, y: 0, z: 0 }
        };
        Ray { origin, direction }
    }

    /// The ray for screen coordinates `(s, t)`, sampling the lens disk from
    /// the given source.
    pub fn get_ray(&self, s: i64, t: i64, draws: &mut DrawSource) -> (r: Ray)
        requires
            camera_wf(*self),
            0 <= s <= FX_ONE,
            0 <= t <= FX_ONE,
        ensures
            exists|disk: Vec3|
                v3_bounded(disk, FX_ONE as int) && r == #[trigger] get_ray_spec(*self, s, t, disk),
            v3_bounded(r.origin, 2 * COORD_MAX as int),
            v3_bounded(r.direction, FX_ONE as int),
    {
        let disk = crate::vec::random_in_unit_disk(draws);
        let r = self.get_ray_with(s, t, &disk);
        proof {
            assert(v3_bounded(disk, FX_ONE as int) && r == get_ray_spec(*self, s, t, disk));
        }
        r
    }
}

} // verus!
