//! The camera: maps normalized image-plane coordinates to rays from the eye.
use vstd::prelude::*;
use crate::fixed::{lemma_div_bound, lemma_mul_bound, mul_fixed, LIMIT, SCALE};
use crate::random::{in_unit_ball, random_point_in_unit_disk};
use crate::ray::Ray;
use crate::vec3::{cross, in_range, length, scale, unit, vadd, vsub, Vec3};

verus! {

/// Width of the image rendered by default, in pixels.
pub const IMAGE_WIDTH: u32 = 960;

/// Height of the image rendered by default, in pixels.
pub const IMAGE_HEIGHT: u32 = 540;

/// The default aspect ratio 16 / 9, in fixed-point units.
pub const ASPECT_RATIO: i64 = 116508;

/// Largest accepted tangent of half the vertical field of view, and largest
/// aspect ratio (256, in fixed-point units).
pub const MAX_FACTOR: i64 = 16777216;

#[derive(Clone, Copy, Debug, PartialEq, Eq, Structural)]
pub struct Camera {
    pub origin: Vec3,
    pub lower_left_corner: Vec3,
    pub horizontal: Vec3,
    pub vertical: Vec3,
    pub u: Vec3,
    pub v: Vec3,
    pub lens_radius: i64,
}

/// The ray through image-plane point `(s, t)` (each in `[0, 1]` across the
/// view), leaving the lens at `rd` (a point of the unit disk) scaled by the
/// lens radius.
pub open spec fn camera_ray(c: Camera, s: int, t: int, rd: Vec3) -> Ray {
    let lens = scale(rd, c.lens_radius as int);
    let offset = vadd(scale(c.u, lens.x as int), scale(c.v, lens.y as int));
    let o = vadd(c.origin, offset);
    let target = vadd(vadd(c.lower_left_corner, scale(c.horizontal, s)), scale(c.vertical, t));
    Ray { o, d: vsub(target, o) }
}

/// The camera at `look_from` facing `look_at`, with `vup` giving the upward
/// direction, `half_tan` the tangent of half the vertical field of view,
/// `aspect` the width over the height, a lens of diameter `aperture` and the
/// plane of focus at `focus_dist`. None when the eye and the target coincide
/// or `vup` is parallel to the view direction.
pub open spec fn camera_config(
    look_from: Vec3,
    look_at: Vec3,
    vup: Vec3,
    half_tan: int,
    aspect: int,
    aperture: int,
    focus_dist: int,
) -> Option<Camera> {
    let back = vsub(look_from, look_at);
    let w = unit(back);
    let side = cross(vup, w);
    let u = unit(side);
    let v = cross(w, u);
    let hh = crate::material::fmul(half_tan, focus_dist);
    let hw = crate::material::fmul(hh, aspect);
    if length(back) == 0 || length(side) == 0 {
        None
    } else {
        Some(
            Camera {
                origin: look_from,
                lower_left_corner: vsub(vsub(vsub(look_from, scale(u, hw)), scale(v, hh)), scale(w, focus_dist)),
                horizontal: scale(u, 2 * hw),
                vertical: scale(v, 2 * hh),
                u,
                v,
                lens_radius: (aperture / 2) as i64,
            },
        )
    }
}

/// The point of the focal plane that the ray through `(s, t)` aims at.
pub open spec fn focal_target(c: Camera, s: int, t: int) -> Vec3 {
    vadd(vadd(c.lower_left_corner, scale(c.horizontal, s)), scale(c.vertical, t))
}

/// Wherever the ray leaves the lens, it passes through the focal target,
/// as long as the target lies within the coordinate range as seen from the
/// ray's origin.
pub proof fn lemma_rays_meet_at_focus(c: Camera, s: int, t: int, rd: Vec3)
    requires
        c.wf(),
        in_range(focal_target(c, s, t).x - camera_ray(c, s, t, rd).o.x),
        in_range(focal_target(c, s, t).y - camera_ray(c, s, t, rd).o.y),
        in_range(focal_target(c, s, t).z - camera_ray(c, s, t, rd).o.z),
    ensures
        vadd(camera_ray(c, s, t, rd).o, camera_ray(c, s, t, rd).d) == focal_target(c, s, t),
{
}

impl Camera {
    pub open spec fn wf(self) -> bool {
        &&& self.origin.wf()
        &&& self.lower_left_corner.wf()
        &&& self.horizontal.wf()
        &&& self.vertical.wf()
        &&& self.u.wf()
        &&& self.v.wf()
        &&& 0 <= self.lens_radius <= LIMIT
    }

    /// The default camera: eye at the origin looking down `-z`, focal length
    /// one, a viewport two units high with the default aspect ratio, no
    /// depth of field.
    pub fn new() -> (r: Camera)
        ensures
            r == (Camera {
                origin: Vec3 { x: 0, y: 0, z: 0 },
                lower_left_corner: Vec3 { x: (-116508) as i64, y: (-65536) as i64, z: (-65536) as i64 },
                horizontal: Vec3 { x: 233016, y: 0, z: 0 },
                vertical: Vec3 { x: 0, y: 131072, z: 0 },
                u: Vec3 { x: 65536, y: 0, z: 0 },
                v: Vec3 { x: 0, y: 65536, z: 0 },
                lens_radius: 0,
            }),
            r.wf(),
    {
        Camera {
            origin: Vec3::zero(),
            lower_left_corner: Vec3::new(-ASPECT_RATIO, -SCALE, -SCALE),
            horizontal: Vec3::new(2 * ASPECT_RATIO, 0, 0),
            vertical: Vec3::new(0, 2 * SCALE, 0),
            u: Vec3::new(SCALE, 0, 0),
            v: Vec3::new(0, SCALE, 0),
            lens_radius: 0,
        }
    }

    /// A camera placed and aimed as `camera_config` describes.
    pub fn looking_at(
        look_from: Vec3,
        look_at: Vec3,
        vup: Vec3,
        half_tan: i64,
        aspect: i64,
        aperture: i64,
        focus_dist: i64,
    ) -> (r: Option<Camera>)
        requires
            look_from.wf(),
            look_at.wf(),
            vup.wf(),
            0 < half_tan <= MAX_FACTOR,
            0 < aspect <= MAX_FACTOR,
            0 <= aperture <= LIMIT,
            0 < focus_dist <= LIMIT,
        ensures
            r == camera_config(
                look_from,
                look_at,
                vup,
                half_tan as int,
                aspect as int,
                aperture as int,
                focus_dist as int,
            ),
            r matches Some(c) ==> c.wf(),
    {
        let back = look_from.sub(&look_at);
        let w = back.unit();
        let side = vup.cross(&w);
        let u = side.unit();
        let v = w.cross(&u);
        proof {
            lemma_mul_bound(half_tan as int, focus_dist as int, MAX_FACTOR as int, LIMIT as int);
            lemma_div_bound(half_tan * focus_dist, SCALE as int, 0x20_0000_0000);
        }
        let hh = mul_fixed(half_tan as i128, focus_dist as i128);
        proof {
            lemma_mul_bound(hh as int, aspect as int, 0x20_0000_0000, MAX_FACTOR as int);
            lemma_div_bound(hh * aspect, SCALE as int, 0x2000_0000_0000);
        }
        let hw = mul_fixed(hh, aspect as i128);
        if back.length() == 0 || side.length() == 0 {
            return None;
        }
        let hh = hh as i64;
        let hw = hw as i64;
        let lower_left_corner = look_from.sub(&u.scale(hw)).sub(&v.scale(hh)).sub(&w.scale(focus_dist));
        Some(
            Camera {
                origin: look_from,
                lower_left_corner,
                horizontal: u.scale(2 * hw),
                vertical: v.scale(2 * hh),
                u,
                v,
                lens_radius: aperture / 2,
            },
        )
    }

    /// The ray through image-plane point `(s, t)`, in fixed-point units.
    pub fn get_ray(&self, s: i64, t: i64) -> (r: Ray)
        requires
            self.wf(),
        ensures
            exists|rd: Vec3| in_unit_ball(rd) && rd.z == 0 && r == camera_ray(*self, s as int, t as int, rd),
            self.lens_radius == 0 ==> r == camera_ray(*self, s as int, t as int, Vec3 { x: 0, y: 0, z: 0 }),
            r.wf(),
    {
        let rd = if self.lens_radius > 0 {
            random_point_in_unit_disk()
        } else {
            Vec3::zero()
        };
        let lens = rd.scale(self.lens_radius);
        let offset = self.u.scale(lens.x).add(&self.v.scale(lens.y));
        let o = self.origin.add(&offset);
        let target = self.lower_left_corner.add(&self.horizontal.scale(s)).add(&self.vertical.scale(t));
        let r = Ray::new(o, target.sub(&o));
        assert(in_unit_ball(rd) && rd.z == 0 && r == camera_ray(*self, s as int, t as int, rd));
        r
    }
}

} // verus!
