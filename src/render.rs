//! The recursive color estimator and the conversion of averaged samples to
//! 8-bit channels.
use vstd::prelude::*;
use crate::fixed::{
    clamp_between, div_floor, floor_div, isqrt, lemma_mul_bound, lemma_product_le, lemma_sqrt_floor_root,
    lemma_sqrt_square, mul_fixed, sqrt_floor, SCALE,
};
use crate::camera::{camera_ray, Camera};
use crate::hitable::{scene_hit, Hitable, HitableList};
use crate::random::{in_unit_ball, random_fraction};
use crate::material::{attenuation_of, fmul, is_color, scatter_outcome};
use crate::sphere::Sphere;
use crate::ray::Ray;
use crate::vec3::{dot, length, modulate, unit, vec_of, Vec3};

verus! {

/// Bounces after which a path that still hits something is cut off.
pub const MAX_DEPTH: u32 = 50;

/// Lower bound on hit parameters, keeping a bounce off its own surface
/// (0.001 in fixed-point units).
pub const T_MIN: i64 = 66;

/// Upper bound on hit parameters: no limit.
pub const T_MAX: i64 = 0x7fff_ffff_ffff_ffff;

/// The sky color straight up: (0.5, 0.7, 1.0).
pub const SKY_R: i64 = 32768;
pub const SKY_G: i64 = 45875;
pub const SKY_B: i64 = 65536;

pub open spec fn black() -> Vec3 {
    Vec3 { x: 0, y: 0, z: 0 }
}

/// `(1 - t) * 1 + t * b`.
pub open spec fn blend(t: int, b: int) -> int {
    SCALE - t + fmul(t, b)
}

/// Height of the direction mapped to `[0, 1]`: `(y + 1) / 2` of the unit direction.
pub open spec fn sky_t(ray: Ray) -> int {
    clamp_between((unit(ray.d).y + SCALE) / 2, 0, SCALE as int)
}

/// The sky seen along a ray that hits nothing: white at the horizon and
/// below, blue straight up.
pub open spec fn background(ray: Ray) -> Vec3 {
    let t = sky_t(ray);
    vec_of(blend(t, SKY_R as int), blend(t, SKY_G as int), blend(t, SKY_B as int))
}

proof fn lemma_blend_is_channel(t: int, b: int)
    requires
        0 <= t <= SCALE,
        0 <= b <= SCALE,
    ensures
        0 <= blend(t, b) <= SCALE,
{
    lemma_product_le(t, b, t);
}

pub fn background_exec(ray: &Ray) -> (r: Vec3)
    requires
        ray.wf(),
    ensures
        r == background(*ray),
        is_color(r),
{
    let s = SCALE as i128;
    let u = ray.d.unit();
    let t = div_floor(u.y as i128 + s, 2);
    let t = if t < 0 {
        0
    } else if t > s {
        s
    } else {
        t
    };
    proof {
        lemma_blend_is_channel(t as int, SKY_R as int);
        lemma_blend_is_channel(t as int, SKY_G as int);
        lemma_blend_is_channel(t as int, SKY_B as int);
    }
    Vec3::from_wide(
        s - t + mul_fixed(t, SKY_R as i128),
        s - t + mul_fixed(t, SKY_G as i128),
        s - t + mul_fixed(t, SKY_B as i128),
    )
}

/// The outcomes of the scatterings along one path.
pub type Path = Seq<Option<(Ray, Vec3)>>;

/// `path` is a possible sequence of scatter outcomes for a ray traced from
/// bounce `depth` on: empty on a miss or at the depth ceiling, otherwise an
/// outcome of scattering off the surface hit, followed (unless the light
/// was absorbed) by a path for the scattered ray one bounce deeper.
pub open spec fn path_ok(world: Seq<Sphere>, ray: Ray, depth: int, path: Path) -> bool
    decreases MAX_DEPTH - depth,
{
    match scene_hit(world, ray, T_MIN as int, T_MAX as int) {
        None => path.len() == 0,
        Some(h) => if depth >= MAX_DEPTH {
            path.len() == 0
        } else {
            &&& path.len() > 0
            &&& scatter_outcome(h.material, ray, h, path[0])
            &&& match path[0] {
                None => path.len() == 1,
                Some((s, _)) => path_ok(world, s, depth + 1, path.drop_first()),
            }
        },
    }
}

/// The light gathered along `ray` from bounce `depth` on when the scatterings
/// turn out as `path`: the sky on a miss; black on a hit at the depth ceiling
/// or when the surface absorbs; otherwise the attenuation times the light of
/// the scattered ray one bounce deeper.
pub open spec fn path_color(world: Seq<Sphere>, ray: Ray, depth: int, path: Path) -> Vec3
    decreases MAX_DEPTH - depth,
{
    match scene_hit(world, ray, T_MIN as int, T_MAX as int) {
        None => background(ray),
        Some(h) => if depth >= MAX_DEPTH || path.len() == 0 {
            black()
        } else {
            match path[0] {
                None => black(),
                Some((s, a)) => modulate(a, path_color(world, s, depth + 1, path.drop_first())),
            }
        },
    }
}

/// Light arriving along `ray`, estimated by following one random path
/// through `world`, starting at bounce `depth`.
pub fn color(ray: &Ray, world: &HitableList, depth: u32) -> (r: Vec3)
    requires
        ray.wf(),
        world.wf(),
    ensures
        is_color(r),
        exists|path: Path|
            #[trigger] path_ok(world.list@, *ray, depth as int, path) && r == path_color(
                world.list@,
                *ray,
                depth as int,
                path,
            ),
        scene_hit(world.list@, *ray, T_MIN as int, T_MAX as int) is None ==> r == background(*ray),
        scene_hit(world.list@, *ray, T_MIN as int, T_MAX as int) is Some && depth >= MAX_DEPTH
            ==> r == black(),
        depth < MAX_DEPTH ==> (scene_hit(world.list@, *ray, T_MIN as int, T_MAX as int) matches Some(h)
            ==> ((r == black() && h.material is Metal) || exists|c: Vec3|
            is_color(c) && r == modulate(attenuation_of(h.material), c))),
    decreases MAX_DEPTH - depth,
{
    match world.hit(ray, T_MIN, T_MAX) {
        Some(hit) => {
            if depth < MAX_DEPTH {
                let sc = hit.material.scatter(ray, &hit);
                match sc {
                    Some((scattered, att)) => {
                        let c = color(&scattered, world, depth + 1);
                        proof {
                            lemma_product_le(att.x as int, c.x as int, att.x as int);
                            lemma_product_le(att.y as int, c.y as int, att.y as int);
                            lemma_product_le(att.z as int, c.z as int, att.z as int);
                        }
                        let r = att.modulate(&c);
                        proof {
                            let p2 = choose|p: Path|
                                #[trigger] path_ok(world.list@, scattered, depth + 1, p) && c == path_color(
                                    world.list@,
                                    scattered,
                                    depth + 1,
                                    p,
                                );
                            let path = seq![sc].add(p2);
                            assert(path.drop_first() =~= p2);
                            assert(path[0] == sc);
                            assert(path_ok(world.list@, *ray, depth as int, path));
                            assert(r == path_color(world.list@, *ray, depth as int, path));
                        }
                        r
                    },
                    None => {
                        proof {
                            let path: Path = seq![sc];
                            assert(path_ok(world.list@, *ray, depth as int, path));
                            assert(path_color(world.list@, *ray, depth as int, path) == black());
                        }
                        Vec3::zero()
                    },
                }
            } else {
                proof {
                    let path: Path = Seq::empty();
                    assert(path_ok(world.list@, *ray, depth as int, path));
                }
                Vec3::zero()
            }
        },
        None => {
            proof {
                let path: Path = Seq::empty();
                assert(path_ok(world.list@, *ray, depth as int, path));
            }
            background_exec(ray)
        },
    }
}

/// An 8-bit channel from the sum of `samples` estimates: average, gamma
/// correction by a square root, clamp to `[0, 1]`, then `floor(255.99 v)`.
pub open spec fn channel_byte(sum: int, samples: int) -> int {
    let avg = sum / samples;
    let v = clamp_between(sqrt_floor(avg * SCALE), 0, SCALE as int);
    (v * 25599) / (100 * SCALE)
}

pub fn to_byte(sum: u64, samples: u64) -> (r: u8)
    requires
        samples > 0,
    ensures
        r as int == channel_byte(sum as int, samples as int),
{
    let avg = sum / samples;
    proof {
        vstd::arithmetic::div_mod::lemma_div_is_ordered_by_denominator(sum as int, 1, samples as int);
        lemma_sqrt_floor_root(avg * SCALE);
    }
    let root = isqrt(avg as u128 * SCALE as u128);
    let v: u64 = if root > SCALE as u64 {
        SCALE as u64
    } else {
        root
    };
    proof {
        vstd::arithmetic::div_mod::lemma_div_is_ordered(v * 25599, SCALE * 25599, 100 * SCALE);
        assert((SCALE * 25599) / (100 * SCALE) == 255);
    }
    (v * 25599 / (100 * SCALE as u64)) as u8
}

/// The sky straight up is exactly the blue (0.5, 0.7, 1.0), and straight
/// down exactly white.
pub proof fn lemma_background_vertical(ray: Ray)
    requires
        ray.d.x == 0,
        ray.d.z == 0,
        ray.d.y != 0,
    ensures
        ray.d.y > 0 ==> background(ray) == (Vec3 { x: SKY_R, y: SKY_G, z: SKY_B }),
        ray.d.y < 0 ==> background(ray) == (Vec3 { x: SCALE, y: SCALE, z: SCALE }),
{
    let k = ray.d.y as int;
    let s = SCALE as int;
    assert(dot(ray.d, ray.d) == k * k);
    if k > 0 {
        lemma_sqrt_square(k);
        assert(length(ray.d) == k);
        vstd::arithmetic::div_mod::lemma_div_multiples_vanish(s, k);
        assert(floor_div(k * s, k) == s);
        assert(unit(ray.d).y == s);
        assert(sky_t(ray) == s);
        assert(fmul(s, SKY_R as int) == SKY_R) by {
            vstd::arithmetic::div_mod::lemma_div_multiples_vanish(SKY_R as int, s);
        }
        assert(fmul(s, SKY_G as int) == SKY_G) by {
            vstd::arithmetic::div_mod::lemma_div_multiples_vanish(SKY_G as int, s);
        }
        assert(fmul(s, SKY_B as int) == SKY_B) by {
            vstd::arithmetic::div_mod::lemma_div_multiples_vanish(SKY_B as int, s);
        }
    } else {
        lemma_sqrt_square(-k);
        assert((-k) * (-k) == k * k) by (nonlinear_arith);
        assert(length(ray.d) == -k);
        assert(k * s == (-k) * (-s)) by (nonlinear_arith);
        vstd::arithmetic::div_mod::lemma_div_multiples_vanish(-s, -k);
        assert(floor_div(k * s, -k) == -s);
        assert(unit(ray.d).y == -s);
        assert(sky_t(ray) == 0);
    }
}

/// Image-plane coordinate `s` lies in pixel `i` of `n`: it is
/// `(i + f) / n` for a jitter `f` in `[0, 1)`, rounded down.
pub open spec fn in_pixel(i: int, n: int, s: int) -> bool {
    floor_div(i * SCALE, n) <= s <= floor_div(i * SCALE + SCALE - 1, n)
}

/// `c` is a possible estimate for pixel `(i, j)`: the light along a camera
/// ray through a point of that pixel, leaving the lens at `rd`.
pub open spec fn sample_ok(
    camera: Camera,
    world: Seq<Sphere>,
    i: int,
    j: int,
    width: int,
    height: int,
    c: Vec3,
) -> bool {
    exists|s: int, t: int, rd: Vec3, path: Path|
        {
            &&& in_pixel(i, width, s)
            &&& in_pixel(j, height, t)
            &&& in_unit_ball(rd)
            &&& rd.z == 0
            &&& #[trigger] path_ok(world, camera_ray(camera, s, t, rd), 0, path)
            &&& c == path_color(world, camera_ray(camera, s, t, rd), 0, path)
        }
}

pub open spec fn sum_x(cs: Seq<Vec3>) -> int
    decreases cs.len(),
{
    if cs.len() == 0 {
        0
    } else {
        sum_x(cs.drop_last()) + cs.last().x
    }
}

pub open spec fn sum_y(cs: Seq<Vec3>) -> int
    decreases cs.len(),
{
    if cs.len() == 0 {
        0
    } else {
        sum_y(cs.drop_last()) + cs.last().y
    }
}

pub open spec fn sum_z(cs: Seq<Vec3>) -> int
    decreases cs.len(),
{
    if cs.len() == 0 {
        0
    } else {
        sum_z(cs.drop_last()) + cs.last().z
    }
}

/// Pixel `(i, j)` of a `width` by `height` image, counting columns from the
/// left and rows from the bottom: the average of `samples` estimates through
/// points jittered uniformly inside the pixel, as 8-bit RGB channels.
pub fn sample_pixel(
    camera: &Camera,
    world: &HitableList,
    i: u32,
    j: u32,
    width: u32,
    height: u32,
    samples: u32,
) -> (r: (u8, u8, u8))
    requires
        camera.wf(),
        world.wf(),
        width > 0,
        height > 0,
        samples > 0,
    ensures
        exists|cs: Seq<Vec3>|
            {
                &&& cs.len() == samples
                &&& forall|k: int|
                    0 <= k < cs.len() ==> #[trigger] sample_ok(
                        *camera,
                        world.list@,
                        i as int,
                        j as int,
                        width as int,
                        height as int,
                        cs[k],
                    )
                &&& r.0 as int == channel_byte(sum_x(cs), samples as int)
                &&& r.1 as int == channel_byte(sum_y(cs), samples as int)
                &&& r.2 as int == channel_byte(sum_z(cs), samples as int)
            },
{
    let scale: i128 = 65536;
    let mut sum_r: u64 = 0;
    let mut sum_g: u64 = 0;
    let mut sum_b: u64 = 0;
    let ghost mut cs: Seq<Vec3> = Seq::empty();
    let mut k: u32 = 0;
    while k < samples
        invariant
            camera.wf(),
            world.wf(),
            width > 0,
            height > 0,
            scale == SCALE,
            k <= samples,
            cs.len() == k,
            forall|q: int|
                0 <= q < cs.len() ==> #[trigger] sample_ok(
                    *camera,
                    world.list@,
                    i as int,
                    j as int,
                    width as int,
                    height as int,
                    cs[q],
                ),
            sum_r == sum_x(cs),
            sum_g == sum_y(cs),
            sum_b == sum_z(cs),
            sum_r <= k * SCALE,
            sum_g <= k * SCALE,
            sum_b <= k * SCALE,
        decreases samples - k,
    {
        proof {
            lemma_mul_bound(i as int, SCALE as int, 0x1_0000_0000, SCALE as int);
            lemma_mul_bound(j as int, SCALE as int, 0x1_0000_0000, SCALE as int);
        }
        let fx = random_fraction();
        let fy = random_fraction();
        let ns = i as i128 * scale + fx as i128;
        let nt = j as i128 * scale + fy as i128;
        let s = div_floor(ns, width as i128);
        let t = div_floor(nt, height as i128);
        proof {
            vstd::arithmetic::div_mod::lemma_div_is_ordered_by_denominator(ns as int, 1, width as int);
            vstd::arithmetic::div_mod::lemma_div_is_ordered_by_denominator(nt as int, 1, height as int);
            vstd::arithmetic::div_mod::lemma_div_is_ordered(i * SCALE, ns as int, width as int);
            vstd::arithmetic::div_mod::lemma_div_is_ordered(ns as int, i * SCALE + SCALE - 1, width as int);
            vstd::arithmetic::div_mod::lemma_div_is_ordered(j * SCALE, nt as int, height as int);
            vstd::arithmetic::div_mod::lemma_div_is_ordered(nt as int, j * SCALE + SCALE - 1, height as int);
        }
        let ray = camera.get_ray(s as i64, t as i64);
        let c = color(&ray, world, 0);
        proof {
            let rd = choose|rd: Vec3|
                in_unit_ball(rd) && rd.z == 0 && ray == camera_ray(*camera, s as int, t as int, rd);
            let path = choose|path: Path|
                #[trigger] path_ok(world.list@, ray, 0, path) && c == path_color(world.list@, ray, 0, path);
            assert(path_ok(world.list@, camera_ray(*camera, s as int, t as int, rd), 0, path));
            assert(sample_ok(*camera, world.list@, i as int, j as int, width as int, height as int, c));
            let old_cs = cs;
            cs = cs.push(c);
            assert(cs.drop_last() =~= old_cs);
            assert forall|q: int| 0 <= q < cs.len() implies #[trigger] sample_ok(
                *camera,
                world.list@,
                i as int,
                j as int,
                width as int,
                height as int,
                cs[q],
            ) by {
                if q < old_cs.len() {
                    assert(cs[q] == old_cs[q]);
                }
            }
        }
        sum_r = sum_r + c.x as u64;
        sum_g = sum_g + c.y as u64;
        sum_b = sum_b + c.z as u64;
        k = k + 1;
    }
    (to_byte(sum_r, samples as u64), to_byte(sum_g, samples as u64), to_byte(sum_b, samples as u64))
}

} // verus!
