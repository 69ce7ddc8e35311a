//! Materials: how a surface scatters an incoming ray.
use vstd::prelude::*;
use crate::fixed::{
    clamp_between, div_floor, floor_div, isqrt, lemma_div_bound, lemma_mul_bound, lemma_product_le,
    mul_fixed,
    sqrt_floor, SCALE,
};
use crate::hitable::HitRecord;
use crate::random::{in_unit_ball, random_fraction, random_point_in_unit_sphere};
use crate::ray::Ray;
use crate::vec3::{dot, modulate, scale, unit, vadd, vsub, Vec3};

verus! {

/// A color with every channel in `[0, 1]`.
pub open spec fn is_color(c: Vec3) -> bool {
    0 <= c.x <= SCALE && 0 <= c.y <= SCALE && 0 <= c.z <= SCALE
}

/// Diffuse surface.
#[derive(Clone, Copy, Debug, PartialEq, Eq, Structural)]
pub struct Lambertian {
    pub albedo: Vec3,
}

/// Specular surface with optional roughness.
#[derive(Clone, Copy, Debug, PartialEq, Eq, Structural)]
pub struct Metal {
    pub albedo: Vec3,
    pub fuzz: i64,
}

/// Refractive, colorless surface such as glass.
#[derive(Clone, Copy, Debug, PartialEq, Eq, Structural)]
pub struct Dielectric {
    pub ref_idx: i64,
}

/// The material of a surface, one of the three kinds.
#[derive(Clone, Copy, Debug, PartialEq, Eq, Structural)]
pub enum Material {
    Lambertian(Lambertian),
    Metal(Metal),
    Dielectric(Dielectric),
}

impl Lambertian {
    pub fn new(albedo: Vec3) -> (r: Lambertian)
        requires
            is_color(albedo),
        ensures
            r.albedo == albedo,
    {
        Lambertian { albedo }
    }
}

impl Metal {
    pub fn new(albedo: Vec3, fuzz: i64) -> (r: Metal)
        requires
            is_color(albedo),
            0 <= fuzz <= SCALE,
        ensures
            r.albedo == albedo,
            r.fuzz == fuzz,
    {
        Metal { albedo, fuzz }
    }
}

impl Dielectric {
    pub fn new(ref_idx: i64) -> (r: Dielectric)
        requires
            MIN_INDEX <= ref_idx <= MAX_INDEX,
        ensures
            r.ref_idx == ref_idx,
    {
        Dielectric { ref_idx }
    }
}

/// Smallest refractive index accepted, in fixed-point units (index 1/16).
pub const MIN_INDEX: i64 = 4096;

/// Largest refractive index accepted, in fixed-point units (index 16).
pub const MAX_INDEX: i64 = 1048576;

impl Material {
    pub open spec fn wf(self) -> bool {
        match self {
            Material::Lambertian(l) => is_color(l.albedo),
            Material::Metal(m) => is_color(m.albedo) && 0 <= m.fuzz <= SCALE,
            Material::Dielectric(d) => MIN_INDEX <= d.ref_idx <= MAX_INDEX,
        }
    }
}

/// Mirror image of `v` about the plane with unit normal `n`: `v - 2 (v.n) n`.
pub open spec fn reflect(v: Vec3, n: Vec3) -> Vec3 {
    vsub(v, scale(n, 2 * floor_div(dot(v, n), SCALE as int)))
}

pub fn reflect_exec(v: &Vec3, n: &Vec3) -> (r: Vec3)
    requires
        v.wf(),
        n.wf(),
    ensures
        r == reflect(*v, *n),
        r.wf(),
{
    let vn = v.dot(n);
    proof {
        lemma_div_bound(vn as int, SCALE as int, 0xC_0000_0000_0000);
    }
    let half = div_floor(vn, SCALE as i128);
    v.sub(&n.scale(2 * half as i64))
}

/// Diffuse scattering about the normal, offset by the ball point `rnd`.
pub open spec fn lambertian_scatter(l: Lambertian, hit: HitRecord, rnd: Vec3) -> Option<(Ray, Vec3)> {
    Some((Ray { o: hit.p, d: vadd(hit.normal, rnd) }, l.albedo))
}

/// Mirror reflection of the incoming direction, perturbed by `fuzz * rnd`;
/// a reflection that does not leave the surface is absorbed.
pub open spec fn metal_scatter(m: Metal, ray: Ray, hit: HitRecord, rnd: Vec3) -> Option<(Ray, Vec3)> {
    let reflected = reflect(unit(ray.d), hit.normal);
    let dir = if m.fuzz > 0 {
        vadd(reflected, scale(rnd, m.fuzz as int))
    } else {
        reflected
    };
    if dot(dir, hit.normal) > 0 {
        Some((Ray { o: hit.p, d: dir }, m.albedo))
    } else {
        None
    }
}

impl Lambertian {
    pub fn scatter(&self, ray: &Ray, hit: &HitRecord) -> (r: Option<(Ray, Vec3)>)
        requires
            hit.wf(),
        ensures
            exists|rnd: Vec3| in_unit_ball(rnd) && r == lambertian_scatter(*self, *hit, rnd),
            r matches Some((s, _)) ==> s.wf(),
    {
        let rnd = random_point_in_unit_sphere();
        let d = hit.normal.add(&rnd);
        Some((Ray::new(hit.p, d), self.albedo))
    }
}

impl Metal {
    pub fn scatter(&self, ray: &Ray, hit: &HitRecord) -> (r: Option<(Ray, Vec3)>)
        requires
            self.fuzz >= 0,
            ray.wf(),
            hit.wf(),
        ensures
            exists|rnd: Vec3| in_unit_ball(rnd) && r == metal_scatter(*self, *ray, *hit, rnd),
            r matches Some((s, _)) ==> s.wf(),
    {
        let reflected = reflect_exec(&ray.d.unit(), &hit.normal);
        let rnd = if self.fuzz > 0 {
            random_point_in_unit_sphere()
        } else {
            Vec3::zero()
        };
        let dir = if self.fuzz > 0 {
            reflected.add(&rnd.scale(self.fuzz))
        } else {
            reflected
        };
        let r = if dir.dot(&hit.normal) > 0 {
            Some((Ray::new(hit.p, dir), self.albedo))
        } else {
            None
        };
        assert(in_unit_ball(rnd) && r == metal_scatter(*self, *ray, *hit, rnd));
        r
    }
}

/// Cosine between the unit direction `u` and the normal `n`.
pub open spec fn cos_between(u: Vec3, n: Vec3) -> int {
    floor_div(dot(u, n), SCALE as int)
}

/// The ray enters the medium when it travels against the outward normal.
pub open spec fn entering(u: Vec3, n: Vec3) -> bool {
    cos_between(u, n) <= 0
}

/// The normal on the side the ray comes from.
pub open spec fn facing_normal(u: Vec3, n: Vec3) -> Vec3 {
    if entering(u, n) {
        n
    } else {
        Vec3 { x: -n.x as i64, y: -n.y as i64, z: -n.z as i64 }
    }
}

/// Ratio of the refractive indices on the incoming and outgoing sides.
pub open spec fn index_ratio(ref_idx: int, u: Vec3, n: Vec3) -> int {
    if entering(u, n) {
        floor_div((SCALE * SCALE) as int, ref_idx)
    } else {
        ref_idx
    }
}

/// Cosine of the angle of incidence, limited to `[0, 1]`.
pub open spec fn incidence_cos(u: Vec3, n: Vec3) -> int {
    clamp_between(
        if entering(u, n) {
            -cos_between(u, n)
        } else {
            cos_between(u, n)
        },
        0,
        SCALE as int,
    )
}

/// Fixed-point product.
pub open spec fn fmul(a: int, b: int) -> int {
    floor_div(a * b, SCALE as int)
}

/// `u . m` for the facing normal `m`, limited to `[-1, 1]`.
pub open spec fn refract_dt(u: Vec3, m: Vec3) -> int {
    clamp_between(cos_between(u, m), -SCALE, SCALE as int)
}

/// Snell's law: `1 - ratio^2 (1 - dt^2)`; refraction is possible when positive.
pub open spec fn refract_disc(u: Vec3, m: Vec3, ratio: int) -> int {
    SCALE - fmul(fmul(ratio, ratio), SCALE - fmul(refract_dt(u, m), refract_dt(u, m)))
}

/// The refracted direction `ratio (u - dt m) - sqrt(disc) m`.
pub open spec fn refracted(u: Vec3, m: Vec3, ratio: int) -> Vec3 {
    vsub(
        scale(vsub(u, scale(m, refract_dt(u, m))), ratio),
        scale(m, sqrt_floor(refract_disc(u, m, ratio) * SCALE)),
    )
}

/// Schlick's approximation of the reflectance at incidence cosine `c`:
/// `r0 + (1 - r0) (1 - c)^5` with `r0 = ((1 - ref_idx) / (1 + ref_idx))^2`.
pub open spec fn schlick(c: int, ref_idx: int) -> int {
    let r0f = floor_div((SCALE - ref_idx) * SCALE, SCALE + ref_idx);
    let r0 = fmul(r0f, r0f);
    let m = SCALE - c;
    let m2 = fmul(m, m);
    let m5 = fmul(fmul(m2, m2), m);
    r0 + fmul(SCALE - r0, m5)
}

/// Glass: refraction when Snell's law allows it and the draw `f` in `[0, 1)`
/// is at least the reflectance, mirror reflection otherwise; no absorption.
pub open spec fn dielectric_scatter(d: Dielectric, ray: Ray, hit: HitRecord, f: int) -> Option<(Ray, Vec3)> {
    let u = unit(ray.d);
    let n = hit.normal;
    let m = facing_normal(u, n);
    let ratio = index_ratio(d.ref_idx as int, u, n);
    let dir = if refract_disc(u, m, ratio) > 0 && f >= schlick(incidence_cos(u, n), d.ref_idx as int) {
        refracted(u, m, ratio)
    } else {
        reflect(u, n)
    };
    Some((Ray { o: hit.p, d: dir }, Vec3 { x: SCALE, y: SCALE, z: SCALE }))
}

fn clamp_exec(v: i128, lo: i128, hi: i128) -> (r: i128)
    requires
        lo <= hi,
    ensures
        r == clamp_between(v as int, lo as int, hi as int),
{
    if v < lo {
        lo
    } else if v > hi {
        hi
    } else {
        v
    }
}

fn schlick_exec(c: i128, ref_idx: i64) -> (r: i128)
    requires
        0 <= c <= SCALE,
        MIN_INDEX <= ref_idx <= MAX_INDEX,
    ensures
        r == schlick(c as int, ref_idx as int),
        -0x100_0000_0000 <= r <= 0x100_0000_0000,
{
    let s = SCALE as i128;
    let e = ref_idx as i128;
    proof {
        lemma_div_bound((s - e) * s, (s + e) as int, 0x10_0000);
    }
    let r0f = div_floor((s - e) * s, s + e);
    let r0 = mul_fixed(r0f, r0f);
    proof {
        assert(0 <= r0f * r0f <= 0x100_0000_0000) by (nonlinear_arith)
            requires
                -0x10_0000 <= r0f <= 0x10_0000,
        ;
        lemma_div_bound(r0f * r0f, SCALE as int, 0x100_0000);
        vstd::arithmetic::div_mod::lemma_div_pos_is_pos(r0f * r0f, SCALE as int);
    }
    let m = s - c;
    let m2 = mul_fixed(m, m);
    proof {
        lemma_product_le(m as int, m as int, SCALE as int);
    }
    let m4 = mul_fixed(m2, m2);
    proof {
        lemma_product_le(m2 as int, m2 as int, SCALE as int);
    }
    let m5 = mul_fixed(m4, m);
    proof {
        lemma_product_le(m4 as int, m as int, SCALE as int);
    }
    proof {
        lemma_mul_bound((s - r0) as int, m5 as int, 0x100_0000, SCALE as int);
        lemma_div_bound((s - r0) * m5, SCALE as int, 0x100_0000);
    }
    r0 + mul_fixed(s - r0, m5)
}

impl Dielectric {
    pub fn scatter(&self, ray: &Ray, hit: &HitRecord) -> (r: Option<(Ray, Vec3)>)
        requires
            MIN_INDEX <= self.ref_idx <= MAX_INDEX,
            ray.wf(),
            hit.wf(),
        ensures
            exists|f: int| 0 <= f < SCALE && r == dielectric_scatter(*self, *ray, *hit, f),
            r matches Some((s, _)) ==> s.wf(),
    {
        let s = SCALE as i128;
        let u = ray.d.unit();
        let n = hit.normal;
        let un = u.dot(&n);
        proof {
            lemma_div_bound(un as int, SCALE as int, 0xC_0000_0000_0000);
        }
        let cos = div_floor(un, s);
        let e = self.ref_idx as i128;
        let (m, ratio, c) = if cos <= 0 {
            proof {
                lemma_div_bound(s * s, e as int, 0x10_0000);
            }
            (n, div_floor(s * s, e), -cos)
        } else {
            (Vec3::new(-n.x, -n.y, -n.z), e, cos)
        };
        let c = clamp_exec(c, 0, s);
        let um = u.dot(&m);
        proof {
            lemma_div_bound(um as int, SCALE as int, 0xC_0000_0000_0000);
        }
        let dt = clamp_exec(div_floor(um, s), -s, s);
        let dt2 = mul_fixed(dt, dt);
        proof {
            assert(0 <= dt * dt <= SCALE * SCALE) by (nonlinear_arith)
                requires
                    -SCALE <= dt <= SCALE,
            ;
            lemma_div_bound(dt * dt, SCALE as int, SCALE as int);
            vstd::arithmetic::div_mod::lemma_div_pos_is_pos(dt * dt, SCALE as int);
        }
        let r2 = mul_fixed(ratio, ratio);
        proof {
            assert(0 <= ratio * ratio <= 0x100_0000_0000) by (nonlinear_arith)
                requires
                    -0x10_0000 <= ratio <= 0x10_0000,
            ;
            lemma_div_bound(ratio * ratio, SCALE as int, 0x100_0000);
            vstd::arithmetic::div_mod::lemma_div_pos_is_pos(ratio * ratio, SCALE as int);
            lemma_product_le(r2 as int, (s - dt2) as int, 0x100_0000);
        }
        let disc = s - mul_fixed(r2, s - dt2);
        let f = random_fraction();
        let dir = if disc > 0 && f as i128 >= schlick_exec(c, self.ref_idx) {
            let root = isqrt((disc * s) as u128);
            proof {
                assert(root <= SCALE) by (nonlinear_arith)
                    requires
                        root * root <= disc * SCALE,
                        disc <= SCALE,
                        root >= 0,
                ;
            }
            let tangent = u.sub(&m.scale(dt as i64));
            tangent.scale(ratio as i64).sub(&m.scale(root as i64))
        } else {
            reflect_exec(&u, &n)
        };
        let white = Vec3::new(SCALE, SCALE, SCALE);
        let r = Some((Ray::new(hit.p, dir), white));
        assert(r == dielectric_scatter(*self, *ray, *hit, f as int));
        r
    }
}

/// The attenuation a material applies to the light it scatters.
pub open spec fn attenuation_of(mat: Material) -> Vec3 {
    match mat {
        Material::Lambertian(l) => l.albedo,
        Material::Metal(m) => m.albedo,
        Material::Dielectric(_) => Vec3 { x: SCALE, y: SCALE, z: SCALE },
    }
}

/// `r` is one of the outcomes of scattering `ray` at `hit` off `mat`.
pub open spec fn scatter_outcome(mat: Material, ray: Ray, hit: HitRecord, r: Option<(Ray, Vec3)>) -> bool {
    match mat {
        Material::Lambertian(l) => exists|rnd: Vec3|
            in_unit_ball(rnd) && r == lambertian_scatter(l, hit, rnd),
        Material::Metal(m) => exists|rnd: Vec3| in_unit_ball(rnd) && r == metal_scatter(m, ray, hit, rnd),
        Material::Dielectric(d) => exists|f: int| 0 <= f < SCALE && r == dielectric_scatter(d, ray, hit, f),
    }
}

impl Material {
    /// Scatters `ray` at `hit`: the outgoing ray and its attenuation, or
    /// `None` when the light is absorbed.
    pub fn scatter(&self, ray: &Ray, hit: &HitRecord) -> (r: Option<(Ray, Vec3)>)
        requires
            self.wf(),
            ray.wf(),
            hit.wf(),
        ensures
            scatter_outcome(*self, *ray, *hit, r),
            r matches Some((s, a)) ==> s.wf() && a == attenuation_of(*self) && s.o == hit.p,
            r is None ==> self is Metal,
    {
        match self {
            Material::Lambertian(l) => l.scatter(ray, hit),
            Material::Metal(m) => m.scatter(ray, hit),
            Material::Dielectric(d) => d.scatter(ray, hit),
        }
    }
}

/// A metal without fuzz never adds energy: whatever color arrives along the
/// reflected ray, the attenuated color is no brighter in any channel.
pub proof fn lemma_metal_energy(m: Metal, ray: Ray, hit: HitRecord, rnd: Vec3, c: Vec3)
    requires
        m.fuzz == 0,
        is_color(m.albedo),
        c.wf(),
        0 <= c.x && 0 <= c.y && 0 <= c.z,
    ensures
        metal_scatter(m, ray, hit, rnd) matches Some((_, att)) ==> {
            let out = modulate(att, c);
            &&& 0 <= out.x <= c.x
            &&& 0 <= out.y <= c.y
            &&& 0 <= out.z <= c.z
        },
{
    if let Some((_, att)) = metal_scatter(m, ray, hit, rnd) {
        lemma_product_le(c.x as int, att.x as int, c.x as int);
        lemma_product_le(c.y as int, att.y as int, c.y as int);
        lemma_product_le(c.z as int, att.z as int, c.z as int);
        assert(att.x * c.x == c.x * att.x) by (nonlinear_arith);
        assert(att.y * c.y == c.y * att.y) by (nonlinear_arith);
        assert(att.z * c.z == c.z * att.z) by (nonlinear_arith);
    }
}

} // verus!
