//! Spheres and ray-sphere intersection.
use vstd::prelude::*;
use crate::fixed::{
    div_floor, floor_div, isqrt, lemma_mul_bound, lemma_sqrt_floor_root, lemma_sqrt_square, sqrt_floor,
    LIMIT, SCALE,
};
use crate::hitable::{HitRecord, Hitable};
use crate::material::Material;
use crate::ray::{point_at, reaches, Ray};
use crate::vec3::{dot, in_range, vadd, vec_of, Vec3};

verus! {

/// A sphere; a negative radius turns its normals inwards.
#[derive(Clone, Copy, Debug, PartialEq, Eq, Structural)]
pub struct Sphere {
    pub center: Vec3,
    pub radius: i64,
    pub material: Material,
}

/// Coefficients of `a t^2 + 2 b t + c = 0`, whose roots are where the ray
/// meets the sphere.
pub open spec fn quad_a(ray: Ray) -> int {
    dot(ray.d, ray.d)
}

pub open spec fn quad_b(s: Sphere, ray: Ray) -> int {
    (ray.o.x - s.center.x) * ray.d.x + (ray.o.y - s.center.y) * ray.d.y + (ray.o.z - s.center.z)
        * ray.d.z
}

pub open spec fn quad_c(s: Sphere, ray: Ray) -> int {
    (ray.o.x - s.center.x) * (ray.o.x - s.center.x) + (ray.o.y - s.center.y) * (ray.o.y
        - s.center.y) + (ray.o.z - s.center.z) * (ray.o.z - s.center.z) - s.radius * s.radius
}

pub open spec fn discriminant(s: Sphere, ray: Ray) -> int {
    quad_b(s, ray) * quad_b(s, ray) - quad_a(ray) * quad_c(s, ray)
}

/// The smaller root, as a fixed-point ray parameter.
pub open spec fn near_root(s: Sphere, ray: Ray) -> int {
    floor_div((-quad_b(s, ray) - sqrt_floor(discriminant(s, ray))) * SCALE, quad_a(ray))
}

/// The larger root, as a fixed-point ray parameter.
pub open spec fn far_root(s: Sphere, ray: Ray) -> int {
    floor_div((-quad_b(s, ray) + sqrt_floor(discriminant(s, ray))) * SCALE, quad_a(ray))
}

/// The parameter of the first crossing strictly inside `(t_min, t_max)`, if any.
/// A ray that only grazes the sphere, or has no direction, meets nothing; a
/// crossing whose point lies outside the coordinate range is not reported.
pub open spec fn hit_t(s: Sphere, ray: Ray, t_min: int, t_max: int) -> Option<int> {
    if quad_a(ray) == 0 || discriminant(s, ray) <= 0 {
        None
    } else if t_min < near_root(s, ray) < t_max && reaches(ray, near_root(s, ray)) {
        Some(near_root(s, ray))
    } else if t_min < far_root(s, ray) < t_max && reaches(ray, far_root(s, ray)) {
        Some(far_root(s, ray))
    } else {
        None
    }
}

/// Outward normal at `p`: `(p - center) / radius`.
pub open spec fn normal_at(s: Sphere, p: Vec3) -> Vec3 {
    vec_of(
        floor_div((p.x - s.center.x) * SCALE, s.radius as int),
        floor_div((p.y - s.center.y) * SCALE, s.radius as int),
        floor_div((p.z - s.center.z) * SCALE, s.radius as int),
    )
}

pub open spec fn record_at(s: Sphere, ray: Ray, t: int) -> HitRecord {
    HitRecord {
        t: t as i64,
        p: point_at(ray, t),
        normal: normal_at(s, point_at(ray, t)),
        material: s.material,
    }
}

pub open spec fn sphere_hit(s: Sphere, ray: Ray, t_min: int, t_max: int) -> Option<HitRecord> {
    match hit_t(s, ray, t_min, t_max) {
        Some(t) => Some(record_at(s, ray, t)),
        None => None,
    }
}

impl Sphere {
    pub open spec fn wf(self) -> bool {
        self.center.wf() && in_range(self.radius as int) && self.radius != 0 && self.material.wf()
    }

    pub fn new(center: Vec3, radius: i64, material: Material) -> (r: Sphere)
        requires
            center.wf(),
            in_range(radius as int),
            radius != 0,
            material.wf(),
        ensures
            r == (Sphere { center, radius, material }),
            r.wf(),
    {
        Sphere { center, radius, material }
    }

    fn record(&self, ray: &Ray, t: i64) -> (r: HitRecord)
        requires
            self.wf(),
            ray.wf(),
        ensures
            r == record_at(*self, *ray, t as int),
            r.wf(),
    {
        let p = ray.at(t);
        let c = self.center;
        let rad = self.radius as i128;
        let s = SCALE as i128;
        let normal = Vec3::from_wide(
            div_floor((p.x as i128 - c.x as i128) * s, rad),
            div_floor((p.y as i128 - c.y as i128) * s, rad),
            div_floor((p.z as i128 - c.z as i128) * s, rad),
        );
        HitRecord { t, p, normal, material: self.material }
    }
}

impl Hitable for Sphere {
    open spec fn valid(&self) -> bool {
        self.wf()
    }

    /// The first crossing inside the window.
    open spec fn hit_spec(&self, ray: Ray, t_min: int, t_max: int) -> Option<HitRecord> {
        sphere_hit(*self, ray, t_min, t_max)
    }

    fn hit(&self, ray: &Ray, t_min: i64, t_max: i64) -> (r: Option<HitRecord>) {
        let ox = ray.o.x as i128 - self.center.x as i128;
        let oy = ray.o.y as i128 - self.center.y as i128;
        let oz = ray.o.z as i128 - self.center.z as i128;
        let d = ray.d;
        let rad = self.radius as i128;
        let ghost lim: int = LIMIT as int;
        proof {
            lemma_mul_bound(ox as int, d.x as int, 2 * lim, lim);
            lemma_mul_bound(oy as int, d.y as int, 2 * lim, lim);
            lemma_mul_bound(oz as int, d.z as int, 2 * lim, lim);
            lemma_mul_bound(ox as int, ox as int, 2 * lim, 2 * lim);
            lemma_mul_bound(oy as int, oy as int, 2 * lim, 2 * lim);
            lemma_mul_bound(oz as int, oz as int, 2 * lim, 2 * lim);
            lemma_mul_bound(rad as int, rad as int, lim, lim);
        }
        let a = d.dot(&d);
        let b = ox * d.x as i128 + oy * d.y as i128 + oz * d.z as i128;
        let c = ox * ox + oy * oy + oz * oz - rad * rad;
        proof {
            assert(a >= 0) by (nonlinear_arith)
                requires
                    a == d.x * d.x + d.y * d.y + d.z * d.z,
            ;
            assert(-0x1800_0000_0000_0000 <= b <= 0x1800_0000_0000_0000);
            assert(-0x3400_0000_0000_0000 <= c <= 0x3400_0000_0000_0000);
            lemma_mul_bound(b as int, b as int, 0x1800_0000_0000_0000, 0x1800_0000_0000_0000);
            lemma_mul_bound(a as int, c as int, 0xC00_0000_0000_0000, 0x3400_0000_0000_0000);
        }
        let disc = b * b - a * c;
        if a == 0 || disc <= 0 {
            return None;
        }
        let sq = isqrt(disc as u128);
        proof {
            assert(sq <= 0x1_0000_0000_0000_0000int) by (nonlinear_arith)
                requires
                    sq * sq <= disc,
                    disc <= 0x1000_0000_0000_0000_0000_0000_0000_0000int,
                    sq >= 0,
            ;
        }
        let s = SCALE as i128;
        let t1 = div_floor((-b - sq as i128) * s, a);
        if (t_min as i128) < t1 && t1 < (t_max as i128) && ray.reaches(t1 as i64) {
            return Some(self.record(ray, t1 as i64));
        }
        let t2 = div_floor((-b + sq as i128) * s, a);
        if (t_min as i128) < t2 && t2 < (t_max as i128) && ray.reaches(t2 as i64) {
            return Some(self.record(ray, t2 as i64));
        }
        None
    }
}

/// Searching a narrower window `(t_min, bound)` finds the same crossing as
/// `(t_min, t_max)` when that crossing lies below `bound`, and nothing otherwise.
pub proof fn lemma_hit_narrowed(s: Sphere, ray: Ray, t_min: int, t_max: int, bound: int)
    requires
        bound <= t_max,
    ensures
        hit_t(s, ray, t_min, bound) == (match hit_t(s, ray, t_min, t_max) {
            Some(t) => if t < bound {
                Some(t)
            } else {
                None
            },
            None => None,
        }),
{
    if quad_a(ray) != 0 && discriminant(s, ray) > 0 {
        lemma_sqrt_floor_root(discriminant(s, ray));
        assert(quad_a(ray) >= 0) by (nonlinear_arith)
            requires
                quad_a(ray) == ray.d.x * ray.d.x + ray.d.y * ray.d.y + ray.d.z * ray.d.z,
        ;
        let sq = sqrt_floor(discriminant(s, ray));
        let b = quad_b(s, ray);
        assert((-b - sq) * SCALE <= (-b + sq) * SCALE) by (nonlinear_arith)
            requires
                sq >= 0,
        ;
        vstd::arithmetic::div_mod::lemma_div_is_ordered(
            (-b - sq) * SCALE,
            (-b + sq) * SCALE,
            quad_a(ray),
        );
        assert(near_root(s, ray) <= far_root(s, ray));
    }
}

/// Moving both the ray's origin and the sphere's center by the same offset
/// leaves the parameter of the reported hit unchanged, and moves the hit
/// point by that offset, as long as every point of both rays inside the
/// window lies within the coordinate range.
pub proof fn lemma_hit_translation(s: Sphere, ray: Ray, v: Vec3, t_min: int, t_max: int)
    requires
        in_range(ray.o.x + v.x),
        in_range(ray.o.y + v.y),
        in_range(ray.o.z + v.z),
        in_range(s.center.x + v.x),
        in_range(s.center.y + v.y),
        in_range(s.center.z + v.z),
        forall|t: int| t_min < t < t_max ==> #[trigger] reaches(ray, t),
        forall|t: int| t_min < t < t_max ==> #[trigger] reaches(Ray { o: vadd(ray.o, v), ..ray }, t),
    ensures
        hit_t(Sphere { center: vadd(s.center, v), ..s }, Ray { o: vadd(ray.o, v), ..ray }, t_min, t_max)
            == hit_t(s, ray, t_min, t_max),
        hit_t(s, ray, t_min, t_max) matches Some(t) ==> point_at(Ray { o: vadd(ray.o, v), ..ray }, t)
            == vadd(point_at(ray, t), v),
{
    let s2 = Sphere { center: vadd(s.center, v), ..s };
    let r2 = Ray { o: vadd(ray.o, v), ..ray };
    assert(r2.o.x - s2.center.x == ray.o.x - s.center.x);
    assert(r2.o.y - s2.center.y == ray.o.y - s.center.y);
    assert(r2.o.z - s2.center.z == ray.o.z - s.center.z);
    assert(quad_b(s2, r2) == quad_b(s, ray));
    assert(quad_c(s2, r2) == quad_c(s, ray));
    let n = near_root(s, ray);
    let f = far_root(s, ray);
    if t_min < n < t_max {
        assert(reaches(ray, n) && reaches(r2, n));
    }
    if t_min < f < t_max {
        assert(reaches(ray, f) && reaches(r2, f));
    }
}

/// A ray that starts at distance `dist` from the center of a sphere of
/// radius `r < dist` and heads straight for the center, with unit speed,
/// meets the front face at parameter `dist - r`.
pub proof fn lemma_hit_on_axis(s: Sphere, ray: Ray, dist: int, t_min: int, t_max: int)
    requires
        s.center == (Vec3 { x: 0, y: 0, z: 0 }),
        0 < s.radius < dist,
        ray.o.x == 0 && ray.o.y == 0 && ray.o.z == dist,
        ray.d.x == 0 && ray.d.y == 0 && ray.d.z == -SCALE,
        in_range(dist),
        t_min < dist - s.radius < t_max,
    ensures
        hit_t(s, ray, t_min, t_max) == Some(dist - s.radius),
        point_at(ray, dist - s.radius) == (Vec3 { x: 0, y: 0, z: s.radius }),
{
    let k = SCALE as int;
    let r = s.radius as int;
    let (dx, dy, dz) = (ray.d.x as int, ray.d.y as int, ray.d.z as int);
    let (ox, oy, oz) = (ray.o.x as int, ray.o.y as int, ray.o.z as int);
    assert(quad_a(ray) == dx * dx + dy * dy + dz * dz);
    assert(quad_a(ray) == k * k) by (nonlinear_arith)
        requires
            quad_a(ray) == dx * dx + dy * dy + dz * dz,
            dx == 0 && dy == 0 && dz == -k,
    ;
    assert(quad_b(s, ray) == (ox - 0) * dx + (oy - 0) * dy + (oz - 0) * dz);
    assert(quad_b(s, ray) == -(dist * k)) by (nonlinear_arith)
        requires
            quad_b(s, ray) == (ox - 0) * dx + (oy - 0) * dy + (oz - 0) * dz,
            dx == 0 && dy == 0 && dz == -k,
            ox == 0 && oy == 0 && oz == dist,
    ;
    assert(quad_c(s, ray) == (ox - 0) * (ox - 0) + (oy - 0) * (oy - 0) + (oz - 0) * (oz - 0) - r * r);
    assert(quad_c(s, ray) == dist * dist - r * r) by (nonlinear_arith)
        requires
            quad_c(s, ray) == (ox - 0) * (ox - 0) + (oy - 0) * (oy - 0) + (oz - 0) * (oz - 0) - r * r,
            ox == 0 && oy == 0 && oz == dist,
    ;
    assert(discriminant(s, ray) == (k * r) * (k * r)) by (nonlinear_arith)
        requires
            discriminant(s, ray) == quad_b(s, ray) * quad_b(s, ray) - quad_a(ray) * quad_c(s, ray),
            quad_a(ray) == k * k,
            quad_b(s, ray) == -(dist * k),
            quad_c(s, ray) == dist * dist - r * r,
    ;
    lemma_sqrt_square(k * r);
    assert(discriminant(s, ray) > 0) by (nonlinear_arith)
        requires
            discriminant(s, ray) == (k * r) * (k * r),
            k * r > 0,
    ;
    assert((-quad_b(s, ray) - k * r) * k == (k * k) * (dist - r)) by (nonlinear_arith)
        requires
            quad_b(s, ray) == -(dist * k),
    ;
    vstd::arithmetic::div_mod::lemma_div_multiples_vanish(dist - r, k * k);
    assert(near_root(s, ray) == dist - r);
    assert(dz * (dist - r) == k * (-(dist - r))) by (nonlinear_arith)
        requires
            dz == -k,
    ;
    vstd::arithmetic::div_mod::lemma_div_multiples_vanish(-(dist - r), k);
    assert(dx * (dist - r) == 0 && dy * (dist - r) == 0) by (nonlinear_arith)
        requires
            dx == 0 && dy == 0,
    ;
    assert(reaches(ray, dist - r));
}

proof fn lemma_scaled_product(o: int, k: int, d: int, dist: int)
    requires
        o * k == -(dist * d),
    ensures
        (o * d) * k == -(dist * (d * d)),
        (o * o) * (k * k) == (dist * dist) * (d * d),
{
    assert((o * d) * k == (o * k) * d) by (nonlinear_arith);
    assert((o * o) * (k * k) == (o * k) * (o * k)) by (nonlinear_arith);
    assert((dist * dist) * (d * d) == (dist * d) * (dist * d)) by (nonlinear_arith);
    assert((-(dist * d)) * d == -(dist * (d * d))) by (nonlinear_arith);
    assert((-(dist * d)) * (-(dist * d)) == (dist * d) * (dist * d)) by (nonlinear_arith);
}

/// The same for any direction: a ray with unit direction `d` that starts at
/// distance `dist` from the center of a sphere of radius `r < dist`, at the
/// point `-dist * d`, meets the front face at parameter `dist - r` (and its
/// point is reported when it lies within the coordinate range).
pub proof fn lemma_hit_toward_center(s: Sphere, ray: Ray, dist: int, t_min: int, t_max: int)
    requires
        s.center == (Vec3 { x: 0, y: 0, z: 0 }),
        0 < s.radius < dist,
        dot(ray.d, ray.d) == SCALE * SCALE,
        ray.o.x * SCALE == -(dist * ray.d.x),
        ray.o.y * SCALE == -(dist * ray.d.y),
        ray.o.z * SCALE == -(dist * ray.d.z),
        reaches(ray, dist - s.radius),
        t_min < dist - s.radius < t_max,
    ensures
        hit_t(s, ray, t_min, t_max) == Some(dist - s.radius),
{
    let k = SCALE as int;
    let r = s.radius as int;
    let (dx, dy, dz) = (ray.d.x as int, ray.d.y as int, ray.d.z as int);
    let (ox, oy, oz) = (ray.o.x as int, ray.o.y as int, ray.o.z as int);
    assert(quad_a(ray) == k * k);
    assert(quad_b(s, ray) == (ox - 0) * dx + (oy - 0) * dy + (oz - 0) * dz);
    lemma_scaled_product(ox, k, dx, dist);
    lemma_scaled_product(oy, k, dy, dist);
    lemma_scaled_product(oz, k, dz, dist);
    assert(quad_b(s, ray) * k == (ox * dx) * k + (oy * dy) * k + (oz * dz) * k) by (nonlinear_arith)
        requires
            quad_b(s, ray) == (ox - 0) * dx + (oy - 0) * dy + (oz - 0) * dz,
    ;
    assert(quad_b(s, ray) * k == -(dist * (dx * dx + dy * dy + dz * dz))) by (nonlinear_arith)
        requires
            quad_b(s, ray) * k == (ox * dx) * k + (oy * dy) * k + (oz * dz) * k,
            (ox * dx) * k == -(dist * (dx * dx)),
            (oy * dy) * k == -(dist * (dy * dy)),
            (oz * dz) * k == -(dist * (dz * dz)),
    ;
    assert(quad_b(s, ray) * k == -(dist * (k * k)));
    assert(quad_b(s, ray) == -(dist * k)) by (nonlinear_arith)
        requires
            quad_b(s, ray) * k == -(dist * (k * k)),
            k > 0,
    ;
    assert(quad_c(s, ray) == (ox - 0) * (ox - 0) + (oy - 0) * (oy - 0) + (oz - 0) * (oz - 0) - r * r);
    assert((ox * ox + oy * oy + oz * oz) * (k * k) == (dist * dist) * (dx * dx + dy * dy + dz * dz))
        by (nonlinear_arith)
        requires
            (ox * ox) * (k * k) == (dist * dist) * (dx * dx),
            (oy * oy) * (k * k) == (dist * dist) * (dy * dy),
            (oz * oz) * (k * k) == (dist * dist) * (dz * dz),
    ;
    assert((ox * ox + oy * oy + oz * oz) * (k * k) == (dist * dist) * (k * k));
    assert(ox * ox + oy * oy + oz * oz == dist * dist) by (nonlinear_arith)
        requires
            (ox * ox + oy * oy + oz * oz) * (k * k) == (dist * dist) * (k * k),
            k > 0,
    ;
    assert(quad_c(s, ray) == dist * dist - r * r) by (nonlinear_arith)
        requires
            quad_c(s, ray) == (ox - 0) * (ox - 0) + (oy - 0) * (oy - 0) + (oz - 0) * (oz - 0) - r * r,
            ox * ox + oy * oy + oz * oz == dist * dist,
    ;
    assert(discriminant(s, ray) == (k * r) * (k * r)) by (nonlinear_arith)
        requires
            discriminant(s, ray) == quad_b(s, ray) * quad_b(s, ray) - quad_a(ray) * quad_c(s, ray),
            quad_a(ray) == k * k,
            quad_b(s, ray) == -(dist * k),
            quad_c(s, ray) == dist * dist - r * r,
    ;
    lemma_sqrt_square(k * r);
    assert(discriminant(s, ray) > 0) by (nonlinear_arith)
        requires
            discriminant(s, ray) == (k * r) * (k * r),
            k * r > 0,
    ;
    assert((-quad_b(s, ray) - k * r) * k == (k * k) * (dist - r)) by (nonlinear_arith)
        requires
            quad_b(s, ray) == -(dist * k),
    ;
    vstd::arithmetic::div_mod::lemma_div_multiples_vanish(dist - r, k * k);
    assert(near_root(s, ray) == dist - r);
}

} // verus!
