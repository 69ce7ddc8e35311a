//! Rays: an origin and a direction, evaluated at a fixed-point parameter.
use vstd::prelude::*;
use crate::fixed::{div_floor, floor_div, lemma_mul_bound, LIMIT, SCALE};
use crate::vec3::{in_range, vec_of, Vec3};

verus! {

#[derive(Clone, Copy, Debug, PartialEq, Eq, Structural)]
pub struct Ray {
    pub o: Vec3,
    pub d: Vec3,
}

/// The point `o + t * d`, saturated to the coordinate range.
pub open spec fn point_at(ray: Ray, t: int) -> Vec3 {
    vec_of(
        ray.o.x + floor_div(ray.d.x * t, SCALE as int),
        ray.o.y + floor_div(ray.d.y * t, SCALE as int),
        ray.o.z + floor_div(ray.d.z * t, SCALE as int),
    )
}

/// The point at parameter `t` lies within the coordinate range, so
/// `point_at` reports it exactly.
pub open spec fn reaches(ray: Ray, t: int) -> bool {
    in_range(ray.o.x + floor_div(ray.d.x * t, SCALE as int))
        && in_range(ray.o.y + floor_div(ray.d.y * t, SCALE as int))
        && in_range(ray.o.z + floor_div(ray.d.z * t, SCALE as int))
}

impl Ray {
    pub open spec fn wf(self) -> bool {
        self.o.wf() && self.d.wf()
    }

    pub fn new(o: Vec3, d: Vec3) -> (r: Ray)
        requires
            o.wf(),
            d.wf(),
        ensures
            r == (Ray { o, d }),
            r.wf(),
    {
        Ray { o, d }
    }

    pub fn origin(&self) -> (r: Vec3)
        ensures
            r == self.o,
    {
        self.o
    }

    pub fn direction(&self) -> (r: Vec3)
        ensures
            r == self.d,
    {
        self.d
    }

    pub fn at(&self, t: i64) -> (r: Vec3)
        requires
            self.wf(),
        ensures
            r == point_at(*self, t as int),
            r.wf(),
    {
        proof {
            let b = 0x8000_0000_0000_0000int;
            lemma_mul_bound(self.d.x as int, t as int, LIMIT as int, b);
            lemma_mul_bound(self.d.y as int, t as int, LIMIT as int, b);
            lemma_mul_bound(self.d.z as int, t as int, LIMIT as int, b);
        }
        Vec3::from_wide(
            self.o.x as i128 + div_floor(self.d.x as i128 * t as i128, SCALE as i128),
            self.o.y as i128 + div_floor(self.d.y as i128 * t as i128, SCALE as i128),
            self.o.z as i128 + div_floor(self.d.z as i128 * t as i128, SCALE as i128),
        )
    }

    /// Whether the point at parameter `t` lies within the coordinate range.
    pub fn reaches(&self, t: i64) -> (r: bool)
        requires
            self.wf(),
        ensures
            r == reaches(*self, t as int),
    {
        proof {
            let b = 0x8000_0000_0000_0000int;
            lemma_mul_bound(self.d.x as int, t as int, LIMIT as int, b);
            lemma_mul_bound(self.d.y as int, t as int, LIMIT as int, b);
            lemma_mul_bound(self.d.z as int, t as int, LIMIT as int, b);
        }
        let lim = LIMIT as i128;
        let x = self.o.x as i128 + div_floor(self.d.x as i128 * t as i128, SCALE as i128);
        let y = self.o.y as i128 + div_floor(self.d.y as i128 * t as i128, SCALE as i128);
        let z = self.o.z as i128 + div_floor(self.d.z as i128 * t as i128, SCALE as i128);
        -lim <= x && x <= lim && -lim <= y && y <= lim && -lim <= z && z <= lim
    }
}

} // verus!
