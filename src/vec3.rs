//! Three-component vectors of fixed-point coordinates, used for points,
//! directions and RGB colors alike.
use vstd::prelude::*;
use crate::fixed::{clamp, clamp_wide, div_floor, floor_div, isqrt, lemma_mul_bound, sqrt_floor, LIMIT, SCALE};

verus! {

#[derive(Clone, Copy, Debug, PartialEq, Eq, Structural)]
pub struct Vec3 {
    pub x: i64,
    pub y: i64,
    pub z: i64,
}

pub open spec fn in_range(v: int) -> bool {
    -LIMIT <= v <= LIMIT
}

/// The vector whose components are the given values saturated to the range.
pub open spec fn vec_of(x: int, y: int, z: int) -> Vec3 {
    Vec3 { x: clamp(x) as i64, y: clamp(y) as i64, z: clamp(z) as i64 }
}

/// Dot product, in squared fixed-point units.
pub open spec fn dot(a: Vec3, b: Vec3) -> int {
    a.x * b.x + a.y * b.y + a.z * b.z
}

pub open spec fn vadd(a: Vec3, b: Vec3) -> Vec3 {
    vec_of(a.x + b.x, a.y + b.y, a.z + b.z)
}

pub open spec fn vsub(a: Vec3, b: Vec3) -> Vec3 {
    vec_of(a.x - b.x, a.y - b.y, a.z - b.z)
}

/// `a` times the fixed-point scalar `k`.
pub open spec fn scale(a: Vec3, k: int) -> Vec3 {
    vec_of(floor_div(a.x * k, SCALE as int), floor_div(a.y * k, SCALE as int), floor_div(a.z * k, SCALE as int))
}

/// Component-wise product of two fixed-point vectors.
pub open spec fn modulate(a: Vec3, b: Vec3) -> Vec3 {
    vec_of(floor_div(a.x * b.x, SCALE as int), floor_div(a.y * b.y, SCALE as int), floor_div(a.z * b.z, SCALE as int))
}

/// Cross product of two fixed-point vectors.
pub open spec fn cross(a: Vec3, b: Vec3) -> Vec3 {
    vec_of(
        floor_div(a.y * b.z - a.z * b.y, SCALE as int),
        floor_div(a.z * b.x - a.x * b.z, SCALE as int),
        floor_div(a.x * b.y - a.y * b.x, SCALE as int),
    )
}

/// Euclidean length in fixed-point units, rounded down.
pub open spec fn length(a: Vec3) -> int {
    sqrt_floor(dot(a, a))
}

/// `a` scaled to unit length; the zero vector stays zero.
pub open spec fn unit(a: Vec3) -> Vec3 {
    let len = length(a);
    if len == 0 {
        Vec3 { x: 0, y: 0, z: 0 }
    } else {
        vec_of(floor_div(a.x * SCALE, len), floor_div(a.y * SCALE, len), floor_div(a.z * SCALE, len))
    }
}

impl Vec3 {
    pub open spec fn wf(self) -> bool {
        in_range(self.x as int) && in_range(self.y as int) && in_range(self.z as int)
    }

    pub fn new(x: i64, y: i64, z: i64) -> (r: Vec3)
        requires
            in_range(x as int),
            in_range(y as int),
            in_range(z as int),
        ensures
            r == (Vec3 { x, y, z }),
            r.wf(),
    {
        Vec3 { x, y, z }
    }

    pub fn zero() -> (r: Vec3)
        ensures
            r == (Vec3 { x: 0, y: 0, z: 0 }),
            r.wf(),
    {
        Vec3 { x: 0, y: 0, z: 0 }
    }

    /// Builds a vector from wide components, saturating each to the range.
    pub fn from_wide(x: i128, y: i128, z: i128) -> (r: Vec3)
        ensures
            r == vec_of(x as int, y as int, z as int),
            r.wf(),
    {
        Vec3 { x: clamp_wide(x), y: clamp_wide(y), z: clamp_wide(z) }
    }

    pub fn dot(&self, o: &Vec3) -> (r: i128)
        requires
            self.wf(),
            o.wf(),
        ensures
            r == dot(*self, *o),
            -0xC00_0000_0000_0000 <= r <= 0xC00_0000_0000_0000,
    {
        proof {
            lemma_mul_bound(self.x as int, o.x as int, LIMIT as int, LIMIT as int);
            lemma_mul_bound(self.y as int, o.y as int, LIMIT as int, LIMIT as int);
            lemma_mul_bound(self.z as int, o.z as int, LIMIT as int, LIMIT as int);
        }
        self.x as i128 * o.x as i128 + self.y as i128 * o.y as i128 + self.z as i128 * o.z as i128
    }

    pub fn add(&self, o: &Vec3) -> (r: Vec3)
        requires
            self.wf(),
            o.wf(),
        ensures
            r == vadd(*self, *o),
            r.wf(),
    {
        Vec3::from_wide(
            self.x as i128 + o.x as i128,
            self.y as i128 + o.y as i128,
            self.z as i128 + o.z as i128,
        )
    }

    pub fn sub(&self, o: &Vec3) -> (r: Vec3)
        requires
            self.wf(),
            o.wf(),
        ensures
            r == vsub(*self, *o),
            r.wf(),
    {
        Vec3::from_wide(
            self.x as i128 - o.x as i128,
            self.y as i128 - o.y as i128,
            self.z as i128 - o.z as i128,
        )
    }

    /// Multiplies by the fixed-point scalar `k`.
    pub fn scale(&self, k: i64) -> (r: Vec3)
        requires
            self.wf(),
        ensures
            r == scale(*self, k as int),
            r.wf(),
    {
        proof {
            let b = 0x8000_0000_0000_0000int;
            lemma_mul_bound(self.x as int, k as int, LIMIT as int, b);
            lemma_mul_bound(self.y as int, k as int, LIMIT as int, b);
            lemma_mul_bound(self.z as int, k as int, LIMIT as int, b);
        }
        Vec3::from_wide(
            div_floor(self.x as i128 * k as i128, SCALE as i128),
            div_floor(self.y as i128 * k as i128, SCALE as i128),
            div_floor(self.z as i128 * k as i128, SCALE as i128),
        )
    }

    /// Component-wise product, as used to attenuate a color.
    pub fn modulate(&self, o: &Vec3) -> (r: Vec3)
        requires
            self.wf(),
            o.wf(),
        ensures
            r == modulate(*self, *o),
            r.wf(),
    {
        proof {
            lemma_mul_bound(self.x as int, o.x as int, LIMIT as int, LIMIT as int);
            lemma_mul_bound(self.y as int, o.y as int, LIMIT as int, LIMIT as int);
            lemma_mul_bound(self.z as int, o.z as int, LIMIT as int, LIMIT as int);
        }
        Vec3::from_wide(
            div_floor(self.x as i128 * o.x as i128, SCALE as i128),
            div_floor(self.y as i128 * o.y as i128, SCALE as i128),
            div_floor(self.z as i128 * o.z as i128, SCALE as i128),
        )
    }

    pub fn length(&self) -> (r: u64)
        requires
            self.wf(),
        ensures
            r as int == length(*self),
            crate::fixed::is_root(dot(*self, *self), r as int),
    {
        let d = self.dot(self);
        proof {
            assert(d >= 0) by (nonlinear_arith)
                requires
                    d == self.x * self.x + self.y * self.y + self.z * self.z,
            ;
        }
        isqrt(d as u128)
    }

    /// The unit vector in the direction of `self`.
    pub fn unit(&self) -> (r: Vec3)
        requires
            self.wf(),
        ensures
            r == unit(*self),
            r.wf(),
    {
        let len = self.length();
        if len == 0 {
            Vec3::zero()
        } else {
            proof {
                lemma_mul_bound(self.x as int, self.x as int, LIMIT as int, LIMIT as int);
                lemma_mul_bound(self.y as int, self.y as int, LIMIT as int, LIMIT as int);
                lemma_mul_bound(self.z as int, self.z as int, LIMIT as int, LIMIT as int);
                lemma_mul_bound(self.x as int, SCALE as int, LIMIT as int, SCALE as int);
                lemma_mul_bound(self.y as int, SCALE as int, LIMIT as int, SCALE as int);
                lemma_mul_bound(self.z as int, SCALE as int, LIMIT as int, SCALE as int);
                assert(len * len <= dot(*self, *self));
                assert(len <= 0x4000_0000) by (nonlinear_arith)
                    requires
                        len * len <= dot(*self, *self) <= 0xC00_0000_0000_0000,
                        len >= 0,
                ;
            }
            Vec3::from_wide(
                div_floor(self.x as i128 * SCALE as i128, len as i128),
                div_floor(self.y as i128 * SCALE as i128, len as i128),
                div_floor(self.z as i128 * SCALE as i128, len as i128),
            )
        }
    }

    pub fn cross(&self, o: &Vec3) -> (r: Vec3)
        requires
            self.wf(),
            o.wf(),
        ensures
            r == cross(*self, *o),
            r.wf(),
    {
        let ghost lim: int = LIMIT as int;
        proof {
            lemma_mul_bound(self.y as int, o.z as int, lim, lim);
            lemma_mul_bound(self.z as int, o.y as int, lim, lim);
            lemma_mul_bound(self.z as int, o.x as int, lim, lim);
            lemma_mul_bound(self.x as int, o.z as int, lim, lim);
            lemma_mul_bound(self.x as int, o.y as int, lim, lim);
            lemma_mul_bound(self.y as int, o.x as int, lim, lim);
        }
        let s = SCALE as i128;
        Vec3::from_wide(
            div_floor(self.y as i128 * o.z as i128 - self.z as i128 * o.y as i128, s),
            div_floor(self.z as i128 * o.x as i128 - self.x as i128 * o.z as i128, s),
            div_floor(self.x as i128 * o.y as i128 - self.y as i128 * o.x as i128, s),
        )
    }
}

} // verus!
