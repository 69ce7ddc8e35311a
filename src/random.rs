//! Random draws, from the thread-local generator of `rand`.
use rand::Rng;
use vstd::prelude::*;
use crate::fixed::{SCALE, SCALE_SQ};
use crate::vec3::{dot, Vec3};

verus! {

/// Relies on `rand::thread_rng` and `rand::Rng::gen_range`: a value drawn
/// uniformly from `0..n`; `gen_range` panics only on an empty range.
#[verifier::external_body]
pub(crate) fn random_below(n: u64) -> (r: u64)
    requires
        n > 0,
    ensures
        r < n,
{
    rand::thread_rng().gen_range(0..n)
}

/// A point strictly inside the unit ball.
pub open spec fn in_unit_ball(v: Vec3) -> bool {
    v.wf() && dot(v, v) < SCALE_SQ
}

/// Upper bound on the rejection rounds; each round succeeds with probability
/// above one half, so the bound is never reached in practice.
pub const MAX_ROUNDS: u64 = 0xffff_ffff_ffff_ffff;

/// A uniform draw from `[-1, 1)`, in fixed-point units.
fn random_unit_interval() -> (r: i64)
    ensures
        -SCALE <= r < SCALE,
{
    random_below(2 * SCALE as u64) as i64 - SCALE
}

/// The rejection step: the drawn cube point `(x, y, z)` when it lies
/// strictly inside the unit ball, and `None` otherwise.
pub fn cube_point_in_ball(x: i64, y: i64, z: i64) -> (r: Option<Vec3>)
    requires
        -SCALE <= x < SCALE,
        -SCALE <= y < SCALE,
        -SCALE <= z < SCALE,
    ensures
        r == (if dot(Vec3 { x, y, z }, Vec3 { x, y, z }) < SCALE_SQ {
            Some(Vec3 { x, y, z })
        } else {
            None
        }),
        r matches Some(p) ==> in_unit_ball(p),
{
    let p = Vec3::new(x, y, z);
    if p.dot(&p) < SCALE_SQ {
        Some(p)
    } else {
        None
    }
}

/// A point of the unit ball by rejection: points of the cube `[-1, 1)^3` are
/// drawn until one falls strictly inside the ball.
pub fn random_point_in_unit_sphere() -> (r: Vec3)
    ensures
        in_unit_ball(r),
{
    let mut round: u64 = 0;
    while round < MAX_ROUNDS
        decreases MAX_ROUNDS - round,
    {
        let x = random_unit_interval();
        let y = random_unit_interval();
        let z = random_unit_interval();
        if let Some(p) = cube_point_in_ball(x, y, z) {
            return p;
        }
        round = round + 1;
    }
    Vec3::zero()
}

/// A point of the unit disk in the plane `z = 0`, by the same rejection.
pub fn random_point_in_unit_disk() -> (r: Vec3)
    ensures
        in_unit_ball(r),
        r.z == 0,
{
    let mut round: u64 = 0;
    while round < MAX_ROUNDS
        decreases MAX_ROUNDS - round,
    {
        let x = random_unit_interval();
        let y = random_unit_interval();
        if let Some(p) = cube_point_in_ball(x, y, 0) {
            return p;
        }
        round = round + 1;
    }
    Vec3::zero()
}

/// A uniform draw from `[0, 1)`, in fixed-point units.
pub fn random_fraction() -> (r: i64)
    ensures
        0 <= r < SCALE,
{
    random_below(SCALE as u64) as i64
}

} // verus!
