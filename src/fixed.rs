//! Fixed-point scalars: a real number `x` is stored as the integer nearest
//! below `x * SCALE`. Coordinates are kept within `[-LIMIT, LIMIT]`, which
//! leaves room for every intermediate product in `i128`.
use vstd::prelude::*;

verus! {

/// Number of fixed-point units in one world unit.
pub const SCALE: i64 = 65536;

/// `SCALE * SCALE`: one, in squared fixed-point units.
pub const SCALE_SQ: i128 = 4294967296;

/// Largest magnitude of a coordinate, in fixed-point units (8192 world units).
pub const LIMIT: i64 = 536870912;

/// Saturates a value to the coordinate range.
pub open spec fn clamp(v: int) -> int {
    if v > LIMIT {
        LIMIT as int
    } else if v < -LIMIT {
        -LIMIT
    } else {
        v
    }
}

/// `n / d` rounded towards negative infinity, for a divisor of either sign.
pub open spec fn floor_div(n: int, d: int) -> int {
    if d > 0 {
        n / d
    } else {
        (-n) / (-d)
    }
}

/// `r` is the integer square root of `n`: the largest `r` with `r * r <= n`.
pub open spec fn is_root(n: int, r: int) -> bool {
    0 <= r && r * r <= n && n < (r + 1) * (r + 1)
}

/// The integer square root of `n`.
pub open spec fn sqrt_floor(n: int) -> int {
    choose|r: int| is_root(n, r)
}

pub proof fn lemma_mul_bound(x: int, y: int, bx: int, by: int)
    requires
        -bx <= x <= bx,
        -by <= y <= by,
    ensures
        -(bx * by) <= x * y <= bx * by,
{
    assert(-(bx * by) <= x * y <= bx * by) by (nonlinear_arith)
        requires
            -bx <= x <= bx,
            -by <= y <= by,
    ;
}

/// Dividing by `d` shrinks a bound `b * d` to `b`.
pub proof fn lemma_div_bound(n: int, d: int, b: int)
    requires
        d > 0,
        -(b * d) <= n <= b * d,
    ensures
        -b <= n / d <= b,
{
    vstd::arithmetic::div_mod::lemma_div_is_ordered(n, b * d, d);
    vstd::arithmetic::div_mod::lemma_div_is_ordered(-(b * d), n, d);
    vstd::arithmetic::div_mod::lemma_div_multiples_vanish(b, d);
    vstd::arithmetic::div_mod::lemma_div_multiples_vanish(-b, d);
    assert(d * b == b * d) by (nonlinear_arith);
    assert(d * (-b) == -(b * d)) by (nonlinear_arith);
}

proof fn lemma_root_unique(n: int, r1: int, r2: int)
    requires
        is_root(n, r1),
        is_root(n, r2),
    ensures
        r1 == r2,
{
    if r1 < r2 {
        assert((r1 + 1) * (r1 + 1) <= r2 * r2) by (nonlinear_arith)
            requires
                0 <= r1 + 1 <= r2,
        ;
    } else if r2 < r1 {
        assert((r2 + 1) * (r2 + 1) <= r1 * r1) by (nonlinear_arith)
            requires
                0 <= r2 + 1 <= r1,
        ;
    }
}

pub proof fn lemma_sqrt_floor(n: int, r: int)
    requires
        is_root(n, r),
    ensures
        sqrt_floor(n) == r,
{
    lemma_root_unique(n, r, sqrt_floor(n));
}

/// Every non-negative integer has an integer square root.
pub proof fn lemma_sqrt_floor_root(n: int)
    requires
        0 <= n,
    ensures
        is_root(n, sqrt_floor(n)),
    decreases n,
{
    if n == 0 {
        assert(is_root(0, 0));
    } else {
        lemma_sqrt_floor_root(n - 1);
        let r = sqrt_floor(n - 1);
        if (r + 1) * (r + 1) <= n {
            assert(n < (r + 2) * (r + 2)) by (nonlinear_arith)
                requires
                    n - 1 < (r + 1) * (r + 1),
                    0 <= r,
            ;
            assert(is_root(n, r + 1));
        } else {
            assert(is_root(n, r));
        }
    }
}

/// The square root of a perfect square is exact.
pub proof fn lemma_sqrt_square(k: int)
    requires
        0 <= k,
    ensures
        sqrt_floor(k * k) == k,
{
    assert(k * k < (k + 1) * (k + 1)) by (nonlinear_arith)
        requires
            0 <= k,
    ;
    lemma_sqrt_floor(k * k, k);
}

/// A product of nonnegative fixed-point numbers stays below the bound of the
/// first when the second is at most one.
pub proof fn lemma_product_le(a: int, b: int, bound: int)
    requires
        0 <= a <= bound,
        0 <= b <= SCALE,
    ensures
        0 <= (a * b) / (SCALE as int) <= bound,
{
    assert(0 <= a * b <= bound * SCALE) by (nonlinear_arith)
        requires
            0 <= a <= bound,
            0 <= b <= SCALE,
    ;
    lemma_div_bound(a * b, SCALE as int, bound);
    vstd::arithmetic::div_mod::lemma_div_pos_is_pos(a * b, SCALE as int);
}

/// Product of two fixed-point numbers, rounded down.
pub fn mul_fixed(a: i128, b: i128) -> (r: i128)
    requires
        -0x100_0000_0000 <= a <= 0x100_0000_0000,
        -0x100_0000_0000 <= b <= 0x100_0000_0000,
    ensures
        r == floor_div(a * b, SCALE as int),
{
    proof {
        lemma_mul_bound(a as int, b as int, 0x100_0000_0000, 0x100_0000_0000);
    }
    div_floor(a * b, SCALE as i128)
}

/// `v` limited to `[lo, hi]`.
pub open spec fn clamp_between(v: int, lo: int, hi: int) -> int {
    if v < lo {
        lo
    } else if v > hi {
        hi
    } else {
        v
    }
}

/// Integer square root by bisection.
pub fn isqrt(n: u128) -> (r: u64)
    ensures
        r as int == sqrt_floor(n as int),
        is_root(n as int, r as int),
{
    let mut lo: u128 = 0;
    let mut hi: u128 = 0x1_0000_0000_0000_0000;
    assert(n < hi * hi) by (nonlinear_arith)
        requires
            hi == 0x1_0000_0000_0000_0000u128,
            n < 0x1_0000_0000_0000_0000_0000_0000_0000_0000int,
    ;
    while hi - lo > 1
        invariant
            lo < hi <= 0x1_0000_0000_0000_0000u128,
            lo * lo <= n,
            n < hi * hi,
        decreases hi - lo,
    {
        let mid: u128 = lo + (hi - lo) / 2;
        assert(mid * mid < 0x1_0000_0000_0000_0000_0000_0000_0000_0000int) by (nonlinear_arith)
            requires
                mid < 0x1_0000_0000_0000_0000int,
        ;
        if mid * mid <= n {
            lo = mid;
        } else {
            hi = mid;
        }
    }
    assert(hi == lo + 1);
    proof {
        lemma_sqrt_floor(n as int, lo as int);
    }
    lo as u64
}

/// Floor division of wide values.
pub fn div_floor(n: i128, d: i128) -> (r: i128)
    requires
        d != 0,
        -0x1_0000_0000_0000_0000_0000_0000 < n < 0x1_0000_0000_0000_0000_0000_0000,
        -0x1_0000_0000_0000_0000_0000_0000 < d < 0x1_0000_0000_0000_0000_0000_0000,
    ensures
        r == floor_div(n as int, d as int),
{
    let (m, e) = if d > 0 {
        (n, d)
    } else {
        (-n, -d)
    };
    if m >= 0 {
        m / e
    } else {
        let q: i128 = (-m) / e;
        let rem: i128 = (-m) % e;
        proof {
            vstd::arithmetic::div_mod::lemma_fundamental_div_mod(-m as int, e as int);
            vstd::arithmetic::div_mod::lemma_mod_pos_bound(-m as int, e as int);
        }
        if rem == 0 {
            proof {
                assert(m == (-q) * e + 0) by (nonlinear_arith)
                    requires
                        -m == e * q + rem,
                        rem == 0,
                ;
                vstd::arithmetic::div_mod::lemma_fundamental_div_mod_converse(
                    m as int,
                    e as int,
                    -q,
                    0,
                );
            }
            -q
        } else {
            proof {
                assert(m == (-q - 1) * e + (e - rem)) by (nonlinear_arith)
                    requires
                        -m == e * q + rem,
                ;
                vstd::arithmetic::div_mod::lemma_fundamental_div_mod_converse(
                    m as int,
                    e as int,
                    -q - 1,
                    e - rem,
                );
            }
            -q - 1
        }
    }
}

/// Saturates a wide value to the coordinate range.
pub fn clamp_wide(v: i128) -> (r: i64)
    ensures
        r == clamp(v as int),
{
    if v > LIMIT as i128 {
        LIMIT
    } else if v < -(LIMIT as i128) {
        -LIMIT
    } else {
        v as i64
    }
}

} // verus!
