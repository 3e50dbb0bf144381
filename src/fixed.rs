//! Saturating fixed-point scalars.
//!
//! A scalar is an `i64` counting `1 / SCALE` units. Scalars and vector components stay within
//! `[-LIMIT, LIMIT]` (2^28 raw units, about 26843 world units): small enough that the exact
//! discriminant of a ray-sphere quadratic, a polynomial of degree four in coordinates, fits in
//! an `i128`. Results beyond the range saturate at its ends.
use vstd::prelude::*;

verus! {

/// Raw units per world unit.
pub const SCALE: i64 = 10000;

/// Largest magnitude of a scalar or vector component, in raw units (2^28).
pub const LIMIT: i64 = 268435456;

/// Largest magnitude of a ray parameter, in raw units.
pub const PARAM_LIMIT: i64 = 0x4000_0000_0000_0000;

/// Clamps a ray parameter into `[-PARAM_LIMIT, PARAM_LIMIT]`.
pub open spec fn param_sat(v: int) -> int {
    if v > PARAM_LIMIT {
        PARAM_LIMIT as int
    } else if v < -PARAM_LIMIT {
        -PARAM_LIMIT
    } else {
        v
    }
}

/// Clamps `v` into `[-LIMIT, LIMIT]`.
pub open spec fn sat(v: int) -> int {
    if v > LIMIT {
        LIMIT as int
    } else if v < -LIMIT {
        -LIMIT
    } else {
        v
    }
}

/// `v` is a representable scalar.
pub open spec fn in_range(v: int) -> bool {
    -LIMIT <= v <= LIMIT
}

/// Saturates `v` into `[-LIMIT, LIMIT]`.
pub fn saturate(v: i128) -> (r: i64)
    ensures
        r == sat(v as int),
{
    if v > LIMIT as i128 {
        LIMIT
    } else if v < -(LIMIT as i128) {
        -LIMIT
    } else {
        v as i64
    }
}

pub fn saturate_param(v: i128) -> (r: i64)
    ensures
        r == param_sat(v as int),
{
    if v > PARAM_LIMIT as i128 {
        PARAM_LIMIT
    } else if v < -(PARAM_LIMIT as i128) {
        -PARAM_LIMIT
    } else {
        v as i64
    }
}

/// Division rounding toward negative infinity.
pub fn div_floor(n: i128, d: i128) -> (q: i128)
    requires
        0 < d < 0x4000_0000_0000_0000_0000_0000_0000_0000,
        -0x4000_0000_0000_0000_0000_0000_0000_0000 < n < 0x4000_0000_0000_0000_0000_0000_0000_0000,
    ensures
        q == n as int / d as int,
{
    if n >= 0 {
        n / d
    } else {
        let m = -n;
        let c = (m + d - 1) / d;
        proof {
            let cm = (m + d - 1) as int;
            vstd::arithmetic::div_mod::lemma_fundamental_div_mod(cm, d as int);
            let r = cm % (d as int);
            assert(0 <= r < d);
            assert(c == cm / (d as int));
            assert(cm == d * c + r);
            assert((-(c as int)) * d == -(d * c)) by (nonlinear_arith);
            assert(0 <= c * d - m < d) by (nonlinear_arith)
                requires
                    cm == d * c + r,
                    0 <= r < d,
                    cm == m + d - 1,
            ;
            vstd::arithmetic::div_mod::lemma_fundamental_div_mod_converse(
                n as int,
                d as int,
                -(c as int),
                c * d - m,
            );
        }
        -c
    }
}

/// Largest radicand accepted by `isqrt` (exclusive): `2^124`.
pub const RADICAND_BOUND: u128 = 0x1000_0000_0000_0000_0000_0000_0000_0000;

pub open spec fn is_sqrt_floor(n: int, r: int) -> bool {
    0 <= r && r * r <= n < (r + 1) * (r + 1)
}

/// The integer square root, rounded down.
pub open spec fn sqrt_floor(n: int) -> int {
    choose|r: int| is_sqrt_floor(n, r)
}

pub proof fn lemma_sqrt_floor_unique(n: int, r1: int, r2: int)
    requires
        is_sqrt_floor(n, r1),
        is_sqrt_floor(n, r2),
    ensures
        r1 == r2,
{
    if r1 < r2 {
        assert((r1 + 1) * (r1 + 1) <= r2 * r2) by (nonlinear_arith)
            requires
                0 <= r1 < r2,
        ;
    } else if r2 < r1 {
        assert((r2 + 1) * (r2 + 1) <= r1 * r1) by (nonlinear_arith)
            requires
                0 <= r2 < r1,
        ;
    }
}

/// Any witness of `is_sqrt_floor` is the value of `sqrt_floor`.
pub proof fn lemma_sqrt_floor_is(n: int, r: int)
    requires
        is_sqrt_floor(n, r),
    ensures
        sqrt_floor(n) == r,
{
    let c = sqrt_floor(n);
    assert(is_sqrt_floor(n, c));
    lemma_sqrt_floor_unique(n, r, c);
}

/// Integer square root by bisection.
pub fn isqrt(n: u128) -> (r: u128)
    requires
        n < RADICAND_BOUND,
    ensures
        is_sqrt_floor(n as int, r as int),
        r == sqrt_floor(n as int),
{
    let mut lo: u128 = 0;
    let mut hi: u128 = 0x4000_0000_0000_0000;
    assert(n < hi * hi);
    while hi - lo > 1
        invariant
            lo < hi <= 0x4000_0000_0000_0000,
            lo * lo <= n,
            n < hi * hi,
        decreases hi - lo,
    {
        let mid = lo + (hi - lo) / 2;
        assert(mid * mid < 0x1000_0000_0000_0000_0000_0000_0000_0000) by (nonlinear_arith)
            requires
                mid < 0x4000_0000_0000_0000,
        ;
        if mid * mid <= n {
            lo = mid;
        } else {
            hi = mid;
        }
    }
    assert(hi == lo + 1);
    proof {
        lemma_sqrt_floor_is(n as int, lo as int);
    }
    lo
}

pub proof fn lemma_prod_bound(a: int, b: int, m: int, k: int)
    requires
        -m <= a <= m,
        -k <= b <= k,
    ensures
        -(m * k) <= a * b <= m * k,
{
    assert(-(m * k) <= a * b <= m * k) by (nonlinear_arith)
        requires
            -m <= a <= m,
            -k <= b <= k,
    ;
}

/// Product of two scalars: `sat(floor(a * b / SCALE))`.
pub open spec fn fmul(a: int, b: int) -> int {
    sat(a * b / SCALE as int)
}

pub fn fx_mul(a: i64, b: i64) -> (r: i64)
    requires
        in_range(a as int),
        in_range(b as int),
    ensures
        r == fmul(a as int, b as int),
{
    proof {
        lemma_prod_bound(a as int, b as int, LIMIT as int, LIMIT as int);
    }
    let p = (a as i128) * (b as i128);
    saturate(div_floor(p, SCALE as i128))
}

pub fn fx_add(a: i64, b: i64) -> (r: i64)
    requires
        in_range(a as int),
        in_range(b as int),
    ensures
        r == sat(a + b),
{
    saturate(a as i128 + b as i128)
}

pub fn fx_sub(a: i64, b: i64) -> (r: i64)
    requires
        in_range(a as int),
        in_range(b as int),
    ensures
        r == sat(a - b),
{
    saturate(a as i128 - b as i128)
}

/// `x` raised to the power `e`, by repeated squaring; `SCALE` stands for one.
pub open spec fn fpow(x: int, e: nat) -> int
    decreases e,
{
    if e == 0 {
        SCALE as int
    } else {
        let h = fpow(x, e / 2);
        let h2 = fmul(h, h);
        if e % 2 == 1 {
            fmul(h2, x)
        } else {
            h2
        }
    }
}

pub fn fx_pow(x: i64, e: u32) -> (r: i64)
    requires
        in_range(x as int),
    ensures
        r == fpow(x as int, e as nat),
        in_range(r as int),
    decreases e,
{
    if e == 0 {
        SCALE
    } else {
        let h = fx_pow(x, e / 2);
        let h2 = fx_mul(h, h);
        if e % 2 == 1 {
            fx_mul(h2, x)
        } else {
            h2
        }
    }
}

} // verus!
