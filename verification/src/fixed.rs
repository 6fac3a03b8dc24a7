//! Fixed-point scalars.
//!
//! Every numeric quantity of the graph engine (edge weights, coordinates,
//! severities, the layout parameters) is an `i64` counting millionths:
//! the value `v` stands for the number `v / 1_000_000`.  All operations
//! saturate at the ends of the `i64` range, so none of them can overflow.
use vstd::prelude::*;

verus! {

/// The representation of the number one.
pub const SCALE: i64 = 1_000_000;

/// The representation of one hundredth, the softening constant of the layout.
pub const HUNDREDTH: i64 = 10_000;

/// `x` forced into the `i64` range.
pub open spec fn saturate(x: int) -> int {
    if x < i64::MIN as int {
        i64::MIN as int
    } else if x > i64::MAX as int {
        i64::MAX as int
    } else {
        x
    }
}

/// `a / b` rounded toward zero, for a positive divisor.
pub open spec fn quot(a: int, b: int) -> int
    recommends
        b > 0,
{
    if a >= 0 {
        a / b
    } else {
        -((-a) / b)
    }
}

/// Saturating sum.
pub open spec fn add_spec(a: int, b: int) -> int {
    saturate(a + b)
}

/// Saturating difference.
pub open spec fn sub_spec(a: int, b: int) -> int {
    saturate(a - b)
}

/// Saturating fixed-point product: `a * b / SCALE`, rounded toward zero.
pub open spec fn mul_spec(a: int, b: int) -> int {
    saturate(quot(a * b, SCALE as int))
}

/// Saturating fixed-point quotient: `a * SCALE / b`, rounded toward zero.
/// A division by zero saturates in the direction of the dividend's sign.
pub open spec fn div_spec(a: int, b: int) -> int {
    if b == 0 {
        if a > 0 {
            i64::MAX as int
        } else if a < 0 {
            i64::MIN as int
        } else {
            0
        }
    } else if b > 0 {
        saturate(quot(a * SCALE, b))
    } else {
        saturate(quot(-a * SCALE, -b))
    }
}

/// The integer square root: the largest `r` with `r * r <= x`.
pub open spec fn isqrt(x: int) -> int
    decreases x,
{
    if x <= 0 {
        0
    } else {
        let r = 2 * isqrt(x / 4);
        if (r + 1) * (r + 1) <= x {
            r + 1
        } else {
            r
        }
    }
}

/// Fixed-point square root, zero for a negative argument.
pub open spec fn sqrt_spec(a: int) -> int {
    if a <= 0 {
        0
    } else {
        isqrt(a * SCALE)
    }
}

/// `x` forced into `[lo, hi]`; `lo` wins where the interval is empty.
pub open spec fn clamp_spec(x: int, lo: int, hi: int) -> int {
    if x < lo {
        lo
    } else if x > hi {
        if hi < lo { lo } else { hi }
    } else {
        x
    }
}

/// The integer square root brackets its argument.
pub proof fn lemma_isqrt_bounds(x: int)
    requires
        x >= 0,
    ensures
        isqrt(x) >= 0,
        isqrt(x) * isqrt(x) <= x,
        x < (isqrt(x) + 1) * (isqrt(x) + 1),
    decreases x,
{
    if x > 0 {
        let q = x / 4;
        lemma_isqrt_bounds(q);
        let h = isqrt(q);
        let r = 2 * h;
        assert(4 * q <= x < 4 * q + 4);
        assert(r * r == 4 * (h * h)) by (nonlinear_arith)
            requires
                r == 2 * h,
        ;
        assert((r + 2) * (r + 2) == 4 * ((h + 1) * (h + 1))) by (nonlinear_arith)
            requires
                r == 2 * h,
        ;
        assert((r + 1) * (r + 1) < (r + 2) * (r + 2)) by (nonlinear_arith)
            requires
                r >= 0,
        ;
        assert((r + 1 + 1) * (r + 1 + 1) == (r + 2) * (r + 2));
    }
}

fn saturate_wide(x: i128) -> (r: i64)
    ensures
        r == saturate(x as int),
{
    if x < i64::MIN as i128 {
        i64::MIN
    } else if x > i64::MAX as i128 {
        i64::MAX
    } else {
        x as i64
    }
}

fn quot_wide(a: i128, b: i128) -> (r: i128)
    requires
        b > 0,
        a > i128::MIN,
    ensures
        r == quot(a as int, b as int),
        a >= 0 ==> 0 <= r <= a,
        a < 0 ==> a <= r <= 0,
{
    if a >= 0 {
        let m: u128 = a as u128;
        let d: u128 = b as u128;
        let q: u128 = m / d;
        assert(q <= m) by (nonlinear_arith)
            requires
                q == m / d,
                d > 0,
        ;
        q as i128
    } else {
        let m: u128 = (-a) as u128;
        let d: u128 = b as u128;
        let q: u128 = m / d;
        assert(q <= m) by (nonlinear_arith)
            requires
                q == m / d,
                d > 0,
        ;
        -(q as i128)
    }
}

/// Saturating sum of two scalars.
pub fn fx_add(a: i64, b: i64) -> (r: i64)
    ensures
        r == add_spec(a as int, b as int),
{
    saturate_wide(a as i128 + b as i128)
}

/// Saturating difference of two scalars.
pub fn fx_sub(a: i64, b: i64) -> (r: i64)
    ensures
        r == sub_spec(a as int, b as int),
{
    saturate_wide(a as i128 - b as i128)
}

/// Saturating product of two scalars.
pub fn fx_mul(a: i64, b: i64) -> (r: i64)
    ensures
        r == mul_spec(a as int, b as int),
{
    let wa: i128 = a as i128;
    let wb: i128 = b as i128;
    assert(-0x4000_0000_0000_0000_0000_0000_0000_0000 <= wa * wb
        <= 0x4000_0000_0000_0000_0000_0000_0000_0000) by (nonlinear_arith)
        requires
            -0x8000_0000_0000_0000 <= wa <= 0x8000_0000_0000_0000,
            -0x8000_0000_0000_0000 <= wb <= 0x8000_0000_0000_0000,
    ;
    let p: i128 = wa * wb;
    saturate_wide(quot_wide(p, SCALE as i128))
}

/// Saturating quotient of two scalars.
pub fn fx_div(a: i64, b: i64) -> (r: i64)
    ensures
        r == div_spec(a as int, b as int),
{
    if b == 0 {
        if a > 0 {
            i64::MAX
        } else if a < 0 {
            i64::MIN
        } else {
            0
        }
    } else if b > 0 {
        let n: i128 = (a as i128) * 1_000_000;
        saturate_wide(quot_wide(n, b as i128))
    } else {
        let n: i128 = -(a as i128) * 1_000_000;
        saturate_wide(quot_wide(n, -(b as i128)))
    }
}

fn isqrt_wide(x: u128) -> (r: u128)
    requires
        x < 0x1_0000_0000_0000_0000_0000_0000,
    ensures
        r == isqrt(x as int),
        r < 0x1_0000_0000_0000,
    decreases x,
{
    if x == 0 {
        0
    } else {
        let h: u128 = isqrt_wide(x / 4);
        let r: u128 = 2 * h;
        proof {
            lemma_isqrt_bounds(x as int);
            let s = isqrt(x as int);
            if s >= 0x1_0000_0000_0000 {
                assert(s * s >= 0x1_0000_0000_0000 * 0x1_0000_0000_0000) by (nonlinear_arith)
                    requires
                        s >= 0x1_0000_0000_0000,
                ;
            }
        }
        assert((r + 1) * (r + 1) < 0x1_0000_0000_0000_0000_0000_0000_0000) by (nonlinear_arith)
            requires
                r < 0x2_0000_0000_0000,
        ;
        if (r + 1) * (r + 1) <= x {
            r + 1
        } else {
            r
        }
    }
}

/// Square root of a scalar; zero for a negative argument.
pub fn fx_sqrt(a: i64) -> (r: i64)
    ensures
        r == sqrt_spec(a as int),
        r >= 0,
{
    if a <= 0 {
        0
    } else {
        let x: u128 = (a as u128) * 1_000_000;
        let r: u128 = isqrt_wide(x);
        r as i64
    }
}

/// `x` forced into `[lo, hi]`.
pub fn fx_clamp(x: i64, lo: i64, hi: i64) -> (r: i64)
    ensures
        r == clamp_spec(x as int, lo as int, hi as int),
{
    if x < lo {
        lo
    } else if x > hi {
        if hi < lo { lo } else { hi }
    } else {
        x
    }
}

/// The larger of two scalars.
pub fn fx_max(a: i64, b: i64) -> (r: i64)
    ensures
        r == if a >= b { a } else { b },
{
    if a >= b { a } else { b }
}

} // verus!
