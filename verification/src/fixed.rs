//! Fixed-point arithmetic for world-space quantities.
//!
//! World positions, distances, speeds and timers are `i64` values scaled by
//! [`FP_ONE`]: the value `v` stands for the real quantity `v / FP_ONE`.
//! One grid cell spans `block_size * FP_ONE` fixed units when `block_size`
//! is the cell size in world units.

use vstd::prelude::*;

verus! {

/// Fixed-point unit: the representation of 1.0.
pub const FP_ONE: i64 = 1024;

/// A 2D world-space vector in fixed-point units.
#[derive(Clone, Copy, Debug, PartialEq, Eq, Structural)]
pub struct Vec2 {
    pub x: i64,
    pub y: i64,
}

impl Vec2 {
    pub fn new(x: i64, y: i64) -> (r: Vec2)
        ensures
            r.x == x,
            r.y == y,
    {
        Vec2 { x, y }
    }
}

/// Absolute value, for specifications.
pub open spec fn abs_i(v: int) -> int {
    if v < 0 { -v } else { v }
}

/// `v * num / den` rounded toward zero, as the float expression
/// `v as f32 * (num as f32 / den as f32)` would round when exact.
pub open spec fn spec_scale(v: int, num: int, den: int) -> int {
    if v >= 0 {
        (v * num) / den
    } else {
        -(((-v) * num) / den)
    }
}

/// Scale a fixed-point value by the ratio `num / den`, rounding toward zero.
pub fn scale(v: i64, num: i64, den: i64) -> (r: i64)
    requires
        0 < den,
        0 <= num <= 0x8000000, // 2^27
        -0x80000000 <= v <= 0x80000000, // 2^31
    ensures
        r == spec_scale(v as int, num as int, den as int),
        v >= 0 ==> 0 <= r <= v * num / (den as int),
        v < 0 ==> r <= 0,
{
    if v >= 0 {
        proof {
            assert(v * num <= 0x80000000 * 0x8000000) by (nonlinear_arith)
                requires 0 <= v <= 0x80000000, 0 <= num <= 0x8000000;
        }
        let p: u64 = (v as u64) * (num as u64);
        let q: u64 = p / (den as u64);
        proof {
            assert((v * num) / (den as int) <= v * num) by (nonlinear_arith)
                requires 0 <= v * num, 0 < den;
        }
        q as i64
    } else {
        let a: u64 = (-v) as u64;
        proof {
            assert((-v) * num <= 0x80000000 * 0x8000000) by (nonlinear_arith)
                requires 0 < -v <= 0x80000000, 0 <= num <= 0x8000000;
        }
        let p: u64 = a * (num as u64);
        let q: u64 = p / (den as u64);
        proof {
            assert(((-v) * num) / (den as int) <= (-v) * num) by (nonlinear_arith)
                requires 0 <= (-v) * num, 0 < den;
        }
        -(q as i64)
    }
}

/// Scaling a value of magnitude at most `c * den` by `num / den` yields a
/// value of magnitude at most `c * num`.
pub proof fn lemma_scale_le(v: int, num: int, den: int, c: int)
    requires
        0 < den,
        0 <= num,
        0 <= c,
        -(c * den) <= v <= c * den,
    ensures
        -(c * num) <= spec_scale(v, num, den) <= c * num,
{
    let a = if v >= 0 { v } else { -v };
    let q = (a * num) / den;
    vstd::arithmetic::div_mod::lemma_fundamental_div_mod(a * num, den);
    assert(a * num >= 0) by (nonlinear_arith)
        requires 0 <= a, 0 <= num;
    assert(a * num <= (c * den) * num) by (nonlinear_arith)
        requires 0 <= a <= c * den, 0 <= num;
    assert(0 <= q <= c * num) by (nonlinear_arith)
        requires
            a * num == den * q + ((a * num) % den),
            0 <= ((a * num) % den) < den,
            0 < den,
            0 <= a * num,
            a * num <= (c * den) * num;
}

/// `d` is the integer square root of `n`.
pub open spec fn is_isqrt(d: int, n: int) -> bool {
    0 <= d && d * d <= n < (d + 1) * (d + 1)
}

/// The integer square root is unique.
pub proof fn lemma_isqrt_unique(d1: int, d2: int, n: int)
    requires
        is_isqrt(d1, n),
        is_isqrt(d2, n),
    ensures
        d1 == d2,
{
    assert(d1 == d2) by (nonlinear_arith)
        requires
            0 <= d1 && d1 * d1 <= n < (d1 + 1) * (d1 + 1),
            0 <= d2 && d2 * d2 <= n < (d2 + 1) * (d2 + 1);
}

/// Integer square root: the largest `r` with `r * r <= n`.
pub fn isqrt(n: u64) -> (r: u64)
    requires
        n < 0x4000000000000000, // 2^62
    ensures
        r * r <= n,
        n < (r + 1) * (r + 1),
        is_isqrt(r as int, n as int),
        r <= 0x80000000,
{
    let mut lo: u64 = 0;
    let mut hi: u64 = 0x80000000; // 2^31, so hi * hi = 2^62 > n
    while lo + 1 < hi
        invariant
            lo < hi <= 0x80000000,
            lo * lo <= n,
            n < hi * hi,
        decreases hi - lo,
    {
        let mid: u64 = lo + (hi - lo) / 2;
        proof {
            assert(mid * mid <= 0x80000000u64 * 0x80000000u64) by (nonlinear_arith)
                requires 0 <= mid <= 0x80000000u64;
        }
        if mid * mid <= n {
            lo = mid;
        } else {
            hi = mid;
        }
    }
    lo
}


/// Fixed-point half pi.
pub const HALF_PI_FP: i64 = 1608;

/// Fixed-point pi.
pub const PI_FP: i64 = 3217;

/// Fixed-point two pi.
pub const TAU_FP: i64 = 6434;

/// `a * b / FP_ONE` rounded toward zero: the product of two fixed-point
/// values.
pub open spec fn spec_mul_fp(a: int, b: int) -> int {
    if a * b >= 0 {
        (a * b) / (FP_ONE as int)
    } else {
        -((-(a * b)) / (FP_ONE as int))
    }
}

/// Multiply two fixed-point values.
pub fn mul_fp(a: i64, b: i64) -> (r: i64)
    requires
        -0x80000000 <= a <= 0x80000000,
        -0x80000000 <= b <= 0x80000000,
    ensures
        r == spec_mul_fp(a as int, b as int),
        -1024 <= b <= 1024 ==> -abs_i(a as int) <= r <= abs_i(a as int),
{
    proof {
        assert(-0x80000000 * 0x80000000 <= a * b <= 0x80000000 * 0x80000000)
            by (nonlinear_arith)
            requires -0x80000000 <= a <= 0x80000000, -0x80000000 <= b <= 0x80000000;
        if -1024 <= b <= 1024 {
            assert(-(if a >= 0 { a as int } else { -a as int }) * 1024 <= a * b
                <= (if a >= 0 { a as int } else { -a as int }) * 1024)
                by (nonlinear_arith)
                requires -1024 <= b <= 1024, -0x80000000 <= a <= 0x80000000;
            lemma_scale_div_le(a * b, if a >= 0 { a as int } else { -a as int });
        }
    }
    let p: i64 = a * b;
    if p >= 0 {
        ((p as u64) / 1024) as i64
    } else {
        -((((-p) as u64) / 1024) as i64)
    }
}

/// A product bounded by `c * 1024` in magnitude divides down to at most `c`.
proof fn lemma_scale_div_le(p: int, c: int)
    requires
        0 <= c,
        -(c * 1024) <= p <= c * 1024,
    ensures
        p >= 0 ==> p / 1024 <= c,
        p < 0 ==> (-p) / 1024 <= c,
{
    let a = if p >= 0 { p } else { -p };
    vstd::arithmetic::div_mod::lemma_fundamental_div_mod(a, 1024);
    assert(a / 1024 <= c) by (nonlinear_arith)
        requires
            a == 1024 * (a / 1024) + a % 1024,
            0 <= a % 1024 < 1024,
            0 <= a <= c * 1024;
}

/// The bounded periodic wave used for pulsing effects: a parabolic
/// approximation of the sine, exact at 0, the quarter turns and the half
/// turn, never outside [-1, 1] (fixed-point).
pub open spec fn spec_sin(x: int) -> int {
    let t = x % (TAU_FP as int);
    if t <= PI_FP {
        4 * t * (PI_FP - t) * (FP_ONE as int) / ((PI_FP as int) * (PI_FP as int))
    } else {
        -(4 * (t - PI_FP) * (TAU_FP - t) * (FP_ONE as int) / ((PI_FP as int) * (
        PI_FP as int)))
    }
}

/// Fixed-point sine approximation for non-negative angles.
pub fn sin_fp(x: i64) -> (r: i64)
    requires
        0 <= x,
    ensures
        r == spec_sin(x as int),
        -FP_ONE <= r <= FP_ONE,
{
    let t: i64 = ((x as u64) % 6434) as u64 as i64;
    proof {
        assert(t == (x as int) % (TAU_FP as int));
    }
    if t <= PI_FP {
        proof {
            assert(0 <= 4 * t * (PI_FP - t) <= (PI_FP as int) * (PI_FP as int))
                by (nonlinear_arith)
                requires 0 <= t <= PI_FP;
            assert(0 <= 4 * t * (PI_FP - t) * 1024
                <= (PI_FP as int) * (PI_FP as int) * 1024) by (nonlinear_arith)
                requires 0 <= 4 * t * (PI_FP - t) <= (PI_FP as int) * (PI_FP as int);
            lemma_scale_div_le(4 * t * (PI_FP - t) * 1024,
                ((PI_FP as int) * (PI_FP as int) * 1024) / 1024);
            vstd::arithmetic::div_mod::lemma_fundamental_div_mod(
                4 * t * (PI_FP - t) * 1024, (PI_FP as int) * (PI_FP as int));
            assert(4 * t * (PI_FP - t) * 1024 / ((PI_FP as int) * (PI_FP as int))
                <= 1024) by (nonlinear_arith)
                requires
                    4 * t * (PI_FP - t) * 1024
                        == ((PI_FP as int) * (PI_FP as int))
                            * (4 * t * (PI_FP - t) * 1024 / ((PI_FP as int) * (
                            PI_FP as int)))
                        + (4 * t * (PI_FP - t) * 1024) % ((PI_FP as int) * (
                        PI_FP as int)),
                    0 <= (4 * t * (PI_FP - t) * 1024) % ((PI_FP as int) * (PI_FP as int))
                        < (PI_FP as int) * (PI_FP as int),
                    0 <= 4 * t * (PI_FP - t) * 1024
                        <= (PI_FP as int) * (PI_FP as int) * 1024;
        }
        let num: u64 = 4 * (t as u64) * ((PI_FP - t) as u64) * 1024;
        let q: u64 = num / ((PI_FP as u64) * (PI_FP as u64));
        q as i64
    } else {
        let u: i64 = t - PI_FP;
        let v: i64 = TAU_FP - t;
        proof {
            assert(0 <= 4 * u * v <= (PI_FP as int) * (PI_FP as int))
                by (nonlinear_arith)
                requires 0 <= u <= PI_FP, 0 <= v <= PI_FP, u == t - PI_FP, v == TAU_FP - t, PI_FP < t < TAU_FP;
            assert(0 <= 4 * u * v * 1024 <= (PI_FP as int) * (PI_FP as int) * 1024)
                by (nonlinear_arith)
                requires 0 <= 4 * u * v <= (PI_FP as int) * (PI_FP as int);
            vstd::arithmetic::div_mod::lemma_fundamental_div_mod(
                4 * u * v * 1024, (PI_FP as int) * (PI_FP as int));
            assert(4 * u * v * 1024 / ((PI_FP as int) * (PI_FP as int)) <= 1024)
                by (nonlinear_arith)
                requires
                    4 * u * v * 1024
                        == ((PI_FP as int) * (PI_FP as int))
                            * (4 * u * v * 1024 / ((PI_FP as int) * (PI_FP as int)))
                        + (4 * u * v * 1024) % ((PI_FP as int) * (PI_FP as int)),
                    0 <= (4 * u * v * 1024) % ((PI_FP as int) * (PI_FP as int))
                        < (PI_FP as int) * (PI_FP as int),
                    0 <= 4 * u * v * 1024 <= (PI_FP as int) * (PI_FP as int) * 1024;
        }
        let num: u64 = 4 * (u as u64) * (v as u64) * 1024;
        let q: u64 = num / ((PI_FP as u64) * (PI_FP as u64));
        -(q as i64)
    }
}

/// The inner polynomial of the arctangent approximation, for ratios in
/// [0, 1] (fixed-point): close to z * (pi/4 + 0.273 * (1 - z)).
pub open spec fn spec_atan_inner(z: int) -> int {
    z * (804 + 280 * ((FP_ONE as int) - z) / (FP_ONE as int)) / (FP_ONE as int)
}

/// Fixed-point arctangent of `num / den`, in fixed-point radians.
pub open spec fn spec_atan2_pos(num: int, den: int) -> int {
    let a = if num >= 0 { num } else { -num };
    let mag = if a <= den {
        spec_atan_inner(a * (FP_ONE as int) / den)
    } else {
        (HALF_PI_FP as int) - spec_atan_inner(den * (FP_ONE as int) / a)
    };
    if num >= 0 { mag } else { -mag }
}

/// A ratio of at most one scales to at most the fixed-point unit.
proof fn lemma_ratio_le_one(a: int, den: int)
    requires
        0 <= a <= den,
        0 < den,
    ensures
        0 <= a * 1024 / den <= 1024,
{
    vstd::arithmetic::div_mod::lemma_fundamental_div_mod(a * 1024, den);
    assert(0 <= a * 1024 / den <= 1024) by (nonlinear_arith)
        requires
            a * 1024 == den * (a * 1024 / den) + (a * 1024) % den,
            0 <= (a * 1024) % den < den,
            0 <= a <= den,
            0 < den;
}

/// Arctangent approximation for a point in front of the camera (den > 0):
/// the angle of `num / den` off the forward axis, fixed-point radians,
/// always within a quarter turn.
pub fn atan_fp(num: i64, den: i64) -> (r: i64)
    requires
        0 < den <= 0x10000000000,
        -0x10000000000 <= num <= 0x10000000000,
    ensures
        r == spec_atan2_pos(num as int, den as int),
        -HALF_PI_FP <= r <= HALF_PI_FP,
{
    let a: i64 = if num >= 0 { num } else { -num };
    let mag: i64 = if a <= den {
        proof {
            lemma_ratio_le_one(a as int, den as int);
        }
        atan_inner((((a as u64) * 1024) / (den as u64)) as i64)
    } else {
        proof {
            lemma_ratio_le_one(den as int, a as int);
        }
        HALF_PI_FP - atan_inner((((den as u64) * 1024) / (a as u64)) as i64)
    };
    if num >= 0 { mag } else { -mag }
}

fn atan_inner(z: i64) -> (r: i64)
    requires
        0 <= z <= 1024,
    ensures
        r == spec_atan_inner(z as int),
        0 <= r <= 1084,
{
    proof {
        vstd::arithmetic::div_mod::lemma_fundamental_div_mod(280 * (1024 - z as int),
            1024);
        assert(0 <= 280 * (1024 - z as int) / 1024 <= 280) by (nonlinear_arith)
            requires
                280 * (1024 - z as int) == 1024 * (280 * (1024 - z as int) / 1024)
                    + (280 * (1024 - z as int)) % 1024,
                0 <= (280 * (1024 - z as int)) % 1024 < 1024,
                0 <= z <= 1024;
    }
    let lin: u64 = (280 * ((1024 - z) as u64)) / 1024;
    proof {
        assert(lin <= 280);
        assert(0 <= (z as int) * (804 + lin as int) <= 1024 * 1084) by (nonlinear_arith)
            requires 0 <= z <= 1024, 0 <= lin <= 280;
    }
    let poly: u64 = (z as u64) * (804 + lin);
    proof {
        vstd::arithmetic::div_mod::lemma_fundamental_div_mod(
            (z as int) * (804 + lin as int), 1024);
        assert((z as int) * (804 + lin as int) / 1024 <= 1084) by (nonlinear_arith)
            requires
                (z as int) * (804 + lin as int)
                    == 1024 * ((z as int) * (804 + lin as int) / 1024)
                    + ((z as int) * (804 + lin as int)) % 1024,
                0 <= ((z as int) * (804 + lin as int)) % 1024 < 1024,
                0 <= (z as int) * (804 + lin as int) <= 1024 * 1084;
    }
    (poly / 1024) as i64
}

} // verus!

