//! Fixed-point scalars: an `i64` `v` stands for the real number `v / SCALE`.

use vstd::prelude::*;

verus! {

/// Number of fixed-point steps in one unit (distance, second, or ratio).
pub const SCALE: i64 = 1000;

/// Largest magnitude admitted for a coordinate, a velocity component or a length.
pub const COORD_LIMIT: i64 = 16000000;

/// Largest magnitude admitted for a distance or a focal length: more than the
/// length of any difference of two in-range points.
pub const LENGTH_LIMIT: i64 = 64000000;

/// The floor of the square root of `n`, defined by counting upward.
pub open spec fn sqrt_floor(n: int) -> int
    decreases n,
{
    if n <= 0 {
        0
    } else {
        let r = sqrt_floor(n - 1);
        if (r + 1) * (r + 1) <= n {
            r + 1
        } else {
            r
        }
    }
}

/// `sqrt_floor(n)` is the unique `r >= 0` with `r * r <= n < (r + 1) * (r + 1)`.
pub proof fn lemma_sqrt_floor_bracket(n: int)
    requires
        n >= 0,
    ensures
        sqrt_floor(n) >= 0,
        sqrt_floor(n) * sqrt_floor(n) <= n,
        n < (sqrt_floor(n) + 1) * (sqrt_floor(n) + 1),
    decreases n,
{
    if n > 0 {
        lemma_sqrt_floor_bracket(n - 1);
        let r = sqrt_floor(n - 1);
        if (r + 1) * (r + 1) <= n {
            assert((r + 1) * (r + 1) == n);
            assert(n < (r + 2) * (r + 2)) by (nonlinear_arith)
                requires
                    (r + 1) * (r + 1) == n,
                    r >= 0,
            ;
        }
    }
}

/// Any `r >= 0` bracketing `n` is `sqrt_floor(n)`.
pub proof fn lemma_sqrt_floor_unique(n: int, r: int)
    requires
        n >= 0,
        r >= 0,
        r * r <= n,
        n < (r + 1) * (r + 1),
    ensures
        sqrt_floor(n) == r,
{
    lemma_sqrt_floor_bracket(n);
    let s = sqrt_floor(n);
    if s < r {
        assert((s + 1) * (s + 1) <= r * r) by (nonlinear_arith)
            requires
                s + 1 <= r,
                s >= 0,
        ;
    } else if s > r {
        assert((r + 1) * (r + 1) <= s * s) by (nonlinear_arith)
            requires
                r + 1 <= s,
                r >= 0,
        ;
    }
}

/// Floor square root by bisection.
pub fn isqrt(n: u64) -> (r: u64)
    requires
        n < 0x10000000000000,
    ensures
        r == sqrt_floor(n as int),
        r < 0x4000001,
{
    let mut lo: u64 = 0;
    let mut hi: u64 = 0x4000001;
    assert(n < hi * hi) by (nonlinear_arith)
        requires
            n < 0x10000000000000,
            hi == 0x4000001,
    ;
    while lo + 1 < hi
        invariant
            lo < hi <= 0x4000001,
            lo * lo <= n,
            n < hi * hi,
        decreases hi - lo,
    {
        let mid: u64 = lo + (hi - lo) / 2;
        assert(mid * mid <= 0x4000001 * 0x4000001) by (nonlinear_arith)
            requires
                mid < 0x4000001,
        ;
        if mid * mid <= n {
            lo = mid;
        } else {
            hi = mid;
        }
    }
    proof {
        lemma_sqrt_floor_unique(n as int, lo as int);
    }
    lo
}

/// Division rounding toward zero, as Rust's `/` does on signed integers.
pub open spec fn div_trunc(a: int, b: int) -> int {
    if a >= 0 {
        a / b
    } else {
        -((-a) / b)
    }
}

/// `a / b` rounded toward zero, for a positive divisor.
pub fn div_toward_zero(a: i128, b: i128) -> (r: i128)
    requires
        b > 0,
        a > i128::MIN,
    ensures
        r == div_trunc(a as int, b as int),
{
    if a >= 0 {
        a / b
    } else {
        -((-a) / b)
    }
}

/// Blend factors are counted in millionths: `k` stands for `k / FACTOR_SCALE`.
pub const FACTOR_SCALE: i64 = 1000000;

/// `a / b` rounded up, for `a >= 0` and `b > 0`.
pub open spec fn div_ceil(a: int, b: int) -> int {
    (a + b - 1) / b
}

/// Moves from `a` toward `b` by the fraction `k / FACTOR_SCALE` of the gap.
/// The size of the step is rounded up, so any factor above zero moves a
/// value that is not yet at `b`, and no factor up to one passes `b`.
pub open spec fn lerp_toward(a: int, b: int, k: int) -> int {
    if a <= b {
        a + div_ceil((b - a) * k, FACTOR_SCALE as int)
    } else {
        a - div_ceil((a - b) * k, FACTOR_SCALE as int)
    }
}

/// Absolute value.
pub open spec fn magnitude(a: int) -> int {
    if a < 0 {
        -a
    } else {
        a
    }
}

/// A step of `lerp_toward` with a factor in `[0, 1]` lands between its ends;
/// the gap left is at most `1 - k` of the old gap, and it shrinks whenever the
/// factor is above zero and the ends differ.
pub proof fn lemma_lerp_toward_between(a: int, b: int, k: int)
    requires
        0 <= k <= FACTOR_SCALE,
    ensures
        a <= b ==> a <= lerp_toward(a, b, k) <= b,
        b <= a ==> b <= lerp_toward(a, b, k) <= a,
        magnitude(b - lerp_toward(a, b, k)) * FACTOR_SCALE <= magnitude(b - a) * (FACTOR_SCALE
            - k),
        k > 0 && a != b ==> magnitude(b - lerp_toward(a, b, k)) < magnitude(b - a),
        k == 0 ==> lerp_toward(a, b, k) == a,
        k == FACTOR_SCALE ==> lerp_toward(a, b, k) == b,
{
    let g = magnitude(b - a);
    assert(0 <= g * k <= g * 1000000) by (nonlinear_arith)
        requires
            g >= 0,
            0 <= k <= 1000000,
    ;
    let c = div_ceil(g * k, 1000000);
    lemma_div_ceil_bounds(g * k, 1000000);
    assert(c <= g) by (nonlinear_arith)
        requires
            c * 1000000 < g * k + 1000000,
            g * k <= g * 1000000,
    ;
    assert((g - c) * 1000000 <= g * (1000000 - k)) by (nonlinear_arith)
        requires
            c * 1000000 >= g * k,
    ;
    if k > 0 && g > 0 {
        assert(g * k > 0) by (nonlinear_arith)
            requires
                k > 0,
                g > 0,
        ;
    }
    if k == 0 {
        assert(g * k == 0) by (nonlinear_arith)
            requires
                k == 0,
        ;
    }
    if k == 1000000 {
        assert(g * k == g * 1000000);
        assert(c == g) by (nonlinear_arith)
            requires
                c * 1000000 >= g * 1000000,
                c <= g,
        ;
    }
}

/// `div_ceil(a, b)` is the least multiple count reaching `a`.
pub proof fn lemma_div_ceil_bounds(a: int, b: int)
    requires
        a >= 0,
        b > 0,
    ensures
        div_ceil(a, b) * b >= a,
        div_ceil(a, b) * b < a + b,
        div_ceil(a, b) >= 0,
        a > 0 ==> div_ceil(a, b) >= 1,
        a == 0 ==> div_ceil(a, b) == 0,
{
    let q = (a + b - 1) / b;
    let r = (a + b - 1) % b;
    assert(a + b - 1 == b * q + r && 0 <= r < b) by {
        vstd::arithmetic::div_mod::lemma_fundamental_div_mod(a + b - 1, b);
    }
    assert(q * b >= a) by (nonlinear_arith)
        requires
            a + b - 1 == b * q + r,
            r < b,
    ;
    assert(q * b < a + b) by (nonlinear_arith)
        requires
            a + b - 1 == b * q + r,
            r >= 0,
    ;
    assert(q >= 0) by (nonlinear_arith)
        requires
            q * b >= a,
            q * b < a + b,
            a >= 0,
            b > 0,
    ;
    if a > 0 {
        assert(q >= 1) by (nonlinear_arith)
            requires
                q * b >= a,
                a > 0,
                b > 0,
        ;
    } else {
        assert(q == 0) by (nonlinear_arith)
            requires
                q * b < b,
                q >= 0,
                b > 0,
        ;
    }
}

/// `lerp_toward(a, b, k)` for ends within the length limit.
pub fn lerp_fixed(a: i64, b: i64, k: i64) -> (r: i64)
    requires
        -LENGTH_LIMIT <= a <= LENGTH_LIMIT,
        -LENGTH_LIMIT <= b <= LENGTH_LIMIT,
        0 <= k <= FACTOR_SCALE,
    ensures
        r == lerp_toward(a as int, b as int, k as int),
        a <= b ==> a <= r <= b,
        b <= a ==> b <= r <= a,
{
    proof {
        lemma_lerp_toward_between(a as int, b as int, k as int);
    }
    if a <= b {
        let gap: i128 = (b as i128) - (a as i128);
        assert(0 <= gap * k <= 128000000 * 1000000) by (nonlinear_arith)
            requires
                0 <= gap <= 128000000,
                0 <= k <= 1000000,
        ;
        let step: i128 = (gap * (k as i128) + 999999) / 1000000;
        (a as i128 + step) as i64
    } else {
        let gap: i128 = (a as i128) - (b as i128);
        assert(0 <= gap * k <= 128000000 * 1000000) by (nonlinear_arith)
            requires
                0 <= gap <= 128000000,
                0 <= k <= 1000000,
        ;
        let step: i128 = (gap * (k as i128) + 999999) / 1000000;
        (a as i128 - step) as i64
    }
}

/// Rounding toward zero never grows a magnitude.
pub proof fn lemma_div_trunc_bound(a: int, b: int, m: int)
    requires
        b >= 1,
        -m <= a <= m,
    ensures
        -m <= div_trunc(a, b) <= m,
{
    if a >= 0 {
        assert(a / b <= a) by (nonlinear_arith)
            requires
                a >= 0,
                b >= 1,
        ;
    } else {
        assert((-a) / b <= -a) by (nonlinear_arith)
            requires
                -a > 0,
                b >= 1,
        ;
    }
}

/// Product of two fixed-point numbers, rounded toward zero.
pub fn mul_fixed(a: i64, b: i64) -> (r: i64)
    requires
        -0x4000000000000000 <= a * b <= 0x4000000000000000,
    ensures
        r == div_trunc(a * b, SCALE as int),
{
    let q = div_toward_zero((a as i128) * (b as i128), 1000);
    proof {
        lemma_div_trunc_bound(a * b, 1000, 0x4000000000000000);
    }
    q as i64
}

} // verus!
