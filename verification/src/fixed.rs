//! Fixed-point numeric base: integer square root and trigonometry.
//!
//! Angles are integers in millidegrees (360_000 per full turn). Sine and
//! cosine values are fixed-point with scale `FIX_ONE`. Every executable
//! function returns exactly the value of its spec-level counterpart, so the
//! whole geometry above this module is pinned down to the unit.
use vstd::prelude::*;
use vstd::arithmetic::div_mod::{lemma_div_is_ordered, lemma_mod_adds, lemma_mod_self_0, lemma_mod_bound, lemma_fundamental_div_mod_converse};

verus! {

/// Millidegrees in a full turn.
pub const TURN_MDEG: i64 = 360_000;

/// Millidegrees in a half turn.
pub const HALF_TURN_MDEG: i64 = 180_000;

/// Millidegrees in a quarter turn.
pub const QUARTER_TURN_MDEG: i64 = 90_000;

/// `r` is the integer square root of `n`.
pub open spec fn is_isqrt(n: int, r: int) -> bool {
    0 <= r && r * r <= n && n < (r + 1) * (r + 1)
}

/// Integer square root, defined digit by digit: `isqrt(n) = 2*isqrt(n/4)`,
/// plus one when that still fits.
pub open spec fn spec_isqrt(n: nat) -> nat
    decreases n,
{
    if n == 0 {
        0
    } else {
        let r = 2 * spec_isqrt(n / 4);
        if (r + 1) * (r + 1) <= n {
            r + 1
        } else {
            r
        }
    }
}

pub proof fn lemma_isqrt_is_isqrt(n: nat)
    ensures
        is_isqrt(n as int, spec_isqrt(n) as int),
    decreases n,
{
    if n == 0 {
    } else {
        let q = n / 4;
        lemma_isqrt_is_isqrt(q);
        let s = spec_isqrt(q);
        let r = 2 * s;
        assert(s * s <= q && q < (s + 1) * (s + 1));
        assert(n < 4 * ((s + 1) * (s + 1))) by {
            assert(q == n / 4);
            assert(n <= 4 * q + 3) by (nonlinear_arith)
                requires q == n / 4
            ;
            assert(4 * q + 3 < 4 * ((s + 1) * (s + 1))) by (nonlinear_arith)
                requires q < (s + 1) * (s + 1)
            ;
        }
        assert(r * r <= n) by {
            assert(4 * (s * s) <= 4 * q) by (nonlinear_arith)
                requires s * s <= q
            ;
            assert(4 * q <= n) by (nonlinear_arith)
                requires q == n / 4
            ;
            assert(r * r == 4 * (s * s)) by (nonlinear_arith)
                requires r == 2 * s
            ;
        }
        assert((r + 2) * (r + 2) == 4 * ((s + 1) * (s + 1))) by (nonlinear_arith)
            requires r == 2 * s
        ;
        if (r + 1) * (r + 1) <= n {
            assert(n < (r + 2) * (r + 2));
        } else {
        }
    }
}


/// Integer square roots are unique.
pub proof fn lemma_isqrt_unique(n: int, a: int, b: int)
    requires
        is_isqrt(n, a),
        is_isqrt(n, b),
    ensures
        a == b,
{
    if a < b {
        assert((a + 1) * (a + 1) <= b * b) by (nonlinear_arith)
            requires 0 <= a, 0 <= b, a < b
        ;
    }
    if b < a {
        assert((b + 1) * (b + 1) <= a * a) by (nonlinear_arith)
            requires 0 <= a, 0 <= b, b < a
        ;
    }
}

/// Binary-search integer square root.
pub fn isqrt_u128(n: u128) -> (r: u128)
    ensures
        r == spec_isqrt(n as nat),
        is_isqrt(n as int, r as int),
        r <= 0xffff_ffff_ffff_ffff,
{
    let mut lo: u128 = 0;
    let mut hi: u128 = 0x1_0000_0000_0000_0000;
    assert(n < hi * hi) by (nonlinear_arith)
        requires n <= 0xffff_ffff_ffff_ffff_ffff_ffff_ffff_ffff, hi == 0x1_0000_0000_0000_0000
    ;
    while hi - lo > 1
        invariant
            0 <= lo < hi <= 0x1_0000_0000_0000_0000,
            lo * lo <= n,
            n < hi * hi,
        decreases hi - lo,
    {
        let mid = lo + (hi - lo) / 2;
        assert(lo < mid < hi);
        assert(mid * mid <= 0xffff_ffff_ffff_ffff_ffff_ffff_ffff_ffff) by (nonlinear_arith)
            requires mid <= 0xffff_ffff_ffff_ffff
        ;
        if mid * mid <= n {
            lo = mid;
        } else {
            hi = mid;
        }
    }
    assert(is_isqrt(n as int, lo as int));
    proof {
        lemma_isqrt_is_isqrt(n as nat);
        lemma_isqrt_unique(n as int, lo as int, spec_isqrt(n as nat) as int);
    }
    lo
}

/// An angle reduced to `[0, TURN_MDEG)`; `%` on `int` is Euclidean, so this
/// also holds for negative inputs.
pub open spec fn norm_mdeg(a: int) -> int {
    a % (TURN_MDEG as int)
}

/// Fixed-point sine on a half turn (`m` in `[0, HALF_TURN_MDEG]`), by the
/// rational approximation `16 x (pi - x) / (5 pi^2 - 4 x (pi - x))`, which is
/// exact at 0, at a quarter turn and at a half turn.
pub open spec fn sin_half_fix(m: int) -> int {
    let t = m * (180_000 - m);
    (4 * t * 1_000_000) / (40_500_000_000 - t)
}

/// Fixed-point sine of an angle in millidegrees, scaled by `FIX_ONE`.
pub open spec fn spec_sin_mdeg(a: int) -> int {
    let m = norm_mdeg(a);
    if m <= 180_000 {
        sin_half_fix(m)
    } else {
        -sin_half_fix(m - 180_000)
    }
}

/// Fixed-point cosine of an angle in millidegrees, scaled by `FIX_ONE`.
pub open spec fn spec_cos_mdeg(a: int) -> int {
    spec_sin_mdeg(a + 90_000)
}

pub proof fn lemma_sin_half_bounds(m: int)
    requires
        0 <= m <= 180_000,
    ensures
        0 <= sin_half_fix(m) <= 1_000_000,
        m == 90_000 ==> sin_half_fix(m) == 1_000_000,
        m == 0 || m == 180_000 ==> sin_half_fix(m) == 0,
{
    let t = m * (180_000 - m);
    assert(0 <= m * (180_000 - m) <= 8_100_000_000) by (nonlinear_arith)
        requires 0 <= m <= 180_000
    ;
    let num = 4 * t * 1_000_000;
    let den = 40_500_000_000 - t;
    assert(den >= 32_400_000_000);
    assert(num >= 0);
    assert(num <= 1_000_000 * den) by (nonlinear_arith)
        requires t <= 8_100_000_000, num == 4 * t * 1_000_000, den == 40_500_000_000 - t
    ;
    assert(num / den <= (1_000_000 * den) / den) by {
        lemma_div_is_ordered(num, 1_000_000 * den, den);
    }
    assert((1_000_000 * den) / den == 1_000_000) by (nonlinear_arith)
        requires den >= 1
    ;
    assert(num / den >= 0) by (nonlinear_arith)
        requires num >= 0, den >= 1
    ;
    if m == 90_000 {
        assert(t == 8_100_000_000);
        assert(num == den * 1_000_000);
        assert(num / den == 1_000_000) by (nonlinear_arith)
            requires den >= 1, num == den * 1_000_000
        ;
    }
}

/// The sine value is always within `[-FIX_ONE, FIX_ONE]`.
pub proof fn lemma_sin_bounds(a: int)
    ensures
        -1_000_000 <= spec_sin_mdeg(a) <= 1_000_000,
{
    let m = norm_mdeg(a);
    lemma_mod_bound(a, 360_000);
    if m <= 180_000 {
        lemma_sin_half_bounds(m);
    } else {
        lemma_sin_half_bounds(m - 180_000);
    }
}

/// Sine has period one full turn: the backbone of the closure property for
/// whole-turn rotations.
pub proof fn lemma_sin_period(a: int)
    ensures
        spec_sin_mdeg(a + 360_000) == spec_sin_mdeg(a),
{
    lemma_mod_adds(a, 360_000, 360_000);
    lemma_mod_self_0(360_000);
    lemma_mod_bound(a, 360_000);
    assert((a + 360_000) % 360_000 == a % 360_000);
}

/// Reduce an angle to `[0, TURN_MDEG)`.
pub fn norm_angle(a: i64) -> (m: i64)
    requires
        -39_000_000_000 <= a <= 39_000_000_000,
    ensures
        m == norm_mdeg(a as int),
        0 <= m < 360_000,
{
    proof {
        lemma_mod_bound(a as int, 360_000);
    }
    if a >= 0 {
        let m = a % 360_000;
        m
    } else {
        let n = (-a) % 360_000;
        proof {
            let q = (-a) / 360_000int;
            assert(-a == 360_000 * q + n) by {
                vstd::arithmetic::div_mod::lemma_fundamental_div_mod(-a as int, 360_000);
            }
            if n == 0 {
                lemma_fundamental_div_mod_converse(a as int, 360_000, -q, 0);
            } else {
                lemma_fundamental_div_mod_converse(a as int, 360_000, -q - 1, 360_000 - n);
            }
        }
        if n == 0 {
            0
        } else {
            360_000 - n
        }
    }
}

/// Sine of an angle in millidegrees, scaled by `FIX_ONE`.
pub fn sin_mdeg(a: i64) -> (r: i64)
    requires
        -39_000_000_000 <= a <= 39_000_000_000,
    ensures
        r == spec_sin_mdeg(a as int),
        -1_000_000 <= r <= 1_000_000,
{
    let m = norm_angle(a);
    proof {
        lemma_sin_bounds(a as int);
    }
    if m <= 180_000 {
        sin_half(m)
    } else {
        -sin_half(m - 180_000)
    }
}

/// Cosine of an angle in millidegrees, scaled by `FIX_ONE`.
pub fn cos_mdeg(a: i64) -> (r: i64)
    requires
        -38_000_000_000 <= a <= 38_000_000_000,
    ensures
        r == spec_cos_mdeg(a as int),
        -1_000_000 <= r <= 1_000_000,
{
    sin_mdeg(a + 90_000)
}

/// Truncating (toward zero) division, as Rust's `/` computes it.
pub open spec fn spec_div_trunc(a: int, b: int) -> int {
    if a >= 0 {
        a / b
    } else {
        -((-a) / b)
    }
}

/// Divide rounding toward zero; the divisor must be positive.
pub fn div_trunc(a: i128, b: i128) -> (r: i128)
    requires
        b > 0,
        a > -0x8000_0000_0000_0000_0000_0000_0000_0000,
    ensures
        r == spec_div_trunc(a as int, b as int),
        a >= 0 ==> 0 <= r <= a,
        a < 0 ==> a <= r <= 0,
{
    proof {
        if a >= 0 {
            vstd::arithmetic::div_mod::lemma_div_nonincreasing(a as int, b as int);
            vstd::arithmetic::div_mod::lemma_div_pos_is_pos(a as int, b as int);
        } else {
            vstd::arithmetic::div_mod::lemma_div_nonincreasing(-a as int, b as int);
            vstd::arithmetic::div_mod::lemma_div_pos_is_pos(-a as int, b as int);
        }
    }
    if a >= 0 {
        a / b
    } else {
        -((-a) / b)
    }
}

/// Arctangent of `z / FIX_ONE` in millidegrees for `z` in `[0, FIX_ONE]`,
/// by the quadratic approximation `atan(z) ~ 45 z + 15.64 z (1 - z)` degrees.
pub open spec fn atan_unit_fix(z: int) -> int {
    (45_000 * z) / 1_000_000 + (15_640 * (z * (1_000_000 - z))) / 1_000_000_000_000
}

/// Arctangent of `y / x` in millidegrees, in `(-180_000, 180_000]`, with the
/// usual quadrant rules; zero for the zero vector.
pub open spec fn spec_atan2_mdeg(y: int, x: int) -> int {
    let ax = if x >= 0 { x } else { -x };
    let ay = if y >= 0 { y } else { -y };
    if ax == 0 && ay == 0 {
        0
    } else {
        let base = if ay <= ax {
            atan_unit_fix((ay * 1_000_000) / ax)
        } else {
            90_000 - atan_unit_fix((ax * 1_000_000) / ay)
        };
        if x >= 0 && y >= 0 {
            base
        } else if x < 0 && y >= 0 {
            180_000 - base
        } else if x < 0 {
            -(180_000 - base)
        } else {
            -base
        }
    }
}

pub proof fn lemma_atan_unit_range(z: int)
    requires
        0 <= z <= 1_000_000,
    ensures
        0 <= atan_unit_fix(z) <= 49_000,
{
    let p = z * (1_000_000 - z);
    assert(0 <= z * (1_000_000 - z) <= 250_000_000_000) by (nonlinear_arith)
        requires 0 <= z <= 1_000_000
    ;
    assert((45_000 * z) / 1_000_000 <= 45_000) by {
        lemma_div_is_ordered(45_000 * z, 45_000int * 1_000_000int, 1_000_000);
    }
    assert((15_640 * p) / 1_000_000_000_000 <= 4_000) by {
        lemma_div_is_ordered(15_640 * p, 15_640int * 250_000_000_000int, 1_000_000_000_000);
    }
    assert((45_000 * z) / 1_000_000 >= 0);
    assert((15_640 * p) / 1_000_000_000_000 >= 0);
}

/// The atan2 result stays within a half turn either way.
pub proof fn lemma_atan2_range(y: int, x: int)
    ensures
        -180_000 <= spec_atan2_mdeg(y, x) <= 180_000,
{
    let ax = if x >= 0 { x } else { -x };
    let ay = if y >= 0 { y } else { -y };
    if ax == 0 && ay == 0 {
    } else {
        if ay <= ax {
            let z = (ay * 1_000_000) / ax;
            assert(0 <= z <= 1_000_000) by {
                assert(ay * 1_000_000 <= ax * 1_000_000) by (nonlinear_arith)
                    requires ay <= ax
                ;
                lemma_div_is_ordered(ay * 1_000_000, ax * 1_000_000, ax);
                assert((ax * 1_000_000) / ax == 1_000_000) by (nonlinear_arith)
                    requires ax >= 1
                ;
                assert(ay * 1_000_000 >= 0) by (nonlinear_arith)
                    requires ay >= 0
                ;
                vstd::arithmetic::div_mod::lemma_div_pos_is_pos(ay * 1_000_000, ax);
            }
            lemma_atan_unit_range(z);
        } else {
            let z = (ax * 1_000_000) / ay;
            assert(0 <= z <= 1_000_000) by {
                assert(ax * 1_000_000 <= ay * 1_000_000) by (nonlinear_arith)
                    requires ax <= ay
                ;
                lemma_div_is_ordered(ax * 1_000_000, ay * 1_000_000, ay);
                assert((ay * 1_000_000) / ay == 1_000_000) by (nonlinear_arith)
                    requires ay >= 1
                ;
                assert(ax * 1_000_000 >= 0) by (nonlinear_arith)
                    requires ax >= 0
                ;
                vstd::arithmetic::div_mod::lemma_div_pos_is_pos(ax * 1_000_000, ay);
            }
            lemma_atan_unit_range(z);
        }
    }
}

fn atan_unit(z: i64) -> (r: i64)
    requires
        0 <= z <= 1_000_000,
    ensures
        r == atan_unit_fix(z as int),
        0 <= r <= 49_000,
{
    proof {
        lemma_atan_unit_range(z as int);
        assert(0 <= z * (1_000_000 - z) <= 250_000_000_000) by (nonlinear_arith)
            requires 0 <= z <= 1_000_000
        ;
    }
    let p = z * (1_000_000 - z);
    let a = (45_000 * z) / 1_000_000;
    let b = (15_640 * p) / 1_000_000_000_000;
    a + b
}

/// Fixed-point atan2 in millidegrees.
pub fn atan2_mdeg(y: i64, x: i64) -> (r: i64)
    requires
        -4_000_000_000_000 <= y <= 4_000_000_000_000,
        -4_000_000_000_000 <= x <= 4_000_000_000_000,
    ensures
        r == spec_atan2_mdeg(y as int, x as int),
        -180_000 <= r <= 180_000,
{
    proof {
        lemma_atan2_range(y as int, x as int);
    }
    let ax: i64 = if x >= 0 { x } else { -x };
    let ay: i64 = if y >= 0 { y } else { -y };
    if ax == 0 && ay == 0 {
        return 0;
    }
    let base: i64 = if ay <= ax {
        proof {
            assert(ay * 1_000_000 <= ax * 1_000_000) by (nonlinear_arith)
                requires ay <= ax
            ;
            lemma_div_is_ordered(ay as int * 1_000_000, ax as int * 1_000_000, ax as int);
            assert((ax as int * 1_000_000) / (ax as int) == 1_000_000) by (nonlinear_arith)
                requires ax as int >= 1
            ;
            assert(ay as int * 1_000_000 >= 0) by (nonlinear_arith)
                requires ay as int >= 0
            ;
            vstd::arithmetic::div_mod::lemma_div_pos_is_pos(ay as int * 1_000_000, ax as int);
        }
        let z = (((ay as i128) * 1_000_000) / (ax as i128)) as i64;
        atan_unit(z)
    } else {
        proof {
            assert(ax * 1_000_000 <= ay * 1_000_000) by (nonlinear_arith)
                requires ax <= ay
            ;
            lemma_div_is_ordered(ax as int * 1_000_000, ay as int * 1_000_000, ay as int);
            assert((ay as int * 1_000_000) / (ay as int) == 1_000_000) by (nonlinear_arith)
                requires ay as int >= 1
            ;
            assert(ax as int * 1_000_000 >= 0) by (nonlinear_arith)
                requires ax as int >= 0
            ;
            vstd::arithmetic::div_mod::lemma_div_pos_is_pos(ax as int * 1_000_000, ay as int);
        }
        let z = (((ax as i128) * 1_000_000) / (ay as i128)) as i64;
        90_000 - atan_unit(z)
    };
    if x >= 0 && y >= 0 {
        base
    } else if x < 0 && y >= 0 {
        180_000 - base
    } else if x < 0 {
        -(180_000 - base)
    } else {
        -base
    }
}

fn sin_half(m: i64) -> (r: i64)
    requires
        0 <= m <= 180_000,
    ensures
        r == sin_half_fix(m as int),
        0 <= r <= 1_000_000,
{
    proof {
        lemma_sin_half_bounds(m as int);
        assert(0 <= m * (180_000 - m) <= 8_100_000_000) by (nonlinear_arith)
            requires 0 <= m <= 180_000
        ;
    }
    let t = m * (180_000 - m);
    let num = 4 * t * 1_000_000;
    let den = 40_500_000_000 - t;
    num / den
}

} // verus!
