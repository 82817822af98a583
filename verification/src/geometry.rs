//! Integer geometry: 2-D vectors, square roots, angle normalization and a
//! fixed-point sine, shared by the caster, the sprite compositor and the
//! post effects.

use vstd::prelude::*;

verus! {

use vstd::arithmetic::div_mod::{
    lemma_fundamental_div_mod, lemma_fundamental_div_mod_converse_mod, lemma_mod_multiples_basic,
};
use vstd::arithmetic::mul::{lemma_mul_is_commutative, lemma_mul_is_distributive_add_other_way};

/// One microradian is the angle unit throughout the crate.
/// `PI_URAD` is pi in microradians, rounded to the nearest integer.
pub const PI_URAD: i64 = 3141593;

/// A full turn in microradians.
pub const TWO_PI_URAD: i64 = 6283186;

/// A position or displacement in integer world units.
#[derive(Clone, Copy, PartialEq, Eq, Structural, Debug)]
pub struct Vec2 {
    pub x: i64,
    pub y: i64,
}

/// Whether `d` is the integer square root of `n` rounded down.
pub open spec fn is_floor_sqrt(n: int, d: int) -> bool {
    0 <= d && d * d <= n < (d + 1) * (d + 1)
}

/// The integer square root of `n` rounded down.
pub open spec fn floor_sqrt(n: int) -> int {
    choose|d: int| is_floor_sqrt(n, d)
}

/// The rounded-down square root is unique.
pub proof fn lemma_floor_sqrt_unique(n: int, d1: int, d2: int)
    by (nonlinear_arith)
    requires
        is_floor_sqrt(n, d1),
        is_floor_sqrt(n, d2),
    ensures
        d1 == d2,
{
}

/// Integer square root: the greatest `r` with `r * r <= n`.
pub fn isqrt(n: u64) -> (r: u64)
    ensures
        r * r <= n < (r + 1) * (r + 1),
        r <= 0xFFFF_FFFF,
        r == floor_sqrt(n as int),
{
    let mut lo: u64 = 0;
    let mut hi: u64 = if n < 0xFFFF_FFFF { n } else { 0xFFFF_FFFF };
    assert(n < (hi + 1) * (hi + 1)) by (nonlinear_arith)
        requires
            hi == if n < 0xFFFF_FFFF { n } else { 0xFFFF_FFFFu64 },
    ;
    while lo < hi
        invariant
            lo <= hi <= 0xFFFF_FFFF,
            lo * lo <= n < (hi + 1) * (hi + 1),
        decreases hi - lo,
    {
        let mid: u64 = lo + (hi - lo + 1) / 2;
        assert(mid * mid <= 0xFFFF_FFFF * 0xFFFF_FFFF) by (nonlinear_arith)
            requires
                mid <= 0xFFFF_FFFF,
        ;
        if mid * mid <= n {
            lo = mid;
        } else {
            hi = mid - 1;
        }
    }
    proof {
        assert(is_floor_sqrt(n as int, lo as int));
        lemma_floor_sqrt_unique(n as int, lo as int, floor_sqrt(n as int));
    }
    lo
}

/// Squared Euclidean length of the displacement `(dx, dy)`.
pub open spec fn dist_sq(dx: int, dy: int) -> int {
    dx * dx + dy * dy
}

/// Absolute value of a mathematical integer.
pub open spec fn abs_i(v: int) -> int {
    if v >= 0 {
        v
    } else {
        -v
    }
}

/// Euclidean distance between two points, rounded down to an integer.
pub fn distance(a: Vec2, b: Vec2) -> (d: u64)
    requires
        -0x4000_0000 <= a.x <= 0x4000_0000,
        -0x4000_0000 <= a.y <= 0x4000_0000,
        -0x4000_0000 <= b.x <= 0x4000_0000,
        -0x4000_0000 <= b.y <= 0x4000_0000,
    ensures
        d * d <= dist_sq(b.x - a.x, b.y - a.y) < (d + 1) * (d + 1),
        d <= 0xFFFF_FFFF,
        d == floor_sqrt(dist_sq(b.x - a.x, b.y - a.y)),
{
    let dx: i64 = b.x - a.x;
    let dy: i64 = b.y - a.y;
    let ax: u64 = if dx >= 0 { dx as u64 } else { (-dx) as u64 };
    let ay: u64 = if dy >= 0 { dy as u64 } else { (-dy) as u64 };
    assert(ax * ax == (b.x - a.x) * (b.x - a.x) && ay * ay == (b.y - a.y) * (b.y - a.y))
        by (nonlinear_arith)
        requires
            ax == if b.x - a.x >= 0 { b.x - a.x } else { -(b.x - a.x) },
            ay == if b.y - a.y >= 0 { b.y - a.y } else { -(b.y - a.y) },
    ;
    assert(ax * ax <= 0x8000_0000 * 0x8000_0000 && ay * ay <= 0x8000_0000 * 0x8000_0000)
        by (nonlinear_arith)
        requires
            ax <= 0x8000_0000,
            ay <= 0x8000_0000,
    ;
    isqrt(ax * ax + ay * ay)
}

/// The displacement component `dc` scaled by the fraction `s / dist`,
/// rounded toward zero as the integer march does.
pub open spec fn scaled_toward(dc: int, s: int, dist: int) -> int {
    if dc >= 0 {
        (dc * s) / dist
    } else {
        -(((-dc) * s) / dist)
    }
}

/// Angle congruence: `a` and `b` differ by a whole number of turns.
pub open spec fn same_angle(a: int, b: int) -> bool {
    (a - b) % (TWO_PI_URAD as int) == 0
}

/// The canonical representative of an angle in `(-PI_URAD, PI_URAD]`:
/// the Euclidean remainder by a full turn, shifted down by one turn
/// when it lands above `PI_URAD`.
pub open spec fn norm_angle_spec(a: int) -> int {
    let m = a % (TWO_PI_URAD as int);
    if m > PI_URAD {
        m - TWO_PI_URAD
    } else {
        m
    }
}

/// Normalizes an angle in microradians into `(-PI_URAD, PI_URAD]`.
pub fn norm_angle(a: i64) -> (r: i64)
    requires
        -0x2000_0000_0000_0000 <= a <= 0x2000_0000_0000_0000,
    ensures
        r == norm_angle_spec(a as int),
        -PI_URAD < r <= PI_URAD,
        same_angle(a as int, r as int),
{
    let two_pi: u64 = TWO_PI_URAD as u64;
    let ghost t: int = TWO_PI_URAD as int;
    let m: u64 = if a >= 0 {
        (a as u64) % two_pi
    } else {
        let m0: u64 = ((-a) as u64) % two_pi;
        if m0 == 0 {
            0
        } else {
            two_pi - m0
        }
    };
    proof {
        if a < 0 {
            lemma_fundamental_div_mod(-a as int, t);
            let q = (-a as int) / t;
            let m0 = (-a as int) % t;
            if m0 == 0 {
                assert(a as int == (-q) * t + 0) by (nonlinear_arith)
                    requires
                        -a as int == t * q + m0,
                        m0 == 0,
                ;
                lemma_fundamental_div_mod_converse_mod(a as int, t, -q, 0);
            } else {
                assert(a as int == (-q - 1) * t + (t - m0)) by (nonlinear_arith)
                    requires
                        -a as int == t * q + m0,
                ;
                lemma_fundamental_div_mod_converse_mod(a as int, t, -q - 1, t - m0);
            }
        }
        assert(m == (a as int) % t);
        lemma_fundamental_div_mod(a as int, t);
        let k = (a as int) / t;
        assert((a as int) - (m as int) == t * k);
        lemma_mul_is_commutative(t, k);
        lemma_mod_multiples_basic(k, t);
        lemma_mul_is_distributive_add_other_way(t, k, 1);
        lemma_mul_is_commutative(t, k + 1);
        lemma_mod_multiples_basic(k + 1, t);
    }
    if m > PI_URAD as u64 {
        (m as i64) - TWO_PI_URAD
    } else {
        m as i64
    }
}

/// The product `x * (PI_URAD - x)`, the building block of the rational
/// sine approximation.
pub open spec fn sin_prod(x: int) -> int {
    x * (PI_URAD - x)
}

/// Rational sine approximation on `[0, PI_URAD]`, scaled by 1000
/// (Bhaskara's formula over integer microradians).
pub open spec fn sin_half_spec(x: int) -> int {
    (16000 * sin_prod(x)) / (5 * (PI_URAD as int) * (PI_URAD as int) - 4 * sin_prod(x))
}

/// Odd extension of `sin_half_spec` to `[-PI_URAD, PI_URAD]`.
pub open spec fn sin_milli_spec(x: int) -> int {
    if x >= 0 {
        sin_half_spec(x)
    } else {
        -sin_half_spec(-x)
    }
}

/// Sine of an angle in microradians, scaled by 1000.
pub fn sin_milli(x: i64) -> (r: i64)
    requires
        -PI_URAD <= x <= PI_URAD,
    ensures
        r == sin_milli_spec(x as int),
        -1000 <= r <= 1000,
{
    let m: u64 = if x >= 0 { x as u64 } else { (-x) as u64 };
    let pi: u64 = PI_URAD as u64;
    assert(m * (pi - m) <= 3141593 * 3141593 && m * (pi - m) == sin_prod(m as int))
        by (nonlinear_arith)
        requires
            m <= 3141593,
            pi == 3141593,
    ;
    let prod: u64 = m * (pi - m);
    assert(4 * prod <= (PI_URAD as int) * (PI_URAD as int)) by (nonlinear_arith)
        requires
            prod == m * (PI_URAD as u64 - m),
            0 <= m <= PI_URAD,
    ;
    let num: u64 = 16000 * prod;
    let den: u64 = (5 * pi * pi) - 4 * prod;
    let q: u64 = num / den;
    proof {
        assert(num <= 1000 * den) by (nonlinear_arith)
            requires
                num == 16000 * prod,
                den == 5 * (PI_URAD as u64) * (PI_URAD as u64) - 4 * prod,
                4 * prod <= (PI_URAD as int) * (PI_URAD as int),
        ;
        assert(q <= 1000) by (nonlinear_arith)
            requires
                q == num / den,
                num <= 1000 * den,
                den > 0,
        ;
        assert(q == sin_half_spec(m as int));
    }
    if x >= 0 {
        q as i64
    } else {
        -(q as i64)
    }
}

/// Cosine via the quarter-turn shift of the sine; the shifted angle is
/// folded back by a full turn when it leaves `[-PI_URAD, PI_URAD]`.
pub open spec fn cos_milli_spec(x: int) -> int {
    if (PI_URAD as int) / 2 - x > PI_URAD {
        sin_milli_spec((PI_URAD as int) / 2 - x - TWO_PI_URAD)
    } else {
        sin_milli_spec((PI_URAD as int) / 2 - x)
    }
}

/// Cosine of an angle in microradians, scaled by 1000.
pub fn cos_milli(x: i64) -> (r: i64)
    requires
        -PI_URAD <= x <= PI_URAD,
    ensures
        r == cos_milli_spec(x as int),
        -1000 <= r <= 1000,
{
    let s: i64 = PI_URAD / 2 - x;
    if s > PI_URAD {
        sin_milli(s - TWO_PI_URAD)
    } else {
        sin_milli(s)
    }
}

} // verus!

verus! {

/// Rational arctangent approximation for a ratio `z` in per-mille of 1:
/// `atan(z/1000)` in microradians, accurate to a few milliradians.
pub open spec fn atan_ratio_spec(z: int) -> int {
    (785398 * z + 273 * z * (1000 - z)) / 1000
}

/// Arctangent of `z / 1000` in microradians, for `z` in `[0, 1000]`.
pub fn atan_ratio(z: u32) -> (r: i64)
    requires
        z <= 1000,
    ensures
        r == atan_ratio_spec(z as int),
        0 <= r <= 785398,
{
    let zi: u64 = z as u64;
    assert(273 * zi * (1000 - zi) <= 273 * 1000 * 1000) by (nonlinear_arith)
        requires
            zi <= 1000,
    ;
    assert(785398 * zi + 273 * zi * (1000 - zi) <= 785398 * 1000) by (nonlinear_arith)
        requires
            zi <= 1000,
    ;
    let num: u64 = 785398 * zi + 273 * zi * (1000 - zi);
    let r: u64 = num / 1000;
    proof {
        assert(273 * (zi as int) * (1000 - zi as int) == 273 * ((zi as int) * (1000 - zi as int)))
            by (nonlinear_arith)
        ;
    }
    r as i64
}

/// The angle of the vector `(dx, dy)` in microradians, in `[-PI_URAD,
/// PI_URAD]`, measured from the positive x axis with y growing downward
/// treated like the mathematical convention. Defined by octant reduction
/// of the rational arctangent; the zero vector maps to angle 0.
pub open spec fn atan2_spec(dy: int, dx: int) -> int {
    let ax = if dx >= 0 { dx } else { -dx };
    let ay = if dy >= 0 { dy } else { -dy };
    let base = if ax == 0 && ay == 0 {
        0
    } else if ax >= ay {
        atan_ratio_spec((ay * 1000) / ax)
    } else {
        (PI_URAD as int) / 2 - atan_ratio_spec((ax * 1000) / ay)
    };
    if dy >= 0 {
        if dx >= 0 {
            base
        } else {
            PI_URAD - base
        }
    } else {
        if dx >= 0 {
            -base
        } else {
            -(PI_URAD - base)
        }
    }
}

/// Integer two-argument arctangent in microradians.
pub fn atan2_urad(dy: i64, dx: i64) -> (r: i64)
    requires
        -0x8000_0000 <= dy <= 0x8000_0000,
        -0x8000_0000 <= dx <= 0x8000_0000,
    ensures
        r == atan2_spec(dy as int, dx as int),
        -PI_URAD <= r <= PI_URAD,
{
    let ax: u64 = if dx >= 0 { dx as u64 } else { (-dx) as u64 };
    let ay: u64 = if dy >= 0 { dy as u64 } else { (-dy) as u64 };
    let base: i64 = if ax == 0 && ay == 0 {
        0
    } else if ax >= ay {
        let q: u64 = ay * 1000 / ax;
        assert(q <= 1000) by (nonlinear_arith)
            requires
                q == (ay as int) * 1000 / (ax as int),
                ay <= ax,
                ax > 0,
        ;
        atan_ratio(q as u32)
    } else {
        let q: u64 = ax * 1000 / ay;
        assert(q <= 1000) by (nonlinear_arith)
            requires
                q == (ax as int) * 1000 / (ay as int),
                ax <= ay,
                ay > 0,
        ;
        PI_URAD / 2 - atan_ratio(q as u32)
    };
    if dy >= 0 {
        if dx >= 0 {
            base
        } else {
            PI_URAD - base
        }
    } else {
        if dx >= 0 {
            -base
        } else {
            -(PI_URAD - base)
        }
    }
}

} // verus!
