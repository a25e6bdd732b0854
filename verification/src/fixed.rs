//! Fixed-point scalars and two-dimensional vectors.
//!
//! Every real quantity of the sandbox (a coordinate, a speed, a mass, a
//! strength, a time step) is a 32-bit integer that counts units of
//! 1/1024. Intermediate results are computed in 128 bits, so that no
//! operation of this module can overflow.

use vstd::prelude::*;

verus! {

/// The fixed-point representation of 1.0: ten fractional bits.
pub const ONE: i32 = 1024;

/// A point or a direction in the plane, in fixed-point units.
#[derive(Clone, Copy, Debug, PartialEq, Eq, Structural)]
pub struct Vec2 {
    pub x: i32,
    pub y: i32,
}

/// `value` limited to the closed interval from `low` to `high`.
pub open spec fn clamp_int(value: int, low: int, high: int) -> int {
    if value < low {
        low
    } else if value > high {
        high
    } else {
        value
    }
}

/// The quotient of `a` by a positive `b`, rounded toward zero.
pub open spec fn div_toward_zero(a: int, b: int) -> int {
    if a >= 0 {
        a / b
    } else {
        -((-a) / b)
    }
}

/// The square of the Euclidean distance between `a` and `b`.
pub open spec fn dist2(a: Vec2, b: Vec2) -> int {
    (b.x - a.x) * (b.x - a.x) + (b.y - a.y) * (b.y - a.y)
}

/// Whether `b` lies no further than `radius` from `a`. No point lies within
/// a negative radius.
pub open spec fn within(a: Vec2, b: Vec2, radius: int) -> bool {
    radius >= 0 && dist2(a, b) <= radius * radius
}

/// The square of a 32-bit difference fits in 64 bits.
pub proof fn lemma_square_bound(d: int)
    requires
        -0x1_0000_0000 < d < 0x1_0000_0000,
    ensures
        0 <= d * d <= 0x1_0000_0000_0000_0000,
{
    assert(0 <= d * d <= 0x1_0000_0000_0000_0000) by (nonlinear_arith)
        requires
            -0x1_0000_0000 < d < 0x1_0000_0000,
    ;
}

/// Rounding toward zero commutes with negation and never grows a value.
pub proof fn lemma_div_toward_zero(a: int, b: int)
    requires
        b > 0,
    ensures
        div_toward_zero(-a, b) == -div_toward_zero(a, b),
        a >= 0 ==> 0 <= div_toward_zero(a, b) <= a,
        a <= 0 ==> a <= div_toward_zero(a, b) <= 0,
{
    if a >= 0 {
        assert(0 <= a / b <= a) by (nonlinear_arith)
            requires
                a >= 0,
                b > 0,
        ;
    } else {
        let n = -a;
        assert(0 <= n / b <= n) by (nonlinear_arith)
            requires
                n >= 0,
                b > 0,
        ;
    }
}

/// Limits `value` to the closed interval from `low` to `high`.
pub fn clamp_to(value: i128, low: i32, high: i32) -> (r: i32)
    requires
        low <= high,
    ensures
        r == clamp_int(value as int, low as int, high as int),
{
    if value < low as i128 {
        low
    } else if value > high as i128 {
        high
    } else {
        value as i32
    }
}

/// Divides `a` by a positive `b` and rounds toward zero.
pub fn divide_toward_zero(a: i128, b: i128) -> (r: i128)
    requires
        b > 0,
        a > i128::MIN,
    ensures
        r == div_toward_zero(a as int, b as int),
{
    if a >= 0 {
        let q: u128 = (a as u128) / (b as u128);
        proof {
            lemma_div_toward_zero(a as int, b as int);
        }
        q as i128
    } else {
        let n: i128 = -a;
        let q: u128 = (n as u128) / (b as u128);
        proof {
            lemma_div_toward_zero(n as int, b as int);
        }
        -(q as i128)
    }
}

/// The square of the Euclidean distance between `a` and `b`.
pub fn distance_squared(a: Vec2, b: Vec2) -> (r: i128)
    ensures
        r == dist2(a, b),
        0 <= r <= 0x2_0000_0000_0000_0000,
{
    let dx: i128 = b.x as i128 - a.x as i128;
    let dy: i128 = b.y as i128 - a.y as i128;
    proof {
        lemma_square_bound(dx as int);
        lemma_square_bound(dy as int);
    }
    dx * dx + dy * dy
}

/// Whether `b` lies no further than `radius` from `a`.
pub fn is_within(a: Vec2, b: Vec2, radius: i32) -> (r: bool)
    ensures
        r == within(a, b, radius as int),
{
    if radius < 0 {
        return false;
    }
    let d2: i128 = distance_squared(a, b);
    let reach: i128 = radius as i128;
    proof {
        lemma_square_bound(reach as int);
    }
    d2 <= reach * reach
}

} // verus!
