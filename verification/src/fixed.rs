//! Fixed-point units and the integer arithmetic shared by the other modules.
use vstd::prelude::*;

verus! {

/// The fixed-point scale: the integer that stands for one pixel, one degree,
/// or a direction component of length one.
pub const UNIT: i64 = 1_000_000;

/// A full turn of 360 degrees, in millionths of a degree.
pub const FULL_TURN: i64 = 360_000_000;

/// Largest length (field side, half extent, distance per tick) that a region
/// may hold: one million pixels.
pub const MAX_LENGTH: i64 = 1_000_000_000_000;

/// Quotient of `a` by a positive `b`, rounded toward zero.
pub open spec fn div_toward_zero(a: int, b: int) -> int
    recommends
        b > 0,
{
    if a >= 0 {
        a / b
    } else {
        -((-a) / b)
    }
}

/// The angle in `[0, FULL_TURN)` that differs from `a` by whole turns.
pub open spec fn wrap_angle(a: int) -> int {
    a % (FULL_TURN as int)
}

/// The part of `speed` that falls on an axis along which the direction has
/// component `d` (in millionths), rounded toward zero.
pub open spec fn step_length(d: int, speed: int) -> int {
    div_toward_zero(d * speed, UNIT as int)
}

/// Divides `a` by a positive `b`, rounding toward zero.
pub fn quotient_toward_zero(a: i64, b: i64) -> (q: i64)
    requires
        b > 0,
    ensures
        q == div_toward_zero(a as int, b as int),
{
    a / b
}

/// Reduces any angle to `[0, FULL_TURN)`.
pub fn wrap(a: i64) -> (r: i64)
    ensures
        r == wrap_angle(a as int),
        0 <= r < FULL_TURN,
{
    let m: i64 = a % FULL_TURN;
    if m < 0 {
        m + FULL_TURN
    } else {
        m
    }
}

} // verus!
