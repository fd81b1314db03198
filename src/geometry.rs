//! Fixed-point plane geometry. Coordinates count thousandths of a world unit.
use vstd::prelude::*;

verus! {

/// A point, or a velocity, in thousandths of a world unit.
#[derive(Clone, Copy, Debug, PartialEq, Eq, Structural)]
pub struct Position {
    pub x: i32,
    pub y: i32,
}

/// An impulse handed to the physics engine, in thousandths of a unit.
#[derive(Clone, Copy, Debug, PartialEq, Eq, Structural)]
pub struct Impulse {
    pub x: i64,
    pub y: i64,
}

/// `v` rounded to the nearest whole unit, halves away from zero.
pub open spec fn round_spec(v: int) -> int {
    if v >= 0 {
        ((v + 500) / 1000) * 1000
    } else {
        -(((-v + 500) / 1000) * 1000)
    }
}

/// Squared distance between two points.
pub open spec fn dist_sq(a: Position, b: Position) -> int {
    (a.x - b.x) * (a.x - b.x) + (a.y - b.y) * (a.y - b.y)
}

/// The impulse that pushes the ball away from `from` with the given power.
pub open spec fn push_away(ball: Position, from: Position, power: int) -> (int, int) {
    (-(from.x - ball.x) * power, -(from.y - ball.y) * power)
}

/// Rounds a coordinate to the nearest whole unit, halves away from zero.
pub fn round_coord(v: i32) -> (r: i32)
    requires
        -2147483000 <= v <= 2147483000,
    ensures
        r == round_spec(v as int),
{
    if v >= 0 {
        ((v + 500) / 1000) * 1000
    } else {
        -(((-v + 500) / 1000) * 1000)
    }
}

} // verus!
