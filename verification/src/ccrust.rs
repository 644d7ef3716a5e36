//! A point type shared with C code, and its component-wise sum.
use vstd::prelude::*;

verus! {

/// A point of the plane with signed 64-bit coordinates.
#[derive(PartialEq, Eq, Structural, Debug, Clone, Copy)]
pub struct Point {
    pub x: i64,
    pub y: i64,
}

/// Component-wise sum of two points.
pub fn add(left: Point, right: Point) -> (sum: Point)
    requires
        i64::MIN <= left.x + right.x <= i64::MAX,
        i64::MIN <= left.y + right.y <= i64::MAX,
    ensures
        sum.x == left.x + right.x,
        sum.y == left.y + right.y,
{
    Point { x: left.x + right.x, y: left.y + right.y }
}

} // verus!
