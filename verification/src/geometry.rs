//! Points and rectangles with integer coordinates.

use vstd::prelude::*;

verus! {

/// A position on the grid. `x` grows to the right, `y` grows downwards.
#[derive(Clone, Copy, Debug, PartialEq, Eq, Structural, Hash)]
pub struct Point {
    pub x: i32,
    pub y: i32,
}

impl Point {
    pub fn new(x: i32, y: i32) -> (p: Point)
        ensures
            p.x == x,
            p.y == y,
    {
        Point { x, y }
    }

    pub fn zero() -> (p: Point)
        ensures
            p.x == 0,
            p.y == 0,
    {
        Point { x: 0, y: 0 }
    }

    /// The squared Euclidean distance between two points.
    pub open spec fn dist2(self, other: Point) -> int {
        (self.x - other.x) * (self.x - other.x) + (self.y - other.y) * (self.y - other.y)
    }

    /// True when `other` is one step away in one of the four cardinal directions.
    pub open spec fn is_cardinal_step(self, other: Point) -> bool {
        ||| (other.x == self.x + 1 && other.y == self.y)
        ||| (other.x == self.x - 1 && other.y == self.y)
        ||| (other.x == self.x && other.y == self.y + 1)
        ||| (other.x == self.x && other.y == self.y - 1)
    }
}

/// A rectangle of grid cells: `x1 <= x < x2` and `y1 <= y < y2`.
#[derive(Clone, Copy, Debug, PartialEq, Eq, Structural)]
pub struct Rect {
    pub x1: i32,
    pub y1: i32,
    pub x2: i32,
    pub y2: i32,
}

impl Rect {
    /// The cells that the rectangle covers.
    pub open spec fn covers(self, p: Point) -> bool {
        self.x1 <= p.x < self.x2 && self.y1 <= p.y < self.y2
    }

    /// The rectangle with its upper left corner at (`x`, `y`), `w` cells wide
    /// and `h` cells high.
    pub fn with_size(x: i32, y: i32, w: i32, h: i32) -> (r: Rect)
        requires
            i32::MIN <= x + w <= i32::MAX,
            i32::MIN <= y + h <= i32::MAX,
        ensures
            r.x1 == x,
            r.y1 == y,
            r.x2 == x + w,
            r.y2 == y + h,
    {
        Rect { x1: x, y1: y, x2: x + w, y2: y + h }
    }

    pub fn point_in_rect(&self, p: Point) -> (inside: bool)
        ensures
            inside == self.covers(p),
    {
        p.x >= self.x1 && p.x < self.x2 && p.y >= self.y1 && p.y < self.y2
    }
}

} // verus!
