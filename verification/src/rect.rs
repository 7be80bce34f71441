//! Axis-aligned room rectangles, with overlap tests (edges inclusive) and
//! center computation.
use vstd::prelude::*;
use crate::map::Point;

verus! {

/// An axis-aligned rectangle; `x1`/`y1` is the first corner, `x2`/`y2` the
/// second (typically left/top and right/bottom).
#[derive(Clone, Copy, PartialEq, Eq, Structural, Debug)]
pub struct Rect {
    pub x1: i32,
    pub y1: i32,
    pub x2: i32,
    pub y2: i32,
}

impl Rect {
    /// Overlap including touching edges.
    pub open spec fn intersect_spec(self, other: Rect) -> bool {
        self.x1 <= other.x2 && self.x2 >= other.x1 && self.y1 <= other.y2 && self.y2 >= other.y1
    }

    pub open spec fn center_spec(self) -> Point {
        Point { x: (((self.x1 + self.x2) / 2) as i32), y: (((self.y1 + self.y2) / 2) as i32) }
    }

    /// A rectangle from a corner position and a width and height.
    pub fn with_size(x: i32, y: i32, w: i32, h: i32) -> (r: Rect)
        requires
            i32::MIN <= x + w <= i32::MAX,
            i32::MIN <= y + h <= i32::MAX,
        ensures
            r == (Rect { x1: x, y1: y, x2: (x + w) as i32, y2: (y + h) as i32 }),
    {
        Rect { x1: x, y1: y, x2: x + w, y2: y + h }
    }

    /// True when the two rectangles overlap; touching edges count as overlap.
    pub fn intersect(&self, other: &Rect) -> (r: bool)
        ensures
            r == self.intersect_spec(*other),
    {
        self.x1 <= other.x2 && self.x2 >= other.x1 && self.y1 <= other.y2 && self.y2 >= other.y1
    }

    /// The center of the rectangle, rounding toward the first corner.
    pub fn center(&self) -> (r: Point)
        requires
            0 <= self.x1 + self.x2 <= i32::MAX,
            0 <= self.y1 + self.y2 <= i32::MAX,
        ensures
            r == self.center_spec(),
    {
        Point { x: (self.x1 + self.x2) / 2, y: (self.y1 + self.y2) / 2 }
    }
}

} // verus!
