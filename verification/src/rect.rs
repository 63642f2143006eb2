//! Axis-aligned rectangle used for dungeon rooms.

use vstd::prelude::*;

verus! {

/// A room rectangle: `(x1, y1)` is the anchor corner, `(x2, y2)` the
/// opposite corner.  Interiors are carved one tile inset from each edge.
#[derive(Clone, Copy, PartialEq, Eq, Structural, Debug)]
pub struct Rect {
    pub x1: i32,
    pub x2: i32,
    pub y1: i32,
    pub y2: i32,
}

impl Rect {
    /// Basic shape invariant: the corners are ordered.
    pub open spec fn wf(self) -> bool {
        self.x1 <= self.x2 && self.y1 <= self.y2
    }

    /// Two rectangles intersect when all four axis overlaps hold;
    /// touching edges count as intersecting.
    pub open spec fn spec_intersect(self, other: Rect) -> bool {
        self.x1 <= other.x2 && self.x2 >= other.x1 && self.y1 <= other.y2 && self.y2 >= other.y1
    }

    /// Centre of the rectangle, rounded down.
    pub open spec fn spec_centre(self) -> (int, int) {
        ((self.x1 + self.x2) / 2, (self.y1 + self.y2) / 2)
    }

    pub fn new(x_pos: i32, y_pos: i32, width: i32, height: i32) -> (r: Rect)
        requires
            0 <= width,
            0 <= height,
            x_pos + width <= i32::MAX,
            y_pos + height <= i32::MAX,
        ensures
            r.x1 == x_pos,
            r.y1 == y_pos,
            r.x2 == x_pos + width,
            r.y2 == y_pos + height,
            r.wf(),
    {
        Rect { x1: x_pos, y1: y_pos, x2: x_pos + width, y2: y_pos + height }
    }

    /// Returns whether this `Rect` intersects with `other`.
    pub fn intersect(&self, other: &Rect) -> (r: bool)
        ensures
            r == self.spec_intersect(*other),
    {
        self.x1 <= other.x2 && self.x2 >= other.x1 && self.y1 <= other.y2 && self.y2 >= other.y1
    }

    /// Centre point of this `Rect`.
    pub fn centre(&self) -> (c: (i32, i32))
        requires
            self.wf(),
            0 <= self.x1,
            0 <= self.y1,
            self.x1 + self.x2 <= i32::MAX,
            self.y1 + self.y2 <= i32::MAX,
        ensures
            (c.0 as int, c.1 as int) == self.spec_centre(),
    {
        ((self.x1 + self.x2) / 2, (self.y1 + self.y2) / 2)
    }
}

} // verus!
