//! Rectangles, straight spans and elbow corridors: the shapes that are cut
//! into a dungeon, each with the set of cells it stands for.

use std::ops::Range;
use vstd::prelude::*;

verus! {

/// The smaller of two integers.
pub open spec fn lower(a: int, b: int) -> int {
    if a <= b {
        a
    } else {
        b
    }
}

/// The larger of two integers.
pub open spec fn upper(a: int, b: int) -> int {
    if a <= b {
        b
    } else {
        a
    }
}

/// The mean of two integers, rounded toward zero.
pub open spec fn midpoint(a: int, b: int) -> int {
    if a + b >= 0 {
        (a + b) / 2
    } else {
        -((-(a + b)) / 2)
    }
}

/// The cells `(x, y)` with `x` between `xa` and `xb`, both ends included,
/// whichever of the two is larger.
pub open spec fn h_span(xa: int, xb: int, y: int) -> Set<(int, int)> {
    Set::new(|p: (int, int)| p.1 == y && lower(xa, xb) <= p.0 <= upper(xa, xb))
}

/// The cells `(x, y)` with `y` between `ya` and `yb`, both ends included,
/// whichever of the two is larger.
pub open spec fn v_span(ya: int, yb: int, x: int) -> Set<(int, int)> {
    Set::new(|p: (int, int)| p.0 == x && lower(ya, yb) <= p.1 <= upper(ya, yb))
}

/// An axis-aligned rectangle from `(x1, y1)` to `(x2, y2)`, corners included.
#[derive(Clone, Copy, Debug, PartialEq, Eq, Structural)]
pub struct Rect {
    pub x1: i32,
    pub y1: i32,
    pub x2: i32,
    pub y2: i32,
}

impl Rect {
    /// A rectangle is proper when it has a positive extent on both axes.
    pub open spec fn proper(self) -> bool {
        self.x1 < self.x2 && self.y1 < self.y2
    }

    /// A rectangle is roomy when at least one cell lies strictly inside it.
    pub open spec fn roomy(self) -> bool {
        self.x1 + 2 <= self.x2 && self.y1 + 2 <= self.y2
    }

    /// Whether `(x, y)` lies in the rectangle, perimeter included.
    pub open spec fn covers(self, x: int, y: int) -> bool {
        self.x1 <= x <= self.x2 && self.y1 <= y <= self.y2
    }

    /// Whether `(x, y)` lies strictly inside the perimeter.
    pub open spec fn encloses(self, x: int, y: int) -> bool {
        self.x1 < x < self.x2 && self.y1 < y < self.y2
    }

    /// Whether `(x, y)` lies on the perimeter.
    pub open spec fn on_perimeter(self, x: int, y: int) -> bool {
        self.covers(x, y) && !self.encloses(x, y)
    }

    /// The cells strictly inside the perimeter: the part of a room that is
    /// turned into floor.
    pub open spec fn interior(self) -> Set<(int, int)> {
        Set::new(|p: (int, int)| self.encloses(p.0, p.1))
    }

    /// Bounding boxes meet when they share at least one cell; touching edges
    /// count.
    pub open spec fn intersects(self, other: Rect) -> bool {
        &&& self.x1 <= other.x2
        &&& self.x2 >= other.x1
        &&& self.y1 <= other.y2
        &&& self.y2 >= other.y1
    }

    /// The middle cell, each coordinate rounded toward zero.
    pub open spec fn center_point(self) -> (int, int) {
        (midpoint(self.x1 as int, self.x2 as int), midpoint(self.y1 as int, self.y2 as int))
    }

    /// The rectangle with top-left corner `(x, y)`, `w` wide and `h` high.
    pub fn new(x: i32, y: i32, w: i32, h: i32) -> (r: Rect)
        requires
            i32::MIN <= x + w <= i32::MAX,
            i32::MIN <= y + h <= i32::MAX,
        ensures
            r.x1 == x,
            r.y1 == y,
            r.x2 == x + w,
            r.y2 == y + h,
            r.proper() <==> (w > 0 && h > 0),
    {
        Rect { x1: x, y1: y, x2: x + w, y2: y + h }
    }

    pub fn center(&self) -> (c: (i32, i32))
        ensures
            (c.0 as int, c.1 as int) == self.center_point(),
    {
        let center_x: i64 = (self.x1 as i64 + self.x2 as i64) / 2;
        let center_y: i64 = (self.y1 as i64 + self.y2 as i64) / 2;
        (center_x as i32, center_y as i32)
    }

    pub fn intersects_with(&self, other: &Rect) -> (b: bool)
        ensures
            b == self.intersects(*other),
    {
        (self.x1 <= other.x2) && (self.x2 >= other.x1) && (self.y1 <= other.y2) && (self.y2
            >= other.y1)
    }
}

/// The center of a roomy rectangle lies strictly inside it.
pub proof fn lemma_center_enclosed(r: Rect)
    requires
        r.roomy(),
    ensures
        r.encloses(r.center_point().0, r.center_point().1),
{
}

/// The center of a rectangle whose corners are in order lies in it.
pub proof fn lemma_center_covered(r: Rect)
    requires
        r.x1 <= r.x2,
        r.y1 <= r.y2,
    ensures
        r.covers(r.center_point().0, r.center_point().1),
{
}

/// The half-open range that runs from the smaller of the two values to the
/// larger one, both included.
pub fn make_range(v1: i32, v2: i32) -> (r: Range<i32>)
    requires
        v1 < i32::MAX,
        v2 < i32::MAX,
    ensures
        r.start == lower(v1 as int, v2 as int),
        r.end == upper(v1 as int, v2 as int) + 1,
{
    if v1 <= v2 {
        v1..(v2 + 1)
    } else {
        v2..(v1 + 1)
    }
}

/// An elbow between two cells: one horizontal and one vertical span, both
/// always present; the flag only says which of them leaves the first cell.
#[derive(Clone, Copy, Debug, PartialEq, Eq, Structural)]
pub struct Corridor {
    pub from_x: i32,
    pub from_y: i32,
    pub to_x: i32,
    pub to_y: i32,
    pub horizontal_first: bool,
}

impl Corridor {
    /// The horizontal span of the elbow.
    pub open spec fn h_part(self) -> Set<(int, int)> {
        if self.horizontal_first {
            h_span(self.from_x as int, self.to_x as int, self.from_y as int)
        } else {
            h_span(self.from_x as int, self.to_x as int, self.to_y as int)
        }
    }

    /// The vertical span of the elbow.
    pub open spec fn v_part(self) -> Set<(int, int)> {
        if self.horizontal_first {
            v_span(self.from_y as int, self.to_y as int, self.to_x as int)
        } else {
            v_span(self.from_y as int, self.to_y as int, self.from_x as int)
        }
    }

    /// Every cell of the elbow: the union of its two spans.
    pub open spec fn path(self) -> Set<(int, int)> {
        self.h_part().union(self.v_part())
    }
}

} // verus!
