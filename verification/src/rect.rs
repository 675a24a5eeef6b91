use vstd::prelude::*;

verus! {

/// An axis-aligned rectangle given by two corners; a room of the map.
#[derive(Clone, Copy, PartialEq, Eq, Structural, Debug)]
pub struct Rect {
    pub x1: i32,
    pub x2: i32,
    pub y1: i32,
    pub y2: i32,
}

/// The two rectangles overlap or touch (their closed extents meet).
pub open spec fn spec_intersect(a: Rect, b: Rect) -> bool {
    a.x1 <= b.x2 && a.x2 >= b.x1 && a.y1 <= b.y2 && a.y2 >= b.y1
}

/// Half of `a`, rounded towards zero (as `/` rounds on machine integers).
pub open spec fn half(a: int) -> int {
    if a >= 0 {
        a / 2
    } else {
        -((-a) / 2)
    }
}

/// The centre of a rectangle.
pub open spec fn spec_center(r: Rect) -> (int, int) {
    (half(r.x1 + r.x2), half(r.y1 + r.y2))
}

impl Rect {
    /// The rectangle with corner `(x, y)`, width `w` and height `h`.
    pub fn new(x: i32, y: i32, w: i32, h: i32) -> (r: Rect)
        requires
            i32::MIN <= x + w <= i32::MAX,
            i32::MIN <= y + h <= i32::MAX,
        ensures
            r == (Rect { x1: x, y1: y, x2: (x + w) as i32, y2: (y + h) as i32 }),
    {
        Rect { x1: x, y1: y, x2: x + w, y2: y + h }
    }

    /// Whether this rectangle overlaps or touches `other`.
    pub fn intersect(&self, other: &Rect) -> (r: bool)
        ensures
            r == spec_intersect(*self, *other),
    {
        self.x1 <= other.x2 && self.x2 >= other.x1 && self.y1 <= other.y2 && self.y2 >= other.y1
    }

    /// The centre of the rectangle.
    pub fn center(&self) -> (c: (i32, i32))
        requires
            i32::MIN <= self.x1 + self.x2 <= i32::MAX,
            i32::MIN <= self.y1 + self.y2 <= i32::MAX,
        ensures
            (c.0 as int, c.1 as int) == spec_center(*self),
    {
        ((self.x1 + self.x2) / 2, (self.y1 + self.y2) / 2)
    }
}

/// Overlap is symmetric: `a` meets `b` exactly when `b` meets `a`.
pub proof fn lemma_intersect_symmetric(a: Rect, b: Rect)
    ensures
        spec_intersect(a, b) == spec_intersect(b, a),
{
}

/// A rectangle with a positive width and height contains its centre, strictly
/// right of and below its corner `(x1, y1)`, when the corner is not negative.
pub proof fn lemma_center_inside(r: Rect)
    requires
        0 <= r.x1,
        0 <= r.y1,
        r.x2 - r.x1 >= 2,
        r.y2 - r.y1 >= 2,
    ensures
        r.x1 < spec_center(r).0 <= r.x2,
        r.y1 < spec_center(r).1 <= r.y2,
{
}

} // verus!
