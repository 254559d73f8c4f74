use vstd::prelude::*;

verus! {

/// Half of `v`, rounded toward zero as integer division does on machine integers.
pub open spec fn half_toward_zero(v: int) -> int {
    if v >= 0 { v / 2 } else { -((-v) / 2) }
}

/// An axis-aligned rectangle given by its two corners.
#[derive(Clone, Copy, Debug, PartialEq, Eq, Structural)]
pub struct Rect {
    pub x1: i32,
    pub x2: i32,
    pub y1: i32,
    pub y2: i32,
}

impl Rect {
    /// Whether the two rectangles overlap or touch.
    pub open spec fn spec_intersects(self, other: Rect) -> bool {
        &&& self.x1 <= other.x2
        &&& self.x2 >= other.x1
        &&& self.y1 <= other.y2
        &&& self.y2 >= other.y1
    }

    /// The center of the rectangle, each coordinate halved toward zero.
    pub open spec fn spec_center(self) -> (int, int) {
        (half_toward_zero(self.x1 + self.x2), half_toward_zero(self.y1 + self.y2))
    }

    /// Whether the sums that `center` computes fit in an `i32`.
    pub open spec fn center_fits(self) -> bool {
        &&& i32::MIN <= self.x1 + self.x2 <= i32::MAX
        &&& i32::MIN <= self.y1 + self.y2 <= i32::MAX
    }

    pub fn new(x: i32, y: i32, w: i32, h: i32) -> (r: Rect)
        requires
            i32::MIN <= x + w <= i32::MAX,
            i32::MIN <= y + h <= i32::MAX,
        ensures
            r == (Rect { x1: x, y1: y, x2: (x + w) as i32, y2: (y + h) as i32 }),
    {
        Rect { x1: x, y1: y, x2: x + w, y2: y + h }
    }

    pub fn intersect(&self, other: &Rect) -> (b: bool)
        ensures
            b == self.spec_intersects(*other),
    {
        self.x1 <= other.x2 && self.x2 >= other.x1 && self.y1 <= other.y2 && self.y2 >= other.y1
    }

    pub fn center(&self) -> (c: (i32, i32))
        requires
            self.center_fits(),
        ensures
            c.0 == self.spec_center().0,
            c.1 == self.spec_center().1,
    {
        ((self.x1 + self.x2) / 2, (self.y1 + self.y2) / 2)
    }
}

} // verus!
