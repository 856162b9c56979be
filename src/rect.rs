use vstd::prelude::*;

verus! {

/// An axis-aligned rectangle on the canvas grid.
#[derive(Debug, Clone, Copy, Default, PartialEq, Eq, Structural)]
pub struct Rect {
    pub x: usize,
    pub y: usize,
    pub width: usize,
    pub height: usize,
}

impl Rect {
    /// Whether `x + width` and `y + height` both fit in a `usize`.
    pub open spec fn fits(self) -> bool {
        self.x + self.width <= usize::MAX && self.y + self.height <= usize::MAX
    }

    /// `(px, py)` lies in `[x, x + width) × [y, y + height)`, and the rectangle's
    /// far edges are representable. A rectangle whose far edge overflows contains
    /// nothing.
    pub open spec fn spec_contains(self, px: int, py: int) -> bool {
        &&& self.fits()
        &&& self.x <= px < self.x + self.width
        &&& self.y <= py < self.y + self.height
    }

    /// Returns false if `width+x` or `height+y` cannot fit in a `usize`
    pub fn contains(&self, x: usize, y: usize) -> (r: bool)
        ensures
            r == self.spec_contains(x as int, y as int),
    {
        let upper_x = match self.x.checked_add(self.width) {
            Some(u) => u,
            None => return false,
        };
        let upper_y = match self.y.checked_add(self.height) {
            Some(u) => u,
            None => return false,
        };
        x >= self.x && x < upper_x && y >= self.y && y < upper_y
    }
}

/// A rectangle whose far edge overflows `usize` contains no coordinate at all.
pub proof fn lemma_overflowing_rect_is_empty(r: Rect, px: usize, py: usize)
    requires
        r.x + r.width > usize::MAX || r.y + r.height > usize::MAX,
    ensures
        !r.spec_contains(px as int, py as int),
{
}

} // verus!
