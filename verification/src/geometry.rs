//! Pixel geometry.
use vstd::prelude::*;

verus! {

/// A rectangle in absolute pixels over the whole scrollback. `y` is signed: an
/// image that scrolls out over the top has a negative one.
#[derive(Debug, Clone, Copy, PartialEq, Eq)]
pub struct PixelRect {
    pub x: usize,
    pub y: isize,
    pub width: usize,
    pub height: usize,
}

/// The size of one character cell.
#[derive(Debug, Clone, Copy, PartialEq, Eq)]
pub struct SizeInPixels {
    pub height: usize,
    pub width: usize,
}

impl PixelRect {
    /// Whether the pixel in column `px` and row `py` lies in the rectangle.
    pub open spec fn covers(self, px: int, py: int) -> bool {
        self.x <= px < self.x + self.width && self.y <= py < self.y + self.height
    }

    /// Whether the two rectangles have a pixel in common.
    pub open spec fn overlaps(self, other: PixelRect) -> bool {
        exists|px: int, py: int| #[trigger] self.covers(px, py) && #[trigger] other.covers(px, py)
    }

    /// A rectangle from its top left corner and its size. The height comes
    /// before the width.
    pub fn new(x: usize, y: isize, height: usize, width: usize) -> (r: Self)
        ensures
            r == (PixelRect { x, y, width, height }),
    {
        PixelRect { x, y, width, height }
    }

    /// Whether the two rectangles have a pixel in common.
    pub fn intersects(&self, other: &PixelRect) -> (r: bool)
        ensures
            r == self.overlaps(*other),
    {
        let left: usize = if self.x >= other.x {
            self.x
        } else {
            other.x
        };
        let top: isize = if self.y >= other.y {
            self.y
        } else {
            other.y
        };
        let self_right: i128 = self.x as i128 + self.width as i128;
        let other_right: i128 = other.x as i128 + other.width as i128;
        let self_bottom: i128 = self.y as i128 + self.height as i128;
        let other_bottom: i128 = other.y as i128 + other.height as i128;
        let r = (left as i128) < self_right && (left as i128) < other_right && (top as i128)
            < self_bottom && (top as i128) < other_bottom;
        proof {
            if r {
                assert(self.covers(left as int, top as int) && other.covers(
                    left as int,
                    top as int,
                ));
            }
        }
        r
    }
}

} // verus!
