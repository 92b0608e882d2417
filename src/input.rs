//! Screen-space helpers shared by the window glue and the grid.
use vstd::prelude::*;

verus! {

/// A position or offset in cells.
#[derive(Clone, Copy, Debug, Default, PartialEq, Eq, Structural)]
pub struct CenterLocation {
    pub x: i32,
    pub y: i32,
}

impl CenterLocation {
    pub fn new() -> (r: Self)
        ensures
            r.x == 0,
            r.y == 0,
    {
        Self { x: 0, y: 0 }
    }

    /// The offset from `rhs` to `self`.
    pub fn difference(&mut self, rhs: CenterLocation) -> (r: Self)
        requires
            i32::MIN <= old(self).x - rhs.x <= i32::MAX,
            i32::MIN <= old(self).y - rhs.y <= i32::MAX,
        ensures
            r.x == old(self).x - rhs.x,
            r.y == old(self).y - rhs.y,
            *final(self) == *old(self),
    {
        Self { x: self.x - rhs.x, y: self.y - rhs.y }
    }
}

} // verus!
