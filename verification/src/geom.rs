//! Integer points and direction vectors on the tile grid.

use vstd::prelude::*;

verus! {

/// A position (or offset) on a 2D integer grid.
#[derive(Copy, Clone, PartialEq, Eq, Structural, Debug)]
pub struct Pos {
    pub x: i32,
    pub y: i32,
}

impl Pos {
    pub fn new(x: i32, y: i32) -> (p: Pos)
        ensures
            p.x == x,
            p.y == y,
    {
        Pos { x, y }
    }

    /// The position shifted by an offset.
    pub fn shifted(self, d: Pos) -> (p: Pos)
        requires
            i32::MIN <= self.x + d.x <= i32::MAX,
            i32::MIN <= self.y + d.y <= i32::MAX,
        ensures
            p.x == self.x + d.x,
            p.y == self.y + d.y,
    {
        Pos { x: self.x + d.x, y: self.y + d.y }
    }
}

} // verus!
