use vstd::prelude::*;

verus! {

/// A 2D integer offset. Used both as an absolute grid coordinate and as a
/// piece-relative cell offset measured from the piece's pivot.
#[derive(Debug, Clone, Copy, PartialEq, Eq, Structural)]
pub struct Coord {
    pub x: i32,
    pub y: i32,
}

impl Coord {
    pub fn new(x: i32, y: i32) -> (c: Coord)
        ensures
            c == (Coord { x, y }),
    {
        Coord { x, y }
    }

    /// Component-wise addition.
    pub fn add(self, rhs: Coord) -> (c: Coord)
        requires
            i32::MIN <= self.x + rhs.x <= i32::MAX,
            i32::MIN <= self.y + rhs.y <= i32::MAX,
        ensures
            c.x == self.x + rhs.x,
            c.y == self.y + rhs.y,
    {
        Coord { x: self.x + rhs.x, y: self.y + rhs.y }
    }

    /// Component-wise subtraction.
    pub fn sub(self, rhs: Coord) -> (c: Coord)
        requires
            i32::MIN <= self.x - rhs.x <= i32::MAX,
            i32::MIN <= self.y - rhs.y <= i32::MAX,
        ensures
            c.x == self.x - rhs.x,
            c.y == self.y - rhs.y,
    {
        Coord { x: self.x - rhs.x, y: self.y - rhs.y }
    }
}

} // verus!
