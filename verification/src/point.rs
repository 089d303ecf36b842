//! Lattice coordinates and their four cardinal neighbours.
use vstd::prelude::*;

verus! {

/// A cell position: `x` selects the row of the lattice, `y` the position
/// inside that row.
#[derive(Clone, Copy, Debug, PartialEq, Eq, Hash, Structural)]
pub struct Point {
    pub x: usize,
    pub y: usize,
}

impl Point {
    /// The neighbour one step further along the row.
    ///
    /// The step is not checked against any lattice: the caller makes sure
    /// that there is room to move.
    pub fn up(&self) -> (r: Point)
        requires
            self.y < usize::MAX,
        ensures
            r.x == self.x,
            r.y == self.y + 1,
    {
        Point { x: self.x, y: self.y + 1 }
    }

    /// The neighbour one step back along the row.
    pub fn down(&self) -> (r: Point)
        requires
            self.y >= 1,
        ensures
            r.x == self.x,
            r.y == self.y - 1,
    {
        Point { x: self.x, y: self.y - 1 }
    }

    /// The neighbour in the previous row.
    pub fn left(&self) -> (r: Point)
        requires
            self.x >= 1,
        ensures
            r.x == self.x - 1,
            r.y == self.y,
    {
        Point { x: self.x - 1, y: self.y }
    }

    /// The neighbour in the next row.
    pub fn right(&self) -> (r: Point)
        requires
            self.x < usize::MAX,
        ensures
            r.x == self.x + 1,
            r.y == self.y,
    {
        Point { x: self.x + 1, y: self.y }
    }
}

} // verus!
