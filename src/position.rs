//! A grid position.

use vstd::prelude::*;

verus! {

/// A column and row on the grid.
#[derive(Clone, Copy, Debug, PartialEq, Eq, Structural)]
pub struct Position {
    x: u32,
    y: u32,
}

impl Position {
    /// The x coordinate, for contracts.
    pub closed spec fn x_spec(&self) -> u32 {
        self.x
    }

    /// The y coordinate, for contracts.
    pub closed spec fn y_spec(&self) -> u32 {
        self.y
    }

    /// The position `(x, y)`.
    pub fn new(x: u32, y: u32) -> (r: Position)
        ensures
            r.x_spec() == x,
            r.y_spec() == y,
    {
        Position { x, y }
    }

    /// The coordinates `(x, y)`.
    pub fn get(self) -> (r: (u32, u32))
        ensures
            r == (self.x_spec(), self.y_spec()),
    {
        (self.x, self.y)
    }

    /// Moves to `(nx, ny)`.
    pub fn set(&mut self, nx: u32, ny: u32)
        ensures
            final(self).x_spec() == nx,
            final(self).y_spec() == ny,
    {
        self.x = nx;
        self.y = ny;
    }
}

} // verus!
