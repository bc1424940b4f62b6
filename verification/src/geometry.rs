//! Integer 2D geometry: grid coordinates, signed offsets, and the row-major
//! scan-order increment used to walk the whole board.

use vstd::prelude::*;

verus! {

/// Width of the board in cells.
pub const WIDTH: usize = 10;

/// Height of the board in cells.
pub const HEIGHT: usize = 20;

/// Total number of cells on the board.
pub const SIZE: usize = WIDTH * HEIGHT;

/// A cell position on the board: `x` grows rightward, `y` grows upward,
/// origin at the bottom-left corner. Never negative.
#[derive(Clone, Copy, PartialEq, Eq, Structural, Debug)]
pub struct Coordinate {
    pub x: usize,
    pub y: usize,
}

/// A signed 2D vector: a piece position or a movement delta. May be negative
/// or exceed the grid during intermediate computation.
#[derive(Clone, Copy, PartialEq, Eq, Structural, Debug)]
pub struct Offset {
    pub x: isize,
    pub y: isize,
}

impl Coordinate {
    pub fn new(x: usize, y: usize) -> (r: Coordinate)
        ensures
            r.x == x,
            r.y == y,
    {
        Coordinate { x, y }
    }
}

impl Offset {
    pub fn new(x: isize, y: isize) -> (r: Offset)
        ensures
            r.x == x,
            r.y == y,
    {
        Offset { x, y }
    }
}

/// Advancing a value one step in row-major scan order over the board:
/// increment `x`; on wrapping past `WIDTH - 1`, reset `x` to 0 and move to
/// the next row.
pub trait GridIncrement: Sized {
    /// When the increment may be taken (guards arithmetic limits).
    spec fn grid_inc_allowed(self) -> bool;

    /// The incremented value, as a mathematical function.
    spec fn grid_incd_spec(self) -> Self;

    /// Returns the next position in scan order.
    fn grid_incd(self) -> (r: Self)
        requires
            self.grid_inc_allowed(),
        ensures
            r == self.grid_incd_spec(),
    ;

    /// Advances `self` to the next position in scan order.
    fn grid_inc(&mut self)
        requires
            old(self).grid_inc_allowed(),
        ensures
            *final(self) == old(self).grid_incd_spec(),
    ;
}

impl GridIncrement for Coordinate {
    open spec fn grid_inc_allowed(self) -> bool {
        self.x < WIDTH && self.y < usize::MAX
    }

    open spec fn grid_incd_spec(self) -> Coordinate {
        if self.x + 1 < WIDTH {
            Coordinate { x: (self.x + 1) as usize, y: self.y }
        } else {
            Coordinate { x: 0, y: (self.y + 1) as usize }
        }
    }

    fn grid_incd(self) -> (r: Coordinate) {
        let mut r = self;
        r.grid_inc();
        r
    }

    fn grid_inc(&mut self) {
        self.x += 1;
        self.x %= WIDTH;
        if self.x == 0 {
            self.y += 1;
        }
    }
}

} // verus!
