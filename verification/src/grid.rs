//! The coordinate space: the arena's extent and the positions on it.

use vstd::prelude::*;

verus! {

/// Number of columns of the arena.
pub const ARENA_WIDTH: u32 = 10;

/// Number of rows of the arena.
pub const ARENA_HEIGHT: u32 = 10;

/// A cell of the grid. Cells of the arena have `0 <= x < ARENA_WIDTH` and
/// `0 <= y < ARENA_HEIGHT`; any other position lies beyond a wall.
#[derive(Clone, Copy, PartialEq, Eq, Structural, Debug)]
pub struct Position {
    pub x: i32,
    pub y: i32,
}

impl Position {
    /// Whether the position is a cell of the arena.
    pub open spec fn in_arena(self) -> bool {
        &&& 0 <= self.x < ARENA_WIDTH
        &&& 0 <= self.y < ARENA_HEIGHT
    }

    /// The position with the given coordinates.
    pub fn new(x: i32, y: i32) -> (p: Position)
        ensures
            p == (Position { x, y }),
    {
        Position { x, y }
    }

    /// Decides whether the position is a cell of the arena.
    pub fn is_in_arena(&self) -> (inside: bool)
        ensures
            inside == self.in_arena(),
    {
        0 <= self.x && self.x < 10 && 0 <= self.y && self.y < 10
    }
}

} // verus!
