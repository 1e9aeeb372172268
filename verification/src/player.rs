//! The viewpoint: a continuous position in fixed-point world
//! coordinates, a heading, and a field of view, both in angle units.

use vstd::prelude::*;
use crate::trig::{TURN, HALF_TURN, FP};
use crate::maze::Maze;

verus! {

pub struct Player {
    /// Fixed-point world x, `FP` per world unit.
    pub x: i64,
    /// Fixed-point world y.
    pub y: i64,
    /// Heading in angle units, kept in `[0, TURN)`.
    pub a: i64,
    /// Field of view in angle units, less than a half turn so that
    /// every visible column's ray stays within a quarter turn of the
    /// heading.
    pub fov: i64,
}

impl Player {
    pub open spec fn wf(self) -> bool {
        &&& 0 <= self.a < TURN
        &&& 0 < self.fov < HALF_TURN
    }

    /// The position lies inside the world rectangle of the grid.
    pub open spec fn in_bounds(self, maze: Maze, block_size: int) -> bool {
        &&& 0 <= self.x < maze.spec_width() * block_size * (FP as int)
        &&& 0 <= self.y < maze.spec_height() * block_size * (FP as int)
    }
}

} // verus!
