//! A mobile actor (ghost): a continuous position in fixed-point world
//! coordinates. Actors are billboard-rendered and periodically
//! relocated by the respawn policy.

use vstd::prelude::*;

verus! {

pub struct Enemy {
    /// Fixed-point world x.
    pub x: i64,
    /// Fixed-point world y.
    pub y: i64,
}

impl Enemy {
    pub fn new(x: i64, y: i64) -> (e: Self)
        ensures
            e.x == x,
            e.y == y,
    {
        Self { x, y }
    }

    /// The squared fixed-point distance between this actor and the
    /// point `(px, py)`.
    pub open spec fn dist_sq(self, px: int, py: int) -> int {
        (self.x - px) * (self.x - px) + (self.y - py) * (self.y - py)
    }

    /// Whether the actor is strictly closer to the viewpoint than the
    /// given fixed-point threshold.
    pub fn check_collision_with_player(&self, px: i64, py: i64, threshold: i64) -> (r: bool)
        requires
            -1_000_000_000 <= self.x <= 1_000_000_000,
            -1_000_000_000 <= self.y <= 1_000_000_000,
            -1_000_000_000 <= px <= 1_000_000_000,
            -1_000_000_000 <= py <= 1_000_000_000,
            0 <= threshold <= 2_000_000_000,
        ensures
            r <==> self.dist_sq(px as int, py as int) < threshold * threshold,
    {
        let dx: i64 = self.x - px;
        let dy: i64 = self.y - py;
        proof {
            assert(0 <= dx * dx <= 4_000_000_000_000_000_000
                    && 0 <= dy * dy <= 4_000_000_000_000_000_000
                    && 0 <= threshold * threshold <= 4_000_000_000_000_000_000)
                by (nonlinear_arith)
                requires -2_000_000_000 <= dx <= 2_000_000_000
                    && -2_000_000_000 <= dy <= 2_000_000_000
                    && 0 <= threshold <= 2_000_000_000;
        }
        let sq: u64 = ((dx * dx) as u64) + ((dy * dy) as u64);
        sq < ((threshold * threshold) as u64)
    }
}

} // verus!
