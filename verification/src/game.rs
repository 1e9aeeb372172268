//! The session's state: the game phase cycle and the win and loss
//! conditions that move it along.

use vstd::prelude::*;
use crate::enemy::Enemy;

verus! {

/// The phase the session is in; it decides which renderers run.
#[derive(Clone, Copy, Debug, PartialEq, Eq, Structural)]
pub enum GamePhase {
    StartScreen,
    Playing,
    Victory,
    Defeat,
}

/// The exit's fixed-point world x.
pub const END_X: i64 = 524_000;

/// The exit's fixed-point world y.
pub const END_Y: i64 = 573_000;

/// The fixed-point radius within which the exit counts as reached.
pub const END_RADIUS: i64 = 10_000;

/// The fixed-point radius within which a ghost counts as touching the
/// viewpoint.
pub const TOUCH_RADIUS: i64 = 10_000;

/// The phase after one frame, given the frame's events: confirm starts
/// a session, reaching the exit wins it, a ghost's touch loses it,
/// confirm on the victory card ends the session, and confirm on the
/// defeat card returns to the title. The second component reports
/// whether the session should end.
pub open spec fn spec_next_phase(
    phase: GamePhase, confirm: bool, reached_end: bool, ghost_touch: bool,
) -> (GamePhase, bool) {
    match phase {
        GamePhase::StartScreen => {
            if confirm {
                (GamePhase::Playing, false)
            } else {
                (GamePhase::StartScreen, false)
            }
        },
        GamePhase::Playing => {
            if reached_end {
                (GamePhase::Victory, false)
            } else if ghost_touch {
                (GamePhase::Defeat, false)
            } else {
                (GamePhase::Playing, false)
            }
        },
        GamePhase::Victory => (GamePhase::Victory, confirm),
        GamePhase::Defeat => {
            if confirm {
                (GamePhase::StartScreen, false)
            } else {
                (GamePhase::Defeat, false)
            }
        },
    }
}

/// Advances the game phase by one frame's events.
pub fn next_phase(
    phase: GamePhase, confirm: bool, reached_end: bool, ghost_touch: bool,
) -> (r: (GamePhase, bool))
    ensures
        r == spec_next_phase(phase, confirm, reached_end, ghost_touch),
{
    match phase {
        GamePhase::StartScreen => {
            if confirm {
                (GamePhase::Playing, false)
            } else {
                (GamePhase::StartScreen, false)
            }
        },
        GamePhase::Playing => {
            if reached_end {
                (GamePhase::Victory, false)
            } else if ghost_touch {
                (GamePhase::Defeat, false)
            } else {
                (GamePhase::Playing, false)
            }
        },
        GamePhase::Victory => (GamePhase::Victory, confirm),
        GamePhase::Defeat => {
            if confirm {
                (GamePhase::StartScreen, false)
            } else {
                (GamePhase::Defeat, false)
            }
        },
    }
}

/// Whether the viewpoint is within the exit radius of the exit.
pub fn player_reached_end(px: i64, py: i64) -> (r: bool)
    requires
        -1_000_000_000 <= px <= 1_000_000_000,
        -1_000_000_000 <= py <= 1_000_000_000,
    ensures
        r <==> (px - END_X) * (px - END_X) + (py - END_Y) * (py - END_Y)
            < END_RADIUS * END_RADIUS,
{
    let dx: i64 = px - END_X;
    let dy: i64 = py - END_Y;
    proof {
        assert(0 <= dx * dx <= 4_000_000_000_000_000_000
                && 0 <= dy * dy <= 4_000_000_000_000_000_000) by (nonlinear_arith)
            requires -2_000_000_000 <= dx <= 2_000_000_000
                && -2_000_000_000 <= dy <= 2_000_000_000;
    }
    let sq: u64 = ((dx * dx) as u64) + ((dy * dy) as u64);
    sq < (END_RADIUS * END_RADIUS) as u64
}

/// Whether some ghost is within the touch radius of the viewpoint.
pub fn ghost_touched_player(enemies: &Vec<Enemy>, px: i64, py: i64) -> (r: bool)
    requires
        -1_000_000_000 <= px <= 1_000_000_000,
        -1_000_000_000 <= py <= 1_000_000_000,
        forall|k: int| 0 <= k < enemies.len()
            ==> -1_000_000_000 <= #[trigger] enemies[k].x <= 1_000_000_000
                && -1_000_000_000 <= enemies[k].y <= 1_000_000_000,
    ensures
        r <==> exists|k: int| 0 <= k < enemies.len()
            && #[trigger] enemies[k].dist_sq(px as int, py as int)
                < TOUCH_RADIUS * TOUCH_RADIUS,
{
    let mut k: usize = 0;
    while k < enemies.len()
        invariant
            -1_000_000_000 <= px <= 1_000_000_000,
            -1_000_000_000 <= py <= 1_000_000_000,
            forall|k2: int| 0 <= k2 < enemies.len()
                ==> -1_000_000_000 <= #[trigger] enemies[k2].x <= 1_000_000_000
                    && -1_000_000_000 <= enemies[k2].y <= 1_000_000_000,
            k <= enemies.len(),
            forall|k2: int| 0 <= k2 < k
                ==> !(#[trigger] enemies[k2].dist_sq(px as int, py as int)
                    < TOUCH_RADIUS * TOUCH_RADIUS),
        decreases enemies.len() - k,
    {
        if enemies[k].check_collision_with_player(px, py, TOUCH_RADIUS) {
            return true;
        }
        k = k + 1;
    }
    false
}

} // verus!
