//! Input handling: one tick's worth of discrete key states turns into
//! a rotation of the heading and a blocked-or-committed move of the
//! viewpoint. A move is committed only when the destination cell is
//! inside the grid and open; otherwise the position stays put, which
//! is the only recovery the blocked-movement failure needs.

use vstd::prelude::*;
use crate::maze::Maze;
use crate::player::Player;
use crate::raycaster::cell_coord;
use crate::trig::{FP, spec_norm, spec_sin, spec_cos, sin_fp, cos_fp};

verus! {

/// World units the viewpoint moves per tick.
pub const MOVE_SPEED: i64 = 7;

/// Angle units the heading turns per tick: a thirtieth of a turn.
pub const ROTATION_SPEED: i64 = 120;

/// The discrete key states the frame loop polls once per tick.
pub struct InputState {
    /// Rotate the heading counterclockwise.
    pub rotate_left: bool,
    /// Rotate the heading clockwise.
    pub rotate_right: bool,
    /// Move along the heading.
    pub forward: bool,
    /// Move against the heading.
    pub backward: bool,
    /// Strafe a quarter turn counterclockwise of the heading.
    pub strafe_left: bool,
    /// Strafe a quarter turn clockwise of the heading.
    pub strafe_right: bool,
}

/// The heading after this tick's rotation keys.
pub open spec fn spec_new_heading(a: int, input: InputState) -> int {
    let a1 = if input.rotate_left {
        spec_norm(a - ROTATION_SPEED)
    } else {
        a
    };
    if input.rotate_right {
        spec_norm(a1 + ROTATION_SPEED)
    } else {
        a1
    }
}

/// The move this tick's keys ask for along one axis, given the sine
/// and cosine of the new heading: forward and backward walk along the
/// heading, the strafe keys walk perpendicular to it.
pub open spec fn spec_step_x(input: InputState, cos_a: int, sin_a: int) -> int {
    (if input.forward { MOVE_SPEED * cos_a } else { 0 })
        - (if input.backward { MOVE_SPEED * cos_a } else { 0 })
        - (if input.strafe_left { MOVE_SPEED * sin_a } else { 0 })
        + (if input.strafe_right { MOVE_SPEED * sin_a } else { 0 })
}

pub open spec fn spec_step_y(input: InputState, cos_a: int, sin_a: int) -> int {
    (if input.forward { MOVE_SPEED * sin_a } else { 0 })
        - (if input.backward { MOVE_SPEED * sin_a } else { 0 })
        + (if input.strafe_left { MOVE_SPEED * cos_a } else { 0 })
        - (if input.strafe_right { MOVE_SPEED * cos_a } else { 0 })
}

/// Applies one tick of input to the viewpoint: the rotation keys turn
/// the heading, and the movement keys move the position, which is
/// committed only when the destination cell is inside the grid and
/// open floor.
#[verifier::rlimit(60)]
pub fn process_events(
    player: &mut Player,
    input: &InputState,
    maze: &Maze,
    block_size: usize,
)
    requires
        maze.wf(),
        1 <= block_size,
        maze.spec_width() * block_size <= 1_000_000,
        maze.spec_height() * block_size <= 1_000_000,
        old(player).wf(),
        old(player).in_bounds(*maze, block_size as int),
    ensures
        final(player).wf(),
        final(player).in_bounds(*maze, block_size as int),
        final(player).fov == old(player).fov,
        final(player).a == spec_new_heading(old(player).a as int, *input),
        ({
            let a2 = spec_new_heading(old(player).a as int, *input);
            let nx = old(player).x + spec_step_x(*input, spec_cos(a2), spec_sin(a2));
            let ny = old(player).y + spec_step_y(*input, spec_cos(a2), spec_sin(a2));
            let wlim = maze.spec_width() * block_size * (FP as int);
            let hlim = maze.spec_height() * block_size * (FP as int);
            if 0 <= nx < wlim && 0 <= ny < hlim
                && maze.open_at(cell_coord(nx, block_size as int),
                    cell_coord(ny, block_size as int)) {
                final(player).x == nx && final(player).y == ny
            } else {
                final(player).x == old(player).x && final(player).y == old(player).y
            }
        }),
{
    if input.rotate_left {
        player.a = crate::trig::norm_angle(player.a - ROTATION_SPEED);
    }
    if input.rotate_right {
        player.a = crate::trig::norm_angle(player.a + ROTATION_SPEED);
    }
    let cos_a = cos_fp(player.a);
    let sin_a = sin_fp(player.a);
    let mut nx: i64 = player.x;
    let mut ny: i64 = player.y;
    if input.forward {
        nx = nx + MOVE_SPEED * cos_a;
        ny = ny + MOVE_SPEED * sin_a;
    }
    if input.backward {
        nx = nx - MOVE_SPEED * cos_a;
        ny = ny - MOVE_SPEED * sin_a;
    }
    if input.strafe_left {
        nx = nx - MOVE_SPEED * sin_a;
        ny = ny + MOVE_SPEED * cos_a;
    }
    if input.strafe_right {
        nx = nx + MOVE_SPEED * sin_a;
        ny = ny - MOVE_SPEED * cos_a;
    }
    let ghost wlim: int = maze.spec_width() * block_size * (FP as int);
    let ghost hlim: int = maze.spec_height() * block_size * (FP as int);
    proof {
        assert(wlim <= 1_000_000_000 && hlim <= 1_000_000_000
                && maze.spec_width() <= 1_000_000 && maze.spec_height() <= 1_000_000
                && block_size <= 1_000_000) by (nonlinear_arith)
            requires
                wlim == maze.spec_width() * block_size * (FP as int),
                hlim == maze.spec_height() * block_size * (FP as int),
                maze.spec_width() * block_size <= 1_000_000,
                maze.spec_height() * block_size <= 1_000_000,
                1 <= maze.spec_width(),
                1 <= maze.spec_height(),
                1 <= block_size,
                FP == 1000,
        ;
    }
    let w = maze.width();
    let h = maze.height();
    let wlim_e: i64 = (w as i64) * (block_size as i64) * FP;
    let hlim_e: i64 = (h as i64) * (block_size as i64) * FP;
    if 0 <= nx && nx < wlim_e && 0 <= ny && ny < hlim_e {
        proof {
            crate::raycaster::lemma_cell_coord_below(nx as int, block_size as int,
                maze.spec_width());
            crate::raycaster::lemma_cell_coord_below(ny as int, block_size as int,
                maze.spec_height());
        }
        let i: usize = ((nx / FP) as usize) / block_size;
        let j: usize = ((ny / FP) as usize) / block_size;
        if maze.cell(i, j) == ' ' {
            player.x = nx;
            player.y = ny;
        }
    }
}

} // verus!
