//! Actor respawning: a timer fed with elapsed time from outside fires
//! at a fixed interval; on firing, every ghost is moved to a random
//! open cell within a distance band of the viewpoint. The sampling is
//! rejection sampling with a hard retry cap: a ghost whose samples all
//! land in walls keeps its last valid position, so the policy cannot
//! hang on a pathological neighborhood.

use vstd::prelude::*;
use crate::enemy::Enemy;
use crate::maze::Maze;
use crate::raycaster::cell_coord;
use crate::trig::{FP, TURN, sin_fp, cos_fp, spec_sin, spec_cos};

verus! {

/// Milliseconds between respawns.
pub const RESPAWN_INTERVAL_MS: u64 = 7000;

/// Attempts per ghost before the respawn gives up and keeps the
/// ghost's last valid position.
pub const RESPAWN_TRIES: usize = 100;

/// The respawn band, in cells: a new position lies between three and
/// nine cells from the viewpoint.
pub const RESPAWN_MIN_CELLS: i64 = 3;

/// The respawn band's outer edge, in cells.
pub const RESPAWN_MAX_CELLS: i64 = 9;

/// Relies on rand::random_range: a sample from the range `0..n` lies
/// in it, and the range is non-empty when `n` is positive.
#[verifier::external_body]
fn rand_below(n: u64) -> (r: u64)
    requires
        1 <= n,
    ensures
        r < n,
{
    rand::random_range(0..n)
}

/// The fixed-point offset a sampled polar step takes along one axis:
/// the drawn distance times the axis component of the drawn angle's
/// unit vector, rounded toward zero.
pub open spec fn spec_polar_offset(dist: int, c: int) -> int {
    if c >= 0 {
        dist * c / (FP as int)
    } else {
        -((dist * -c) / (FP as int))
    }
}

/// The candidate position one random draw proposes: the viewpoint
/// displaced by the drawn distance along the drawn angle. The offset
/// along each axis never exceeds the drawn distance.
pub fn respawn_candidate(px: i64, py: i64, dist: i64, angle: i64) -> (p: (i64, i64))
    requires
        -1_000_000_000 <= px <= 1_000_000_000,
        -1_000_000_000 <= py <= 1_000_000_000,
        0 <= dist <= 9_000_000_000,
        0 <= angle < TURN,
    ensures
        p.0 == px + spec_polar_offset(dist as int, spec_cos(angle as int)),
        p.1 == py + spec_polar_offset(dist as int, spec_sin(angle as int)),
        px - dist <= p.0 <= px + dist,
        py - dist <= p.1 <= py + dist,
{
    let ca = cos_fp(angle);
    let sa = sin_fp(angle);
    proof {
        lemma_polar_offset_bound(dist as int, ca as int);
        lemma_polar_offset_bound(dist as int, sa as int);
    }
    let ox: i64 = if ca >= 0 { dist * ca / FP } else { -(dist * (-ca) / FP) };
    let oy: i64 = if sa >= 0 { dist * sa / FP } else { -(dist * (-sa) / FP) };
    (px + ox, py + oy)
}

/// A polar offset is bounded by the distance it scales.
proof fn lemma_polar_offset_bound(dist: int, c: int)
    requires
        0 <= dist <= 9_000_000_000,
        -FP <= c <= FP,
    ensures
        -dist <= spec_polar_offset(dist, c) <= dist,
        spec_polar_offset(dist, c) == if c >= 0 {
            dist * c / (FP as int)
        } else {
            -((dist * -c) / (FP as int))
        },
{
    if c >= 0 {
        assert(0 <= dist * c <= dist * 1000) by (nonlinear_arith)
            requires 0 <= dist && 0 <= c <= 1000;
        vstd::arithmetic::div_mod::lemma_div_pos_is_pos(dist * c, FP as int);
        vstd::arithmetic::div_mod::lemma_div_is_ordered(dist * c, 1000 * dist, FP as int);
        vstd::arithmetic::div_mod::lemma_div_multiples_vanish(dist, 1000);
    } else {
        assert(0 <= dist * -c <= dist * 1000) by (nonlinear_arith)
            requires 0 <= dist && 0 <= -c <= 1000;
        vstd::arithmetic::div_mod::lemma_div_pos_is_pos(dist * -c, FP as int);
        vstd::arithmetic::div_mod::lemma_div_is_ordered(dist * -c, 1000 * dist,
            FP as int);
        vstd::arithmetic::div_mod::lemma_div_multiples_vanish(dist, 1000);
    }
}

/// Whether a fixed-point position lies on an open cell of the grid.
pub open spec fn spec_on_open_cell(maze: Maze, x: int, y: int, bs: int) -> bool {
    &&& 0 <= x < maze.spec_width() * bs * (FP as int)
    &&& 0 <= y < maze.spec_height() * bs * (FP as int)
    &&& maze.open_at(cell_coord(x, bs), cell_coord(y, bs))
}

pub struct GhostManager {
    /// Milliseconds accumulated toward the next respawn.
    pub elapsed_ms: u64,
    /// Milliseconds between respawns.
    pub interval_ms: u64,
}

impl GhostManager {
    pub open spec fn wf(self) -> bool {
        &&& 1 <= self.interval_ms <= 1_000_000_000
        &&& self.elapsed_ms < self.interval_ms
    }

    pub fn new() -> (g: Self)
        ensures
            g.wf(),
            g.elapsed_ms == 0,
            g.interval_ms == RESPAWN_INTERVAL_MS,
    {
        Self { elapsed_ms: 0, interval_ms: RESPAWN_INTERVAL_MS }
    }

    /// Advances the respawn timer; when the interval has elapsed, the
    /// timer restarts and every ghost is reassigned a random position:
    /// each either lands on an open cell inside the grid or, when all
    /// its samples were rejected, keeps its previous position.
    pub fn update_ghosts(
        &mut self,
        delta_ms: u64,
        px: i64,
        py: i64,
        maze: &Maze,
        enemies: &mut Vec<Enemy>,
        block_size: usize,
    )
        requires
            old(self).wf(),
            delta_ms <= 1_000_000_000_000,
            maze.wf(),
            1 <= block_size,
            maze.spec_width() * block_size <= 1_000_000,
            maze.spec_height() * block_size <= 1_000_000,
            -1_000_000_000 <= px <= 1_000_000_000,
            -1_000_000_000 <= py <= 1_000_000_000,
        ensures
            final(self).wf(),
            final(self).interval_ms == old(self).interval_ms,
            final(enemies).len() == old(enemies).len(),
            old(self).elapsed_ms + delta_ms < old(self).interval_ms ==> {
                &&& final(self).elapsed_ms == old(self).elapsed_ms + delta_ms
                &&& *final(enemies) == *old(enemies)
            },
            old(self).elapsed_ms + delta_ms >= old(self).interval_ms
                ==> final(self).elapsed_ms == 0,
            // A moved ghost stands on an open cell inside the grid, no
            // farther than the band's outer edge from the viewpoint
            // along either axis.
            forall|k: int| 0 <= k < old(enemies).len()
                ==> #[trigger] final(enemies)[k] == old(enemies)[k]
                    || {
                        &&& spec_on_open_cell(*maze, final(enemies)[k].x as int,
                                final(enemies)[k].y as int, block_size as int)
                        &&& px - RESPAWN_MAX_CELLS * block_size * FP
                                <= final(enemies)[k].x
                                <= px + RESPAWN_MAX_CELLS * block_size * FP
                        &&& py - RESPAWN_MAX_CELLS * block_size * FP
                                <= final(enemies)[k].y
                                <= py + RESPAWN_MAX_CELLS * block_size * FP
                    },
    {
        let total: u64 = self.elapsed_ms + delta_ms;
        if total < self.interval_ms {
            self.elapsed_ms = total;
            return;
        }
        self.elapsed_ms = 0;
        let mut k: usize = 0;
        while k < enemies.len()
            invariant
                maze.wf(),
                1 <= block_size,
                maze.spec_width() * block_size <= 1_000_000,
                maze.spec_height() * block_size <= 1_000_000,
                -1_000_000_000 <= px <= 1_000_000_000,
                -1_000_000_000 <= py <= 1_000_000_000,
                enemies.len() == old(enemies).len(),
                k <= enemies.len(),
                forall|k2: int| 0 <= k2 < old(enemies).len()
                    ==> #[trigger] enemies[k2] == old(enemies)[k2]
                        || {
                            &&& spec_on_open_cell(*maze, enemies[k2].x as int,
                                    enemies[k2].y as int, block_size as int)
                            &&& px - RESPAWN_MAX_CELLS * block_size * FP
                                    <= enemies[k2].x
                                    <= px + RESPAWN_MAX_CELLS * block_size * FP
                            &&& py - RESPAWN_MAX_CELLS * block_size * FP
                                    <= enemies[k2].y
                                    <= py + RESPAWN_MAX_CELLS * block_size * FP
                        },
            decreases enemies.len() - k,
        {
            match sample_respawn_position(px, py, maze, block_size) {
                Some((x, y)) => {
                    enemies.set(k, Enemy::new(x, y));
                },
                None => {},
            }
            k = k + 1;
        }
    }
}

/// Draws up to the retry cap of random positions in the respawn band
/// around the viewpoint and returns the first that lands on an open
/// cell inside the grid, or nothing if every sample was rejected.
pub fn sample_respawn_position(
    px: i64,
    py: i64,
    maze: &Maze,
    block_size: usize,
) -> (r: Option<(i64, i64)>)
    requires
        maze.wf(),
        1 <= block_size,
        maze.spec_width() * block_size <= 1_000_000,
        maze.spec_height() * block_size <= 1_000_000,
        -1_000_000_000 <= px <= 1_000_000_000,
        -1_000_000_000 <= py <= 1_000_000_000,
    ensures
        r matches Some(p) ==> {
            &&& spec_on_open_cell(*maze, p.0 as int, p.1 as int, block_size as int)
            &&& px - RESPAWN_MAX_CELLS * block_size * FP <= p.0
                    <= px + RESPAWN_MAX_CELLS * block_size * FP
            &&& py - RESPAWN_MAX_CELLS * block_size * FP <= p.1
                    <= py + RESPAWN_MAX_CELLS * block_size * FP
        },
{
    let ghost wlim: int = maze.spec_width() * block_size * (FP as int);
    let ghost hlim: int = maze.spec_height() * block_size * (FP as int);
    proof {
        assert(wlim <= 1_000_000_000 && hlim <= 1_000_000_000
                && maze.spec_width() <= 1_000_000 && maze.spec_height() <= 1_000_000
                && block_size <= 1_000_000) by (nonlinear_arith)
            requires
                wlim == maze.spec_width() * block_size * (FP as int),
                hlim == maze.spec_height() * block_size * (FP as int),
                maze.spec_width() * block_size <= 1_000_000,
                maze.spec_height() * block_size <= 1_000_000,
                1 <= maze.spec_width(),
                1 <= maze.spec_height(),
                1 <= block_size,
                FP == 1000,
        ;
        assert(0 < 3 * (block_size as int) * 1000 <= 3_000_000_000
                && 0 < 9 * (block_size as int) * 1000 <= 9_000_000_000
                && 3 * (block_size as int) * 1000 < 9 * (block_size as int) * 1000)
            by (nonlinear_arith)
            requires 1 <= block_size <= 1_000_000;
    }
    let min_fp: i64 = RESPAWN_MIN_CELLS * (block_size as i64) * FP;
    let max_fp: i64 = RESPAWN_MAX_CELLS * (block_size as i64) * FP;
    let w = maze.width();
    let h = maze.height();
    let mut tries: usize = 0;
    while tries < RESPAWN_TRIES
        invariant
            maze.wf(),
            1 <= block_size,
            maze.spec_width() * block_size <= 1_000_000,
            maze.spec_height() * block_size <= 1_000_000,
            -1_000_000_000 <= px <= 1_000_000_000,
            -1_000_000_000 <= py <= 1_000_000_000,
            0 < min_fp < max_fp <= 9_000_000_000,
            max_fp == RESPAWN_MAX_CELLS * block_size * FP,
            wlim == maze.spec_width() * block_size * (FP as int),
            hlim == maze.spec_height() * block_size * (FP as int),
            wlim <= 1_000_000_000,
            hlim <= 1_000_000_000,
            w <= 1_000_000,
            h <= 1_000_000,
            block_size <= 1_000_000,
            w == maze.spec_width(),
            h == maze.spec_height(),
            tries <= RESPAWN_TRIES,
        decreases RESPAWN_TRIES - tries,
    {
        let dist: i64 = min_fp + rand_below((max_fp - min_fp) as u64) as i64;
        let angle: i64 = rand_below(TURN as u64) as i64;
        let (x, y) = respawn_candidate(px, py, dist, angle);
        let wlim_e: i64 = (w as i64) * (block_size as i64) * FP;
        let hlim_e: i64 = (h as i64) * (block_size as i64) * FP;
        if 0 <= x && x < wlim_e && 0 <= y && y < hlim_e {
            proof {
                crate::raycaster::lemma_cell_coord_below(x as int, block_size as int,
                    maze.spec_width());
                crate::raycaster::lemma_cell_coord_below(y as int, block_size as int,
                    maze.spec_height());
            }
            let i: usize = ((x / FP) as usize) / block_size;
            let j: usize = ((y / FP) as usize) / block_size;
            if maze.cell(i, j) == ' ' {
                return Some((x, y));
            }
        }
        tries = tries + 1;
    }
    None
}

/// The first open cell of the grid in row-major order, if any.
pub fn first_open_cell(maze: &Maze) -> (r: Option<(usize, usize)>)
    requires
        maze.wf(),
    ensures
        r matches Some(c) ==> 0 <= c.0 < maze.spec_width() && 0 <= c.1 < maze.spec_height()
            && maze.open_at(c.0 as int, c.1 as int),
        r is None ==> forall|i: int, j: int|
            0 <= i < maze.spec_width() && 0 <= j < maze.spec_height()
                ==> !maze.open_at(i, j),
{
    let w = maze.width();
    let h = maze.height();
    let mut j: usize = 0;
    while j < h
        invariant
            maze.wf(),
            w == maze.spec_width(),
            h == maze.spec_height(),
            j <= h,
            forall|i2: int, j2: int| 0 <= i2 < w && 0 <= j2 < j
                ==> !maze.open_at(i2, j2),
        decreases h - j,
    {
        let mut i: usize = 0;
        while i < w
            invariant
                maze.wf(),
                w == maze.spec_width(),
                h == maze.spec_height(),
                j < h,
                i <= w,
                forall|i2: int, j2: int| 0 <= i2 < w && 0 <= j2 < j
                    ==> !maze.open_at(i2, j2),
                forall|i2: int| 0 <= i2 < i ==> !maze.open_at(i2, j as int),
            decreases w - i,
        {
            if maze.cell(i, j) == ' ' {
                return Some((i, j));
            }
            i = i + 1;
        }
        j = j + 1;
    }
    None
}

/// Places the session's ghosts: each is put on a random open cell
/// farther than one cell from the viewpoint, falling back — after the
/// retry cap, or when the grid has no open cell at all — to the first
/// open cell in scan order, and to the viewpoint itself as a last
/// resort.
pub fn spawn_enemies(
    maze: &Maze,
    count: usize,
    px: i64,
    py: i64,
    block_size: usize,
) -> (r: Vec<Enemy>)
    requires
        maze.wf(),
        1 <= block_size,
        maze.spec_width() * block_size <= 1_000_000,
        maze.spec_height() * block_size <= 1_000_000,
        -1_000_000_000 <= px <= 1_000_000_000,
        -1_000_000_000 <= py <= 1_000_000_000,
        count <= 1000,
    ensures
        r.len() == count,
        // If the grid has any open cell, every spawned ghost stands on
        // one; the viewpoint fallback happens only on an all-wall grid.
        forall|k: int| 0 <= k < count
            ==> spec_on_open_cell(*maze, #[trigger] r[k].x as int, r[k].y as int,
                    block_size as int)
                || (r[k].x == px && r[k].y == py
                    && forall|i: int, j: int|
                        0 <= i < maze.spec_width() && 0 <= j < maze.spec_height()
                            ==> !maze.open_at(i, j)),
{
    let w = maze.width();
    let h = maze.height();
    proof {
        assert(maze.spec_width() <= 1_000_000 && maze.spec_height() <= 1_000_000
                && block_size <= 1_000_000) by (nonlinear_arith)
            requires
                maze.spec_width() * block_size <= 1_000_000,
                maze.spec_height() * block_size <= 1_000_000,
                1 <= maze.spec_width(),
                1 <= maze.spec_height(),
                1 <= block_size,
        ;
    }
    let mut enemies: Vec<Enemy> = Vec::new();
    let mut k: usize = 0;
    while k < count
        invariant
            maze.wf(),
            1 <= block_size <= 1_000_000,
            maze.spec_width() * block_size <= 1_000_000,
            maze.spec_height() * block_size <= 1_000_000,
            maze.spec_width() <= 1_000_000,
            maze.spec_height() <= 1_000_000,
            -1_000_000_000 <= px <= 1_000_000_000,
            -1_000_000_000 <= py <= 1_000_000_000,
            w == maze.spec_width(),
            h == maze.spec_height(),
            count <= 1000,
            k <= count,
            enemies.len() == k,
            forall|k2: int| 0 <= k2 < k
                ==> spec_on_open_cell(*maze, #[trigger] enemies[k2].x as int,
                        enemies[k2].y as int, block_size as int)
                    || (enemies[k2].x == px && enemies[k2].y == py
                        && forall|i: int, j: int|
                            0 <= i < maze.spec_width() && 0 <= j < maze.spec_height()
                                ==> !maze.open_at(i, j)),
        decreases count - k,
    {
        let pos: (i64, i64) = match spawn_position(maze, px, py, block_size, w, h) {
            Some(p) => p,
            None => {
                match first_open_cell(maze) {
                    Some((i, j)) => {
                        proof {
                            lemma_cell_corner_on_cell(i as int, j as int,
                                maze.spec_width(), maze.spec_height(), block_size as int);
                        }
                        let x: i64 = (i as i64) * (block_size as i64) * FP;
                        let y: i64 = (j as i64) * (block_size as i64) * FP;
                        (x, y)
                    },
                    None => (px, py),
                }
            },
        };
        enemies.push(Enemy::new(pos.0, pos.1));
        k = k + 1;
    }
    enemies
}

/// The corner of an in-range cell lies in that cell's band: scaling a
/// cell index up to fixed-point world coordinates and back yields the
/// same index.
proof fn lemma_cell_corner_on_cell(i: int, j: int, w: int, h: int, bs: int)
    requires
        0 <= i < w,
        0 <= j < h,
        1 <= bs,
        w <= 1_000_000,
        h <= 1_000_000,
    ensures
        0 <= i * bs * (FP as int) < w * bs * (FP as int),
        0 <= j * bs * (FP as int) < h * bs * (FP as int),
        cell_coord(i * bs * (FP as int), bs) == i,
        cell_coord(j * bs * (FP as int), bs) == j,
{
    lemma_corner_axis(i, w, bs);
    lemma_corner_axis(j, h, bs);
}

proof fn lemma_corner_axis(i: int, w: int, bs: int)
    requires
        0 <= i < w,
        1 <= bs,
    ensures
        0 <= i * bs * (FP as int) < w * bs * (FP as int),
        cell_coord(i * bs * (FP as int), bs) == i,
{
    let x = i * bs * (FP as int);
    assert(0 <= x && x < w * bs * (FP as int)
            && x == (FP as int) * (i * bs) && i * bs == bs * i) by (nonlinear_arith)
        requires 0 <= i < w && 1 <= bs && FP == 1000 && x == i * bs * (FP as int);
    vstd::arithmetic::div_mod::lemma_div_multiples_vanish(i * bs, FP as int);
    vstd::arithmetic::div_mod::lemma_div_multiples_vanish(i, bs);
}

/// One capped round of rejection sampling for an initial ghost
/// position: a random cell whose corner is open and farther than one
/// cell from the viewpoint.
fn spawn_position(
    maze: &Maze,
    px: i64,
    py: i64,
    block_size: usize,
    w: usize,
    h: usize,
) -> (r: Option<(i64, i64)>)
    requires
        maze.wf(),
        1 <= block_size <= 1_000_000,
        maze.spec_width() * block_size <= 1_000_000,
        maze.spec_height() * block_size <= 1_000_000,
        maze.spec_width() <= 1_000_000,
        maze.spec_height() <= 1_000_000,
        -1_000_000_000 <= px <= 1_000_000_000,
        -1_000_000_000 <= py <= 1_000_000_000,
        w == maze.spec_width(),
        h == maze.spec_height(),
    ensures
        r matches Some(p)
            ==> spec_on_open_cell(*maze, p.0 as int, p.1 as int, block_size as int),
{
    if w < 2 || h < 2 {
        return None;
    }
    let mut tries: usize = 0;
    while tries < RESPAWN_TRIES
        invariant
            maze.wf(),
            1 <= block_size <= 1_000_000,
            maze.spec_width() * block_size <= 1_000_000,
            maze.spec_height() * block_size <= 1_000_000,
            2 <= w <= 1_000_000,
            2 <= h <= 1_000_000,
            -1_000_000_000 <= px <= 1_000_000_000,
            -1_000_000_000 <= py <= 1_000_000_000,
            w == maze.spec_width(),
            h == maze.spec_height(),
            tries <= RESPAWN_TRIES,
        decreases RESPAWN_TRIES - tries,
    {
        let col: usize = 1 + rand_below((w - 1) as u64) as usize;
        let row: usize = 1 + rand_below((h - 1) as u64) as usize;
        if maze.cell(col, row) == ' ' {
            proof {
                lemma_cell_corner_on_cell(col as int, row as int,
                    maze.spec_width(), maze.spec_height(), block_size as int);
            }
            let x: i64 = (col as i64) * (block_size as i64) * FP;
            let y: i64 = (row as i64) * (block_size as i64) * FP;
            let spawn = Enemy::new(x, y);
            if !spawn.check_collision_with_player(px, py, (block_size as i64) * FP) {
                return Some((x, y));
            }
        }
        tries = tries + 1;
    }
    None
}

} // verus!
