//! The ray intersector. A ray marches from the viewpoint one world
//! unit per step along a fixed-point direction vector; the first step
//! whose cell is not open floor ends the cast and yields the distance
//! in world units together with the wall symbol that was hit.
//!
//! The march provably terminates, and provably returns a wall, for any
//! viewpoint inside an enclosed grid and any angle: while the ray is in
//! open cells it is strictly interior, so it can neither leave the grid
//! nor march forever, because one direction component is always nonzero
//! and the world rectangle is bounded.

use vstd::prelude::*;
use vstd::arithmetic::div_mod::{
    lemma_div_denominator, lemma_fundamental_div_mod, lemma_mod_bound,
};
use crate::framebuffer::Framebuffer;
use crate::maze::Maze;
use crate::player::Player;
use crate::trig::{FP, TURN, spec_sin, spec_cos, sin_fp, cos_fp, lemma_sin_range,
    lemma_cos_range};

verus! {

/// One ray's result: the distance marched, in whole world units, and
/// the symbol of the wall cell the ray stopped in.
pub struct Intersect {
    pub distance: i64,
    pub impact: char,
}

/// The fixed-point coordinate after `d` unit steps along `dir`.
pub open spec fn march(p: int, dir: int, d: int) -> int {
    p + d * dir
}

/// The grid index of a fixed-point coordinate: world units by `FP`,
/// then cells by the cell size.
pub open spec fn cell_coord(x: int, bs: int) -> int {
    (x / (FP as int)) / bs
}

/// Whether step `d` of the ray from `(px, py)` along `(dx, dy)` lands
/// on open floor.
pub open spec fn ray_open(
    m: Maze, px: int, py: int, dx: int, dy: int, bs: int, d: int,
) -> bool {
    m.open_at(cell_coord(march(px, dx, d), bs), cell_coord(march(py, dy, d), bs))
}

/// Every step before `d` lands on open floor.
pub open spec fn prefix_open(
    m: Maze, px: int, py: int, dx: int, dy: int, bs: int, d: int,
) -> bool {
    forall|k: int| 0 <= k < d ==> #[trigger] ray_open(m, px, py, dx, dy, bs, k)
}

/// The surface pixel the ray crosses at step `d` along one axis:
/// the fixed-point coordinate brought back to whole world units.
pub open spec fn ray_pixel(p: int, dir: int, d: int) -> int {
    march(p, dir, d) / (FP as int)
}

/// Step `d` is the first that lands on a wall.
pub open spec fn is_first_hit(
    m: Maze, px: int, py: int, dx: int, dy: int, bs: int, d: int,
) -> bool {
    prefix_open(m, px, py, dx, dy, bs, d) && !ray_open(m, px, py, dx, dy, bs, d)
}

/// The distance at which the ray from `(px, py)` along `(dx, dy)`
/// first meets a wall: the unique first-hit step. Well defined
/// whenever some first hit exists, which `cast_ray` proves for every
/// viewpoint inside an enclosed grid.
pub open spec fn spec_ray_hit(
    m: Maze, px: int, py: int, dx: int, dy: int, bs: int,
) -> int {
    choose|d: int| 0 <= d && #[trigger] is_first_hit(m, px, py, dx, dy, bs, d)
}

/// The distance the march has covered after `k` unit steps: one world
/// unit per step, so it is never negative and never decreases as the
/// cast takes more steps.
pub open spec fn march_distance(k: nat) -> int {
    k as int
}

/// The ray's distance grows monotonically with the number of steps
/// taken and is never negative.
pub proof fn lemma_march_distance_monotone(k1: nat, k2: nat)
    requires
        k1 <= k2,
    ensures
        0 <= march_distance(k1) <= march_distance(k2),
{
}

/// A ray has at most one first hit.
pub proof fn lemma_first_hit_unique(
    m: Maze, px: int, py: int, dx: int, dy: int, bs: int, d1: int, d2: int,
)
    requires
        0 <= d1,
        0 <= d2,
        is_first_hit(m, px, py, dx, dy, bs, d1),
        is_first_hit(m, px, py, dx, dy, bs, d2),
    ensures
        d1 == d2,
{
    if d1 < d2 {
        assert(ray_open(m, px, py, dx, dy, bs, d1));
    } else if d2 < d1 {
        assert(ray_open(m, px, py, dx, dy, bs, d2));
    }
}

/// A nonnegative fixed-point coordinate lies in the band of its cell.
proof fn lemma_cell_band(x: int, bs: int, i: int)
    requires
        1 <= bs,
        0 <= x,
        i == cell_coord(x, bs),
    ensures
        0 <= i,
        i * (bs * (FP as int)) <= x < (i + 1) * (bs * (FP as int)),
{
    lemma_div_denominator(x, FP as int, bs);
    let den = (FP as int) * bs;
    assert(i == x / den);
    lemma_fundamental_div_mod(x, den);
    lemma_mod_bound(x, den);
    assert(den * i <= x < den * i + den) by (nonlinear_arith)
        requires x == den * (x / den) + x % den && i == x / den && 0 <= x % den < den;
    assert(i * (bs * (FP as int)) == den * i && (i + 1) * (bs * (FP as int)) == den * i + den)
        by (nonlinear_arith)
        requires den == (FP as int) * bs;
    assert(0 <= i) by (nonlinear_arith)
        requires den * i <= x && 0 <= x && den >= 1 && den * i + den > x;
}

/// A coordinate below the grid's edge indexes a cell below the width.
pub proof fn lemma_cell_coord_below(x: int, bs: int, w: int)
    requires
        1 <= bs,
        0 <= x < w * bs * (FP as int),
    ensures
        0 <= cell_coord(x, bs) < w,
{
    let i = cell_coord(x, bs);
    lemma_cell_band(x, bs, i);
    assert(i < w) by (nonlinear_arith)
        requires
            i * (bs * (FP as int)) <= x,
            x < w * bs * (FP as int),
            bs >= 1,
            FP == 1000,
            i >= 0,
    ;
}

/// From a cell strictly inside the grid, one more unit step cannot
/// leave the world rectangle.
proof fn lemma_step_stays_inside(x: int, step: int, bs: int, w: int)
    requires
        1 <= bs,
        0 <= x,
        1 <= cell_coord(x, bs) <= w - 2,
        -(FP as int) <= step <= (FP as int),
    ensures
        0 <= x + step < w * bs * (FP as int),
{
    let i = cell_coord(x, bs);
    lemma_cell_band(x, bs, i);
    assert(bs * (FP as int) <= x && x + (FP as int) < w * bs * (FP as int))
        by (nonlinear_arith)
        requires
            i * (bs * (FP as int)) <= x < (i + 1) * (bs * (FP as int)),
            1 <= i <= w - 2,
            bs >= 1,
            FP == 1000,
    ;
}

/// A march that stays inside a bounded band along an axis with a
/// nonzero direction component can have taken only boundedly many
/// steps.
proof fn lemma_march_bounded(p: int, dir: int, d: int, limit: int)
    by (nonlinear_arith)
    requires
        0 <= p < limit,
        0 <= p + d * dir < limit,
        0 <= d,
        dir >= 1 || dir <= -1,
    ensures
        d < limit,
{
}

/// Casts a ray from the viewpoint at the given angle and returns the
/// first wall it meets. With `draw_line` the traversed world pixels
/// are painted red onto the surface; without it the surface is left
/// untouched.
pub fn cast_ray(
    fb: &mut Framebuffer,
    maze: &Maze,
    player: &Player,
    angle: i64,
    block_size: usize,
    draw_line: bool,
) -> (r: Intersect)
    requires
        old(fb).wf(),
        maze.wf(),
        maze.enclosed(),
        1 <= block_size,
        maze.spec_width() * block_size <= 1_000_000,
        maze.spec_height() * block_size <= 1_000_000,
        player.in_bounds(*maze, block_size as int),
        -TURN <= angle < 2 * TURN,
    ensures
        final(fb).wf(),
        final(fb).width == old(fb).width,
        final(fb).height == old(fb).height,
        final(fb).bg() == old(fb).bg(),
        final(fb).buffer.len() == old(fb).buffer.len(),
        0 <= r.distance <= 2_000_000_000,
        is_first_hit(*maze, player.x as int, player.y as int,
            spec_cos(angle as int), spec_sin(angle as int),
            block_size as int, r.distance as int),
        r.distance == spec_ray_hit(*maze, player.x as int, player.y as int,
            spec_cos(angle as int), spec_sin(angle as int), block_size as int),
        r.impact == maze.cell_at(
            cell_coord(march(player.x as int, spec_cos(angle as int), r.distance as int),
                block_size as int),
            cell_coord(march(player.y as int, spec_sin(angle as int), r.distance as int),
                block_size as int)),
        r.impact != ' ',
        !draw_line ==> *final(fb) == *old(fb),
        draw_line ==> final(fb).draw_color() == 0xFF0000,
        draw_line ==> forall|idx: int|
            0 <= idx < old(fb).buffer.len()
                && final(fb).buffer[idx] != old(fb).buffer[idx]
                ==> final(fb).buffer[idx] == 0xFF0000,
        // A changed pixel always lies on the traversed path: the write
        // at some step strictly before the hit.
        draw_line ==> forall|x2: int, y2: int|
            0 <= x2 < old(fb).width && 0 <= y2 < old(fb).height
                && #[trigger] final(fb).pixel(x2, y2) != old(fb).pixel(x2, y2)
                ==> exists|d: int| 0 <= d < r.distance
                    && x2 == #[trigger] ray_pixel(player.x as int,
                        spec_cos(angle as int), d)
                    && y2 == ray_pixel(player.y as int, spec_sin(angle as int), d),
        // Every world pixel the ray traversed before the hit ends up
        // red on the surface, wherever it is in range.
        draw_line ==> forall|d: int| 0 <= d < r.distance
            && 0 <= ray_pixel(player.x as int, spec_cos(angle as int), d) < old(fb).width
            && 0 <= ray_pixel(player.y as int, spec_sin(angle as int), d) < old(fb).height
            ==> #[trigger] final(fb).pixel(
                    ray_pixel(player.x as int, spec_cos(angle as int), d),
                    ray_pixel(player.y as int, spec_sin(angle as int), d)) == 0xFF0000,
{
    let dx = cos_fp(angle);
    let dy = sin_fp(angle);
    proof {
        lemma_sin_range(angle as int);
        lemma_cos_range(angle as int);
    }
    if draw_line {
        let red = crate::color::Color::red();
        let hex = red.to_hex();
        fb.set_current_color(hex);
    }
    let ghost wlim: int = maze.spec_width() * block_size * (FP as int);
    let ghost hlim: int = maze.spec_height() * block_size * (FP as int);
    proof {
        assert(wlim <= 1_000_000_000 && hlim <= 1_000_000_000) by (nonlinear_arith)
            requires
                wlim == maze.spec_width() * block_size * (FP as int),
                hlim == maze.spec_height() * block_size * (FP as int),
                maze.spec_width() * block_size <= 1_000_000,
                maze.spec_height() * block_size <= 1_000_000,
                FP == 1000,
        ;
    }
    let mut d: i64 = 0;
    loop
        invariant
            fb.wf(),
            fb.width == old(fb).width,
            fb.height == old(fb).height,
            fb.bg() == old(fb).bg(),
            fb.buffer.len() == old(fb).buffer.len(),
            maze.wf(),
            maze.enclosed(),
            1 <= block_size,
            maze.spec_width() * block_size <= 1_000_000,
            maze.spec_height() * block_size <= 1_000_000,
            wlim == maze.spec_width() * block_size * (FP as int),
            hlim == maze.spec_height() * block_size * (FP as int),
            wlim <= 1_000_000_000,
            hlim <= 1_000_000_000,
            dx == spec_cos(angle as int),
            dy == spec_sin(angle as int),
            -FP <= dx <= FP,
            -FP <= dy <= FP,
            dx >= 1 || dx <= -1 || dy >= 1 || dy <= -1,
            0 <= d <= wlim + hlim,
            0 <= player.x < wlim,
            0 <= player.y < hlim,
            0 <= player.x + d * dx < wlim,
            0 <= player.y + d * dy < hlim,
            prefix_open(*maze, player.x as int, player.y as int, dx as int, dy as int,
                block_size as int, d as int),
            !draw_line ==> *fb == *old(fb),
            draw_line ==> fb.draw_color() == 0xFF0000,
            draw_line ==> forall|idx: int|
                0 <= idx < old(fb).buffer.len()
                    && fb.buffer[idx] != old(fb).buffer[idx]
                    ==> fb.buffer[idx] == 0xFF0000,
            draw_line ==> forall|k: int| 0 <= k < d
                && 0 <= ray_pixel(player.x as int, dx as int, k) < old(fb).width
                && 0 <= ray_pixel(player.y as int, dy as int, k) < old(fb).height
                ==> #[trigger] fb.pixel(ray_pixel(player.x as int, dx as int, k),
                        ray_pixel(player.y as int, dy as int, k)) == 0xFF0000,
            draw_line ==> forall|x2: int, y2: int|
                0 <= x2 < old(fb).width && 0 <= y2 < old(fb).height
                    && #[trigger] fb.pixel(x2, y2) != old(fb).pixel(x2, y2)
                    ==> exists|k: int| 0 <= k < d
                        && x2 == #[trigger] ray_pixel(player.x as int, dx as int, k)
                        && y2 == ray_pixel(player.y as int, dy as int, k),
        decreases wlim + hlim - d,
    {
        proof {
            assert(-2_000_000_000_000 <= (d as int) * (dx as int) <= 2_000_000_000_000
                    && -2_000_000_000_000 <= (d as int) * (dy as int) <= 2_000_000_000_000)
                by (nonlinear_arith)
                requires 0 <= d <= 2_000_000_000 && -1000 <= dx <= 1000 && -1000 <= dy <= 1000;
        }
        let x: i64 = player.x + d * dx;
        let y: i64 = player.y + d * dy;
        proof {
            lemma_cell_coord_below(x as int, block_size as int, maze.spec_width());
            lemma_cell_coord_below(y as int, block_size as int, maze.spec_height());
            lemma_div_denominator(x as int, FP as int, block_size as int);
            lemma_div_denominator(y as int, FP as int, block_size as int);
        }
        let xw: usize = (x / FP) as usize;
        let yw: usize = (y / FP) as usize;
        let i: usize = xw / block_size;
        let j: usize = yw / block_size;
        let c = maze.cell(i, j);
        if c != ' ' {
            proof {
                assert(is_first_hit(*maze, player.x as int, player.y as int,
                    dx as int, dy as int, block_size as int, d as int));
                assert(exists|d2: int| 0 <= d2
                    && #[trigger] is_first_hit(*maze, player.x as int, player.y as int,
                        dx as int, dy as int, block_size as int, d2));
                lemma_first_hit_unique(*maze, player.x as int, player.y as int,
                    dx as int, dy as int, block_size as int, d as int,
                    spec_ray_hit(*maze, player.x as int, player.y as int,
                        dx as int, dy as int, block_size as int));
            }
            return Intersect { distance: d, impact: c };
        }
        proof {
            maze.lemma_open_is_interior(i as int, j as int);
            lemma_step_stays_inside(x as int, dx as int, block_size as int,
                maze.spec_width());
            lemma_step_stays_inside(y as int, dy as int, block_size as int,
                maze.spec_height());
            assert(march(player.x as int, dx as int, d + 1) == x + dx
                    && march(player.y as int, dy as int, d + 1) == y + dy)
                by (nonlinear_arith)
                requires x == player.x + d * dx && y == player.y + d * dy;
            if dx >= 1 || dx <= -1 {
                lemma_march_bounded(player.x as int, dx as int, d as int, wlim);
            } else {
                lemma_march_bounded(player.y as int, dy as int, d as int, hlim);
            }
            assert(ray_open(*maze, player.x as int, player.y as int, dx as int, dy as int,
                block_size as int, d as int));
            assert(forall|k: int| 0 <= k < d + 1
                ==> #[trigger] ray_open(*maze, player.x as int, player.y as int,
                        dx as int, dy as int, block_size as int, k));
        }
        if draw_line {
            let ghost head = *fb;
            fb.point(xw, yw);
            proof {
                assert(ray_pixel(player.x as int, dx as int, d as int) == xw
                        && ray_pixel(player.y as int, dy as int, d as int) == yw) by {
                    lemma_div_denominator(x as int, FP as int, block_size as int);
                    lemma_div_denominator(y as int, FP as int, block_size as int);
                };
                assert forall|k: int| 0 <= k < d + 1
                    && 0 <= ray_pixel(player.x as int, dx as int, k) < old(fb).width
                    && 0 <= ray_pixel(player.y as int, dy as int, k) < old(fb).height
                    implies #[trigger] fb.pixel(ray_pixel(player.x as int, dx as int, k),
                        ray_pixel(player.y as int, dy as int, k)) == 0xFF0000 by {
                    let kx = ray_pixel(player.x as int, dx as int, k);
                    let ky = ray_pixel(player.y as int, dy as int, k);
                    crate::framebuffer::lemma_row_major_index_in_range(
                        fb.width as int, fb.height as int, kx, ky);
                    if k < d {
                        assert(head.pixel(kx, ky) == 0xFF0000);
                    }
                }
                assert forall|x2: int, y2: int|
                    0 <= x2 < old(fb).width && 0 <= y2 < old(fb).height
                        && #[trigger] fb.pixel(x2, y2) != old(fb).pixel(x2, y2)
                        implies exists|k: int| 0 <= k < d + 1
                            && x2 == #[trigger] ray_pixel(player.x as int, dx as int, k)
                            && y2 == ray_pixel(player.y as int, dy as int, k) by {
                    if head.pixel(x2, y2) != old(fb).pixel(x2, y2) {
                        assert(exists|k: int| 0 <= k < d
                            && x2 == #[trigger] ray_pixel(player.x as int, dx as int, k)
                            && y2 == ray_pixel(player.y as int, dy as int, k));
                    } else {
                        crate::framebuffer::lemma_row_major_index_in_range(
                            fb.width as int, fb.height as int, x2, y2);
                        if x2 != xw || y2 != yw {
                            crate::render::lemma_row_major_injective(fb.width as int,
                                x2, y2, xw as int, yw as int);
                        }
                        assert(x2 == ray_pixel(player.x as int, dx as int, d as int)
                            && y2 == ray_pixel(player.y as int, dy as int, d as int));
                    }
                }
            }
        }
        d = d + 1;
    }
}

} // verus!
