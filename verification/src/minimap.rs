//! The minimap: a small inset near the top-right corner that
//! re-projects the whole grid. Independent horizontal and vertical
//! scale factors map the grid's full world extent exactly onto the
//! inset's width and height; each wall cell becomes a scaled block
//! sampled from its texture, and the viewpoint is drawn last as a red
//! two-by-two marker so it always shows on top.

use vstd::prelude::*;
use vstd::arithmetic::div_mod::{
    lemma_div_pos_is_pos, lemma_div_is_ordered, lemma_div_multiples_vanish,
    lemma_fundamental_div_mod, lemma_fundamental_div_mod_converse, lemma_mod_bound,
};
use crate::color::Color;
use crate::framebuffer::Framebuffer;
use crate::maze::Maze;
use crate::player::Player;
use crate::render::{TextureSet, sample_index, fill_rect};
use crate::trig::FP;

verus! {

/// Pixels between the inset and the right screen edge.
pub const MINIMAP_MARGIN_RIGHT: usize = 50;

/// Pixels between the inset and the top screen edge.
pub const MINIMAP_MARGIN_TOP: usize = 20;

/// The inset-local coordinate of a world coordinate: the world value
/// scaled so that the full world extent maps onto the inset size,
/// rounded down.
pub open spec fn spec_minimap_scale(world: int, inset: int, world_extent: int) -> int {
    world * inset / world_extent
}

/// Rounding down distributes sub-additively over division: the sum of
/// two rounded shares never exceeds the rounded share of the sum.
proof fn lemma_div_sum_le(x: int, y: int, d: int)
    requires
        0 <= x,
        0 <= y,
        1 <= d,
    ensures
        x / d + y / d <= (x + y) / d,
{
    lemma_fundamental_div_mod(x, d);
    lemma_fundamental_div_mod(y, d);
    lemma_mod_bound(x, d);
    lemma_mod_bound(y, d);
    let qx = x / d;
    let qy = y / d;
    let rx = x % d;
    let ry = y % d;
    if rx + ry < d {
        assert(x + y == (qx + qy) * d + (rx + ry)) by (nonlinear_arith)
            requires x == d * qx + rx && y == d * qy + ry;
        lemma_fundamental_div_mod_converse(x + y, d, qx + qy, rx + ry);
    } else {
        assert(x + y == (qx + qy + 1) * d + (rx + ry - d)) by (nonlinear_arith)
            requires x == d * qx + rx && y == d * qy + ry;
        lemma_fundamental_div_mod_converse(x + y, d, qx + qy + 1, rx + ry - d);
    }
}

/// The minimap round trip: every grid cell's scaled block lies within
/// the inset. The cell at grid position `(c, r)` starts at a
/// nonnegative inset offset, and its offset plus the block span stays
/// within the inset size, horizontally and vertically alike.
pub proof fn lemma_minimap_cell_in_inset(
    c: int, r: int, w: int, h: int, bs: int, inset: int,
)
    requires
        0 <= c < w,
        0 <= r < h,
        1 <= bs,
        1 <= inset,
    ensures
        0 <= spec_minimap_scale(c * bs, inset, w * bs),
        spec_minimap_scale(c * bs, inset, w * bs)
            + spec_minimap_scale(bs, inset, w * bs) <= inset,
        0 <= spec_minimap_scale(r * bs, inset, h * bs),
        spec_minimap_scale(r * bs, inset, h * bs)
            + spec_minimap_scale(bs, inset, h * bs) <= inset,
{
    lemma_minimap_axis(c, w, bs, inset);
    lemma_minimap_axis(r, h, bs, inset);
}

/// One axis of the minimap round trip.
proof fn lemma_minimap_axis(c: int, w: int, bs: int, inset: int)
    requires
        0 <= c < w,
        1 <= bs,
        1 <= inset,
    ensures
        0 <= spec_minimap_scale(c * bs, inset, w * bs),
        spec_minimap_scale(c * bs, inset, w * bs)
            + spec_minimap_scale(bs, inset, w * bs) <= inset,
{
    let den = w * bs;
    assert(den >= 1 && 0 <= c * bs * inset && 0 <= bs * inset
            && c * bs * inset + bs * inset == (c + 1) * bs * inset
            && (c + 1) * bs * inset <= den * inset) by (nonlinear_arith)
        requires 0 <= c < w && 1 <= bs && 1 <= inset && den == w * bs;
    lemma_div_pos_is_pos(c * bs * inset, den);
    lemma_div_pos_is_pos(bs * inset, den);
    lemma_div_sum_le(c * bs * inset, bs * inset, den);
    lemma_div_is_ordered((c + 1) * bs * inset, den * inset, den);
    lemma_div_multiples_vanish(inset, den);
}

/// What the inset shows for block offset `(dx, dy)` of the cell at
/// grid position `(c, r)`: the pixel is off the bottom of the surface
/// (clipped), or under the viewpoint marker's square, or it holds the
/// cell's texel — the texture sample where the symbol maps to a
/// texture, flat black where it does not.
pub open spec fn minimap_cell_shown(
    fb: Framebuffer, m: Maze, player: Player, tex: crate::render::TextureSet,
    inset: int, bs: int, c: int, r: int, dx: int, dy: int,
) -> bool {
    let wext = m.spec_width() * bs;
    let hext = m.spec_height() * bs;
    let bx = fb.width - inset - (MINIMAP_MARGIN_RIGHT as int)
        + spec_minimap_scale(c * bs, inset, wext);
    let by = (MINIMAP_MARGIN_TOP as int) + spec_minimap_scale(r * bs, inset, hext);
    let mx = fb.width - inset - (MINIMAP_MARGIN_RIGHT as int)
        + spec_minimap_scale((player.x as int) / (FP as int), inset, wext);
    let my = (MINIMAP_MARGIN_TOP as int)
        + spec_minimap_scale((player.y as int) / (FP as int), inset, hext);
    ||| by + dy >= fb.height
    ||| (mx <= bx + dx <= mx + 1 && my <= by + dy <= my + 1)
    ||| fb.pixel(bx + dx, by + dy) as int == (match tex.spec_select(m.cell_at(c, r)) {
            Some(t) => spec_minimap_texel(t, m.spec_width(), m.spec_height(), inset,
                dx, dy),
            None => 0,
        })
}

/// Scaled cell origins along one axis keep one block span apart: an
/// earlier cell's block ends before a later cell's begins.
proof fn lemma_minimap_scale_step(u: int, v: int, bs: int, inset: int)
    requires
        0 <= u < v,
        1 <= bs,
        1 <= inset,
    ensures
        forall|ext: int| 1 <= ext
            ==> #[trigger] spec_minimap_scale(u * bs, inset, ext)
                    + spec_minimap_scale(bs, inset, ext)
                <= spec_minimap_scale(v * bs, inset, ext),
{
    assert forall|ext: int| 1 <= ext
        implies #[trigger] spec_minimap_scale(u * bs, inset, ext)
                + spec_minimap_scale(bs, inset, ext)
            <= spec_minimap_scale(v * bs, inset, ext) by {
        assert(0 <= u * bs * inset && 0 <= bs * inset
                && u * bs * inset + bs * inset == (u + 1) * bs * inset
                && (u + 1) * bs * inset <= v * bs * inset) by (nonlinear_arith)
            requires 0 <= u < v && 1 <= bs && 1 <= inset;
        lemma_div_sum_le(u * bs * inset, bs * inset, ext);
        lemma_div_is_ordered((u + 1) * bs * inset, v * bs * inset, ext);
    }
}

/// Draws the minimap inset. A black square backs the inset; every wall
/// cell is drawn as a block of nearest-neighbor texture samples (a
/// flat black block where no texture is mapped); the viewpoint's
/// two-by-two red marker goes on top, at its linearly scaled inset
/// position.
pub fn render_minimap(
    fb: &mut Framebuffer,
    player: &Player,
    maze: &Maze,
    minimap_size: usize,
    block_size: usize,
    textures: &TextureSet,
)
    requires
        old(fb).wf(),
        old(fb).width <= 100_000,
        old(fb).height <= 100_000,
        maze.wf(),
        1 <= block_size,
        maze.spec_width() * block_size <= 1_000_000,
        maze.spec_height() * block_size <= 1_000_000,
        player.in_bounds(*maze, block_size as int),
        textures.wf(),
        1 <= minimap_size <= 100_000,
        minimap_size + MINIMAP_MARGIN_RIGHT <= old(fb).width,
    ensures
        final(fb).wf(),
        final(fb).width == old(fb).width,
        final(fb).height == old(fb).height,
        final(fb).bg() == old(fb).bg(),
        final(fb).buffer.len() == old(fb).buffer.len(),
        final(fb).draw_color() == 0xFF0000,
        // Everything outside the inset square (and the one-pixel seam
        // the marker may use on its far edges) is untouched.
        forall|x2: int, y2: int|
            0 <= x2 < old(fb).width && 0 <= y2 < old(fb).height
                && !(old(fb).width - minimap_size - MINIMAP_MARGIN_RIGHT <= x2
                        <= old(fb).width - MINIMAP_MARGIN_RIGHT
                    && MINIMAP_MARGIN_TOP <= y2 <= MINIMAP_MARGIN_TOP + minimap_size)
                ==> #[trigger] final(fb).pixel(x2, y2) == old(fb).pixel(x2, y2),
        // The viewpoint marker's inset coordinates scale linearly with
        // its world coordinates: its two-by-two square sits at the
        // inset origin plus the scaled world position, and every one of
        // its pixels on the surface is red.
        ({
            let mx = old(fb).width - minimap_size - MINIMAP_MARGIN_RIGHT
                + spec_minimap_scale((player.x as int) / (FP as int), minimap_size as int,
                    maze.spec_width() * block_size);
            let my = MINIMAP_MARGIN_TOP
                + spec_minimap_scale((player.y as int) / (FP as int), minimap_size as int,
                    maze.spec_height() * block_size);
            &&& mx < old(fb).width && my < old(fb).height
                    ==> final(fb).pixel(mx, my) == 0xFF0000
            &&& mx + 1 < old(fb).width && my < old(fb).height
                    ==> final(fb).pixel(mx + 1, my) == 0xFF0000
            &&& mx < old(fb).width && my + 1 < old(fb).height
                    ==> final(fb).pixel(mx, my + 1) == 0xFF0000
            &&& mx + 1 < old(fb).width && my + 1 < old(fb).height
                    ==> final(fb).pixel(mx + 1, my + 1) == 0xFF0000
        }),
        // Every wall cell's block is drawn inside the inset at its
        // scaled origin: each of its pixels shows the cell's texel,
        // unless it is clipped off the surface or under the marker.
        forall|c: int, r: int, dx: int, dy: int|
            0 <= c < maze.spec_width() && 0 <= r < maze.spec_height()
                && !maze.open_at(c, r)
                && 0 <= dx < spec_minimap_scale(block_size as int, minimap_size as int,
                    maze.spec_width() * block_size)
                && 0 <= dy < spec_minimap_scale(block_size as int, minimap_size as int,
                    maze.spec_height() * block_size)
                ==> #[trigger] minimap_cell_shown(*final(fb), *maze, *player, *textures,
                        minimap_size as int, block_size as int, c, r, dx, dy),
{
    let x_off: usize = fb.width - minimap_size - MINIMAP_MARGIN_RIGHT;
    let y_off: usize = MINIMAP_MARGIN_TOP;
    let black = Color::black();
    let black_hex = black.to_hex();
    fill_rect(fb, x_off, y_off, minimap_size, minimap_size, black_hex);

    let w = maze.width();
    let h = maze.height();
    proof {
        assert(1 <= maze.spec_width() * block_size && 1 <= maze.spec_height() * block_size)
            by (nonlinear_arith)
            requires maze.spec_width() >= 1 && maze.spec_height() >= 1 && block_size >= 1;
    }
    let wbs: usize = w * block_size;
    let hbs: usize = h * block_size;
    proof {
        assert(block_size <= maze.spec_width() * block_size
                && block_size <= maze.spec_height() * block_size) by (nonlinear_arith)
            requires maze.spec_width() >= 1 && maze.spec_height() >= 1 && block_size >= 0;
    }
    let span_x: usize = scale_to_inset(block_size, minimap_size, wbs);
    let span_y: usize = scale_to_inset(block_size, minimap_size, hbs);
    proof {
        lemma_span_cells(block_size as int, maze.spec_width(), minimap_size as int);
        lemma_span_cells(block_size as int, maze.spec_height(), minimap_size as int);
        assert(maze.spec_width() <= maze.spec_width() * block_size
                && maze.spec_height() <= maze.spec_height() * block_size)
            by (nonlinear_arith)
            requires maze.spec_width() >= 0 && maze.spec_height() >= 0 && block_size >= 1;
    }
    let mut row: usize = 0;
    while row < h
        invariant
            fb.wf(),
            fb.width == old(fb).width,
            fb.height == old(fb).height,
            fb.bg() == old(fb).bg(),
            fb.buffer.len() == old(fb).buffer.len(),
            fb.width <= 100_000,
            fb.height <= 100_000,
            maze.wf(),
            textures.wf(),
            1 <= block_size,
            w == maze.spec_width(),
            h == maze.spec_height(),
            wbs == w * block_size <= 1_000_000,
            hbs == h * block_size <= 1_000_000,
            1 <= wbs,
            1 <= hbs,
            black_hex == 0,
            w <= 1_000_000,
            h <= 1_000_000,
            1 <= minimap_size <= 100_000,
            minimap_size + MINIMAP_MARGIN_RIGHT <= fb.width,
            x_off == fb.width - minimap_size - MINIMAP_MARGIN_RIGHT,
            y_off == MINIMAP_MARGIN_TOP,
            span_x == spec_minimap_scale(block_size as int, minimap_size as int, wbs as int),
            span_y == spec_minimap_scale(block_size as int, minimap_size as int, hbs as int),
            span_x <= minimap_size,
            span_y <= minimap_size,
            span_x * w <= minimap_size,
            span_y * h <= minimap_size,
            row <= h,
            forall|x2: int, y2: int|
                0 <= x2 < old(fb).width && 0 <= y2 < old(fb).height
                    && !(x_off <= x2 <= x_off + minimap_size
                        && y_off <= y2 <= y_off + minimap_size)
                    ==> #[trigger] fb.pixel(x2, y2) == old(fb).pixel(x2, y2),
            forall|c2: int, r2: int, dx2: int, dy2: int|
                0 <= c2 < w && 0 <= r2 < row && !maze.open_at(c2, r2)
                    && 0 <= dx2 < span_x && 0 <= dy2 < span_y
                    ==> #[trigger] minimap_cell_shown(*fb, *maze, *player, *textures,
                            minimap_size as int, block_size as int, c2, r2, dx2, dy2),
        decreases h - row,
    {
        let mut col: usize = 0;
        while col < w
            invariant
                fb.wf(),
                fb.width == old(fb).width,
                fb.height == old(fb).height,
                fb.bg() == old(fb).bg(),
                fb.buffer.len() == old(fb).buffer.len(),
                fb.width <= 100_000,
                fb.height <= 100_000,
                maze.wf(),
                textures.wf(),
                1 <= block_size,
                w == maze.spec_width(),
                h == maze.spec_height(),
                wbs == w * block_size <= 1_000_000,
                hbs == h * block_size <= 1_000_000,
                1 <= wbs,
                1 <= hbs,
                black_hex == 0,
                w <= 1_000_000,
                h <= 1_000_000,
                1 <= minimap_size <= 100_000,
                minimap_size + MINIMAP_MARGIN_RIGHT <= fb.width,
                x_off == fb.width - minimap_size - MINIMAP_MARGIN_RIGHT,
                y_off == MINIMAP_MARGIN_TOP,
                span_x == spec_minimap_scale(block_size as int, minimap_size as int, wbs as int),
                span_y == spec_minimap_scale(block_size as int, minimap_size as int, hbs as int),
                span_x <= minimap_size,
                span_y <= minimap_size,
                span_x * w <= minimap_size,
                span_y * h <= minimap_size,
                row < h,
                col <= w,
                forall|x2: int, y2: int|
                    0 <= x2 < old(fb).width && 0 <= y2 < old(fb).height
                        && !(x_off <= x2 <= x_off + minimap_size
                            && y_off <= y2 <= y_off + minimap_size)
                        ==> #[trigger] fb.pixel(x2, y2) == old(fb).pixel(x2, y2),
                forall|c2: int, r2: int, dx2: int, dy2: int|
                    0 <= c2 < w && 0 <= r2 < h && !maze.open_at(c2, r2)
                        && (r2 < row || (r2 == row && c2 < col))
                        && 0 <= dx2 < span_x && 0 <= dy2 < span_y
                        ==> #[trigger] minimap_cell_shown(*fb, *maze, *player, *textures,
                                minimap_size as int, block_size as int, c2, r2, dx2, dy2),
            decreases w - col,
        {
            let cell = maze.cell(col, row);
            if cell != ' ' {
                proof {
                    assert(0 <= col * block_size && col * block_size + block_size
                            <= w * block_size
                            && 0 <= row * block_size && row * block_size + block_size
                            <= h * block_size) by (nonlinear_arith)
                        requires col < w && row < h && block_size >= 0;
                    lemma_minimap_cell_in_inset(col as int, row as int,
                        maze.spec_width(), maze.spec_height(), block_size as int,
                        minimap_size as int);
                }
                let cx: usize = scale_to_inset(col * block_size, minimap_size, wbs);
                let cy: usize = scale_to_inset(row * block_size, minimap_size, hbs);
                let bx: usize = x_off + cx;
                let by: usize = y_off + cy;
                let ghost head = *fb;
                match textures.select(cell) {
                    Some(tex) => {
                        draw_minimap_block(fb, bx, by, span_x, span_y, w, h,
                            minimap_size, tex);
                    },
                    None => {
                        fill_rect(fb, bx, by, span_x, span_y, black_hex);
                    },
                }
                proof {
                    let bsi = block_size as int;
                    let msi = minimap_size as int;
                    assert(bx + span_x <= x_off + minimap_size
                        && by + span_y <= y_off + minimap_size);
                    assert forall|x2: int, y2: int|
                        0 <= x2 < old(fb).width && 0 <= y2 < old(fb).height
                            && !(x_off <= x2 <= x_off + minimap_size
                                && y_off <= y2 <= y_off + minimap_size)
                            implies #[trigger] fb.pixel(x2, y2) == old(fb).pixel(x2, y2)
                    by {
                        assert(fb.pixel(x2, y2) == head.pixel(x2, y2));
                        assert(head.pixel(x2, y2) == old(fb).pixel(x2, y2));
                    }
                    assert forall|c2: int, r2: int, dx2: int, dy2: int|
                        0 <= c2 < w && 0 <= r2 < h && !maze.open_at(c2, r2)
                            && (r2 < row || (r2 == row && c2 < col))
                            && 0 <= dx2 < span_x && 0 <= dy2 < span_y
                            implies #[trigger] minimap_cell_shown(*fb, *maze, *player,
                                *textures, msi, bsi, c2, r2, dx2, dy2) by {
                        let bx2 = fb.width - msi - (MINIMAP_MARGIN_RIGHT as int)
                            + spec_minimap_scale(c2 * bsi, msi, w * bsi);
                        let by2 = (MINIMAP_MARGIN_TOP as int)
                            + spec_minimap_scale(r2 * bsi, msi, h * bsi);
                        assert(minimap_cell_shown(head, *maze, *player, *textures,
                            msi, bsi, c2, r2, dx2, dy2));
                        if by2 + dy2 < fb.height {
                            lemma_minimap_cell_in_inset(c2, r2, w as int, h as int,
                                bsi, msi);
                            assert(0 <= bx2 + dx2 < fb.width);
                            if r2 < row {
                                lemma_minimap_scale_step(r2, row as int, bsi, msi);
                                assert(spec_minimap_scale(r2 * bsi, msi, h * bsi)
                                    + spec_minimap_scale(bsi, msi, h * bsi)
                                    <= spec_minimap_scale(row as int * bsi, msi,
                                        h * bsi));
                                assert(by2 + dy2 < by);
                            } else {
                                lemma_minimap_scale_step(c2, col as int, bsi, msi);
                                assert(bx2 + dx2 < bx);
                            }
                            crate::framebuffer::lemma_row_major_index_in_range(
                                fb.width as int, fb.height as int, bx2 + dx2, by2 + dy2);
                            assert(fb.pixel(bx2 + dx2, by2 + dy2)
                                == head.pixel(bx2 + dx2, by2 + dy2));
                        }
                    }
                    assert forall|dx2: int, dy2: int|
                        0 <= dx2 < span_x && 0 <= dy2 < span_y
                            implies #[trigger] minimap_cell_shown(*fb, *maze, *player,
                                *textures, msi, bsi, col as int, row as int, dx2, dy2)
                    by {
                        if by + dy2 < fb.height {
                            assert(crate::render::block_pixel(*fb, bx as int, by as int,
                                dx2, dy2) == fb.pixel(bx + dx2, by + dy2));
                        }
                    }
                }
            }
            col = col + 1;
        }
        proof {
            assert forall|c2: int, r2: int, dx2: int, dy2: int|
                0 <= c2 < w && 0 <= r2 < row + 1 && !maze.open_at(c2, r2)
                    && 0 <= dx2 < span_x && 0 <= dy2 < span_y
                    implies #[trigger] minimap_cell_shown(*fb, *maze, *player, *textures,
                        minimap_size as int, block_size as int, c2, r2, dx2, dy2) by {
                if r2 == row {
                    assert(minimap_cell_shown(*fb, *maze, *player, *textures,
                        minimap_size as int, block_size as int, c2, row as int,
                        dx2, dy2));
                }
            }
        }
        row = row + 1;
    }

    let red = Color::red();
    let red_hex = red.to_hex();
    let ghost painted = *fb;
    fb.set_current_color(red_hex);
    proof {
        assert forall|x2: int, y2: int|
            0 <= x2 < old(fb).width && 0 <= y2 < old(fb).height
                && !(x_off <= x2 <= x_off + minimap_size
                    && y_off <= y2 <= y_off + minimap_size)
                implies #[trigger] fb.pixel(x2, y2) == old(fb).pixel(x2, y2) by {
            assert(painted.pixel(x2, y2) == old(fb).pixel(x2, y2));
        }
        assert forall|c2: int, r2: int, dx2: int, dy2: int|
            0 <= c2 < w && 0 <= r2 < h && !maze.open_at(c2, r2)
                && 0 <= dx2 < span_x && 0 <= dy2 < span_y
                implies #[trigger] minimap_cell_shown(*fb, *maze, *player, *textures,
                    minimap_size as int, block_size as int, c2, r2, dx2, dy2) by {
            assert(minimap_cell_shown(painted, *maze, *player, *textures,
                minimap_size as int, block_size as int, c2, r2, dx2, dy2));
            let bsi = block_size as int;
            let msi = minimap_size as int;
            let bx2 = fb.width - msi - (MINIMAP_MARGIN_RIGHT as int)
                + spec_minimap_scale(c2 * bsi, msi, w * bsi);
            let by2 = (MINIMAP_MARGIN_TOP as int)
                + spec_minimap_scale(r2 * bsi, msi, h * bsi);
            assert(fb.pixel(bx2 + dx2, by2 + dy2) == painted.pixel(bx2 + dx2, by2 + dy2));
        }
    }
    let px_w: usize = (player.x / FP) as usize;
    let py_w: usize = (player.y / FP) as usize;
    proof {
        lemma_world_below_extent(player.x as int, maze.spec_width(), block_size as int);
        lemma_world_below_extent(player.y as int, maze.spec_height(), block_size as int);
    }
    let mx: usize = x_off + scale_to_inset(px_w, minimap_size, wbs);
    let my: usize = y_off + scale_to_inset(py_w, minimap_size, hbs);
    let ghost s0 = *fb;
    fb.point(mx, my);
    proof {
        lemma_point_frame(s0, *fb, mx as int, my as int);
        marker_writes_keep_cells(s0, *fb, *maze, *player, *textures,
            minimap_size as int, block_size as int, mx as int, my as int,
            mx as int, my as int);
    }
    let ghost s1 = *fb;
    fb.point(mx + 1, my);
    proof {
        lemma_point_frame(s1, *fb, mx + 1, my as int);
        marker_writes_keep_cells(s1, *fb, *maze, *player, *textures,
            minimap_size as int, block_size as int, mx as int, my as int,
            mx + 1, my as int);
    }
    let ghost s2 = *fb;
    fb.point(mx, my + 1);
    proof {
        lemma_point_frame(s2, *fb, mx as int, my + 1);
        marker_writes_keep_cells(s2, *fb, *maze, *player, *textures,
            minimap_size as int, block_size as int, mx as int, my as int,
            mx as int, my + 1);
    }
    let ghost s3 = *fb;
    fb.point(mx + 1, my + 1);
    proof {
        lemma_point_frame(s3, *fb, mx + 1, my + 1);
        marker_writes_keep_cells(s3, *fb, *maze, *player, *textures,
            minimap_size as int, block_size as int, mx as int, my as int,
            mx + 1, my + 1);
    }
}

/// Every cell's shown state survives one marker write: a helper that
/// lifts `lemma_shown_after_marker_write` over all cells.
proof fn marker_writes_keep_cells(
    before: Framebuffer, after: Framebuffer, m: Maze, player: Player,
    tex: crate::render::TextureSet, inset: int, bs: int, mx: int, my: int,
    wx: int, wy: int,
)
    requires
        before.wf(),
        after.wf(),
        after.width == before.width,
        after.height == before.height,
        after.buffer.len() == before.buffer.len(),
        m.wf(),
        1 <= bs,
        1 <= inset,
        inset + MINIMAP_MARGIN_RIGHT <= before.width,
        mx == before.width - inset - (MINIMAP_MARGIN_RIGHT as int)
            + spec_minimap_scale((player.x as int) / (FP as int), inset,
                m.spec_width() * bs),
        my == (MINIMAP_MARGIN_TOP as int)
            + spec_minimap_scale((player.y as int) / (FP as int), inset,
                m.spec_height() * bs),
        mx <= wx <= mx + 1,
        my <= wy <= my + 1,
        0 <= wx,
        0 <= wy,
        wx < before.width && wy < before.height ==> {
            &&& after.buffer[before.idx(wx, wy)] == before.draw_color()
            &&& forall|i: int| 0 <= i < before.buffer.len() && i != before.idx(wx, wy)
                    ==> after.buffer[i] == before.buffer[i]
        },
        !(wx < before.width && wy < before.height) ==> after.buffer == before.buffer,
        forall|c: int, r: int, dx: int, dy: int|
            0 <= c < m.spec_width() && 0 <= r < m.spec_height() && !m.open_at(c, r)
                && 0 <= dx < spec_minimap_scale(bs, inset, m.spec_width() * bs)
                && 0 <= dy < spec_minimap_scale(bs, inset, m.spec_height() * bs)
                ==> #[trigger] minimap_cell_shown(before, m, player, tex, inset, bs,
                        c, r, dx, dy),
    ensures
        forall|c: int, r: int, dx: int, dy: int|
            0 <= c < m.spec_width() && 0 <= r < m.spec_height() && !m.open_at(c, r)
                && 0 <= dx < spec_minimap_scale(bs, inset, m.spec_width() * bs)
                && 0 <= dy < spec_minimap_scale(bs, inset, m.spec_height() * bs)
                ==> #[trigger] minimap_cell_shown(after, m, player, tex, inset, bs,
                        c, r, dx, dy),
{
    assert forall|c: int, r: int, dx: int, dy: int|
        0 <= c < m.spec_width() && 0 <= r < m.spec_height() && !m.open_at(c, r)
            && 0 <= dx < spec_minimap_scale(bs, inset, m.spec_width() * bs)
            && 0 <= dy < spec_minimap_scale(bs, inset, m.spec_height() * bs)
            implies #[trigger] minimap_cell_shown(after, m, player, tex, inset, bs,
                c, r, dx, dy) by {
        lemma_shown_after_marker_write(before, after, m, player, tex, inset, bs,
            c, r, dx, dy, wx, wy);
    }
}

/// A cell's shown state survives a point write inside the marker
/// square: the written pixel falls under the marker disjunct, every
/// other pixel keeps its value.
proof fn lemma_shown_after_marker_write(
    before: Framebuffer, after: Framebuffer, m: Maze, player: Player,
    tex: crate::render::TextureSet, inset: int, bs: int, c: int, r: int,
    dx: int, dy: int, wx: int, wy: int,
)
    requires
        before.wf(),
        after.wf(),
        after.width == before.width,
        after.height == before.height,
        after.buffer.len() == before.buffer.len(),
        0 <= wx,
        0 <= wy,
        wx < before.width && wy < before.height ==> {
            &&& after.buffer[before.idx(wx, wy)] == before.draw_color()
            &&& forall|i: int| 0 <= i < before.buffer.len() && i != before.idx(wx, wy)
                    ==> after.buffer[i] == before.buffer[i]
        },
        !(wx < before.width && wy < before.height) ==> after.buffer == before.buffer,
        minimap_cell_shown(before, m, player, tex, inset, bs, c, r, dx, dy),
        m.wf(),
        1 <= bs,
        1 <= inset,
        0 <= c < m.spec_width(),
        0 <= r < m.spec_height(),
        0 <= dx < spec_minimap_scale(bs, inset, m.spec_width() * bs),
        0 <= dy < spec_minimap_scale(bs, inset, m.spec_height() * bs),
        inset + MINIMAP_MARGIN_RIGHT <= before.width,
        ({
            let mx = before.width - inset - (MINIMAP_MARGIN_RIGHT as int)
                + spec_minimap_scale((player.x as int) / (FP as int), inset,
                    m.spec_width() * bs);
            let my = (MINIMAP_MARGIN_TOP as int)
                + spec_minimap_scale((player.y as int) / (FP as int), inset,
                    m.spec_height() * bs);
            mx <= wx <= mx + 1 && my <= wy <= my + 1
        }),
    ensures
        minimap_cell_shown(after, m, player, tex, inset, bs, c, r, dx, dy),
{
    lemma_point_frame(before, after, wx, wy);
    let bx = before.width - inset - (MINIMAP_MARGIN_RIGHT as int)
        + spec_minimap_scale(c * bs, inset, m.spec_width() * bs);
    let by = (MINIMAP_MARGIN_TOP as int)
        + spec_minimap_scale(r * bs, inset, m.spec_height() * bs);
    if by + dy < before.height {
        if !(bx + dx == wx && by + dy == wy) {
            lemma_minimap_cell_in_inset(c, r, m.spec_width(), m.spec_height(), bs, inset);
            assert(after.pixel(bx + dx, by + dy) == before.pixel(bx + dx, by + dy));
        }
    }
}

/// A single point write leaves every other pixel of the surface
/// intact.
proof fn lemma_point_frame(before: Framebuffer, after: Framebuffer, wx: int, wy: int)
    requires
        before.wf(),
        after.wf(),
        after.width == before.width,
        after.height == before.height,
        after.buffer.len() == before.buffer.len(),
        0 <= wx,
        0 <= wy,
        wx < before.width && wy < before.height ==> {
            &&& after.buffer[before.idx(wx, wy)] == before.draw_color()
            &&& forall|i: int| 0 <= i < before.buffer.len() && i != before.idx(wx, wy)
                    ==> after.buffer[i] == before.buffer[i]
        },
        !(wx < before.width && wy < before.height) ==> after.buffer == before.buffer,
    ensures
        forall|x2: int, y2: int|
            0 <= x2 < before.width && 0 <= y2 < before.height && (x2 != wx || y2 != wy)
                ==> #[trigger] after.pixel(x2, y2) == before.pixel(x2, y2),
{
    assert forall|x2: int, y2: int|
        0 <= x2 < before.width && 0 <= y2 < before.height && (x2 != wx || y2 != wy)
            implies #[trigger] after.pixel(x2, y2) == before.pixel(x2, y2) by {
        crate::framebuffer::lemma_row_major_index_in_range(before.width as int,
            before.height as int, x2, y2);
        if wx < before.width && wy < before.height {
            crate::render::lemma_row_major_injective(before.width as int, x2, y2, wx, wy);
        }
    }
}

/// The scaled block span of one cell, times the cell count of its
/// axis, fits in the inset.
proof fn lemma_span_cells(bs: int, cells: int, inset: int)
    requires
        1 <= bs,
        1 <= cells,
        1 <= inset,
    ensures
        spec_minimap_scale(bs, inset, cells * bs) * cells <= inset,
{
    lemma_div_multiples_vanish(inset, bs);
    vstd::arithmetic::div_mod::lemma_div_denominator(bs * inset, bs, cells);
    assert(bs * cells == cells * bs) by (nonlinear_arith);
    let s = spec_minimap_scale(bs, inset, cells * bs);
    assert(s == inset / cells);
    lemma_fundamental_div_mod(inset, cells);
    lemma_mod_bound(inset, cells);
    assert(s * cells <= inset) by (nonlinear_arith)
        requires s == inset / cells && inset == cells * (inset / cells) + inset % cells
            && 0 <= inset % cells;
}

/// An in-bounds fixed-point coordinate, in world units, lies below the
/// world extent of its axis.
proof fn lemma_world_below_extent(x: int, cells: int, bs: int)
    requires
        1 <= bs,
        1 <= cells,
        0 <= x < cells * bs * (FP as int),
    ensures
        0 <= x / (FP as int) < cells * bs,
{
    lemma_div_pos_is_pos(x, FP as int);
    assert(cells * bs * (FP as int) == (FP as int) * (cells * bs)) by (nonlinear_arith);
    lemma_div_is_ordered(x, (FP as int) * (cells * bs) - 1, FP as int);
    crate::render::lemma_sub_one_div(FP as int, cells * bs);
}

/// The inset-local pixel of a world coordinate strictly inside the
/// world extent; the result lies strictly inside the inset.
fn scale_to_inset(world: usize, inset: usize, world_extent: usize) -> (r: usize)
    requires
        world <= world_extent,
        1 <= world_extent <= 1_000_000,
        1 <= inset <= 100_000,
    ensures
        r == spec_minimap_scale(world as int, inset as int, world_extent as int),
        r <= inset,
        world < world_extent ==> r < inset,
{
    proof {
        assert(0 <= (world as int) * (inset as int) <= 100_000_000_000)
            by (nonlinear_arith)
            requires 0 <= world <= 1_000_000 && 0 <= inset <= 100_000;
        lemma_div_pos_is_pos((world as int) * (inset as int), world_extent as int);
        if world < world_extent {
            assert(0 <= (world as int) * (inset as int)
                    && (world as int) * (inset as int)
                        <= ((world_extent as int) - 1) * (inset as int)
                    && ((world_extent as int) - 1) * (inset as int) + inset
                        == (world_extent as int) * (inset as int)) by (nonlinear_arith)
                requires 0 <= world < world_extent && 1 <= inset;
            lemma_div_is_ordered((world as int) * (inset as int),
                (world_extent as int) * (inset as int) - 1, world_extent as int);
            crate::render::lemma_sub_one_div(world_extent as int, inset as int);
        } else {
            assert((world as int) * (inset as int)
                    == (world_extent as int) * (inset as int)) by (nonlinear_arith)
                requires world == world_extent;
            lemma_div_multiples_vanish(inset as int, world_extent as int);
        }
        assert(spec_minimap_scale(world as int, inset as int, world_extent as int)
            <= inset);
    }
    (((world as u64) * (inset as u64)) / (world_extent as u64)) as usize
}

/// The texel a minimap block shows at block offset `(dx, dy)`: the
/// nearest neighbor under the inverse of the inset scale.
pub open spec fn spec_minimap_texel(
    t: crate::texture::Texture, cells_w: int, cells_h: int, inset: int, dx: int, dy: int,
) -> int {
    t.spec_pixel(dx * cells_w * (t.width as int) / inset,
        dy * cells_h * (t.height as int) / inset)
}

/// Draws one wall cell's scaled block in the inset, sampling the
/// texture by nearest neighbor under the inverse of the inset scale:
/// every block pixel on the surface takes its texel, and pixels
/// outside the block are untouched.
fn draw_minimap_block(
    fb: &mut Framebuffer,
    bx: usize,
    by: usize,
    span_x: usize,
    span_y: usize,
    cells_w: usize,
    cells_h: usize,
    minimap_size: usize,
    tex: &crate::texture::Texture,
)
    requires
        old(fb).wf(),
        old(fb).width <= 100_000,
        old(fb).height <= 100_000,
        tex.wf(),
        1 <= minimap_size <= 100_000,
        1 <= cells_w <= 1_000_000,
        1 <= cells_h <= 1_000_000,
        span_x <= minimap_size,
        span_y <= minimap_size,
        bx + span_x <= 1_000_000,
        by + span_y <= 1_000_000,
        span_x * cells_w <= minimap_size,
        span_y * cells_h <= minimap_size,
    ensures
        final(fb).wf(),
        final(fb).width == old(fb).width,
        final(fb).height == old(fb).height,
        final(fb).bg() == old(fb).bg(),
        final(fb).buffer.len() == old(fb).buffer.len(),
        forall|x2: int, y2: int|
            0 <= x2 < old(fb).width && 0 <= y2 < old(fb).height
                && !(bx <= x2 < bx + span_x && by <= y2 < by + span_y)
                ==> #[trigger] final(fb).pixel(x2, y2) == old(fb).pixel(x2, y2),
        forall|dx2: int, dy2: int|
            0 <= dx2 < span_x && 0 <= dy2 < span_y
                && bx + dx2 < old(fb).width && by + dy2 < old(fb).height
                ==> #[trigger] crate::render::block_pixel(*final(fb), bx as int,
                        by as int, dx2, dy2)
                    == spec_minimap_texel(*tex, cells_w as int, cells_h as int,
                        minimap_size as int, dx2, dy2),
{
    let mut dy: usize = 0;
    while dy < span_y
        invariant
            fb.wf(),
            fb.width == old(fb).width,
            fb.height == old(fb).height,
            fb.bg() == old(fb).bg(),
            fb.buffer.len() == old(fb).buffer.len(),
            tex.wf(),
            1 <= minimap_size <= 100_000,
            1 <= cells_w <= 1_000_000,
            1 <= cells_h <= 1_000_000,
            span_x <= minimap_size,
            span_y <= minimap_size,
            span_x * cells_w <= minimap_size,
            span_y * cells_h <= minimap_size,
            bx + span_x <= 1_000_000,
            by + span_y <= 1_000_000,
            dy <= span_y,
            forall|x2: int, y2: int|
                0 <= x2 < old(fb).width && 0 <= y2 < old(fb).height
                    && !(bx <= x2 < bx + span_x && by <= y2 < by + span_y)
                    ==> #[trigger] fb.pixel(x2, y2) == old(fb).pixel(x2, y2),
            forall|dx2: int, dy2: int|
                0 <= dx2 < span_x && 0 <= dy2 < dy
                    && bx + dx2 < old(fb).width && by + dy2 < old(fb).height
                    ==> #[trigger] crate::render::block_pixel(*fb, bx as int, by as int,
                            dx2, dy2)
                        == spec_minimap_texel(*tex, cells_w as int, cells_h as int,
                            minimap_size as int, dx2, dy2),
        decreases span_y - dy,
    {
        proof {
            assert(dy * cells_h < span_y * cells_h
                    && dy * cells_h + cells_h <= span_y * cells_h) by (nonlinear_arith)
                requires dy < span_y && cells_h >= 1;
        }
        let ty: usize = sample_index(dy * cells_h, tex.height, minimap_size);
        let mut dx: usize = 0;
        while dx < span_x
            invariant
                fb.wf(),
                fb.width == old(fb).width,
                fb.height == old(fb).height,
                fb.bg() == old(fb).bg(),
                fb.buffer.len() == old(fb).buffer.len(),
                tex.wf(),
                1 <= minimap_size <= 100_000,
                1 <= cells_w <= 1_000_000,
                span_x <= minimap_size,
                span_x * cells_w <= minimap_size,
                bx + span_x <= 1_000_000,
                by + span_y <= 1_000_000,
                dy < span_y,
                cells_h <= 1_000_000,
                ty == (dy as int) * cells_h * (tex.height as int) / (minimap_size as int),
                ty < tex.height,
                dx <= span_x,
                forall|x2: int, y2: int|
                    0 <= x2 < old(fb).width && 0 <= y2 < old(fb).height
                        && !(bx <= x2 < bx + span_x && by <= y2 < by + span_y)
                        ==> #[trigger] fb.pixel(x2, y2) == old(fb).pixel(x2, y2),
                forall|dx2: int, dy2: int|
                    0 <= dx2 < span_x && 0 <= dy2 < dy
                        && bx + dx2 < old(fb).width && by + dy2 < old(fb).height
                        ==> #[trigger] crate::render::block_pixel(*fb, bx as int,
                                by as int, dx2, dy2)
                            == spec_minimap_texel(*tex, cells_w as int, cells_h as int,
                                minimap_size as int, dx2, dy2),
                forall|dx2: int|
                    0 <= dx2 < dx && bx + dx2 < old(fb).width
                        && by + dy < old(fb).height
                        ==> #[trigger] crate::render::block_pixel(*fb, bx as int,
                                by as int, dx2, dy as int)
                            == spec_minimap_texel(*tex, cells_w as int, cells_h as int,
                                minimap_size as int, dx2, dy as int),
            decreases span_x - dx,
        {
            proof {
                assert(dx * cells_w < span_x * cells_w
                        && dx * cells_w + cells_w <= span_x * cells_w) by (nonlinear_arith)
                    requires dx < span_x && cells_w >= 1;
            }
            let ghost head = *fb;
            let tx: usize = sample_index(dx * cells_w, tex.width, minimap_size);
            let c = tex.get_pixel(tx, ty);
            fb.set_current_color(c);
            fb.point(bx + dx, by + dy);
            proof {
                assert forall|x2: int, y2: int|
                    0 <= x2 < old(fb).width && 0 <= y2 < old(fb).height
                        && !(bx <= x2 < bx + span_x && by <= y2 < by + span_y)
                        implies #[trigger] fb.pixel(x2, y2) == old(fb).pixel(x2, y2) by {
                    crate::framebuffer::lemma_row_major_index_in_range(
                        fb.width as int, fb.height as int, x2, y2);
                    if bx + dx < fb.width && by + dy < fb.height {
                        crate::render::lemma_row_major_injective(fb.width as int,
                            x2, y2, bx + dx, by + dy);
                    }
                    assert(head.pixel(x2, y2) == old(fb).pixel(x2, y2));
                }
                assert forall|dx2: int, dy2: int|
                    0 <= dx2 < span_x && 0 <= dy2 < dy
                        && bx + dx2 < old(fb).width && by + dy2 < old(fb).height
                        implies #[trigger] crate::render::block_pixel(*fb, bx as int,
                            by as int, dx2, dy2)
                            == spec_minimap_texel(*tex, cells_w as int, cells_h as int,
                                minimap_size as int, dx2, dy2) by {
                    crate::framebuffer::lemma_row_major_index_in_range(
                        fb.width as int, fb.height as int, bx + dx2, by + dy2);
                    if bx + dx < fb.width && by + dy < fb.height {
                        crate::render::lemma_row_major_injective(fb.width as int,
                            bx + dx2, by + dy2, bx + dx as int, by + dy as int);
                    }
                    assert(crate::render::block_pixel(head, bx as int, by as int,
                        dx2, dy2)
                        == spec_minimap_texel(*tex, cells_w as int, cells_h as int,
                            minimap_size as int, dx2, dy2));
                }
                assert forall|dx2: int|
                    0 <= dx2 < dx + 1 && bx + dx2 < old(fb).width
                        && by + dy < old(fb).height
                        implies #[trigger] crate::render::block_pixel(*fb, bx as int,
                            by as int, dx2, dy as int)
                            == spec_minimap_texel(*tex, cells_w as int, cells_h as int,
                                minimap_size as int, dx2, dy as int) by {
                    crate::framebuffer::lemma_row_major_index_in_range(
                        fb.width as int, fb.height as int, bx + dx2, by + dy as int);
                    if dx2 < dx {
                        if bx + dx < fb.width && by + dy < fb.height {
                            crate::render::lemma_row_major_injective(fb.width as int,
                                bx + dx2, by + dy as int, bx + dx as int, by + dy as int);
                        }
                        assert(crate::render::block_pixel(head, bx as int, by as int,
                            dx2, dy as int)
                            == spec_minimap_texel(*tex, cells_w as int, cells_h as int,
                                minimap_size as int, dx2, dy as int));
                    }
                }
            }
            dx = dx + 1;
        }
        proof {
            assert forall|dx2: int, dy2: int|
                0 <= dx2 < span_x && 0 <= dy2 < dy + 1
                    && bx + dx2 < old(fb).width && by + dy2 < old(fb).height
                    implies #[trigger] crate::render::block_pixel(*fb, bx as int,
                        by as int, dx2, dy2)
                        == spec_minimap_texel(*tex, cells_w as int, cells_h as int,
                            minimap_size as int, dx2, dy2) by {
                if dy2 == dy {
                    assert(crate::render::block_pixel(*fb, bx as int, by as int,
                        dx2, dy as int)
                        == spec_minimap_texel(*tex, cells_w as int, cells_h as int,
                            minimap_size as int, dx2, dy as int));
                }
            }
        }
        dy = dy + 1;
    }
}

} // verus!
