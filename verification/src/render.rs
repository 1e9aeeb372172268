//! The rendering passes: the perspective wall pass and its sky and
//! ground bands, the overhead pass, the billboard sprite pass for the
//! ghosts, and the full-screen title, victory and defeat cards.

use vstd::prelude::*;
use vstd::arithmetic::div_mod::{
    lemma_div_denominator, lemma_div_pos_is_pos, lemma_div_is_ordered,
    lemma_div_multiples_vanish,
};
use crate::color::{Color, spec_blend};
use crate::enemy::Enemy;
use crate::framebuffer::{Framebuffer, lemma_row_major_index_in_range};
use crate::maze::Maze;
use crate::player::Player;
use crate::texture::Texture;
use crate::trig::{FP, TURN, HALF_TURN, spec_sin, spec_cos, atan2_fp, dist_fp};

verus! {

/// The projection-plane distance of the wall pass, in world units.
pub const WALL_PLANE: i64 = 40;

/// The projection-plane distance of the sprite pass, in world units.
pub const SPRITE_PLANE: i64 = 80;

/// Beyond this distance, in world units, an actor is not drawn.
pub const MAX_RENDER_DIST: i64 = 250;

/// Below this fixed-point distance an actor is too close to project.
pub const MIN_SPRITE_DIST: i64 = 500;

/// The three wall textures, keyed by the wall symbols `'+'`, `'-'`
/// and `'|'`.
pub struct TextureSet {
    pub plus: Texture,
    pub minus: Texture,
    pub pipe: Texture,
}

impl TextureSet {
    pub open spec fn wf(self) -> bool {
        self.plus.wf() && self.minus.wf() && self.pipe.wf()
    }

    /// The total mapping from wall symbol to texture slot; an unmapped
    /// symbol (open space) selects none.
    pub open spec fn spec_select(self, c: char) -> Option<Texture> {
        if c == '+' {
            Some(self.plus)
        } else if c == '-' {
            Some(self.minus)
        } else if c == '|' {
            Some(self.pipe)
        } else {
            None
        }
    }

    pub fn select(&self, c: char) -> (r: Option<&Texture>)
        ensures
            match r {
                Some(t) => self.spec_select(c) == Some(*t),
                None => self.spec_select(c) is None,
            },
    {
        if c == '+' {
            Some(&self.plus)
        } else if c == '-' {
            Some(&self.minus)
        } else if c == '|' {
            Some(&self.pipe)
        } else {
            None
        }
    }
}

/// The projected height of a wall slice by similar triangles: half the
/// screen height over the corrected distance, times the projection
/// plane distance. The distance is fixed-point; the result is rounded
/// down to whole pixels.
pub open spec fn spec_wall_height(hh: int, plane: int, dist: int) -> int {
    hh * plane * (FP as int) / dist
}

/// Doubling the corrected distance exactly halves the projected wall
/// height, in the rounded-down integer sense.
pub proof fn lemma_wall_height_halves(hh: int, plane: int, dist: int)
    requires
        0 <= hh,
        0 <= plane,
        1 <= dist,
    ensures
        spec_wall_height(hh, plane, 2 * dist) == spec_wall_height(hh, plane, dist) / 2,
{
    let num = hh * plane * (FP as int);
    assert(num >= 0) by (nonlinear_arith)
        requires num == hh * plane * (FP as int) && hh >= 0 && plane >= 0 && FP == 1000;
    lemma_div_denominator(num, dist, 2);
}

/// Computes the projected wall-slice height for a corrected
/// fixed-point distance.
pub fn wall_height(hh: i64, plane: i64, dist: i64) -> (r: i64)
    requires
        0 <= hh <= 100_000,
        0 <= plane <= 100_000,
        1 <= dist,
    ensures
        r == spec_wall_height(hh as int, plane as int, dist as int),
        0 <= r <= hh * plane * FP,
{
    proof {
        assert(0 <= (hh as int) * (plane as int) * (FP as int) <= 10_000_000_000_000)
            by (nonlinear_arith)
            requires 0 <= hh <= 100_000 && 0 <= plane <= 100_000 && FP == 1000;
        lemma_div_pos_is_pos((hh as int) * (plane as int) * (FP as int), dist as int);
        vstd::arithmetic::div_mod::lemma_div_nonincreasing(
            (hh as int) * (plane as int) * (FP as int), dist as int);
    }
    hh * plane * FP / dist
}

/// The packed color of the sky gradient at row `y` of `hh` rows: a
/// linear blend from black down to a deep night blue.
pub open spec fn spec_sky_color(y: int, hh: int) -> int {
    spec_blend(0, 32, y, hh) * 0x10000 + spec_blend(0, 30, y, hh) * 0x100
        + spec_blend(0, 67, y, hh)
}

/// Fills the full-width band of rows `[y0, y1)` with one color.
pub fn fill_rows(fb: &mut Framebuffer, y0: usize, y1: usize, color: u32)
    requires
        old(fb).wf(),
        y0 <= y1 <= old(fb).height,
    ensures
        final(fb).wf(),
        final(fb).width == old(fb).width,
        final(fb).height == old(fb).height,
        final(fb).bg() == old(fb).bg(),
        final(fb).draw_color() == color,
        final(fb).buffer.len() == old(fb).buffer.len(),
        forall|idx: int| y0 * old(fb).width <= idx < y1 * old(fb).width
            ==> final(fb).buffer[idx] == color,
        forall|idx: int| 0 <= idx < old(fb).buffer.len()
            && !(y0 * old(fb).width <= idx < y1 * old(fb).width)
            ==> final(fb).buffer[idx] == old(fb).buffer[idx],
{
    fb.set_current_color(color);
    let w = fb.width;
    let h = fb.height;
    proof {
        assert((y1 as int) * w <= (h as int) * w) by (nonlinear_arith)
            requires y1 <= h && w >= 0;
    }
    let mut y: usize = y0;
    while y < y1
        invariant
            fb.wf(),
            fb.width == old(fb).width,
            fb.height == old(fb).height,
            fb.bg() == old(fb).bg(),
            fb.draw_color() == color,
            fb.buffer.len() == old(fb).buffer.len(),
            w == fb.width,
            y0 <= y <= y1 <= fb.height,
            forall|idx: int| y0 * w <= idx < y * w ==> fb.buffer[idx] == color,
            forall|idx: int| 0 <= idx < old(fb).buffer.len()
                && !(y0 * w <= idx < y * w)
                ==> fb.buffer[idx] == old(fb).buffer[idx],
        decreases y1 - y,
    {
        let mut x: usize = 0;
        while x < w
            invariant
                fb.wf(),
                fb.width == old(fb).width,
                fb.height == old(fb).height,
                fb.bg() == old(fb).bg(),
                fb.draw_color() == color,
                fb.buffer.len() == old(fb).buffer.len(),
                w == fb.width,
                y0 <= y < y1 <= fb.height,
                x <= w,
                forall|idx: int| y0 * w <= idx < y * w + x ==> fb.buffer[idx] == color,
                forall|idx: int| 0 <= idx < old(fb).buffer.len()
                    && !(y0 * w <= idx < y * w + x)
                    ==> fb.buffer[idx] == old(fb).buffer[idx],
            decreases w - x,
        {
            proof {
                lemma_row_major_index_in_range(w as int, fb.height as int,
                    x as int, y as int);
                assert((y0 as int) * w <= (y as int) * w) by (nonlinear_arith)
                    requires y0 <= y && w >= 0;
            }
            fb.point(x, y);
            x = x + 1;
        }
        proof {
            assert((y + 1) * w == y * w + w) by (nonlinear_arith);
        }
        y = y + 1;
    }
}

/// Paints the sky band: rows `[0, hh)` in the gradient color of their
/// row; every other pixel is left untouched.
pub fn render_sky(fb: &mut Framebuffer, hh: usize)
    requires
        old(fb).wf(),
        1 <= hh <= old(fb).height,
        hh <= 100_000,
    ensures
        final(fb).wf(),
        final(fb).width == old(fb).width,
        final(fb).height == old(fb).height,
        final(fb).bg() == old(fb).bg(),
        final(fb).buffer.len() == old(fb).buffer.len(),
        forall|x: int, y: int| 0 <= x < old(fb).width && 0 <= y < hh
            ==> #[trigger] final(fb).pixel(x, y) == spec_sky_color(y, hh as int),
        forall|idx: int| hh * old(fb).width <= idx < old(fb).buffer.len()
            ==> final(fb).buffer[idx] == old(fb).buffer[idx],
{
    let w = fb.width;
    let ghost wi = w as int;
    let mut y: usize = 0;
    while y < hh
        invariant
            fb.wf(),
            fb.width == old(fb).width,
            fb.height == old(fb).height,
            fb.bg() == old(fb).bg(),
            fb.buffer.len() == old(fb).buffer.len(),
            w == fb.width,
            wi == w as int,
            y <= hh <= fb.height,
            1 <= hh <= 100_000,
            forall|idx: int| 0 <= idx < y * wi
                ==> fb.buffer[idx] == spec_sky_color(idx / wi, hh as int),
            forall|idx: int| y * wi <= idx < old(fb).buffer.len()
                ==> fb.buffer[idx] == old(fb).buffer[idx],
        decreases hh - y,
    {
        let c = Color::gradient_sky(y as u32, hh as u32);
        let hex = c.to_hex();
        fb.set_current_color(hex);
        let mut x: usize = 0;
        while x < w
            invariant
                fb.wf(),
                fb.width == old(fb).width,
                fb.height == old(fb).height,
                fb.bg() == old(fb).bg(),
                fb.buffer.len() == old(fb).buffer.len(),
                w == fb.width,
                wi == w as int,
                y < hh <= fb.height,
                1 <= hh <= 100_000,
                x <= w,
                fb.draw_color() == spec_sky_color(y as int, hh as int),
                forall|idx: int| 0 <= idx < y * wi + x
                    ==> fb.buffer[idx] == spec_sky_color(idx / wi, hh as int),
                forall|idx: int| y * wi + x <= idx < old(fb).buffer.len()
                    ==> fb.buffer[idx] == old(fb).buffer[idx],
            decreases w - x,
        {
            proof {
                lemma_row_major_index_in_range(wi, fb.height as int, x as int, y as int);
                vstd::arithmetic::div_mod::lemma_fundamental_div_mod_converse(
                    y * wi + x, wi, y as int, x as int);
            }
            fb.point(x, y);
            x = x + 1;
        }
        proof {
            assert((y + 1) * wi == y * wi + wi) by (nonlinear_arith);
        }
        y = y + 1;
    }
    proof {
        assert forall|x: int, y: int| 0 <= x < old(fb).width && 0 <= y < hh
            implies #[trigger] fb.pixel(x, y) == spec_sky_color(y, hh as int) by {
            lemma_row_major_below(wi, x, y, 0, hh as int);
            vstd::arithmetic::div_mod::lemma_fundamental_div_mod_converse(
                y * wi + x, wi, y, x);
        }
    }
}

/// A pixel of an earlier row has a strictly smaller row-major index.
proof fn lemma_row_major_below(w: int, x2: int, y2: int, x: int, y: int)
    by (nonlinear_arith)
    requires
        0 <= x2 < w,
        0 <= x,
        y2 < y,
    ensures
        y2 * w + x2 < y * w + x,
{
}

/// The stretched sample a surface position takes from a texture: the
/// nearest-neighbor texel under the independent horizontal and
/// vertical scale factors.
pub open spec fn spec_stretch(tex: Texture, w: int, h: int, x: int, y: int) -> int {
    tex.spec_pixel(x * tex.width as int / w, y * tex.height as int / h)
}

/// Paints the whole surface with the texture stretched to fit: the
/// pixel at `(x, y)` samples the texel at `(x tw / w, y th / h)`.
pub fn draw_fullscreen(fb: &mut Framebuffer, tex: &Texture)
    requires
        old(fb).wf(),
        tex.wf(),
        1 <= old(fb).width <= 100_000,
        1 <= old(fb).height <= 100_000,
    ensures
        final(fb).wf(),
        final(fb).width == old(fb).width,
        final(fb).height == old(fb).height,
        final(fb).bg() == old(fb).bg(),
        final(fb).buffer.len() == old(fb).buffer.len(),
        forall|x: int, y: int| 0 <= x < old(fb).width && 0 <= y < old(fb).height
            ==> #[trigger] final(fb).pixel(x, y)
                == spec_stretch(*tex, old(fb).width as int, old(fb).height as int, x, y),
{
    let w = fb.width;
    let h = fb.height;
    let ghost wi = w as int;
    let mut y: usize = 0;
    while y < h
        invariant
            fb.wf(),
            fb.width == old(fb).width,
            fb.height == old(fb).height,
            fb.bg() == old(fb).bg(),
            fb.buffer.len() == old(fb).buffer.len(),
            tex.wf(),
            w == fb.width,
            h == fb.height,
            wi == w as int,
            1 <= w <= 100_000,
            1 <= h <= 100_000,
            y <= h,
            forall|idx: int| 0 <= idx < y * wi
                ==> fb.buffer[idx]
                    == spec_stretch(*tex, wi, h as int, idx % wi, idx / wi),
        decreases h - y,
    {
        let ty: usize = sample_index(y, tex.height, h);
        let mut x: usize = 0;
        while x < w
            invariant
                fb.wf(),
                fb.width == old(fb).width,
                fb.height == old(fb).height,
                fb.bg() == old(fb).bg(),
                fb.buffer.len() == old(fb).buffer.len(),
                tex.wf(),
                w == fb.width,
                h == fb.height,
                wi == w as int,
                1 <= w <= 100_000,
                1 <= h <= 100_000,
                y < h,
                x <= w,
                ty == (y as int) * tex.height / (h as int),
                ty < tex.height,
                forall|idx: int| 0 <= idx < y * wi + x
                    ==> fb.buffer[idx]
                        == spec_stretch(*tex, wi, h as int, idx % wi, idx / wi),
            decreases w - x,
        {
            let tx: usize = sample_index(x, tex.width, w);
            let cpix = tex.get_pixel(tx, ty);
            fb.set_current_color(cpix);
            proof {
                lemma_row_major_index_in_range(wi, h as int, x as int, y as int);
                vstd::arithmetic::div_mod::lemma_fundamental_div_mod_converse(
                    y * wi + x, wi, y as int, x as int);
            }
            fb.point(x, y);
            x = x + 1;
        }
        proof {
            assert((y + 1) * wi == y * wi + wi) by (nonlinear_arith);
        }
        y = y + 1;
    }
    proof {
        assert forall|x: int, y: int| 0 <= x < old(fb).width && 0 <= y < old(fb).height
            implies #[trigger] fb.pixel(x, y)
                == spec_stretch(*tex, wi, h as int, x, y) by {
            lemma_row_major_below(wi, x, y, 0, h as int);
            vstd::arithmetic::div_mod::lemma_fundamental_div_mod_converse(
                y * wi + x, wi, y, x);
        }
    }
}

/// The nearest-neighbor source index for stretching `extent` samples
/// over `span` positions: `pos * extent / span`, which is in range
/// whenever `pos < span`.
pub fn sample_index(pos: usize, extent: usize, span: usize) -> (r: usize)
    requires
        pos < span,
        1 <= span <= 100_000,
        1 <= extent <= 100_000,
    ensures
        r == (pos as int) * (extent as int) / (span as int),
        r < extent,
{
    proof {
        assert(0 <= (pos as int) * (extent as int)
                && (pos as int) * (extent as int) <= ((span as int) - 1) * (extent as int)
                && ((span as int) - 1) * (extent as int) + extent == (span as int) * (extent as int)
                && (pos as int) * (extent as int) < 10_000_000_000) by (nonlinear_arith)
            requires 0 <= pos < span && 1 <= extent <= 100_000 && span <= 100_000;
        lemma_div_pos_is_pos((pos as int) * (extent as int), span as int);
        lemma_div_is_ordered((pos as int) * (extent as int),
            (span as int) * (extent as int) - 1, span as int);
        lemma_sub_one_div(span as int, extent as int);
    }
    (((pos as u64) * (extent as u64)) / (span as u64)) as usize
}

/// `(s e - 1) / s == e - 1` for positive `s` and `e`: the last
/// position before a full multiple falls in the previous bucket.
pub proof fn lemma_sub_one_div(s: int, e: int)
    requires
        1 <= s,
        1 <= e,
    ensures
        (s * e - 1) / s == e - 1,
{
    assert(s * e - 1 == (e - 1) * s + (s - 1)) by (nonlinear_arith);
    vstd::arithmetic::div_mod::lemma_fundamental_div_mod_converse(
        s * e - 1, s, e - 1, s - 1);
}

/// The on-screen height of a projected vertical slice: the height the
/// given projection plane projects at the given corrected distance,
/// clamped to the surface height.
pub open spec fn spec_stake_height(fbh: int, plane: int, corrected: int) -> int {
    let stake = spec_wall_height(fbh / 2, plane, corrected);
    if stake > fbh {
        fbh
    } else {
        stake
    }
}

/// The first screen row of a projected slice.
pub open spec fn spec_stake_top(fbh: int, plane: int, corrected: int) -> int {
    fbh / 2 - spec_stake_height(fbh, plane, corrected) / 2
}

/// One past the last screen row of a projected slice.
pub open spec fn spec_stake_bottom(fbh: int, plane: int, corrected: int) -> int {
    fbh / 2 + spec_stake_height(fbh, plane, corrected) / 2
}

/// Distinct in-range pixel positions have distinct row-major indices.
pub proof fn lemma_row_major_injective(w: int, x1: int, y1: int, x2: int, y2: int)
    requires
        0 <= x1 < w,
        0 <= x2 < w,
        0 <= y1,
        0 <= y2,
        x1 != x2 || y1 != y2,
    ensures
        y1 * w + x1 != y2 * w + x2,
{
    if y1 == y2 {
    } else if y1 < y2 {
        lemma_row_major_below(w, x1, y1, x2, y2);
    } else {
        lemma_row_major_below(w, x2, y2, x1, y1);
    }
}

/// Draws one textured vertical wall slice in screen column `i`. The
/// corrected fixed-point distance fixes the slice's height by similar
/// triangles; the raw distance picks the horizontal texture coordinate,
/// tiling the texture along the wall. A symbol with no texture mapped
/// (open space) draws nothing.
pub fn render_wall_column(
    fb: &mut Framebuffer,
    i: usize,
    distance: i64,
    corrected: i64,
    impact: char,
    textures: &TextureSet,
    scale_factor: usize,
) -> (drawn: bool)
    requires
        old(fb).wf(),
        old(fb).width <= 100_000,
        old(fb).height <= 100_000,
        i < old(fb).width,
        textures.wf(),
        0 <= distance,
        1 <= corrected,
        1 <= scale_factor,
        scale_factor <= textures.plus.width,
        scale_factor <= textures.plus.height,
        scale_factor <= textures.minus.width,
        scale_factor <= textures.minus.height,
        scale_factor <= textures.pipe.width,
        scale_factor <= textures.pipe.height,
    ensures
        final(fb).wf(),
        final(fb).width == old(fb).width,
        final(fb).height == old(fb).height,
        final(fb).bg() == old(fb).bg(),
        final(fb).buffer.len() == old(fb).buffer.len(),
        forall|x: int, y: int|
            0 <= x < old(fb).width && 0 <= y < old(fb).height && x != i
                ==> #[trigger] final(fb).pixel(x, y) == old(fb).pixel(x, y),
        textures.spec_select(impact) is None ==> *final(fb) == *old(fb),
        drawn <==> textures.spec_select(impact) is Some,
        // Above and below the slice's vertical span the column is
        // untouched.
        forall|y: int|
            0 <= y < old(fb).height
                && !(spec_stake_top(old(fb).height as int, WALL_PLANE as int,
                        corrected as int) <= y
                    < spec_stake_bottom(old(fb).height as int, WALL_PLANE as int,
                        corrected as int))
                ==> #[trigger] final(fb).pixel(i as int, y) == old(fb).pixel(i as int, y),
        // Within the slice's vertical span, each pixel takes the texel
        // whose column the raw distance picks, tiling the texture along
        // the wall, and whose row interpolates linearly over the span.
        textures.spec_select(impact) matches Some(tex) ==> forall|y: int|
            spec_stake_top(old(fb).height as int, WALL_PLANE as int, corrected as int) <= y
                < spec_stake_bottom(old(fb).height as int, WALL_PLANE as int,
                    corrected as int)
                ==> #[trigger] final(fb).pixel(i as int, y)
                    == tex.spec_pixel(
                        (distance as int) % (tex.width as int / scale_factor as int),
                        (y - spec_stake_top(old(fb).height as int, WALL_PLANE as int,
                                corrected as int))
                            * (tex.height as int / scale_factor as int)
                            / (spec_stake_bottom(old(fb).height as int, WALL_PLANE as int,
                                    corrected as int)
                                - spec_stake_top(old(fb).height as int, WALL_PLANE as int,
                                    corrected as int))),
{
    let tex: &Texture = match textures.select(impact) {
        Some(t) => t,
        None => {
            return false;
        },
    };
    let tw_s: usize = tex.width / scale_factor;
    let th_s: usize = tex.height / scale_factor;
    proof {
        vstd::arithmetic::div_mod::lemma_div_pos_is_pos(tex.width as int,
            scale_factor as int);
        vstd::arithmetic::div_mod::lemma_div_pos_is_pos(tex.height as int,
            scale_factor as int);
        vstd::arithmetic::div_mod::lemma_div_is_ordered(scale_factor as int,
            tex.width as int, scale_factor as int);
        vstd::arithmetic::div_mod::lemma_div_is_ordered(scale_factor as int,
            tex.height as int, scale_factor as int);
        vstd::arithmetic::div_mod::lemma_div_by_self(scale_factor as int);
        vstd::arithmetic::div_mod::lemma_div_nonincreasing(tex.width as int,
            scale_factor as int);
        vstd::arithmetic::div_mod::lemma_div_nonincreasing(tex.height as int,
            scale_factor as int);
        vstd::arithmetic::div_mod::lemma_mod_bound(distance as int, tw_s as int);
    }
    let texture_x: usize = (distance % (tw_s as i64)) as usize;
    let hh: usize = fb.height / 2;
    let stake: i64 = wall_height(hh as i64, WALL_PLANE, corrected);
    let stake: usize = if stake > fb.height as i64 {
        fb.height
    } else {
        stake as usize
    };
    proof {
        assert(stake == spec_stake_height(fb.height as int, WALL_PLANE as int,
            corrected as int));
    }
    let top: usize = hh - stake / 2;
    let bottom: usize = hh + stake / 2;
    let span: usize = bottom - top;
    let mut y: usize = top;
    while y < bottom
        invariant
            fb.wf(),
            fb.width == old(fb).width,
            fb.height == old(fb).height,
            fb.bg() == old(fb).bg(),
            fb.buffer.len() == old(fb).buffer.len(),
            tex.wf(),
            i < fb.width <= 100_000,
            fb.height <= 100_000,
            top <= y <= bottom,
            bottom <= fb.height,
            span == bottom - top,
            1 <= th_s <= tex.height,
            1 <= tw_s <= tex.width,
            tw_s == tex.width as int / scale_factor as int,
            th_s == tex.height as int / scale_factor as int,
            texture_x < tex.width,
            texture_x == (distance as int) % (tw_s as int),
            top == spec_stake_top(old(fb).height as int, WALL_PLANE as int,
                corrected as int),
            bottom == spec_stake_bottom(old(fb).height as int, WALL_PLANE as int,
                corrected as int),
            forall|x2: int, y2: int|
                0 <= x2 < old(fb).width && 0 <= y2 < old(fb).height && x2 != i
                    ==> #[trigger] fb.pixel(x2, y2) == old(fb).pixel(x2, y2),
            forall|y2: int| 0 <= y2 < old(fb).height && !(top <= y2 < y)
                ==> #[trigger] fb.pixel(i as int, y2) == old(fb).pixel(i as int, y2),
            forall|y2: int| top <= y2 < y
                ==> #[trigger] fb.pixel(i as int, y2)
                    == tex.spec_pixel(texture_x as int,
                        (y2 - top) * (th_s as int) / (span as int)),
        decreases bottom - y,
    {
        let ghost head = *fb;
        let ty: usize = sample_index(y - top, th_s, span);
        let c = tex.get_pixel(texture_x, ty);
        fb.set_current_color(c);
        fb.point(i, y);
        proof {
            lemma_row_major_index_in_range(fb.width as int, fb.height as int,
                i as int, y as int);
            assert forall|x2: int, y2: int|
                0 <= x2 < old(fb).width && 0 <= y2 < old(fb).height && x2 != i
                    implies #[trigger] fb.pixel(x2, y2) == old(fb).pixel(x2, y2) by {
                lemma_row_major_injective(fb.width as int, x2, y2, i as int, y as int);
                lemma_row_major_index_in_range(fb.width as int, fb.height as int, x2, y2);
                assert(head.pixel(x2, y2) == old(fb).pixel(x2, y2));
            }
            assert forall|y2: int| top <= y2 < y + 1
                    implies #[trigger] fb.pixel(i as int, y2)
                        == tex.spec_pixel(texture_x as int,
                            (y2 - top) * (th_s as int) / (span as int)) by {
                lemma_row_major_index_in_range(fb.width as int, fb.height as int,
                    i as int, y2);
                if y2 < y {
                    lemma_row_major_injective(fb.width as int, i as int, y2,
                        i as int, y as int);
                    assert(head.pixel(i as int, y2)
                        == tex.spec_pixel(texture_x as int,
                            (y2 - top) * (th_s as int) / (span as int)));
                }
            }
            assert forall|y2: int| 0 <= y2 < old(fb).height && !(top <= y2 < y + 1)
                    implies #[trigger] fb.pixel(i as int, y2)
                        == old(fb).pixel(i as int, y2) by {
                lemma_row_major_index_in_range(fb.width as int, fb.height as int,
                    i as int, y2);
                lemma_row_major_injective(fb.width as int, i as int, y2,
                    i as int, y as int);
                assert(head.pixel(i as int, y2) == old(fb).pixel(i as int, y2));
            }
        }
        y = y + 1;
    }
    true
}

/// The relative bearing of a target angle from a heading, folded into
/// `[-HALF_TURN, HALF_TURN)`, for angles within one turn of each other.
pub open spec fn spec_rel_angle(target: int, heading: int) -> int {
    let r = target - heading;
    if r < -HALF_TURN {
        r + TURN
    } else if r >= HALF_TURN {
        r - TURN
    } else {
        r
    }
}

/// The actor's fixed-point distance from the viewpoint, rounded down.
pub open spec fn spec_enemy_dist(player: Player, enemy: Enemy) -> int {
    crate::trig::spec_isqrt(enemy.dist_sq(player.x as int, player.y as int))
}

/// Whether the sprite pass draws this actor: within the render
/// distance band, inside the half field of view, and with no wall hit
/// strictly nearer along the actor's angle.
pub open spec fn spec_sprite_visible(m: Maze, player: Player, enemy: Enemy, bs: int) -> bool {
    let sq = enemy.dist_sq(player.x as int, player.y as int);
    &&& sq < (MAX_RENDER_DIST * FP + 1) * (MAX_RENDER_DIST * FP + 1)
    &&& sq >= (MIN_SPRITE_DIST + 1) * (MIN_SPRITE_DIST + 1)
    &&& spec_in_fov(player, enemy)
    &&& forall|d: int|
            0 <= d && crate::raycaster::is_first_hit(m, player.x as int, player.y as int,
                spec_cos(spec_enemy_angle(player, enemy)),
                spec_sin(spec_enemy_angle(player, enemy)), bs, d)
            ==> (d * FP + 1) * (d * FP + 1) > sq
}

/// The first screen row of the actor's billboard.
pub open spec fn spec_sprite_top(player: Player, enemy: Enemy, h: int) -> int {
    spec_stake_top(h, SPRITE_PLANE as int, spec_enemy_dist(player, enemy))
}

/// One past the last screen row of the actor's billboard.
pub open spec fn spec_sprite_bottom(player: Player, enemy: Enemy, h: int) -> int {
    spec_stake_bottom(h, SPRITE_PLANE as int, spec_enemy_dist(player, enemy))
}

/// The leftmost screen column of the billboard: half the width plus
/// the bearing's share of the width, clamped to the surface.
pub open spec fn spec_sprite_x(player: Player, enemy: Enemy, w: int) -> int {
    let rel = spec_rel_angle(spec_enemy_angle(player, enemy), player.a as int);
    let fov = player.fov as int;
    let raw = if rel >= 0 {
        w / 2 + rel * w / fov
    } else {
        w / 2 - (-rel) * w / fov
    };
    if raw < 0 {
        0int
    } else if raw > w {
        w
    } else {
        raw
    }
}

/// The texture row the billboard samples at screen row `y`.
pub open spec fn spec_sprite_texel_y(
    player: Player, enemy: Enemy, h: int, gh: int, y: int,
) -> int {
    let top = spec_sprite_top(player, enemy, h);
    let bottom = spec_sprite_bottom(player, enemy, h);
    (y - top) * gh / (bottom - top)
}

/// Draws one actor as a billboard sprite. The actor is skipped — and
/// the surface left untouched — when it is farther than the maximum
/// render distance, nearer than the minimum, outside the half field of
/// view, or occluded: when the wall ray cast toward the actor's angle
/// stops strictly nearer than the actor. Otherwise the sprite is
/// projected like a wall slice, at the sprite projection plane, and
/// drawn texel by texel, skipping fully transparent samples and
/// columns past the right screen edge.
pub fn render_enemy(
    fb: &mut Framebuffer,
    maze: &Maze,
    player: &Player,
    enemy: &Enemy,
    ghost_texture: &Texture,
    block_size: usize,
) -> (drawn: bool)
    requires
        old(fb).wf(),
        2 <= old(fb).width <= 100_000,
        2 <= old(fb).height <= 100_000,
        maze.wf(),
        maze.enclosed(),
        1 <= block_size,
        maze.spec_width() * block_size <= 1_000_000,
        maze.spec_height() * block_size <= 1_000_000,
        player.wf(),
        player.in_bounds(*maze, block_size as int),
        ghost_texture.wf(),
        -1_000_000_000 <= enemy.x <= 1_000_000_000,
        -1_000_000_000 <= enemy.y <= 1_000_000_000,
    ensures
        final(fb).wf(),
        final(fb).width == old(fb).width,
        final(fb).height == old(fb).height,
        final(fb).bg() == old(fb).bg(),
        final(fb).buffer.len() == old(fb).buffer.len(),
        // An actor farther than the maximum render distance leaves the
        // surface untouched.
        enemy.dist_sq(player.x as int, player.y as int)
            >= (MAX_RENDER_DIST * FP + 1) * (MAX_RENDER_DIST * FP + 1)
            ==> *final(fb) == *old(fb),
        // So does one nearer than the minimum projection distance,
        enemy.dist_sq(player.x as int, player.y as int)
            < (MIN_SPRITE_DIST + 1) * (MIN_SPRITE_DIST + 1)
            ==> *final(fb) == *old(fb),
        // and one outside the half field of view,
        !spec_in_fov(*player, *enemy) ==> *final(fb) == *old(fb),
        // and an occluded one: if the wall ray toward the actor's angle
        // first hits at a distance strictly below the actor's, nothing
        // is drawn.
        forall|d: int|
            0 <= d
                && crate::raycaster::is_first_hit(*maze, player.x as int, player.y as int,
                    spec_cos(spec_enemy_angle(*player, *enemy)),
                    spec_sin(spec_enemy_angle(*player, *enemy)),
                    block_size as int, d)
                && (d * FP + 1) * (d * FP + 1)
                    <= enemy.dist_sq(player.x as int, player.y as int)
                ==> *final(fb) == *old(fb),
        // A skipped actor leaves the surface untouched, and the sprite
        // is drawn exactly when the actor is within the distance band,
        // inside the half field of view, and not occluded.
        !drawn ==> *final(fb) == *old(fb),
        drawn <==> spec_sprite_visible(*maze, *player, *enemy, block_size as int),
        // A drawn sprite changes pixels only inside its screen quad,
        drawn ==> forall|x2: int, y2: int|
            0 <= x2 < old(fb).width && 0 <= y2 < old(fb).height
                && #[trigger] final(fb).pixel(x2, y2) != old(fb).pixel(x2, y2)
                ==> spec_sprite_x(*player, *enemy, old(fb).width as int) <= x2
                        < spec_sprite_x(*player, *enemy, old(fb).width as int)
                            + ghost_texture.width
                    && spec_sprite_top(*player, *enemy, old(fb).height as int) <= y2
                        < spec_sprite_bottom(*player, *enemy, old(fb).height as int),
        // and writes every on-screen texel of the quad whose alpha byte
        // is nonzero with that texel's color.
        drawn ==> forall|xo: int, y: int|
            0 <= xo < ghost_texture.width
                && spec_sprite_top(*player, *enemy, old(fb).height as int) <= y
                    < spec_sprite_bottom(*player, *enemy, old(fb).height as int)
                && spec_sprite_x(*player, *enemy, old(fb).width as int) + xo
                    < old(fb).width
                && #[trigger] ghost_texture.spec_alpha(xo,
                        spec_sprite_texel_y(*player, *enemy, old(fb).height as int,
                            ghost_texture.height as int, y)) != 0
                ==> final(fb).pixel(
                        spec_sprite_x(*player, *enemy, old(fb).width as int) + xo, y)
                    == ghost_texture.spec_pixel(xo,
                        spec_sprite_texel_y(*player, *enemy, old(fb).height as int,
                            ghost_texture.height as int, y)),
{
    let ddx: i64 = enemy.x - player.x;
    let ddy: i64 = enemy.y - player.y;
    let dist: u64 = dist_fp(ddx, ddy);
    let ghost sq = enemy.dist_sq(player.x as int, player.y as int);
    proof {
        lemma_sqrt_compare(dist as int, sq, MAX_RENDER_DIST * FP);
        lemma_sqrt_compare(dist as int, sq, MIN_SPRITE_DIST as int);
    }
    if dist > (MAX_RENDER_DIST * FP) as u64 {
        return false;
    }
    if dist <= MIN_SPRITE_DIST as u64 {
        return false;
    }
    let enemy_angle: i64 = atan2_fp(ddy, ddx);
    let rel: i64 = rel_angle(enemy_angle, player.a);
    let half_fov: i64 = player.fov / 2;
    let rel_abs: i64 = if rel < 0 { -rel } else { rel };
    if rel_abs >= half_fov {
        return false;
    }
    let intersect = crate::raycaster::cast_ray(fb, maze, player, enemy_angle,
        block_size, false);
    proof {
        assert(0 <= (intersect.distance as int) * (FP as int) <= 2_100_000_000_000)
            by (nonlinear_arith)
            requires 0 <= intersect.distance <= 2_100_000_000 && FP == 1000;
    }
    if intersect.distance * FP < dist as i64 {
        proof {
            let d0 = intersect.distance as int;
            lemma_sqrt_compare(dist as int, sq, d0 * (FP as int));
            assert forall|d: int|
                0 <= d
                    && crate::raycaster::is_first_hit(*maze, player.x as int,
                        player.y as int,
                        spec_cos(spec_enemy_angle(*player, *enemy)),
                        spec_sin(spec_enemy_angle(*player, *enemy)),
                        block_size as int, d)
                    && (d * FP + 1) * (d * FP + 1) <= sq
                    implies d == d0 by {
                crate::raycaster::lemma_first_hit_unique(*maze, player.x as int,
                    player.y as int,
                    spec_cos(spec_enemy_angle(*player, *enemy)),
                    spec_sin(spec_enemy_angle(*player, *enemy)),
                    block_size as int, d, d0);
            }
            assert(crate::raycaster::is_first_hit(*maze, player.x as int,
                player.y as int,
                spec_cos(spec_enemy_angle(*player, *enemy)),
                spec_sin(spec_enemy_angle(*player, *enemy)),
                block_size as int, d0) && (d0 * FP + 1) * (d0 * FP + 1) <= sq);
        }
        return false;
    }
    proof {
        let d0 = intersect.distance as int;
        lemma_sqrt_compare(dist as int, sq, d0 * (FP as int));
        assert forall|d: int|
            0 <= d
                && crate::raycaster::is_first_hit(*maze, player.x as int, player.y as int,
                    spec_cos(spec_enemy_angle(*player, *enemy)),
                    spec_sin(spec_enemy_angle(*player, *enemy)),
                    block_size as int, d)
                implies !((d * FP + 1) * (d * FP + 1) <= sq) by {
            crate::raycaster::lemma_first_hit_unique(*maze, player.x as int,
                player.y as int,
                spec_cos(spec_enemy_angle(*player, *enemy)),
                spec_sin(spec_enemy_angle(*player, *enemy)),
                block_size as int, d, d0);
        }
    }
    let hh: usize = fb.height / 2;
    let eh: i64 = wall_height(hh as i64, SPRITE_PLANE, dist as i64);
    let eh: usize = if eh > fb.height as i64 {
        fb.height
    } else {
        eh as usize
    };
    let etop: usize = hh - eh / 2;
    let ebottom: usize = hh + eh / 2;
    let span: usize = ebottom - etop;
    let w = fb.width;
    proof {
        assert(dist == spec_enemy_dist(*player, *enemy));
        assert(etop == spec_sprite_top(*player, *enemy, fb.height as int));
        assert(ebottom == spec_sprite_bottom(*player, *enemy, fb.height as int));
        assert(-200_000_000 <= (rel as int) * (w as int) <= 200_000_000
                && -200_000_000 <= (-(rel as int)) * (w as int) <= 200_000_000)
            by (nonlinear_arith)
            requires -1800 <= rel <= 1800 && 0 <= w <= 100_000;
    }
    let spos_raw: i64 = if rel >= 0 {
        (w as i64) / 2 + rel * (w as i64) / player.fov
    } else {
        (w as i64) / 2 - (-rel) * (w as i64) / player.fov
    };
    let spos: usize = if spos_raw < 0 {
        0
    } else if spos_raw > w as i64 {
        w
    } else {
        spos_raw as usize
    };
    proof {
        assert(spos == spec_sprite_x(*player, *enemy, w as int));
    }
    let gw: usize = ghost_texture.width;
    let gh: usize = ghost_texture.height;
    let mut y: usize = etop;
    while y < ebottom
        invariant
            fb.wf(),
            fb.width == old(fb).width,
            fb.height == old(fb).height,
            fb.bg() == old(fb).bg(),
            fb.buffer.len() == old(fb).buffer.len(),
            ghost_texture.wf(),
            w == fb.width <= 100_000,
            fb.height <= 100_000,
            etop <= y <= ebottom,
            ebottom <= fb.height,
            span == ebottom - etop,
            spos <= w,
            gw == ghost_texture.width,
            gh == ghost_texture.height,
            etop == spec_sprite_top(*player, *enemy, old(fb).height as int),
            ebottom == spec_sprite_bottom(*player, *enemy, old(fb).height as int),
            spos == spec_sprite_x(*player, *enemy, old(fb).width as int),
            forall|x2: int, y2: int|
                0 <= x2 < old(fb).width && 0 <= y2 < old(fb).height
                    && #[trigger] fb.pixel(x2, y2) != old(fb).pixel(x2, y2)
                    ==> spos <= x2 < spos + gw && etop <= y2 < ebottom,
            forall|xo2: int, y2: int|
                0 <= xo2 < gw && etop <= y2 < y && spos + xo2 < old(fb).width
                    && #[trigger] ghost_texture.spec_alpha(xo2,
                            spec_sprite_texel_y(*player, *enemy, old(fb).height as int,
                                gh as int, y2)) != 0
                    ==> fb.pixel(spos + xo2, y2)
                        == ghost_texture.spec_pixel(xo2,
                            spec_sprite_texel_y(*player, *enemy, old(fb).height as int,
                                gh as int, y2)),
        decreases ebottom - y,
    {
        let ty: usize = sample_index(y - etop, gh, span);
        proof {
            assert(ty == spec_sprite_texel_y(*player, *enemy, old(fb).height as int,
                gh as int, y as int));
        }
        let mut xo: usize = 0;
        while xo < gw
            invariant
                fb.wf(),
                fb.width == old(fb).width,
                fb.height == old(fb).height,
                fb.bg() == old(fb).bg(),
                fb.buffer.len() == old(fb).buffer.len(),
                ghost_texture.wf(),
                w == fb.width <= 100_000,
                fb.height <= 100_000,
                etop <= y < ebottom,
                ebottom <= fb.height,
                span == ebottom - etop,
                spos <= w,
                gw == ghost_texture.width,
                gh == ghost_texture.height,
                ty < gh,
                xo <= gw,
                etop == spec_sprite_top(*player, *enemy, old(fb).height as int),
                ebottom == spec_sprite_bottom(*player, *enemy, old(fb).height as int),
                spos == spec_sprite_x(*player, *enemy, old(fb).width as int),
                ty == spec_sprite_texel_y(*player, *enemy, old(fb).height as int,
                    gh as int, y as int),
                forall|x2: int, y2: int|
                    0 <= x2 < old(fb).width && 0 <= y2 < old(fb).height
                        && #[trigger] fb.pixel(x2, y2) != old(fb).pixel(x2, y2)
                        ==> spos <= x2 < spos + gw && etop <= y2 < ebottom,
                forall|xo2: int, y2: int|
                    0 <= xo2 < gw && etop <= y2 < y && spos + xo2 < old(fb).width
                        && #[trigger] ghost_texture.spec_alpha(xo2,
                                spec_sprite_texel_y(*player, *enemy,
                                    old(fb).height as int, gh as int, y2)) != 0
                        ==> fb.pixel(spos + xo2, y2)
                            == ghost_texture.spec_pixel(xo2,
                                spec_sprite_texel_y(*player, *enemy,
                                    old(fb).height as int, gh as int, y2)),
                forall|xo2: int|
                    0 <= xo2 < xo && spos + xo2 < old(fb).width
                        && #[trigger] ghost_texture.spec_alpha(xo2,
                                spec_sprite_texel_y(*player, *enemy,
                                    old(fb).height as int, gh as int, y as int)) != 0
                        ==> fb.pixel(spos + xo2, y as int)
                            == ghost_texture.spec_pixel(xo2,
                                spec_sprite_texel_y(*player, *enemy,
                                    old(fb).height as int, gh as int, y as int)),
            decreases gw - xo,
        {
            let x: usize = spos + xo;
            let lit: bool = if x < w {
                ghost_texture.alpha(xo, ty) > 0
            } else {
                false
            };
            let ghost head = *fb;
            if lit {
                let c = ghost_texture.get_pixel(xo, ty);
                fb.set_current_color(c);
                fb.point(x, y);
            }
            proof {
                assert forall|x2: int, y2: int|
                    0 <= x2 < old(fb).width && 0 <= y2 < old(fb).height
                        && #[trigger] fb.pixel(x2, y2) != old(fb).pixel(x2, y2)
                        implies spos <= x2 < spos + gw && etop <= y2 < ebottom by {
                    if !(x2 == x && y2 == y) {
                        crate::framebuffer::lemma_row_major_index_in_range(
                            fb.width as int, fb.height as int, x2, y2);
                        if lit {
                            lemma_row_major_injective(fb.width as int, x2, y2,
                                x as int, y as int);
                        }
                        assert(fb.pixel(x2, y2) == head.pixel(x2, y2));
                    }
                }
                assert forall|xo2: int, y2: int|
                    0 <= xo2 < gw && etop <= y2 < y && spos + xo2 < old(fb).width
                        && #[trigger] ghost_texture.spec_alpha(xo2,
                                spec_sprite_texel_y(*player, *enemy,
                                    old(fb).height as int, gh as int, y2)) != 0
                        implies fb.pixel(spos + xo2, y2)
                            == ghost_texture.spec_pixel(xo2,
                                spec_sprite_texel_y(*player, *enemy,
                                    old(fb).height as int, gh as int, y2)) by {
                    crate::framebuffer::lemma_row_major_index_in_range(
                        fb.width as int, fb.height as int, spos + xo2, y2);
                    if lit {
                        lemma_row_major_injective(fb.width as int, spos + xo2, y2,
                            x as int, y as int);
                    }
                    assert(head.pixel(spos + xo2, y2)
                        == ghost_texture.spec_pixel(xo2,
                            spec_sprite_texel_y(*player, *enemy,
                                old(fb).height as int, gh as int, y2)));
                }
                assert forall|xo2: int|
                    0 <= xo2 < xo + 1 && spos + xo2 < old(fb).width
                        && #[trigger] ghost_texture.spec_alpha(xo2,
                                spec_sprite_texel_y(*player, *enemy,
                                    old(fb).height as int, gh as int, y as int)) != 0
                        implies fb.pixel(spos + xo2, y as int)
                            == ghost_texture.spec_pixel(xo2,
                                spec_sprite_texel_y(*player, *enemy,
                                    old(fb).height as int, gh as int, y as int)) by {
                    crate::framebuffer::lemma_row_major_index_in_range(
                        fb.width as int, fb.height as int, spos + xo2, y as int);
                    if xo2 < xo {
                        if lit {
                            lemma_row_major_injective(fb.width as int, spos + xo2,
                                y as int, x as int, y as int);
                        }
                        assert(head.pixel(spos + xo2, y as int)
                            == ghost_texture.spec_pixel(xo2,
                                spec_sprite_texel_y(*player, *enemy,
                                    old(fb).height as int, gh as int, y as int)));
                    }
                }
            }
            xo = xo + 1;
        }
        proof {
            assert forall|xo2: int, y2: int|
                0 <= xo2 < gw && etop <= y2 < y + 1 && spos + xo2 < old(fb).width
                    && #[trigger] ghost_texture.spec_alpha(xo2,
                            spec_sprite_texel_y(*player, *enemy,
                                old(fb).height as int, gh as int, y2)) != 0
                    implies fb.pixel(spos + xo2, y2)
                        == ghost_texture.spec_pixel(xo2,
                            spec_sprite_texel_y(*player, *enemy,
                                old(fb).height as int, gh as int, y2)) by {
                if y2 == y {
                    assert(fb.pixel(spos + xo2, y as int)
                        == ghost_texture.spec_pixel(xo2,
                            spec_sprite_texel_y(*player, *enemy,
                                old(fb).height as int, gh as int, y as int)));
                }
            }
        }
        y = y + 1;
    }
    true
}

/// Whether the actor lies within the viewpoint's half field of view:
/// the folded bearing of its angle from the heading is strictly below
/// half the field of view in magnitude.
pub open spec fn spec_in_fov(player: Player, enemy: Enemy) -> bool {
    let rel = spec_rel_angle(spec_enemy_angle(player, enemy), player.a as int);
    let half = (player.fov as int) / 2;
    -half < rel < half
}

/// The world angle from the viewpoint to the actor, in angle units.
pub open spec fn spec_enemy_angle(player: Player, enemy: Enemy) -> int {
    crate::trig::spec_atan2(enemy.y - player.y, enemy.x - player.x)
}

/// Folds the difference of two angles in `[0, TURN)` into
/// `[-HALF_TURN, HALF_TURN)`.
pub fn rel_angle(target: i64, heading: i64) -> (r: i64)
    requires
        0 <= target < TURN,
        0 <= heading < TURN,
    ensures
        r == spec_rel_angle(target as int, heading as int),
        -HALF_TURN <= r < HALF_TURN,
{
    let d = target - heading;
    if d < -HALF_TURN {
        d + TURN
    } else if d >= HALF_TURN {
        d - TURN
    } else {
        d
    }
}

/// Comparisons of a rounded-down square root against a bound transfer
/// to the squared quantity: the root exceeds `b` exactly when the
/// square reaches `(b + 1)^2`.
pub proof fn lemma_sqrt_compare(r: int, sq: int, b: int)
    requires
        0 <= r,
        0 <= b,
        r * r <= sq < (r + 1) * (r + 1),
    ensures
        r > b <==> sq >= (b + 1) * (b + 1),
        r < b <==> sq < b * b,
{
    if r > b {
        assert((b + 1) * (b + 1) <= r * r) by (nonlinear_arith)
            requires 0 <= b && b + 1 <= r;
    } else {
        assert(r * r <= b * b && (r + 1) * (r + 1) <= (b + 1) * (b + 1))
            by (nonlinear_arith)
            requires 0 <= r <= b;
    }
    if r < b {
        assert((r + 1) * (r + 1) <= b * b) by (nonlinear_arith)
            requires 0 <= r && r + 1 <= b;
    } else {
        assert(b * b <= r * r) by (nonlinear_arith)
            requires 0 <= b <= r;
    }
}

/// The title card: the start-screen texture stretched over the whole
/// surface.
pub fn render_start_screen(fb: &mut Framebuffer, start_texture: &Texture)
    requires
        old(fb).wf(),
        start_texture.wf(),
        1 <= old(fb).width <= 100_000,
        1 <= old(fb).height <= 100_000,
    ensures
        final(fb).wf(),
        final(fb).width == old(fb).width,
        final(fb).height == old(fb).height,
        final(fb).buffer.len() == old(fb).buffer.len(),
        forall|x: int, y: int| 0 <= x < old(fb).width && 0 <= y < old(fb).height
            ==> #[trigger] final(fb).pixel(x, y)
                == spec_stretch(*start_texture, old(fb).width as int, old(fb).height as int, x, y),
{
    draw_fullscreen(fb, start_texture);
}

/// The victory card, stretched over the whole surface.
pub fn render_victory_screen(fb: &mut Framebuffer, victory_texture: &Texture)
    requires
        old(fb).wf(),
        victory_texture.wf(),
        1 <= old(fb).width <= 100_000,
        1 <= old(fb).height <= 100_000,
    ensures
        final(fb).wf(),
        final(fb).width == old(fb).width,
        final(fb).height == old(fb).height,
        final(fb).buffer.len() == old(fb).buffer.len(),
        forall|x: int, y: int| 0 <= x < old(fb).width && 0 <= y < old(fb).height
            ==> #[trigger] final(fb).pixel(x, y)
                == spec_stretch(*victory_texture, old(fb).width as int, old(fb).height as int, x, y),
{
    draw_fullscreen(fb, victory_texture);
}

/// The defeat card, stretched over the whole surface.
pub fn render_defeat_screen(fb: &mut Framebuffer, defeat_texture: &Texture)
    requires
        old(fb).wf(),
        defeat_texture.wf(),
        1 <= old(fb).width <= 100_000,
        1 <= old(fb).height <= 100_000,
    ensures
        final(fb).wf(),
        final(fb).width == old(fb).width,
        final(fb).height == old(fb).height,
        final(fb).buffer.len() == old(fb).buffer.len(),
        forall|x: int, y: int| 0 <= x < old(fb).width && 0 <= y < old(fb).height
            ==> #[trigger] final(fb).pixel(x, y)
                == spec_stretch(*defeat_texture, old(fb).width as int, old(fb).height as int, x, y),
{
    draw_fullscreen(fb, defeat_texture);
}


/// Fills a rectangle with one flat color, clipped to the surface:
/// every rectangle pixel on the surface takes the color, and pixels
/// outside the rectangle are untouched.
pub fn fill_rect(
    fb: &mut Framebuffer,
    xo: usize,
    yo: usize,
    rw: usize,
    rh: usize,
    color: u32,
)
    requires
        old(fb).wf(),
        old(fb).width <= 100_000,
        old(fb).height <= 100_000,
        xo + rw <= 1_000_000,
        yo + rh <= 1_000_000,
    ensures
        final(fb).wf(),
        final(fb).width == old(fb).width,
        final(fb).height == old(fb).height,
        final(fb).bg() == old(fb).bg(),
        final(fb).draw_color() == color,
        final(fb).buffer.len() == old(fb).buffer.len(),
        forall|x2: int, y2: int|
            0 <= x2 < old(fb).width && 0 <= y2 < old(fb).height
                && !(xo <= x2 < xo + rw && yo <= y2 < yo + rh)
                ==> #[trigger] final(fb).pixel(x2, y2) == old(fb).pixel(x2, y2),
        forall|dx2: int, dy2: int|
            0 <= dx2 < rw && 0 <= dy2 < rh
                && xo + dx2 < old(fb).width && yo + dy2 < old(fb).height
                ==> #[trigger] block_pixel(*final(fb), xo as int, yo as int, dx2, dy2)
                    == color,
{
    fb.set_current_color(color);
    let mut dy: usize = 0;
    while dy < rh
        invariant
            fb.wf(),
            fb.width == old(fb).width,
            fb.height == old(fb).height,
            fb.bg() == old(fb).bg(),
            fb.draw_color() == color,
            fb.buffer.len() == old(fb).buffer.len(),
            fb.width <= 100_000,
            fb.height <= 100_000,
            xo + rw <= 1_000_000,
            yo + rh <= 1_000_000,
            dy <= rh,
            forall|x2: int, y2: int|
                0 <= x2 < old(fb).width && 0 <= y2 < old(fb).height
                    && !(xo <= x2 < xo + rw && yo <= y2 < yo + rh)
                    ==> #[trigger] fb.pixel(x2, y2) == old(fb).pixel(x2, y2),
            forall|dx2: int, dy2: int|
                0 <= dx2 < rw && 0 <= dy2 < dy
                    && xo + dx2 < old(fb).width && yo + dy2 < old(fb).height
                    ==> #[trigger] block_pixel(*fb, xo as int, yo as int, dx2, dy2)
                        == color,
        decreases rh - dy,
    {
        let mut dx: usize = 0;
        while dx < rw
            invariant
                fb.wf(),
                fb.width == old(fb).width,
                fb.height == old(fb).height,
                fb.bg() == old(fb).bg(),
                fb.draw_color() == color,
                fb.buffer.len() == old(fb).buffer.len(),
                fb.width <= 100_000,
                fb.height <= 100_000,
                xo + rw <= 1_000_000,
                yo + rh <= 1_000_000,
                dy < rh,
                dx <= rw,
                forall|x2: int, y2: int|
                    0 <= x2 < old(fb).width && 0 <= y2 < old(fb).height
                        && !(xo <= x2 < xo + rw && yo <= y2 < yo + rh)
                        ==> #[trigger] fb.pixel(x2, y2) == old(fb).pixel(x2, y2),
                forall|dx2: int, dy2: int|
                    0 <= dx2 < rw && 0 <= dy2 < dy
                        && xo + dx2 < old(fb).width && yo + dy2 < old(fb).height
                        ==> #[trigger] block_pixel(*fb, xo as int, yo as int, dx2, dy2)
                            == color,
                forall|dx2: int|
                    0 <= dx2 < dx && xo + dx2 < old(fb).width
                        && yo + dy < old(fb).height
                        ==> #[trigger] block_pixel(*fb, xo as int, yo as int, dx2,
                                dy as int) == color,
            decreases rw - dx,
        {
            let x: usize = xo + dx;
            let y: usize = yo + dy;
            let ghost head = *fb;
            fb.point(x, y);
            proof {
                assert forall|x2: int, y2: int|
                    0 <= x2 < old(fb).width && 0 <= y2 < old(fb).height
                        && !(xo <= x2 < xo + rw && yo <= y2 < yo + rh)
                        implies #[trigger] fb.pixel(x2, y2) == old(fb).pixel(x2, y2) by {
                    lemma_row_major_index_in_range(fb.width as int, fb.height as int,
                        x2, y2);
                    if x < fb.width && y < fb.height {
                        lemma_row_major_injective(fb.width as int, x2, y2,
                            x as int, y as int);
                    }
                    assert(head.pixel(x2, y2) == old(fb).pixel(x2, y2));
                }
                assert forall|dx2: int, dy2: int|
                    0 <= dx2 < rw && 0 <= dy2 < dy
                        && xo + dx2 < old(fb).width && yo + dy2 < old(fb).height
                        implies #[trigger] block_pixel(*fb, xo as int, yo as int,
                            dx2, dy2) == color by {
                    lemma_row_major_index_in_range(fb.width as int, fb.height as int,
                        xo + dx2, yo + dy2);
                    if x < fb.width && y < fb.height {
                        lemma_row_major_injective(fb.width as int, xo + dx2, yo + dy2,
                            x as int, y as int);
                    }
                    assert(block_pixel(head, xo as int, yo as int, dx2, dy2) == color);
                }
                assert forall|dx2: int|
                    0 <= dx2 < dx + 1 && xo + dx2 < old(fb).width
                        && yo + dy < old(fb).height
                        implies #[trigger] block_pixel(*fb, xo as int, yo as int, dx2,
                            dy as int) == color by {
                    lemma_row_major_index_in_range(fb.width as int, fb.height as int,
                        xo + dx2, yo + dy as int);
                    if dx2 < dx {
                        if x < fb.width && y < fb.height {
                            lemma_row_major_injective(fb.width as int, xo + dx2,
                                yo + dy as int, x as int, y as int);
                        }
                        assert(block_pixel(head, xo as int, yo as int, dx2, dy as int)
                            == color);
                    }
                }
            }
            dx = dx + 1;
        }
        proof {
            assert forall|dx2: int, dy2: int|
                0 <= dx2 < rw && 0 <= dy2 < dy + 1
                    && xo + dx2 < old(fb).width && yo + dy2 < old(fb).height
                    implies #[trigger] block_pixel(*fb, xo as int, yo as int,
                        dx2, dy2) == color by {
                if dy2 == dy {
                    assert(block_pixel(*fb, xo as int, yo as int, dx2, dy as int)
                        == color);
                }
            }
        }
        dy = dy + 1;
    }
}

/// The surface pixel at offset `(dx, dy)` inside the block whose
/// top-left corner is `(xo, yo)`.
pub open spec fn block_pixel(fb: Framebuffer, xo: int, yo: int, dx: int, dy: int) -> u32 {
    fb.pixel(xo + dx, yo + dy)
}

/// Fills the world block at `(xo, yo)` with the texture stretched over
/// the block size by nearest-neighbor sampling, clipped to the
/// surface: every block pixel on the surface takes its stretched
/// texel, and pixels outside the block are untouched.
pub fn draw_block(
    fb: &mut Framebuffer,
    xo: usize,
    yo: usize,
    block_size: usize,
    tex: &Texture,
)
    requires
        old(fb).wf(),
        old(fb).width <= 100_000,
        old(fb).height <= 100_000,
        tex.wf(),
        1 <= block_size <= 100_000,
        xo + block_size <= 1_000_000,
        yo + block_size <= 1_000_000,
    ensures
        final(fb).wf(),
        final(fb).width == old(fb).width,
        final(fb).height == old(fb).height,
        final(fb).bg() == old(fb).bg(),
        final(fb).buffer.len() == old(fb).buffer.len(),
        forall|x2: int, y2: int|
            0 <= x2 < old(fb).width && 0 <= y2 < old(fb).height
                && !(xo <= x2 < xo + block_size && yo <= y2 < yo + block_size)
                ==> #[trigger] final(fb).pixel(x2, y2) == old(fb).pixel(x2, y2),
        forall|dx2: int, dy2: int|
            0 <= dx2 < block_size && 0 <= dy2 < block_size
                && xo + dx2 < old(fb).width && yo + dy2 < old(fb).height
                ==> #[trigger] block_pixel(*final(fb), xo as int, yo as int, dx2, dy2)
                    == spec_stretch(*tex, block_size as int, block_size as int, dx2, dy2),
{
    let mut dy: usize = 0;
    while dy < block_size
        invariant
            fb.wf(),
            fb.width == old(fb).width,
            fb.height == old(fb).height,
            fb.bg() == old(fb).bg(),
            fb.buffer.len() == old(fb).buffer.len(),
            fb.width <= 100_000,
            fb.height <= 100_000,
            tex.wf(),
            1 <= block_size <= 100_000,
            xo + block_size <= 1_000_000,
            yo + block_size <= 1_000_000,
            dy <= block_size,
            forall|x2: int, y2: int|
                0 <= x2 < old(fb).width && 0 <= y2 < old(fb).height
                    && !(xo <= x2 < xo + block_size && yo <= y2 < yo + block_size)
                    ==> #[trigger] fb.pixel(x2, y2) == old(fb).pixel(x2, y2),
            forall|dx2: int, dy2: int|
                0 <= dx2 < block_size && 0 <= dy2 < dy
                    && xo + dx2 < old(fb).width && yo + dy2 < old(fb).height
                    ==> #[trigger] block_pixel(*fb, xo as int, yo as int, dx2, dy2)
                        == spec_stretch(*tex, block_size as int, block_size as int,
                            dx2, dy2),
        decreases block_size - dy,
    {
        let ty: usize = sample_index(dy, tex.height, block_size);
        let mut dx: usize = 0;
        while dx < block_size
            invariant
                fb.wf(),
                fb.width == old(fb).width,
                fb.height == old(fb).height,
                fb.bg() == old(fb).bg(),
                fb.buffer.len() == old(fb).buffer.len(),
                fb.width <= 100_000,
                fb.height <= 100_000,
                tex.wf(),
                1 <= block_size <= 100_000,
                xo + block_size <= 1_000_000,
                yo + block_size <= 1_000_000,
                dy < block_size,
                dx <= block_size,
                ty == (dy as int) * tex.height / (block_size as int),
                ty < tex.height,
                forall|x2: int, y2: int|
                    0 <= x2 < old(fb).width && 0 <= y2 < old(fb).height
                        && !(xo <= x2 < xo + block_size && yo <= y2 < yo + block_size)
                        ==> #[trigger] fb.pixel(x2, y2) == old(fb).pixel(x2, y2),
                forall|dx2: int, dy2: int|
                    0 <= dx2 < block_size && 0 <= dy2 < dy
                        && xo + dx2 < old(fb).width && yo + dy2 < old(fb).height
                        ==> #[trigger] block_pixel(*fb, xo as int, yo as int, dx2, dy2)
                            == spec_stretch(*tex, block_size as int, block_size as int,
                                dx2, dy2),
                forall|dx2: int|
                    0 <= dx2 < dx && xo + dx2 < old(fb).width
                        && yo + dy < old(fb).height
                        ==> #[trigger] block_pixel(*fb, xo as int, yo as int, dx2,
                                dy as int)
                            == spec_stretch(*tex, block_size as int, block_size as int,
                                dx2, dy as int),
            decreases block_size - dx,
        {
            let ghost head = *fb;
            let tx: usize = sample_index(dx, tex.width, block_size);
            let c = tex.get_pixel(tx, ty);
            fb.set_current_color(c);
            let x: usize = xo + dx;
            let y: usize = yo + dy;
            fb.point(x, y);
            proof {
                assert forall|x2: int, y2: int|
                    0 <= x2 < old(fb).width && 0 <= y2 < old(fb).height
                        && !(xo <= x2 < xo + block_size && yo <= y2 < yo + block_size)
                        implies #[trigger] fb.pixel(x2, y2) == old(fb).pixel(x2, y2) by {
                    lemma_row_major_index_in_range(fb.width as int, fb.height as int,
                        x2, y2);
                    if x < fb.width && y < fb.height {
                        lemma_row_major_injective(fb.width as int, x2, y2,
                            x as int, y as int);
                    }
                    assert(head.pixel(x2, y2) == old(fb).pixel(x2, y2));
                }
                assert forall|dx2: int, dy2: int|
                    0 <= dx2 < block_size && 0 <= dy2 < dy
                        && xo + dx2 < old(fb).width && yo + dy2 < old(fb).height
                        implies #[trigger] block_pixel(*fb, xo as int, yo as int,
                            dx2, dy2)
                            == spec_stretch(*tex, block_size as int, block_size as int,
                                dx2, dy2) by {
                    lemma_row_major_index_in_range(fb.width as int, fb.height as int,
                        xo + dx2, yo + dy2);
                    if x < fb.width && y < fb.height {
                        lemma_row_major_injective(fb.width as int, xo + dx2, yo + dy2,
                            x as int, y as int);
                    }
                    assert(block_pixel(head, xo as int, yo as int, dx2, dy2)
                        == spec_stretch(*tex, block_size as int, block_size as int,
                            dx2, dy2));
                }
                assert forall|dx2: int|
                    0 <= dx2 < dx + 1 && xo + dx2 < old(fb).width
                        && yo + dy < old(fb).height
                        implies #[trigger] block_pixel(*fb, xo as int, yo as int, dx2,
                            dy as int)
                            == spec_stretch(*tex, block_size as int, block_size as int,
                                dx2, dy as int) by {
                    lemma_row_major_index_in_range(fb.width as int, fb.height as int,
                        xo + dx2, yo + dy as int);
                    if dx2 < dx {
                        if x < fb.width && y < fb.height {
                            lemma_row_major_injective(fb.width as int, xo + dx2,
                                yo + dy as int, x as int, y as int);
                        }
                        assert(block_pixel(head, xo as int, yo as int, dx2, dy as int)
                            == spec_stretch(*tex, block_size as int, block_size as int,
                                dx2, dy as int));
                    }
                }
            }
            dx = dx + 1;
        }
        proof {
            assert forall|dx2: int, dy2: int|
                0 <= dx2 < block_size && 0 <= dy2 < dy + 1
                    && xo + dx2 < old(fb).width && yo + dy2 < old(fb).height
                    implies #[trigger] block_pixel(*fb, xo as int, yo as int, dx2, dy2)
                        == spec_stretch(*tex, block_size as int, block_size as int,
                            dx2, dy2) by {
                if dy2 == dy {
                    assert(block_pixel(*fb, xo as int, yo as int, dx2, dy as int)
                        == spec_stretch(*tex, block_size as int, block_size as int,
                            dx2, dy as int));
                }
            }
        }
        dy = dy + 1;
    }
}

/// The world angle of ray `i` of a fan of `num` rays sweeping the
/// field of view from its left edge: the heading, minus half the field
/// of view, plus the ray's share of it.
pub fn ray_angle(a: i64, fov: i64, i: usize, num: usize) -> (r: i64)
    requires
        0 <= a < TURN,
        0 < fov < HALF_TURN,
        i < num,
        num <= 1_000_000,
    ensures
        r == a - fov / 2 + (fov * i) / (num as int),
        -TURN <= r < 2 * TURN,
{
    proof {
        assert(0 <= (fov as int) * (i as int)
                && (fov as int) * (i as int) <= (num as int) * (fov as int)
                && (num as int) * (fov as int) <= 1_800_000_000) by (nonlinear_arith)
            requires 0 < fov < 1800 && 0 <= i < num <= 1_000_000;
        lemma_div_pos_is_pos((fov as int) * (i as int), num as int);
        lemma_div_is_ordered((fov as int) * (i as int),
            (num as int) * (fov as int), num as int);
        lemma_div_multiples_vanish(fov as int, num as int);
    }
    a - fov / 2 + fov * (i as i64) / (num as i64)
}

/// The world angle of screen column `i` of a `w`-column view.
pub open spec fn spec_column_angle(player: Player, i: int, w: int) -> int {
    player.a - (player.fov as int) / 2 + (player.fov as int) * i / w
}

/// The raw wall distance of screen column `i`: the first hit of the
/// column's ray.
pub open spec fn spec_column_dist(m: Maze, player: Player, bs: int, i: int, w: int) -> int {
    let angle = spec_column_angle(player, i, w);
    crate::raycaster::spec_ray_hit(m, player.x as int, player.y as int,
        spec_cos(angle), spec_sin(angle), bs)
}

/// The column's fish-eye-corrected fixed-point distance: the raw
/// distance times the cosine of the column's offset from the heading,
/// floored at one step so a zero-distance hit fills the full column.
pub open spec fn spec_column_corrected(
    m: Maze, player: Player, bs: int, i: int, w: int,
) -> int {
    let cd = spec_column_dist(m, player, bs, i, w)
        * spec_cos(spec_column_angle(player, i, w) - player.a);
    if cd < 1 {
        1int
    } else {
        cd
    }
}

/// The wall symbol the column's ray hits.
pub open spec fn spec_column_impact(
    m: Maze, player: Player, bs: int, i: int, w: int,
) -> char {
    let angle = spec_column_angle(player, i, w);
    let d = spec_column_dist(m, player, bs, i, w);
    m.cell_at(
        crate::raycaster::cell_coord(
            crate::raycaster::march(player.x as int, spec_cos(angle), d), bs),
        crate::raycaster::cell_coord(
            crate::raycaster::march(player.y as int, spec_sin(angle), d), bs))
}

/// Whether the wall slice of column `x` covers the pixel at `(x, y)`:
/// its symbol maps to a texture and `y` lies in the slice's span.
pub open spec fn spec_wall_covers(
    m: Maze, player: Player, tex: TextureSet, bs: int, w: int, h: int, x: int, y: int,
) -> bool {
    let corrected = spec_column_corrected(m, player, bs, x, w);
    &&& tex.spec_select(spec_column_impact(m, player, bs, x, w)) is Some
    &&& spec_stake_top(h, WALL_PLANE as int, corrected) <= y
        < spec_stake_bottom(h, WALL_PLANE as int, corrected)
}

/// The texel the wall slice of column `x` shows at `(x, y)`, for a
/// pixel the slice covers.
pub open spec fn spec_wall_pixel(
    m: Maze, player: Player, tex: TextureSet, bs: int, scale: int, w: int, h: int,
    x: int, y: int,
) -> int {
    let corrected = spec_column_corrected(m, player, bs, x, w);
    let top = spec_stake_top(h, WALL_PLANE as int, corrected);
    let bottom = spec_stake_bottom(h, WALL_PLANE as int, corrected);
    let dist = spec_column_dist(m, player, bs, x, w);
    match tex.spec_select(spec_column_impact(m, player, bs, x, w)) {
        Some(t) => t.spec_pixel(dist % (t.width as int / scale),
            (y - top) * (t.height as int / scale) / (bottom - top)),
        None => 0,
    }
}

/// Whether the actor's billboard quad covers the pixel at `(x, y)`:
/// the actor is drawn at all, and the pixel lies in its screen quad.
pub open spec fn spec_sprite_covers(
    m: Maze, player: Player, enemy: Enemy, gt: Texture, bs: int, w: int, h: int,
    x: int, y: int,
) -> bool {
    &&& spec_sprite_visible(m, player, enemy, bs)
    &&& spec_sprite_x(player, enemy, w) <= x < spec_sprite_x(player, enemy, w) + gt.width
    &&& spec_sprite_top(player, enemy, h) <= y < spec_sprite_bottom(player, enemy, h)
}

/// The color the overhead pass paints at world pixel `(x, y)`: the
/// nearest-neighbor texture sample of its cell's block, or the flat
/// ground color where the cell maps to no texture.
pub open spec fn spec_cell_pixel(m: Maze, tex: TextureSet, bs: int, x: int, y: int) -> int {
    match tex.spec_select(m.cell_at(x / bs, y / bs)) {
        Some(t) => spec_stretch(t, bs, bs, x % bs, y % bs),
        None => 0x9FAFC8,
    }
}

/// Whether one of the overhead pass's five traced debug rays crosses
/// the world pixel `(x, y)` before its wall hit.
pub open spec fn spec_debug_ray_covers(
    m: Maze, player: Player, bs: int, x: int, y: int,
) -> bool {
    exists|ri: int, d: int|
        0 <= ri < 5 && 0 <= d
            && d < crate::raycaster::spec_ray_hit(m, player.x as int, player.y as int,
                spec_cos(spec_column_angle(player, ri, 5)),
                spec_sin(spec_column_angle(player, ri, 5)), bs)
            && x == #[trigger] crate::raycaster::ray_pixel(player.x as int,
                spec_cos(spec_column_angle(player, ri, 5)), d)
            && y == crate::raycaster::ray_pixel(player.y as int,
                spec_sin(spec_column_angle(player, ri, 5)), d)
}

/// The overhead pass: every grid cell drawn as a textured or flat
/// block, a fan of five debug rays traced across the view, and the
/// viewpoint marked in red on top. Every world pixel of the grid that
/// neither a traced ray crosses nor the marker takes shows its cell's
/// block color.
pub fn render2d(
    fb: &mut Framebuffer,
    player: &Player,
    maze: &Maze,
    textures: &TextureSet,
    block_size: usize,
)
    requires
        old(fb).wf(),
        old(fb).width <= 100_000,
        old(fb).height <= 100_000,
        maze.wf(),
        maze.enclosed(),
        1 <= block_size,
        maze.spec_width() * block_size <= 1_000_000,
        maze.spec_height() * block_size <= 1_000_000,
        player.wf(),
        player.in_bounds(*maze, block_size as int),
        textures.wf(),
        block_size <= 100_000,
    ensures
        final(fb).wf(),
        final(fb).width == old(fb).width,
        final(fb).height == old(fb).height,
        final(fb).bg() == old(fb).bg(),
        final(fb).buffer.len() == old(fb).buffer.len(),
        final(fb).draw_color() == 0xFF0000,
        // The viewpoint marker is drawn last, so it shows on top.
        (player.x as int) / (FP as int) < old(fb).width
            && (player.y as int) / (FP as int) < old(fb).height
            ==> final(fb).pixel((player.x as int) / (FP as int),
                    (player.y as int) / (FP as int)) == 0xFF0000,
        // Every on-screen world pixel of the grid that no traced ray
        // crosses and that is not the marker shows its cell's block
        // color.
        forall|x: int, y: int|
            0 <= x < old(fb).width && 0 <= y < old(fb).height
                && x < maze.spec_width() * block_size
                && y < maze.spec_height() * block_size
                && !spec_debug_ray_covers(*maze, *player, block_size as int, x, y)
                && !(x == (player.x as int) / (FP as int)
                    && y == (player.y as int) / (FP as int))
                ==> #[trigger] final(fb).pixel(x, y)
                    == spec_cell_pixel(*maze, *textures, block_size as int, x, y),
{
    let h = maze.height();
    let w = maze.width();
    let ghost bsi: int = block_size as int;
    let ghost wbs: int = maze.spec_width() * bsi;
    let ghost hbs: int = maze.spec_height() * bsi;
    let mut row: usize = 0;
    while row < h
        invariant
            fb.wf(),
            fb.width == old(fb).width,
            fb.height == old(fb).height,
            fb.bg() == old(fb).bg(),
            fb.buffer.len() == old(fb).buffer.len(),
            fb.width <= 100_000,
            fb.height <= 100_000,
            maze.wf(),
            textures.wf(),
            1 <= block_size <= 100_000,
            bsi == block_size as int,
            wbs == maze.spec_width() * bsi,
            hbs == maze.spec_height() * bsi,
            wbs <= 1_000_000,
            hbs <= 1_000_000,
            h == maze.spec_height(),
            w == maze.spec_width(),
            row <= h,
            forall|x: int, y: int|
                0 <= x < fb.width && 0 <= y < fb.height && x < wbs && y < row * bsi
                    ==> #[trigger] fb.pixel(x, y)
                        == spec_cell_pixel(*maze, *textures, bsi, x, y),
        decreases h - row,
    {
        let mut col: usize = 0;
        while col < w
            invariant
                fb.wf(),
                fb.width == old(fb).width,
                fb.height == old(fb).height,
                fb.bg() == old(fb).bg(),
                fb.buffer.len() == old(fb).buffer.len(),
                fb.width <= 100_000,
                fb.height <= 100_000,
                maze.wf(),
                textures.wf(),
                1 <= block_size <= 100_000,
                bsi == block_size as int,
                wbs == maze.spec_width() * bsi,
                hbs == maze.spec_height() * bsi,
                wbs <= 1_000_000,
                hbs <= 1_000_000,
                h == maze.spec_height(),
                w == maze.spec_width(),
                row < h,
                col <= w,
                forall|x: int, y: int|
                    0 <= x < fb.width && 0 <= y < fb.height && x < wbs && y < row * bsi
                        ==> #[trigger] fb.pixel(x, y)
                            == spec_cell_pixel(*maze, *textures, bsi, x, y),
                forall|x: int, y: int|
                    0 <= x < fb.width && 0 <= y < fb.height && x < col * bsi
                        && row * bsi <= y < (row + 1) * bsi
                        ==> #[trigger] fb.pixel(x, y)
                            == spec_cell_pixel(*maze, *textures, bsi, x, y),
            decreases w - col,
        {
            proof {
                assert(0 <= col * bsi
                        && col * bsi + block_size <= w * bsi
                        && 0 <= row * bsi
                        && row * bsi + block_size <= h * bsi
                        && (col + 1) * bsi == col * bsi + bsi
                        && (row + 1) * bsi == row * bsi + bsi)
                    by (nonlinear_arith)
                    requires col < w && row < h && block_size >= 0
                        && bsi == block_size as int;
            }
            let xo: usize = col * block_size;
            let yo: usize = row * block_size;
            let cell = maze.cell(col, row);
            let ghost head = *fb;
            match textures.select(cell) {
                Some(tex) => {
                    draw_block(fb, xo, yo, block_size, tex);
                },
                None => {
                    let ground = Color::ground();
                    let hex = ground.to_hex();
                    fill_rect(fb, xo, yo, block_size, block_size, hex);
                },
            }
            proof {
                assert forall|x: int, y: int|
                    0 <= x < fb.width && 0 <= y < fb.height && x < wbs && y < row * bsi
                        implies #[trigger] fb.pixel(x, y)
                            == spec_cell_pixel(*maze, *textures, bsi, x, y) by {
                    assert(head.pixel(x, y) == spec_cell_pixel(*maze, *textures, bsi,
                        x, y));
                }
                assert forall|x: int, y: int|
                    0 <= x < fb.width && 0 <= y < fb.height && x < (col + 1) * bsi
                        && row * bsi <= y < (row + 1) * bsi
                        implies #[trigger] fb.pixel(x, y)
                            == spec_cell_pixel(*maze, *textures, bsi, x, y) by {
                    if x < col * bsi {
                        assert(head.pixel(x, y)
                            == spec_cell_pixel(*maze, *textures, bsi, x, y));
                    } else {
                        let dx = x - xo;
                        let dy = y - yo;
                        vstd::arithmetic::div_mod::lemma_fundamental_div_mod_converse(
                            x, bsi, col as int, dx);
                        vstd::arithmetic::div_mod::lemma_fundamental_div_mod_converse(
                            y, bsi, row as int, dy);
                        assert(block_pixel(*fb, xo as int, yo as int, dx, dy)
                            == fb.pixel(x, y));
                    }
                }
            }
            col = col + 1;
        }
        proof {
            assert forall|x: int, y: int|
                0 <= x < fb.width && 0 <= y < fb.height && x < wbs
                    && y < (row + 1) * bsi
                    implies #[trigger] fb.pixel(x, y)
                        == spec_cell_pixel(*maze, *textures, bsi, x, y) by {
                if y >= row * bsi {
                    assert(w * bsi == wbs);
                }
            }
        }
        row = row + 1;
    }
    let num_rays: usize = 5;
    let mut i: usize = 0;
    while i < num_rays
        invariant
            fb.wf(),
            fb.width == old(fb).width,
            fb.height == old(fb).height,
            fb.bg() == old(fb).bg(),
            fb.buffer.len() == old(fb).buffer.len(),
            fb.width <= 100_000,
            fb.height <= 100_000,
            maze.wf(),
            maze.enclosed(),
            1 <= block_size,
            bsi == block_size as int,
            wbs == maze.spec_width() * bsi,
            hbs == maze.spec_height() * bsi,
            maze.spec_width() * block_size <= 1_000_000,
            maze.spec_height() * block_size <= 1_000_000,
            player.wf(),
            player.in_bounds(*maze, block_size as int),
            textures.wf(),
            num_rays == 5,
            i <= num_rays,
            forall|x: int, y: int|
                0 <= x < fb.width && 0 <= y < fb.height && x < wbs && y < hbs
                    && !spec_debug_ray_covers(*maze, *player, bsi, x, y)
                    ==> #[trigger] fb.pixel(x, y)
                        == spec_cell_pixel(*maze, *textures, bsi, x, y),
        decreases num_rays - i,
    {
        let angle: i64 = ray_angle(player.a, player.fov, i, num_rays);
        let ghost head = *fb;
        proof {
            assert forall|x: int, y: int|
                0 <= x < head.width && 0 <= y < head.height && x < wbs && y < hbs
                    && !spec_debug_ray_covers(*maze, *player, bsi, x, y)
                    implies #[trigger] head.pixel(x, y)
                        == spec_cell_pixel(*maze, *textures, bsi, x, y) by {
                assert(fb.pixel(x, y) == head.pixel(x, y));
            }
        }
        let hit = crate::raycaster::cast_ray(fb, maze, player, angle, block_size, true);
        proof {
            assert(angle == spec_column_angle(*player, i as int, 5));
            assert forall|x: int, y: int|
                0 <= x < fb.width && 0 <= y < fb.height && x < wbs && y < hbs
                    && !spec_debug_ray_covers(*maze, *player, bsi, x, y)
                    implies #[trigger] fb.pixel(x, y)
                        == spec_cell_pixel(*maze, *textures, bsi, x, y) by {
                if fb.pixel(x, y) != head.pixel(x, y) {
                    let d0 = choose|d: int| 0 <= d < hit.distance
                        && x == #[trigger] crate::raycaster::ray_pixel(player.x as int,
                            spec_cos(angle as int), d)
                        && y == crate::raycaster::ray_pixel(player.y as int,
                            spec_sin(angle as int), d);
                    assert(x == crate::raycaster::ray_pixel(player.x as int,
                        spec_cos(spec_column_angle(*player, i as int, 5)), d0));
                    assert(y == crate::raycaster::ray_pixel(player.y as int,
                        spec_sin(spec_column_angle(*player, i as int, 5)), d0));
                    assert(spec_debug_ray_covers(*maze, *player, bsi, x, y));
                }
                assert(head.pixel(x, y) == spec_cell_pixel(*maze, *textures, bsi, x, y));
            }
        }
        i = i + 1;
    }
    let red = Color::red();
    let hex = red.to_hex();
    let px: usize = (player.x / FP) as usize;
    let py: usize = (player.y / FP) as usize;
    let ghost before_marker = *fb;
    proof {
        assert forall|x: int, y: int|
            0 <= x < before_marker.width && 0 <= y < before_marker.height
                && x < wbs && y < hbs
                && !spec_debug_ray_covers(*maze, *player, bsi, x, y)
                implies #[trigger] before_marker.pixel(x, y)
                    == spec_cell_pixel(*maze, *textures, bsi, x, y) by {
            assert(fb.pixel(x, y) == before_marker.pixel(x, y));
        }
    }
    fb.set_current_color(hex);
    let ghost head = *fb;
    fb.point(px, py);
    proof {
        assert forall|x: int, y: int|
            0 <= x < fb.width && 0 <= y < fb.height && x < wbs && y < hbs
                && !spec_debug_ray_covers(*maze, *player, bsi, x, y)
                && !(x == (player.x as int) / (FP as int)
                    && y == (player.y as int) / (FP as int))
                implies #[trigger] fb.pixel(x, y)
                    == spec_cell_pixel(*maze, *textures, bsi, x, y) by {
            crate::framebuffer::lemma_row_major_index_in_range(fb.width as int,
                fb.height as int, x, y);
            if px < fb.width && py < fb.height {
                lemma_row_major_injective(fb.width as int, x, y, px as int, py as int);
            }
            assert(fb.pixel(x, y) == head.pixel(x, y));
            assert(head.pixel(x, y) == before_marker.pixel(x, y));
            assert(before_marker.pixel(x, y)
                == spec_cell_pixel(*maze, *textures, bsi, x, y));
        }
    }
}

/// The perspective pass: the sky gradient and flat ground bands, one
/// textured wall slice per screen column at its fish-eye-corrected
/// distance, and every visible actor billboarded on top. Every pixel
/// no wall slice and no billboard quad covers still holds its band
/// color, and every pixel a wall slice covers and no billboard quad
/// overlays shows the slice's texel.
pub fn render3d(
    fb: &mut Framebuffer,
    player: &Player,
    maze: &Maze,
    textures: &TextureSet,
    ghost_texture: &Texture,
    enemies: &Vec<Enemy>,
    block_size: usize,
    scale_factor: usize,
)
    requires
        old(fb).wf(),
        2 <= old(fb).width <= 100_000,
        2 <= old(fb).height <= 100_000,
        maze.wf(),
        maze.enclosed(),
        1 <= block_size,
        maze.spec_width() * block_size <= 1_000_000,
        maze.spec_height() * block_size <= 1_000_000,
        player.wf(),
        player.in_bounds(*maze, block_size as int),
        textures.wf(),
        ghost_texture.wf(),
        1 <= scale_factor,
        scale_factor <= textures.plus.width,
        scale_factor <= textures.plus.height,
        scale_factor <= textures.minus.width,
        scale_factor <= textures.minus.height,
        scale_factor <= textures.pipe.width,
        scale_factor <= textures.pipe.height,
        forall|k: int| 0 <= k < enemies.len()
            ==> -1_000_000_000 <= #[trigger] enemies[k].x <= 1_000_000_000
                && -1_000_000_000 <= enemies[k].y <= 1_000_000_000,
    ensures
        final(fb).wf(),
        final(fb).width == old(fb).width,
        final(fb).height == old(fb).height,
        final(fb).bg() == old(fb).bg(),
        final(fb).buffer.len() == old(fb).buffer.len(),
        // The sky band: every pixel of the upper half that no wall
        // slice and no billboard quad covers holds its row's gradient
        // color.
        forall|x: int, y: int|
            0 <= x < old(fb).width && 0 <= y < old(fb).height / 2
                && !spec_wall_covers(*maze, *player, *textures, block_size as int,
                    old(fb).width as int, old(fb).height as int, x, y)
                && (forall|k: int| 0 <= k < enemies.len()
                    ==> !spec_sprite_covers(*maze, *player, #[trigger] enemies[k],
                        *ghost_texture, block_size as int, old(fb).width as int,
                        old(fb).height as int, x, y))
                ==> #[trigger] final(fb).pixel(x, y)
                    == spec_sky_color(y, old(fb).height as int / 2),
        // The ground band likewise holds the flat ground color.
        forall|x: int, y: int|
            0 <= x < old(fb).width && old(fb).height / 2 <= y < old(fb).height
                && !spec_wall_covers(*maze, *player, *textures, block_size as int,
                    old(fb).width as int, old(fb).height as int, x, y)
                && (forall|k: int| 0 <= k < enemies.len()
                    ==> !spec_sprite_covers(*maze, *player, #[trigger] enemies[k],
                        *ghost_texture, block_size as int, old(fb).width as int,
                        old(fb).height as int, x, y))
                ==> #[trigger] final(fb).pixel(x, y) == 0x9FAFC8,
        // Every pixel a wall slice covers and no billboard quad
        // overlays shows the slice's texel at the height its corrected
        // distance projects.
        forall|x: int, y: int|
            0 <= x < old(fb).width && 0 <= y < old(fb).height
                && spec_wall_covers(*maze, *player, *textures, block_size as int,
                    old(fb).width as int, old(fb).height as int, x, y)
                && (forall|k: int| 0 <= k < enemies.len()
                    ==> !spec_sprite_covers(*maze, *player, #[trigger] enemies[k],
                        *ghost_texture, block_size as int, old(fb).width as int,
                        old(fb).height as int, x, y))
                ==> #[trigger] final(fb).pixel(x, y)
                    == spec_wall_pixel(*maze, *player, *textures, block_size as int,
                        scale_factor as int, old(fb).width as int,
                        old(fb).height as int, x, y),
{
    let hh: usize = fb.height / 2;
    render_sky(fb, hh);
    let ground = Color::ground();
    let ground_hex = ground.to_hex();
    let height = fb.height;
    let ghost w_spec: int = fb.width as int;
    let ghost h_spec: int = fb.height as int;
    let ghost after_sky = *fb;
    fill_rows(fb, hh, height, ground_hex);
    proof {
        assert forall|x: int, y: int| 0 <= x < w_spec && 0 <= y < hh
            implies #[trigger] fb.pixel(x, y) == spec_sky_color(y, hh as int) by {
            lemma_row_major_below(w_spec, x, y, 0, hh as int);
            crate::framebuffer::lemma_row_major_index_in_range(w_spec, h_spec, x, y);
            assert(after_sky.pixel(x, y) == spec_sky_color(y, hh as int));
        }
        assert forall|x: int, y: int| 0 <= x < w_spec && hh <= y < h_spec
            implies #[trigger] fb.pixel(x, y) == 0x9FAFC8 by {
            crate::framebuffer::lemma_row_major_index_in_range(w_spec, h_spec, x, y);
            assert((hh as int) * w_spec <= y * w_spec && y * w_spec + x
                    < (h_spec) * w_spec) by (nonlinear_arith)
                requires hh <= y < h_spec && 0 <= x < w_spec;
        }
    }
    let num_rays: usize = fb.width;
    let mut i: usize = 0;
    while i < num_rays
        invariant
            fb.wf(),
            fb.width == old(fb).width,
            fb.height == old(fb).height,
            fb.bg() == old(fb).bg(),
            fb.buffer.len() == old(fb).buffer.len(),
            2 <= fb.width <= 100_000,
            2 <= fb.height <= 100_000,
            maze.wf(),
            maze.enclosed(),
            1 <= block_size,
            maze.spec_width() * block_size <= 1_000_000,
            maze.spec_height() * block_size <= 1_000_000,
            player.wf(),
            player.in_bounds(*maze, block_size as int),
            textures.wf(),
            1 <= scale_factor,
            scale_factor <= textures.plus.width,
            scale_factor <= textures.plus.height,
            scale_factor <= textures.minus.width,
            scale_factor <= textures.minus.height,
            scale_factor <= textures.pipe.width,
            scale_factor <= textures.pipe.height,
            num_rays == fb.width,
            hh == fb.height / 2,
            w_spec == fb.width as int,
            h_spec == fb.height as int,
            i <= num_rays,
            forall|x: int, y: int|
                0 <= x < w_spec && 0 <= y < hh
                    && (x >= i || !spec_wall_covers(*maze, *player, *textures,
                        block_size as int, w_spec, h_spec, x, y))
                    ==> #[trigger] fb.pixel(x, y) == spec_sky_color(y, hh as int),
            forall|x: int, y: int|
                0 <= x < w_spec && hh <= y < h_spec
                    && (x >= i || !spec_wall_covers(*maze, *player, *textures,
                        block_size as int, w_spec, h_spec, x, y))
                    ==> #[trigger] fb.pixel(x, y) == 0x9FAFC8,
            forall|x: int, y: int|
                0 <= x < i && 0 <= y < h_spec
                    && spec_wall_covers(*maze, *player, *textures, block_size as int,
                        w_spec, h_spec, x, y)
                    ==> #[trigger] fb.pixel(x, y)
                        == spec_wall_pixel(*maze, *player, *textures, block_size as int,
                            scale_factor as int, w_spec, h_spec, x, y),
        decreases num_rays - i,
    {
        let angle: i64 = ray_angle(player.a, player.fov, i, num_rays);
        let intersect = crate::raycaster::cast_ray(fb, maze, player, angle,
            block_size, false);
        let rel: i64 = angle - player.a;
        let cos_rel: i64 = crate::trig::cos_fp(rel);
        proof {
            assert(-2_100_000_000_000 <= (intersect.distance as int) * (cos_rel as int)
                    <= 2_100_000_000_000) by (nonlinear_arith)
                requires 0 <= intersect.distance <= 2_000_000_000
                    && -1000 <= cos_rel <= 1000;
        }
        let corrected: i64 = intersect.distance * cos_rel;
        let corrected: i64 = if corrected < 1 { 1 } else { corrected };
        proof {
            assert(angle == spec_column_angle(*player, i as int, w_spec));
            assert(intersect.distance
                == spec_column_dist(*maze, *player, block_size as int, i as int, w_spec));
            assert(corrected
                == spec_column_corrected(*maze, *player, block_size as int,
                    i as int, w_spec));
            assert(intersect.impact
                == spec_column_impact(*maze, *player, block_size as int, i as int,
                    w_spec));
        }
        let ghost head = *fb;
        render_wall_column(fb, i, intersect.distance, corrected, intersect.impact,
            textures, scale_factor);
        proof {
            let bsi = block_size as int;
            let sci = scale_factor as int;
            assert forall|x: int, y: int|
                0 <= x < w_spec && 0 <= y < hh
                    && (x >= i + 1 || !spec_wall_covers(*maze, *player, *textures,
                        bsi, w_spec, h_spec, x, y))
                    implies #[trigger] fb.pixel(x, y) == spec_sky_color(y, hh as int) by {
                if x != i {
                    assert(head.pixel(x, y) == spec_sky_color(y, hh as int));
                } else {
                    assert(!spec_wall_covers(*maze, *player, *textures, bsi,
                        w_spec, h_spec, x, y));
                    assert(head.pixel(x, y) == spec_sky_color(y, hh as int));
                }
            }
            assert forall|x: int, y: int|
                0 <= x < w_spec && hh <= y < h_spec
                    && (x >= i + 1 || !spec_wall_covers(*maze, *player, *textures,
                        bsi, w_spec, h_spec, x, y))
                    implies #[trigger] fb.pixel(x, y) == 0x9FAFC8 by {
                if x != i {
                    assert(head.pixel(x, y) == 0x9FAFC8);
                } else {
                    assert(!spec_wall_covers(*maze, *player, *textures, bsi,
                        w_spec, h_spec, x, y));
                    assert(head.pixel(x, y) == 0x9FAFC8);
                }
            }
            assert forall|x: int, y: int|
                0 <= x < i + 1 && 0 <= y < h_spec
                    && spec_wall_covers(*maze, *player, *textures, bsi,
                        w_spec, h_spec, x, y)
                    implies #[trigger] fb.pixel(x, y)
                        == spec_wall_pixel(*maze, *player, *textures, bsi, sci,
                            w_spec, h_spec, x, y) by {
                if x < i {
                    assert(head.pixel(x, y)
                        == spec_wall_pixel(*maze, *player, *textures, bsi, sci,
                            w_spec, h_spec, x, y));
                }
            }
        }
        i = i + 1;
    }
    let mut k: usize = 0;
    while k < enemies.len()
        invariant
            fb.wf(),
            fb.width == old(fb).width,
            fb.height == old(fb).height,
            fb.bg() == old(fb).bg(),
            fb.buffer.len() == old(fb).buffer.len(),
            2 <= fb.width <= 100_000,
            2 <= fb.height <= 100_000,
            maze.wf(),
            maze.enclosed(),
            1 <= block_size,
            maze.spec_width() * block_size <= 1_000_000,
            maze.spec_height() * block_size <= 1_000_000,
            player.wf(),
            player.in_bounds(*maze, block_size as int),
            textures.wf(),
            ghost_texture.wf(),
            1 <= scale_factor,
            hh == fb.height / 2,
            w_spec == fb.width as int,
            h_spec == fb.height as int,
            forall|k2: int| 0 <= k2 < enemies.len()
                ==> -1_000_000_000 <= #[trigger] enemies[k2].x <= 1_000_000_000
                    && -1_000_000_000 <= enemies[k2].y <= 1_000_000_000,
            k <= enemies.len(),
            forall|x: int, y: int|
                0 <= x < w_spec && 0 <= y < hh
                    && !spec_wall_covers(*maze, *player, *textures, block_size as int,
                        w_spec, h_spec, x, y)
                    && (forall|k2: int| 0 <= k2 < k
                        ==> !spec_sprite_covers(*maze, *player, #[trigger] enemies[k2],
                            *ghost_texture, block_size as int, w_spec, h_spec, x, y))
                    ==> #[trigger] fb.pixel(x, y) == spec_sky_color(y, hh as int),
            forall|x: int, y: int|
                0 <= x < w_spec && hh <= y < h_spec
                    && !spec_wall_covers(*maze, *player, *textures, block_size as int,
                        w_spec, h_spec, x, y)
                    && (forall|k2: int| 0 <= k2 < k
                        ==> !spec_sprite_covers(*maze, *player, #[trigger] enemies[k2],
                            *ghost_texture, block_size as int, w_spec, h_spec, x, y))
                    ==> #[trigger] fb.pixel(x, y) == 0x9FAFC8,
            forall|x: int, y: int|
                0 <= x < w_spec && 0 <= y < h_spec
                    && spec_wall_covers(*maze, *player, *textures, block_size as int,
                        w_spec, h_spec, x, y)
                    && (forall|k2: int| 0 <= k2 < k
                        ==> !spec_sprite_covers(*maze, *player, #[trigger] enemies[k2],
                            *ghost_texture, block_size as int, w_spec, h_spec, x, y))
                    ==> #[trigger] fb.pixel(x, y)
                        == spec_wall_pixel(*maze, *player, *textures, block_size as int,
                            scale_factor as int, w_spec, h_spec, x, y),
        decreases enemies.len() - k,
    {
        let ghost head = *fb;
        let drawn = render_enemy(fb, maze, player, &enemies[k], ghost_texture,
            block_size);
        proof {
            let bsk = block_size as int;
            assert forall|x: int, y: int|
                0 <= x < w_spec && 0 <= y < hh
                    && !spec_wall_covers(*maze, *player, *textures, bsk,
                        w_spec, h_spec, x, y)
                    && (forall|k2: int| 0 <= k2 < k + 1
                        ==> !spec_sprite_covers(*maze, *player, #[trigger] enemies[k2],
                            *ghost_texture, bsk, w_spec, h_spec, x, y))
                    implies #[trigger] fb.pixel(x, y) == spec_sky_color(y, hh as int) by {
                lemma_sprite_step(head, *fb, *maze, *player, enemies[k as int],
                    *ghost_texture, bsk, drawn, x, y);
                assert(head.pixel(x, y) == spec_sky_color(y, hh as int));
            }
            assert forall|x: int, y: int|
                0 <= x < w_spec && hh <= y < h_spec
                    && !spec_wall_covers(*maze, *player, *textures, bsk,
                        w_spec, h_spec, x, y)
                    && (forall|k2: int| 0 <= k2 < k + 1
                        ==> !spec_sprite_covers(*maze, *player, #[trigger] enemies[k2],
                            *ghost_texture, bsk, w_spec, h_spec, x, y))
                    implies #[trigger] fb.pixel(x, y) == 0x9FAFC8 by {
                lemma_sprite_step(head, *fb, *maze, *player, enemies[k as int],
                    *ghost_texture, bsk, drawn, x, y);
                assert(head.pixel(x, y) == 0x9FAFC8);
            }
            assert forall|x: int, y: int|
                0 <= x < w_spec && 0 <= y < h_spec
                    && spec_wall_covers(*maze, *player, *textures, bsk,
                        w_spec, h_spec, x, y)
                    && (forall|k2: int| 0 <= k2 < k + 1
                        ==> !spec_sprite_covers(*maze, *player, #[trigger] enemies[k2],
                            *ghost_texture, bsk, w_spec, h_spec, x, y))
                    implies #[trigger] fb.pixel(x, y)
                        == spec_wall_pixel(*maze, *player, *textures, bsk,
                            scale_factor as int, w_spec, h_spec, x, y) by {
                lemma_sprite_step(head, *fb, *maze, *player, enemies[k as int],
                    *ghost_texture, bsk, drawn, x, y);
                assert(head.pixel(x, y)
                    == spec_wall_pixel(*maze, *player, *textures, bsk,
                        scale_factor as int, w_spec, h_spec, x, y));
            }
        }
        k = k + 1;
    }
}

/// One sprite pass step leaves a pixel its quad does not cover intact.
proof fn lemma_sprite_step(
    before: Framebuffer, after: Framebuffer, m: Maze, player: Player, enemy: Enemy,
    gt: Texture, bs: int, drawn: bool, x: int, y: int,
)
    requires
        after.width == before.width,
        after.height == before.height,
        0 <= x < before.width,
        0 <= y < before.height,
        !spec_sprite_covers(m, player, enemy, gt, bs, before.width as int,
            before.height as int, x, y),
        !drawn ==> after == before,
        drawn <==> spec_sprite_visible(m, player, enemy, bs),
        drawn ==> forall|x2: int, y2: int|
            0 <= x2 < before.width && 0 <= y2 < before.height
                && #[trigger] after.pixel(x2, y2) != before.pixel(x2, y2)
                ==> spec_sprite_x(player, enemy, before.width as int) <= x2
                        < spec_sprite_x(player, enemy, before.width as int) + gt.width
                    && spec_sprite_top(player, enemy, before.height as int) <= y2
                        < spec_sprite_bottom(player, enemy, before.height as int),
    ensures
        after.pixel(x, y) == before.pixel(x, y),
{
    if drawn {
        if after.pixel(x, y) != before.pixel(x, y) {
            assert(spec_sprite_covers(m, player, enemy, gt, bs, before.width as int,
                before.height as int, x, y));
        }
    }
}

} // verus!
