//! The frame-rate readout: a counter fed with elapsed time from
//! outside, and a tiny bitmap renderer for its digits and the letters
//! of its label. Every lit glyph cell is drawn as a white square of
//! side `scale`.

use vstd::prelude::*;
use crate::color::Color;
use crate::framebuffer::Framebuffer;

verus! {

/// Milliseconds in one measuring window.
pub const FPS_WINDOW_MS: u64 = 1000;

/// Counts the frames of the current one-second window; when the window
/// closes, the count becomes the published rate.
pub struct FPSCounter {
    /// Milliseconds accumulated in the current window.
    pub window_ms: u64,
    /// Frames counted in the current window.
    pub frame_count: u32,
    /// The rate published by the last completed window.
    pub fps: u32,
}

impl FPSCounter {
    pub open spec fn wf(self) -> bool {
        self.window_ms < FPS_WINDOW_MS
    }

    pub fn new() -> (c: Self)
        ensures
            c.wf(),
            c.window_ms == 0,
            c.frame_count == 0,
            c.fps == 0,
    {
        Self { window_ms: 0, frame_count: 0, fps: 0 }
    }

    /// Counts one frame and the time it took; when the window fills,
    /// publishes the window's frame count as the rate and starts a new
    /// window.
    pub fn update(&mut self, delta_ms: u64)
        requires
            old(self).wf(),
            delta_ms <= 1_000_000_000_000,
        ensures
            final(self).wf(),
            ({
                let counted: int = if old(self).frame_count < u32::MAX {
                    old(self).frame_count + 1
                } else {
                    u32::MAX as int
                };
                if old(self).window_ms + delta_ms >= FPS_WINDOW_MS {
                    final(self).window_ms == 0 && final(self).frame_count == 0
                        && final(self).fps == counted
                } else {
                    final(self).window_ms == old(self).window_ms + delta_ms
                        && final(self).frame_count == counted
                        && final(self).fps == old(self).fps
                }
            }),
    {
        if self.frame_count < u32::MAX {
            self.frame_count = self.frame_count + 1;
        }
        let total: u64 = self.window_ms + delta_ms;
        if total >= FPS_WINDOW_MS {
            self.fps = self.frame_count;
            self.frame_count = 0;
            self.window_ms = 0;
        } else {
            self.window_ms = total;
        }
    }

    /// Draws the readout's label and the current rate's digits at
    /// `(x, y)`; everything drawn is white.
    pub fn render(&self, fb: &mut Framebuffer, x: usize, y: usize, scale: usize)
        requires
            old(fb).wf(),
            x <= 1_000_000,
            y <= 1_000_000,
            1 <= scale <= 1_000,
        ensures
            final(fb).wf(),
            final(fb).width == old(fb).width,
            final(fb).height == old(fb).height,
            final(fb).bg() == old(fb).bg(),
            final(fb).buffer.len() == old(fb).buffer.len(),
            forall|idx: int| 0 <= idx < old(fb).buffer.len()
                && final(fb).buffer[idx] != old(fb).buffer[idx]
                ==> final(fb).buffer[idx] == 0xFFFFFF,
    {
        let mut text: Vec<char> = Vec::new();
        text.push('F');
        text.push('P');
        text.push('S');
        text.push(':');
        text.push(' ');
        let digits = digits_of(self.fps);
        let mut k: usize = 0;
        while k < digits.len()
            invariant
                text.len() == 5 + k,
                k <= digits.len(),
                digits.len() <= 10,
                forall|j: int| 0 <= j < digits.len() ==> #[trigger] digits[j] < 10,
            decreases digits.len() - k,
        {
            let d = digits[k];
            text.push(digit_char(d));
            k = k + 1;
        }
        render_text(fb, &text, x, y, scale);
    }
}

/// The character of one decimal digit.
fn digit_char(d: u8) -> (c: char)
    requires
        d < 10,
{
    match d {
        0 => '0',
        1 => '1',
        2 => '2',
        3 => '3',
        4 => '4',
        5 => '5',
        6 => '6',
        7 => '7',
        8 => '8',
        _ => '9',
    }
}

/// How many decimal digits a number has.
pub open spec fn spec_digit_count(n: int) -> int
    decreases n,
{
    if n < 10 {
        1
    } else {
        1 + spec_digit_count(n / 10)
    }
}

/// Powers of ten.
spec fn pow10(k: nat) -> int
    decreases k,
{
    if k == 0 {
        1
    } else {
        10 * pow10((k - 1) as nat)
    }
}

/// Every nonnegative number has at least one digit.
proof fn lemma_digit_count_pos(n: int)
    requires
        0 <= n,
    ensures
        spec_digit_count(n) >= 1,
    decreases n,
{
    if n >= 10 {
        vstd::arithmetic::div_mod::lemma_div_pos_is_pos(n, 10);
        vstd::arithmetic::div_mod::lemma_div_is_strictly_smaller(n, 10);
        lemma_digit_count_pos(n / 10);
    }
}

/// A number below the `k`-th power of ten has at most `k` digits.
proof fn lemma_digit_count_le(n: int, k: nat)
    requires
        1 <= k,
        0 <= n < pow10(k),
    ensures
        1 <= spec_digit_count(n) <= k,
    decreases k,
{
    if n >= 10 {
        assert(pow10(k) == 10 * pow10((k - 1) as nat));
        vstd::arithmetic::div_mod::lemma_div_pos_is_pos(n as int, 10);
        vstd::arithmetic::div_mod::lemma_div_is_ordered(n, 10 * pow10((k - 1) as nat) - 1, 10);
        crate::render::lemma_sub_one_div(10, pow10((k - 1) as nat));
        lemma_digit_count_le(n / 10, (k - 1) as nat);
    }
}

/// Every 32-bit number has at most ten digits.
proof fn lemma_digit_count_u32(n: u32)
    ensures
        1 <= spec_digit_count(n as int) <= 10,
{
    reveal_with_fuel(pow10, 11);
    assert(pow10(10) == 10_000_000_000);
    lemma_digit_count_le(n as int, 10);
}

/// The number a digit sequence denotes, most significant digit first.
pub open spec fn spec_digits_value(s: Seq<u8>) -> int
    decreases s.len(),
{
    if s.len() == 0 {
        0
    } else {
        spec_digits_value(s.drop_last()) * 10 + s.last()
    }
}

/// The decimal digits of `n`, most significant first: every element is
/// a digit, there is at least one, there is no leading zero unless the
/// number is zero, and together they denote `n`.
pub fn digits_of(n: u32) -> (ds: Vec<u8>)
    ensures
        1 <= ds@.len() <= 10,
        forall|k: int| 0 <= k < ds@.len() ==> #[trigger] ds@[k] < 10,
        spec_digits_value(ds@) == n,
        ds@.len() > 1 ==> ds@[0] != 0,
{
    let mut ds: Vec<u8> = Vec::new();
    push_digits(&mut ds, n);
    proof {
        lemma_digit_count_u32(n);
        assert(ds@.subrange(0, ds@.len() as int) =~= ds@);
    }
    ds
}

/// Pushes the decimal digits of `n`, most significant first, onto the
/// end of the vector.
fn push_digits(ds: &mut Vec<u8>, n: u32)
    ensures
        final(ds)@.len() == old(ds)@.len() + spec_digit_count(n as int),
        final(ds)@.subrange(0, old(ds)@.len() as int) == old(ds)@,
        forall|k: int| old(ds)@.len() <= k < final(ds)@.len() ==> #[trigger] final(ds)@[k] < 10,
        spec_digits_value(final(ds)@.subrange(old(ds)@.len() as int,
            final(ds)@.len() as int)) == n,
        n >= 10 || final(ds)@.len() == old(ds)@.len() + 1,
        n >= 10 ==> final(ds)@[old(ds)@.len() as int] != 0,
    decreases n,
{
    if n >= 10 {
        proof {
            vstd::arithmetic::div_mod::lemma_mod_bound(n as int, 10);
            vstd::arithmetic::div_mod::lemma_div_pos_is_pos(n as int, 10);
            vstd::arithmetic::div_mod::lemma_div_is_strictly_smaller(n as int, 10);
            vstd::arithmetic::div_mod::lemma_fundamental_div_mod(n as int, 10);
        }
        let q: u32 = n / 10;
        let r: u8 = (n % 10) as u8;
        let ghost mid_len: int = old(ds)@.len() as int;
        push_digits(ds, q);
        let ghost before = ds@;
        ds.push(r);
        proof {
            lemma_digit_count_pos(q as int);
            assert(ds@.subrange(mid_len, ds@.len() - 1)
                =~= before.subrange(mid_len, before.len() as int));
            assert(ds@.subrange(mid_len, ds@.len() as int).drop_last()
                =~= ds@.subrange(mid_len, ds@.len() - 1));
            assert(ds@.subrange(mid_len, ds@.len() as int).last() == r);
            assert(ds@.subrange(0, mid_len) =~= before.subrange(0, mid_len));
            lemma_digits_value_last(ds@.subrange(mid_len, ds@.len() as int),
                before.subrange(mid_len, before.len() as int), r);
            assert(spec_digits_value(before.subrange(mid_len, before.len() as int)) == q);
            assert(n == 10 * (n as int / 10) + (n as int % 10));
            assert(spec_digits_value(ds@.subrange(mid_len, ds@.len() as int)) == n);
        }
    } else {
        let ghost before = ds@;
        ds.push(n as u8);
        proof {
            let tail = ds@.subrange(before.len() as int, ds@.len() as int);
            assert(tail.len() == 1 && tail.last() == n as u8);
            assert(tail.drop_last() =~= Seq::<u8>::empty());
            assert(spec_digits_value(Seq::<u8>::empty()) == 0);
            assert(spec_digits_value(tail)
                == spec_digits_value(tail.drop_last()) * 10 + tail.last());
            assert(ds@.subrange(0, before.len() as int) =~= before);
        }
    }
}

/// Appending a digit multiplies the denoted number by ten and adds it.
proof fn lemma_digits_value_last(s: Seq<u8>, prefix: Seq<u8>, d: u8)
    requires
        s.len() >= 1,
        s.drop_last() == prefix,
        s.last() == d,
    ensures
        spec_digits_value(s) == spec_digits_value(prefix) * 10 + d,
{
}

/// The glyph of one decimal digit on the three-by-five cell grid, one
/// bit per cell, row by row from the top, least significant bit first.
pub open spec fn spec_digit_glyph(d: int) -> u16 {
    if d == 0 {
        0x7b6f
    } else if d == 1 {
        0x749a
    } else if d == 2 {
        0x73e7
    } else if d == 3 {
        0x79e7
    } else if d == 4 {
        0x49ed
    } else if d == 5 {
        0x79cf
    } else if d == 6 {
        0x7bcf
    } else if d == 7 {
        0x4927
    } else if d == 8 {
        0x7bef
    } else {
        0x79ef
    }
}

/// The glyphs of the label characters the readout uses; any other
/// character has an empty glyph and draws nothing.
pub open spec fn spec_symbol_glyph(c: char) -> u16 {
    if c == 'F' {
        0x13cf
    } else if c == 'P' {
        0x13ef
    } else if c == 'S' {
        0x79cf
    } else if c == ':' {
        0x410
    } else {
        0
    }
}

fn digit_glyph(d: u8) -> (bits: u16)
    requires
        d < 10,
    ensures
        bits == spec_digit_glyph(d as int),
{
    match d {
        0 => 0x7b6f,
        1 => 0x749a,
        2 => 0x73e7,
        3 => 0x79e7,
        4 => 0x49ed,
        5 => 0x79cf,
        6 => 0x7bcf,
        7 => 0x4927,
        8 => 0x7bef,
        _ => 0x79ef,
    }
}

fn symbol_glyph(c: char) -> (bits: u16)
    ensures
        bits == spec_symbol_glyph(c),
{
    if c == 'F' {
        0x13cf
    } else if c == 'P' {
        0x13ef
    } else if c == 'S' {
        0x79cf
    } else if c == ':' {
        0x410
    } else {
        0
    }
}

/// Draws one fifteen-bit glyph at `(x, y)`, each lit cell as a white
/// square of side `scale`; an empty glyph draws nothing at all.
fn render_glyph(fb: &mut Framebuffer, bits: u16, x: usize, y: usize, scale: usize)
    requires
        old(fb).wf(),
        x <= 2_000_000,
        y <= 2_000_000,
        1 <= scale <= 1_000,
    ensures
        final(fb).wf(),
        final(fb).width == old(fb).width,
        final(fb).height == old(fb).height,
        final(fb).bg() == old(fb).bg(),
        final(fb).buffer.len() == old(fb).buffer.len(),
        forall|idx: int| 0 <= idx < old(fb).buffer.len()
            && final(fb).buffer[idx] != old(fb).buffer[idx]
            ==> final(fb).buffer[idx] == 0xFFFFFF,
        bits == 0 ==> final(fb).buffer == old(fb).buffer,
{
    let white = Color::white();
    let hex = white.to_hex();
    fb.set_current_color(hex);
    let mut row: usize = 0;
    while row < 5
        invariant
            fb.wf(),
            fb.width == old(fb).width,
            fb.height == old(fb).height,
            fb.bg() == old(fb).bg(),
            fb.buffer.len() == old(fb).buffer.len(),
            fb.draw_color() == 0xFFFFFF,
            x <= 2_000_000,
            y <= 2_000_000,
            1 <= scale <= 1_000,
            row <= 5,
            forall|idx: int| 0 <= idx < old(fb).buffer.len()
                && fb.buffer[idx] != old(fb).buffer[idx]
                ==> fb.buffer[idx] == 0xFFFFFF,
            bits == 0 ==> fb.buffer == old(fb).buffer,
        decreases 5 - row,
    {
        let mut col: usize = 0;
        while col < 3
            invariant
                fb.wf(),
                fb.width == old(fb).width,
                fb.height == old(fb).height,
                fb.bg() == old(fb).bg(),
                fb.buffer.len() == old(fb).buffer.len(),
                fb.draw_color() == 0xFFFFFF,
                x <= 2_000_000,
                y <= 2_000_000,
                1 <= scale <= 1_000,
                row < 5,
                col <= 3,
                forall|idx: int| 0 <= idx < old(fb).buffer.len()
                    && fb.buffer[idx] != old(fb).buffer[idx]
                    ==> fb.buffer[idx] == 0xFFFFFF,
                bits == 0 ==> fb.buffer == old(fb).buffer,
            decreases 3 - col,
        {
            proof {
                assert(col * scale <= 3000 && row * scale <= 5000) by (nonlinear_arith)
                    requires col < 3 && row < 5 && 0 <= scale <= 1000;
            }
            let bit_index: usize = row * 3 + col;
            proof {
                assert(bits == 0 ==> (bits >> (bit_index as u16)) & 1 != 1)
                    by (bit_vector);
            }
            if (bits >> (bit_index as u16)) & 1 == 1 {
                let mut i: usize = 0;
                while i < scale
                    invariant
                        fb.wf(),
                        fb.width == old(fb).width,
                        fb.height == old(fb).height,
                        fb.bg() == old(fb).bg(),
                        fb.buffer.len() == old(fb).buffer.len(),
                        fb.draw_color() == 0xFFFFFF,
                        x <= 2_000_000,
                        y <= 2_000_000,
                        1 <= scale <= 1_000,
                        row < 5,
                        col < 3,
                        col * scale <= 3000,
                        row * scale <= 5000,
                        i <= scale,
                        forall|idx: int| 0 <= idx < old(fb).buffer.len()
                            && fb.buffer[idx] != old(fb).buffer[idx]
                            ==> fb.buffer[idx] == 0xFFFFFF,
                    decreases scale - i,
                {
                    let mut j: usize = 0;
                    while j < scale
                        invariant
                            fb.wf(),
                            fb.width == old(fb).width,
                            fb.height == old(fb).height,
                            fb.bg() == old(fb).bg(),
                            fb.buffer.len() == old(fb).buffer.len(),
                            fb.draw_color() == 0xFFFFFF,
                            x <= 2_000_000,
                            y <= 2_000_000,
                            1 <= scale <= 1_000,
                            row < 5,
                            col < 3,
                            col * scale <= 3000,
                            row * scale <= 5000,
                            i < scale,
                            j <= scale,
                            forall|idx: int| 0 <= idx < old(fb).buffer.len()
                                && fb.buffer[idx] != old(fb).buffer[idx]
                                ==> fb.buffer[idx] == 0xFFFFFF,
                        decreases scale - j,
                    {
                        fb.point(x + col * scale + i, y + row * scale + j);
                        j = j + 1;
                    }
                    i = i + 1;
                }
            }
            col = col + 1;
        }
        row = row + 1;
    }
}

/// Draws one decimal digit's glyph.
pub fn render_digit(fb: &mut Framebuffer, digit: usize, x: usize, y: usize, scale: usize)
    requires
        old(fb).wf(),
        digit < 10,
        x <= 2_000_000,
        y <= 2_000_000,
        1 <= scale <= 1_000,
    ensures
        final(fb).wf(),
        final(fb).width == old(fb).width,
        final(fb).height == old(fb).height,
        final(fb).bg() == old(fb).bg(),
        final(fb).buffer.len() == old(fb).buffer.len(),
        forall|idx: int| 0 <= idx < old(fb).buffer.len()
            && final(fb).buffer[idx] != old(fb).buffer[idx]
            ==> final(fb).buffer[idx] == 0xFFFFFF,
{
    let bits = digit_glyph(digit as u8);
    render_glyph(fb, bits, x, y, scale);
}

/// Draws one label character's glyph; a character without a glyph
/// draws nothing and leaves the surface untouched.
pub fn render_symbol(fb: &mut Framebuffer, symbol: char, x: usize, y: usize, scale: usize)
    requires
        old(fb).wf(),
        x <= 2_000_000,
        y <= 2_000_000,
        1 <= scale <= 1_000,
    ensures
        final(fb).wf(),
        final(fb).width == old(fb).width,
        final(fb).height == old(fb).height,
        final(fb).bg() == old(fb).bg(),
        final(fb).buffer.len() == old(fb).buffer.len(),
        forall|idx: int| 0 <= idx < old(fb).buffer.len()
            && final(fb).buffer[idx] != old(fb).buffer[idx]
            ==> final(fb).buffer[idx] == 0xFFFFFF,
        spec_symbol_glyph(symbol) == 0 ==> final(fb).buffer == old(fb).buffer,
{
    let bits = symbol_glyph(symbol);
    render_glyph(fb, bits, x, y, scale);
}

/// Draws a line of text: digits by their glyphs, the label characters
/// by theirs, anything else as a blank advance. Everything drawn is
/// white.
pub fn render_text(fb: &mut Framebuffer, text: &Vec<char>, x: usize, y: usize, scale: usize)
    requires
        old(fb).wf(),
        x <= 1_000_000,
        y <= 1_000_000,
        1 <= scale <= 1_000,
        text.len() <= 100,
    ensures
        final(fb).wf(),
        final(fb).width == old(fb).width,
        final(fb).height == old(fb).height,
        final(fb).bg() == old(fb).bg(),
        final(fb).buffer.len() == old(fb).buffer.len(),
        forall|idx: int| 0 <= idx < old(fb).buffer.len()
            && final(fb).buffer[idx] != old(fb).buffer[idx]
            ==> final(fb).buffer[idx] == 0xFFFFFF,
{
    let mut offset_x: usize = x;
    let mut k: usize = 0;
    while k < text.len()
        invariant
            fb.wf(),
            fb.width == old(fb).width,
            fb.height == old(fb).height,
            fb.bg() == old(fb).bg(),
            fb.buffer.len() == old(fb).buffer.len(),
            x <= 1_000_000,
            y <= 1_000_000,
            1 <= scale <= 1_000,
            text.len() <= 100,
            k <= text.len(),
            offset_x == x + k * (4 * scale),
            offset_x <= 1_400_000,
            forall|idx: int| 0 <= idx < old(fb).buffer.len()
                && fb.buffer[idx] != old(fb).buffer[idx]
                ==> fb.buffer[idx] == 0xFFFFFF,
        decreases text.len() - k,
    {
        proof {
            assert((k + 1) * (4 * scale) == k * (4 * scale) + 4 * scale
                    && (k + 1) * (4 * scale) <= 400_000) by (nonlinear_arith)
                requires 0 <= k < 100 && 1 <= scale <= 1000;
        }
        let c = text[k];
        match c {
            '0' => render_digit(fb, 0, offset_x, y, scale),
            '1' => render_digit(fb, 1, offset_x, y, scale),
            '2' => render_digit(fb, 2, offset_x, y, scale),
            '3' => render_digit(fb, 3, offset_x, y, scale),
            '4' => render_digit(fb, 4, offset_x, y, scale),
            '5' => render_digit(fb, 5, offset_x, y, scale),
            '6' => render_digit(fb, 6, offset_x, y, scale),
            '7' => render_digit(fb, 7, offset_x, y, scale),
            '8' => render_digit(fb, 8, offset_x, y, scale),
            '9' => render_digit(fb, 9, offset_x, y, scale),
            _ => render_symbol(fb, c, offset_x, y, scale),
        }
        offset_x = offset_x + 4 * scale;
        k = k + 1;
    }
}

} // verus!
