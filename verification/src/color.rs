//! Packed 24-bit colors for the pixel surface.

use vstd::prelude::*;

verus! {

/// An RGB color; `to_hex` packs it into the `0x00RRGGBB` form the
/// pixel surface stores.
pub struct Color {
    pub r: u8,
    pub g: u8,
    pub b: u8,
}

impl Color {
    pub fn new(r: u8, g: u8, b: u8) -> (c: Self)
        ensures
            c.r == r,
            c.g == g,
            c.b == b,
    {
        Self { r, g, b }
    }

    /// The packed form of a color: red in bits 16..24, green in 8..16,
    /// blue in 0..8.
    pub open spec fn spec_hex(self) -> int {
        (self.r as int) * 0x10000 + (self.g as int) * 0x100 + (self.b as int)
    }

    pub fn to_hex(&self) -> (h: u32)
        ensures
            h == self.spec_hex(),
    {
        proof {
            lemma_shift_pack(self.r, self.g, self.b);
        }
        ((self.r as u32) << 16) | ((self.g as u32) << 8) | (self.b as u32)
    }

    pub fn white() -> (c: Self)
        ensures
            c.r == 255 && c.g == 255 && c.b == 255,
    {
        Self::new(255, 255, 255)
    }

    pub fn red() -> (c: Self)
        ensures
            c.r == 255 && c.g == 0 && c.b == 0,
    {
        Self::new(255, 0, 0)
    }

    pub fn ground() -> (c: Self)
        ensures
            c.r == 159 && c.g == 175 && c.b == 200,
    {
        Self::new(159, 175, 200)
    }

    pub fn black() -> (c: Self)
        ensures
            c.r == 0 && c.g == 0 && c.b == 0,
    {
        Self::new(0, 0, 0)
    }

    /// The sky band's vertical gradient: a linear blend from black at
    /// the top of the screen to a deep night blue at the horizon,
    /// driven by the ratio `num / den` of the row to the half height.
    pub fn gradient_sky(num: u32, den: u32) -> (c: Self)
        requires
            1 <= den <= 100_000,
            num <= den,
        ensures
            c.r == spec_blend(0, 32, num as int, den as int),
            c.g == spec_blend(0, 30, num as int, den as int),
            c.b == spec_blend(0, 67, num as int, den as int),
    {
        let r = blend_channel(0, 32, num, den);
        let g = blend_channel(0, 30, num, den);
        let b = blend_channel(0, 67, num, den);
        Self::new(r, g, b)
    }
}

/// The linear blend `(a (den - num) + b num) / den`, rounded down: `a`
/// at ratio zero, `b` at ratio one.
pub open spec fn spec_blend(a: int, b: int, num: int, den: int) -> int {
    (a * (den - num) + b * num) / den
}

/// A blended channel stays between its endpoints.
pub proof fn lemma_blend_range(a: int, b: int, num: int, den: int)
    requires
        0 <= a <= 255,
        0 <= b <= 255,
        1 <= den,
        0 <= num <= den,
    ensures
        0 <= spec_blend(a, b, num, den) <= 255,
{
    let s = a * (den - num) + b * num;
    assert(0 <= s <= 255 * den) by (nonlinear_arith)
        requires s == a * (den - num) + b * num && 0 <= a <= 255 && 0 <= b <= 255
            && 0 <= num <= den && den >= 1;
    vstd::arithmetic::div_mod::lemma_div_pos_is_pos(s, den);
    vstd::arithmetic::div_mod::lemma_div_is_ordered(s, 255 * den, den);
    vstd::arithmetic::div_mod::lemma_div_multiples_vanish(255, den);
}

fn blend_channel(a: u8, b: u8, num: u32, den: u32) -> (r: u8)
    requires
        1 <= den <= 100_000,
        num <= den,
    ensures
        r == spec_blend(a as int, b as int, num as int, den as int),
{
    proof {
        lemma_blend_range(a as int, b as int, num as int, den as int);
        assert(0 <= (a as int) * ((den as int) - (num as int)) + (b as int) * (num as int)
                <= 51_000_000) by (nonlinear_arith)
            requires a <= 255 && b <= 255 && num <= den && den <= 100_000;
    }
    let s: u64 = (a as u64) * ((den as u64) - (num as u64)) + (b as u64) * (num as u64);
    (s / (den as u64)) as u8
}

/// Packing three bytes by shifts equals the positional sum.
proof fn lemma_shift_pack(r: u8, g: u8, b: u8)
    ensures
        ((r as u32) << 16) | ((g as u32) << 8) | (b as u32)
            == (r as u32) * 0x10000 + (g as u32) * 0x100 + (b as u32),
{
    assert(((r as u32) << 16) | ((g as u32) << 8) | (b as u32)
        == (r as u32) * 0x10000 + (g as u32) * 0x100 + (b as u32)) by (bit_vector);
}

} // verus!
