//! An immutable RGBA texture: a dense width-by-height array of samples,
//! four bytes per texel. The renderers only read it. Decoding an image
//! file into the raw byte array happens outside the library; `new`
//! accepts the bytes only when they exactly fill the claimed extent.

use vstd::prelude::*;

verus! {

pub struct Texture {
    pub width: usize,
    pub height: usize,
    pub pixels: Vec<u8>,
}

impl Texture {
    /// Four bytes per texel, and a positive extent small enough that
    /// all sampling arithmetic stays comfortably in range.
    pub open spec fn wf(self) -> bool {
        &&& 1 <= self.width <= 16384
        &&& 1 <= self.height <= 16384
        &&& self.pixels.len() == self.width * self.height * 4
    }

    /// The packed `0x00RRGGBB` color of the texel at `(x, y)`.
    pub open spec fn spec_pixel(self, x: int, y: int) -> int {
        let idx = (y * self.width + x) * 4;
        (self.pixels[idx] as int) * 0x10000
            + (self.pixels[idx + 1] as int) * 0x100
            + (self.pixels[idx + 2] as int)
    }

    /// The alpha byte of the texel at `(x, y)`.
    pub open spec fn spec_alpha(self, x: int, y: int) -> int {
        self.pixels[(y * self.width + x) * 4 + 3] as int
    }

    /// Wraps raw RGBA bytes, accepting them iff they exactly fill a
    /// positive width-by-height extent.
    pub fn new(width: usize, height: usize, pixels: Vec<u8>) -> (r: Option<Texture>)
        ensures
            r is Some <==> (Texture { width, height, pixels }).wf(),
            r matches Some(t) ==> t == (Texture { width, height, pixels }),
    {
        if 1 <= width && width <= 16384 && 1 <= height && height <= 16384 {
            proof {
                assert(width * height * 4 <= 0x40000000) by (nonlinear_arith)
                    requires width <= 16384 && height <= 16384;
            }
            let need: usize = width * height * 4;
            if pixels.len() == need {
                return Some(Texture { width, height, pixels });
            }
        }
        None
    }

    /// Reads the packed color of an in-range texel.
    pub fn get_pixel(&self, x: usize, y: usize) -> (c: u32)
        requires
            self.wf(),
            x < self.width,
            y < self.height,
        ensures
            c == self.spec_pixel(x as int, y as int),
            c <= 0xFFFFFF,
    {
        proof {
            lemma_texel_index(self.width as int, self.height as int, x as int, y as int);
        }
        let index: usize = (y * self.width + x) * 4;
        let r = self.pixels[index] as u32;
        let g = self.pixels[index + 1] as u32;
        let b = self.pixels[index + 2] as u32;
        proof {
            lemma_pack_rgb(self.pixels[index as int], self.pixels[index + 1],
                self.pixels[index + 2]);
        }
        (r << 16) | (g << 8) | b
    }

    /// Reads the alpha byte of an in-range texel.
    pub fn alpha(&self, x: usize, y: usize) -> (a: u8)
        requires
            self.wf(),
            x < self.width,
            y < self.height,
        ensures
            a == self.spec_alpha(x as int, y as int),
    {
        proof {
            lemma_texel_index(self.width as int, self.height as int, x as int, y as int);
        }
        let index: usize = (y * self.width + x) * 4;
        self.pixels[index + 3]
    }
}

/// Four bytes of an in-range texel lie inside the byte array.
proof fn lemma_texel_index(w: int, h: int, x: int, y: int)
    by (nonlinear_arith)
    requires
        0 <= x < w,
        0 <= y < h,
        w <= 16384,
        h <= 16384,
    ensures
        0 <= (y * w + x) * 4,
        (y * w + x) * 4 + 3 < w * h * 4,
        w * h * 4 <= 0x40000000,
{
}

proof fn lemma_pack_rgb(r: u8, g: u8, b: u8)
    ensures
        ((r as u32) << 16) | ((g as u32) << 8) | (b as u32)
            == (r as u32) * 0x10000 + (g as u32) * 0x100 + (b as u32),
        ((r as u32) << 16) | ((g as u32) << 8) | (b as u32) <= 0xFFFFFF,
{
    assert(((r as u32) << 16) | ((g as u32) << 8) | (b as u32)
        == (r as u32) * 0x10000 + (g as u32) * 0x100 + (b as u32)
        && ((r as u32) << 16) | ((g as u32) << 8) | (b as u32) <= 0xFFFFFF) by (bit_vector);
}

} // verus!
