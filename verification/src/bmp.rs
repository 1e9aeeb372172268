//! Serialization of the pixel surface to a 24-bit uncompressed bitmap:
//! a 14-byte file header and a 40-byte info header, both little-endian,
//! then the pixel rows bottom to top, three bytes per pixel in
//! blue-green-red order, each row zero-padded to a multiple of four
//! bytes. Building the bytes is pure; writing them to disk is the
//! caller's business.

use vstd::prelude::*;
use vstd::arithmetic::div_mod::{
    lemma_div_pos_is_pos, lemma_fundamental_div_mod, lemma_mod_bound,
};
use crate::framebuffer::Framebuffer;

verus! {

/// Bytes per stored pixel row: three per pixel, padded to a multiple
/// of four.
pub open spec fn spec_row_bytes(w: int) -> int {
    ((3 * w + 3) / 4) * 4
}

/// The size in bytes of the whole bitmap file.
pub open spec fn spec_bmp_size(w: int, h: int) -> int {
    54 + h * spec_row_bytes(w)
}

/// The byte offset of the pixel at `(x, y)`: rows are stored bottom to
/// top, three bytes per pixel.
pub open spec fn spec_bmp_pixel_off(w: int, h: int, x: int, y: int) -> int {
    54 + (h - 1 - y) * spec_row_bytes(w) + 3 * x
}

/// The blue channel of a packed color.
pub open spec fn spec_blue(p: u32) -> int {
    (p as int) % 256
}

/// The green channel of a packed color.
pub open spec fn spec_green(p: u32) -> int {
    ((p as int) / 256) % 256
}

/// The red channel of a packed color.
pub open spec fn spec_red_ch(p: u32) -> int {
    ((p as int) / 65536) % 256
}

/// Byte `k` of a value stored as four little-endian bytes.
pub open spec fn spec_le32(v: int, k: int) -> int {
    if k == 0 {
        v % 256
    } else if k == 1 {
        (v / 256) % 256
    } else if k == 2 {
        (v / 65536) % 256
    } else {
        (v / 16777216) % 256
    }
}

/// The complete 54-byte bitmap header for a `w` by `h` surface: the
/// magic bytes, the file size, the zero reserved words, the pixel
/// data offset, the 40-byte info header with the extent, one plane,
/// 24 bits per pixel, no compression, the pixel data size, and zeros
/// for the resolution and palette fields.
pub open spec fn spec_bmp_header(bytes: Seq<u8>, w: int, h: int) -> bool {
    let size = spec_bmp_size(w, h);
    &&& bytes[0] == 0x42
    &&& bytes[1] == 0x4D
    &&& bytes[2] == spec_le32(size, 0)
    &&& bytes[3] == spec_le32(size, 1)
    &&& bytes[4] == spec_le32(size, 2)
    &&& bytes[5] == spec_le32(size, 3)
    &&& bytes[6] == 0
    &&& bytes[7] == 0
    &&& bytes[8] == 0
    &&& bytes[9] == 0
    &&& bytes[10] == 54
    &&& bytes[11] == 0
    &&& bytes[12] == 0
    &&& bytes[13] == 0
    &&& bytes[14] == 40
    &&& bytes[15] == 0
    &&& bytes[16] == 0
    &&& bytes[17] == 0
    &&& bytes[18] == spec_le32(w, 0)
    &&& bytes[19] == spec_le32(w, 1)
    &&& bytes[20] == spec_le32(w, 2)
    &&& bytes[21] == spec_le32(w, 3)
    &&& bytes[22] == spec_le32(h, 0)
    &&& bytes[23] == spec_le32(h, 1)
    &&& bytes[24] == spec_le32(h, 2)
    &&& bytes[25] == spec_le32(h, 3)
    &&& bytes[26] == 1
    &&& bytes[27] == 0
    &&& bytes[28] == 24
    &&& bytes[29] == 0
    &&& bytes[30] == 0
    &&& bytes[31] == 0
    &&& bytes[32] == 0
    &&& bytes[33] == 0
    &&& bytes[34] == spec_le32(size - 54, 0)
    &&& bytes[35] == spec_le32(size - 54, 1)
    &&& bytes[36] == spec_le32(size - 54, 2)
    &&& bytes[37] == spec_le32(size - 54, 3)
    &&& bytes[38] == 0
    &&& bytes[39] == 0
    &&& bytes[40] == 0
    &&& bytes[41] == 0
    &&& bytes[42] == 0
    &&& bytes[43] == 0
    &&& bytes[44] == 0
    &&& bytes[45] == 0
    &&& bytes[46] == 0
    &&& bytes[47] == 0
    &&& bytes[48] == 0
    &&& bytes[49] == 0
    &&& bytes[50] == 0
    &&& bytes[51] == 0
    &&& bytes[52] == 0
    &&& bytes[53] == 0
}

/// Byte `k` of the stored row `yi` (bottom to top) is zero; with `k`
/// past the pixel bytes this is the row's padding.
pub open spec fn padding_zero_at(bytes: Seq<u8>, w: int, yi: int, k: int) -> bool {
    bytes[54 + yi * spec_row_bytes(w) + k] == 0
}

/// The three bytes at the pixel's offset hold its blue, green and red
/// channels.
pub open spec fn pixel_encoded_at(
    bytes: Seq<u8>, buf: Seq<u32>, w: int, h: int, x: int, y: int,
) -> bool {
    let off = spec_bmp_pixel_off(w, h, x, y);
    let p = buf[y * w + x];
    &&& bytes[off] == spec_blue(p)
    &&& bytes[off + 1] == spec_green(p)
    &&& bytes[off + 2] == spec_red_ch(p)
}

fn push_pixel(v: &mut Vec<u8>, p: u32)
    ensures
        final(v)@.len() == old(v)@.len() + 3,
        forall|i: int| 0 <= i < old(v)@.len() ==> final(v)@[i] == old(v)@[i],
        final(v)@[old(v)@.len() as int] == spec_blue(p),
        final(v)@[old(v)@.len() as int + 1] == spec_green(p),
        final(v)@[old(v)@.len() as int + 2] == spec_red_ch(p),
{
    proof {
        lemma_mod_bound(p as int, 256);
        lemma_mod_bound((p as int) / 256, 256);
        lemma_mod_bound((p as int) / 65536, 256);
        lemma_div_pos_is_pos(p as int, 256);
        lemma_div_pos_is_pos(p as int, 65536);
    }
    v.push((p % 256) as u8);
    v.push((p / 256 % 256) as u8);
    v.push((p / 65536 % 256) as u8);
}

fn push_u32_le(v: &mut Vec<u8>, x: u32)
    ensures
        final(v)@.len() == old(v)@.len() + 4,
        forall|i: int| 0 <= i < old(v)@.len() ==> final(v)@[i] == old(v)@[i],
        final(v)@[old(v)@.len() as int] == (x as int) % 256,
        final(v)@[old(v)@.len() as int + 1] == ((x as int) / 256) % 256,
        final(v)@[old(v)@.len() as int + 2] == ((x as int) / 65536) % 256,
        final(v)@[old(v)@.len() as int + 3] == ((x as int) / 16777216) % 256,
{
    proof {
        lemma_mod_bound(x as int, 256);
        lemma_mod_bound((x as int) / 256, 256);
        lemma_mod_bound((x as int) / 65536, 256);
        lemma_mod_bound((x as int) / 16777216, 256);
        lemma_div_pos_is_pos(x as int, 256);
        lemma_div_pos_is_pos(x as int, 65536);
        lemma_div_pos_is_pos(x as int, 16777216);
    }
    v.push((x % 256) as u8);
    v.push((x / 256 % 256) as u8);
    v.push((x / 65536 % 256) as u8);
    v.push((x / 16777216 % 256) as u8);
}

fn push_u16_le(v: &mut Vec<u8>, x: u16)
    ensures
        final(v)@.len() == old(v)@.len() + 2,
        forall|i: int| 0 <= i < old(v)@.len() ==> final(v)@[i] == old(v)@[i],
        final(v)@[old(v)@.len() as int] == (x as int) % 256,
        final(v)@[old(v)@.len() as int + 1] == ((x as int) / 256) % 256,
{
    proof {
        lemma_mod_bound(x as int, 256);
        lemma_div_pos_is_pos(x as int, 256);
        lemma_mod_bound((x as int) / 256, 256);
    }
    v.push((x % 256) as u8);
    v.push((x / 256 % 256) as u8);
}

/// The row stride is at least the raw pixel bytes and less than four
/// bytes more.
pub proof fn lemma_row_bytes_bounds(w: int)
    requires
        0 <= w,
    ensures
        3 * w <= spec_row_bytes(w) < 3 * w + 4,
        spec_row_bytes(w) % 4 == 0,
{
    lemma_fundamental_div_mod(3 * w + 3, 4);
    lemma_mod_bound(3 * w + 3, 4);
    let q = (3 * w + 3) / 4;
    assert(q * 4 == 4 * q) by (nonlinear_arith);
    vstd::arithmetic::div_mod::lemma_mod_multiples_basic(q, 4);
}

/// Serializes a pixel buffer as a complete bitmap file. The length of
/// the result is exactly the size a bitmap of this extent takes, the
/// size field in the header equals that length, the remaining header
/// fields hold the bitmap's fixed layout and the buffer's extent, and
/// every pixel's three channel bytes sit at the offset of its
/// bottom-to-top row.
pub fn bmp_file_bytes(buffer: &Vec<u32>, width: usize, height: usize) -> (r: Vec<u8>)
    requires
        buffer.len() == width * height,
        1 <= width <= 20_000,
        1 <= height <= 20_000,
    ensures
        r@.len() == spec_bmp_size(width as int, height as int),
        spec_bmp_header(r@, width as int, height as int),
        forall|x: int, y: int| 0 <= x < width && 0 <= y < height
            ==> #[trigger] pixel_encoded_at(r@, buffer@, width as int, height as int, x, y),
        forall|yi: int, k: int| 0 <= yi < height
            && 3 * width <= k < spec_row_bytes(width as int)
            ==> #[trigger] padding_zero_at(r@, width as int, yi, k),
{
    let row: usize = (3 * width + 3) / 4 * 4;
    proof {
        lemma_row_bytes_bounds(width as int);
        assert((height as int) * (row as int) <= 20_000 * 60_004) by (nonlinear_arith)
            requires 0 <= row <= 60_003 && 0 <= height <= 20_000;
    }
    let size: u32 = 54 + (height as u32) * (row as u32);
    let pixel_bytes: u32 = size - 54;
    let mut r: Vec<u8> = Vec::new();
    r.push(0x42);
    r.push(0x4D);
    push_u32_le(&mut r, size);
    push_u32_le(&mut r, 0);
    push_u32_le(&mut r, 54);
    push_u32_le(&mut r, 40);
    push_u32_le(&mut r, width as u32);
    push_u32_le(&mut r, height as u32);
    push_u16_le(&mut r, 1);
    push_u16_le(&mut r, 24);
    push_u32_le(&mut r, 0);
    push_u32_le(&mut r, pixel_bytes);
    push_u32_le(&mut r, 0);
    push_u32_le(&mut r, 0);
    push_u32_le(&mut r, 0);
    push_u32_le(&mut r, 0);
    proof {
        assert(r@.len() == 54);
        assert((size as int) == spec_bmp_size(width as int, height as int));
        assert(spec_bmp_header(r@, width as int, height as int));
    }
    let ghost hdr = r@;
    let mut yi: usize = 0;
    while yi < height
        invariant
            buffer.len() == width * height,
            1 <= width <= 20_000,
            1 <= height <= 20_000,
            row == spec_row_bytes(width as int),
            3 * width <= row <= 3 * width + 3,
            yi <= height,
            r@.len() == 54 + yi * row,
            forall|i: int| 0 <= i < 54 ==> r@[i] == hdr[i],
            hdr.len() == 54,
            spec_bmp_header(hdr, width as int, height as int),
            forall|x2: int, y2: int| 0 <= x2 < width && height - yi <= y2 < height
                ==> #[trigger] pixel_encoded_at(r@, buffer@, width as int,
                        height as int, x2, y2),
            forall|yi2: int, k2: int| 0 <= yi2 < yi
                && 3 * width <= k2 < spec_row_bytes(width as int)
                ==> #[trigger] padding_zero_at(r@, width as int, yi2, k2),
        decreases height - yi,
    {
        let y: usize = height - 1 - yi;
        let ghost base: int = 54 + yi * row;
        let mut x: usize = 0;
        while x < width
            invariant
                buffer.len() == width * height,
                1 <= width <= 20_000,
                1 <= height <= 20_000,
                row == spec_row_bytes(width as int),
                3 * width <= row <= 3 * width + 3,
                yi < height,
                y == height - 1 - yi,
                base == 54 + yi * row,
                x <= width,
                r@.len() == base + 3 * x,
                forall|i: int| 0 <= i < 54 ==> r@[i] == hdr[i],
                forall|x2: int, y2: int| 0 <= x2 < width && height - yi <= y2 < height
                    ==> #[trigger] pixel_encoded_at(r@, buffer@, width as int,
                            height as int, x2, y2),
                forall|yi2: int, k2: int| 0 <= yi2 < yi
                    && 3 * width <= k2 < spec_row_bytes(width as int)
                    ==> #[trigger] padding_zero_at(r@, width as int, yi2, k2),
                forall|x2: int| 0 <= x2 < x
                    ==> #[trigger] pixel_encoded_at(r@, buffer@, width as int,
                            height as int, x2, y as int),
            decreases width - x,
        {
            proof {
                crate::framebuffer::lemma_row_major_index_in_range(width as int,
                    height as int, x as int, y as int);
            }
            let p: u32 = buffer[y * width + x];
            let ghost prev = r@;
            push_pixel(&mut r, p);
            proof {
                assert(spec_bmp_pixel_off(width as int, height as int, x as int, y as int)
                    == base + 3 * x);
                assert(pixel_encoded_at(r@, buffer@, width as int, height as int,
                    x as int, y as int));
                assert forall|x2: int, y2: int|
                    0 <= x2 < width && height - yi <= y2 < height
                        implies #[trigger] pixel_encoded_at(r@, buffer@, width as int,
                            height as int, x2, y2) by {
                    lemma_bmp_off_in_prefix(width as int, height as int, row as int,
                        x2, y2, yi as int);
                    assert(pixel_encoded_at(prev, buffer@, width as int, height as int,
                        x2, y2));
                }
                assert forall|x2: int| 0 <= x2 < x
                        implies #[trigger] pixel_encoded_at(r@, buffer@, width as int,
                            height as int, x2, y as int) by {
                    assert(pixel_encoded_at(prev, buffer@, width as int, height as int,
                        x2, y as int));
                }
                assert forall|yi2: int, k2: int| 0 <= yi2 < yi
                    && 3 * width <= k2 < spec_row_bytes(width as int)
                        implies #[trigger] padding_zero_at(r@, width as int, yi2, k2) by {
                    lemma_bmp_row_byte_in_prefix(width as int, row as int, yi2, k2,
                        yi as int);
                    assert(padding_zero_at(prev, width as int, yi2, k2));
                }
            }
            x = x + 1;
        }
        let pad: usize = row - 3 * width;
        let mut k: usize = 0;
        while k < pad
            invariant
                1 <= width <= 20_000,
                1 <= height <= 20_000,
                buffer.len() == width * height,
                row == spec_row_bytes(width as int),
                yi < height,
                y == height - 1 - yi,
                base == 54 + yi * row,
                pad == row - 3 * width,
                k <= pad,
                r@.len() == base + 3 * width + k,
                forall|i: int| 0 <= i < 54 ==> r@[i] == hdr[i],
                forall|x2: int, y2: int| 0 <= x2 < width && height - yi <= y2 < height
                    ==> #[trigger] pixel_encoded_at(r@, buffer@, width as int,
                            height as int, x2, y2),
                forall|yi2: int, k2: int| 0 <= yi2 < yi
                    && 3 * width <= k2 < spec_row_bytes(width as int)
                    ==> #[trigger] padding_zero_at(r@, width as int, yi2, k2),
                forall|k2: int| 3 * width <= k2 < 3 * width + k
                    ==> #[trigger] padding_zero_at(r@, width as int, yi as int, k2),
                forall|x2: int| 0 <= x2 < width
                    ==> #[trigger] pixel_encoded_at(r@, buffer@, width as int,
                            height as int, x2, y as int),
            decreases pad - k,
        {
            let ghost prev = r@;
            r.push(0);
            proof {
                assert forall|x2: int, y2: int|
                    0 <= x2 < width && height - yi <= y2 < height
                        implies #[trigger] pixel_encoded_at(r@, buffer@, width as int,
                            height as int, x2, y2) by {
                    lemma_bmp_off_in_prefix(width as int, height as int, row as int,
                        x2, y2, yi as int);
                    assert(pixel_encoded_at(prev, buffer@, width as int, height as int,
                        x2, y2));
                }
                assert forall|x2: int| 0 <= x2 < width
                        implies #[trigger] pixel_encoded_at(r@, buffer@, width as int,
                            height as int, x2, y as int) by {
                    assert(pixel_encoded_at(prev, buffer@, width as int, height as int,
                        x2, y as int));
                }
                assert forall|yi2: int, k2: int| 0 <= yi2 < yi
                    && 3 * width <= k2 < spec_row_bytes(width as int)
                        implies #[trigger] padding_zero_at(r@, width as int, yi2, k2) by {
                    lemma_bmp_row_byte_in_prefix(width as int, row as int, yi2, k2,
                        yi as int);
                    assert(padding_zero_at(prev, width as int, yi2, k2));
                }
                assert forall|k2: int| 3 * width <= k2 < 3 * width + k + 1
                        implies #[trigger] padding_zero_at(r@, width as int,
                            yi as int, k2) by {
                    if k2 < 3 * width + k {
                        assert(padding_zero_at(prev, width as int, yi as int, k2));
                    } else {
                        assert(r@[54 + yi * (row as int) + k2] == 0);
                    }
                }
            }
            k = k + 1;
        }
        proof {
            assert((yi + 1) * row == yi * row + row) by (nonlinear_arith);
            assert forall|x2: int, y2: int|
                0 <= x2 < width && height - (yi + 1) <= y2 < height
                    implies #[trigger] pixel_encoded_at(r@, buffer@, width as int,
                        height as int, x2, y2) by {
                if y2 == y {
                    assert(pixel_encoded_at(r@, buffer@, width as int, height as int,
                        x2, y as int));
                }
            }
            assert forall|yi2: int, k2: int| 0 <= yi2 < yi + 1
                && 3 * width <= k2 < spec_row_bytes(width as int)
                    implies #[trigger] padding_zero_at(r@, width as int, yi2, k2) by {
                if yi2 == yi {
                    assert(padding_zero_at(r@, width as int, yi as int, k2));
                }
            }
        }
        yi = yi + 1;
    }
    r
}

/// A byte of a stored row already written lies strictly before the
/// write position.
proof fn lemma_bmp_row_byte_in_prefix(w: int, row: int, yi2: int, k2: int, yi: int)
    requires
        1 <= w,
        row == spec_row_bytes(w),
        0 <= yi2 < yi,
        0 <= k2 < row,
    ensures
        0 <= 54 + yi2 * row + k2,
        54 + yi2 * row + k2 < 54 + yi * row,
{
    lemma_row_bytes_bounds(w);
    assert(0 <= yi2 * row && yi2 * row + row <= yi * row) by (nonlinear_arith)
        requires 0 <= yi2 < yi && row >= 3;
}

/// A pixel of a row already written lies wholly before the write
/// position.
proof fn lemma_bmp_off_in_prefix(w: int, h: int, row: int, x2: int, y2: int, yi: int)
    requires
        1 <= w,
        row == spec_row_bytes(w),
        0 <= x2 < w,
        h - yi <= y2 < h,
        0 <= yi,
    ensures
        54 <= spec_bmp_pixel_off(w, h, x2, y2),
        spec_bmp_pixel_off(w, h, x2, y2) + 3 <= 54 + yi * row,
{
    lemma_row_bytes_bounds(w);
    let q = h - 1 - y2;
    assert(0 <= q < yi);
    assert(0 <= q * row && q * row + row <= yi * row && 3 * x2 + 3 <= 3 * w)
        by (nonlinear_arith)
        requires 0 <= q < yi && row >= 3 && 0 <= x2 < w;
}

/// Rendering a pixel source as a bitmap. For a well-formed source of
/// moderate extent the result is exactly the serialized bitmap of its
/// pixels; for anything else it is empty.
pub trait WriteBmp {
    /// The packed pixels to serialize, row-major.
    spec fn bmp_pixels(&self) -> Seq<u32>;

    /// The pixel width of the source.
    spec fn bmp_width(&self) -> int;

    /// The pixel height of the source.
    spec fn bmp_height(&self) -> int;

    fn render_buffer(&self) -> (r: Vec<u8>)
        ensures
            ({
                let w = self.bmp_width();
                let h = self.bmp_height();
                if 1 <= w <= 20_000 && 1 <= h <= 20_000
                    && self.bmp_pixels().len() == w * h {
                    &&& r@.len() == spec_bmp_size(w, h)
                    &&& spec_bmp_header(r@, w, h)
                    &&& forall|x: int, y: int| 0 <= x < w && 0 <= y < h
                            ==> #[trigger] pixel_encoded_at(r@, self.bmp_pixels(),
                                    w, h, x, y)
                    &&& forall|yi: int, k: int| 0 <= yi < h
                            && 3 * w <= k < spec_row_bytes(w)
                            ==> #[trigger] padding_zero_at(r@, w, yi, k)
                } else {
                    r@.len() == 0
                }
            }),
    ;
}

impl WriteBmp for Framebuffer {
    open spec fn bmp_pixels(&self) -> Seq<u32> {
        self.buffer@
    }

    open spec fn bmp_width(&self) -> int {
        self.width as int
    }

    open spec fn bmp_height(&self) -> int {
        self.height as int
    }

    fn render_buffer(&self) -> Vec<u8> {
        if 1 <= self.width && self.width <= 20_000 && 1 <= self.height
            && self.height <= 20_000 {
            proof {
                assert(self.width * self.height <= 400_000_000) by (nonlinear_arith)
                    requires self.width <= 20_000 && self.height <= 20_000;
            }
            let need: usize = self.width * self.height;
            if self.buffer.len() == need {
                return bmp_file_bytes(&self.buffer, self.width, self.height);
            }
        }
        Vec::new()
    }
}

} // verus!
