//! The pixel surface: a dense row-major buffer of packed colors, a
//! background color used by `clear`, and a current draw color used by
//! `point`. Out-of-range writes are dropped silently; that is how edge
//! rays and clipped wall slices are discarded.

use vstd::prelude::*;

verus! {

pub struct Framebuffer {
    pub width: usize,
    pub height: usize,
    pub buffer: Vec<u32>,
    pub background_color: u32,
    pub current_color: u32,
}

impl Framebuffer {
    /// The buffer always holds exactly one packed color per pixel.
    pub open spec fn wf(self) -> bool {
        self.buffer.len() == self.width * self.height
    }

    /// The color `clear` fills with.
    pub open spec fn bg(self) -> u32 {
        self.background_color
    }

    /// The color the next `point` writes.
    pub open spec fn draw_color(self) -> u32 {
        self.current_color
    }

    /// The buffer index of the pixel at `(x, y)`.
    pub open spec fn idx(self, x: int, y: int) -> int {
        y * self.width + x
    }

    /// The stored color of the pixel at `(x, y)`.
    pub open spec fn pixel(self, x: int, y: int) -> u32 {
        self.buffer[y * self.width + x]
    }

    pub fn new(width: usize, height: usize) -> (fb: Self)
        requires
            width * height <= usize::MAX,
        ensures
            fb.wf(),
            fb.width == width,
            fb.height == height,
            fb.bg() == 0,
            fb.draw_color() == 0xFFFFFF,
            forall|i: int| 0 <= i < fb.buffer.len() ==> fb.buffer[i] == 0,
    {
        let n: usize = width * height;
        let mut buffer: Vec<u32> = Vec::new();
        let mut i: usize = 0;
        while i < n
            invariant
                i <= n,
                buffer.len() == i,
                forall|k: int| 0 <= k < i ==> buffer[k] == 0,
            decreases n - i,
        {
            buffer.push(0);
            i = i + 1;
        }
        Self { width, height, buffer, background_color: 0, current_color: 0xFFFFFF }
    }

    /// Fills every pixel with the background color.
    pub fn clear(&mut self)
        ensures
            final(self).width == old(self).width,
            final(self).height == old(self).height,
            final(self).bg() == old(self).bg(),
            final(self).draw_color() == old(self).draw_color(),
            final(self).buffer.len() == old(self).buffer.len(),
            forall|i: int| 0 <= i < final(self).buffer.len()
                ==> final(self).buffer[i] == old(self).bg(),
    {
        let n: usize = self.buffer.len();
        let mut i: usize = 0;
        while i < n
            invariant
                i <= n,
                n == self.buffer.len(),
                self.width == old(self).width,
                self.height == old(self).height,
                self.background_color == old(self).background_color,
                self.current_color == old(self).current_color,
                forall|k: int| 0 <= k < i ==> self.buffer[k] == self.background_color,
            decreases n - i,
        {
            let c: u32 = self.background_color;
            self.buffer.set(i, c);
            i = i + 1;
        }
    }

    /// Writes the current draw color at `(x, y)` iff both coordinates are
    /// in range; an out-of-range write changes nothing.
    pub fn point(&mut self, x: usize, y: usize)
        requires
            old(self).wf(),
        ensures
            final(self).wf(),
            final(self).width == old(self).width,
            final(self).height == old(self).height,
            final(self).bg() == old(self).bg(),
            final(self).draw_color() == old(self).draw_color(),
            final(self).buffer.len() == old(self).buffer.len(),
            x < old(self).width && y < old(self).height ==> {
                &&& final(self).buffer[old(self).idx(x as int, y as int)]
                        == old(self).draw_color()
                &&& forall|i: int| 0 <= i < old(self).buffer.len()
                        && i != old(self).idx(x as int, y as int)
                        ==> final(self).buffer[i] == old(self).buffer[i]
            },
            !(x < old(self).width && y < old(self).height)
                ==> final(self).buffer == old(self).buffer,
    {
        if x < self.width && y < self.height {
            proof {
                lemma_row_major_index_in_range(
                    self.width as int, self.height as int, x as int, y as int);
            }
            let index: usize = y * self.width + x;
            let c: u32 = self.current_color;
            self.buffer.set(index, c);
        }
    }

    pub fn set_background_color(&mut self, color: u32)
        ensures
            *final(self) == (Framebuffer { background_color: color, ..*old(self) }),
    {
        self.background_color = color;
    }

    pub fn set_current_color(&mut self, color: u32)
        ensures
            *final(self) == (Framebuffer { current_color: color, ..*old(self) }),
    {
        self.current_color = color;
    }
}

/// A row-major index of an in-range pixel lies inside the buffer.
pub proof fn lemma_row_major_index_in_range(w: int, h: int, x: int, y: int)
    by (nonlinear_arith)
    requires
        0 <= x < w,
        0 <= y < h,
    ensures
        0 <= y * w + x < w * h,
{
}

} // verus!
