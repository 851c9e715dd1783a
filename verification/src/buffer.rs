//! A dense, row-major grid of 8-bit RGB pixels.

use vstd::prelude::*;

verus! {

/// A width x height canvas of 3-channel 8-bit pixels, row-major with the
/// origin at the top left. `data` holds the channels of pixel (x, y) at
/// offsets `3 * (y * width + x)` through `3 * (y * width + x) + 2`.
pub struct PixelBuffer {
    pub width: u32,
    pub height: u32,
    pub data: Vec<u8>,
}

/// A cell index `y * w + x` stays within the `w * h` grid.
pub proof fn lemma_cell_index_bounds(w: int, h: int, x: int, y: int)
    requires
        0 <= x < w,
        0 <= y < h,
    ensures
        0 <= y * w + x < w * h,
        3 * (y * w + x) + 2 < 3 * w * h,
{
    assert(0 <= y * w + x < w * h && 3 * (y * w + x) + 2 < 3 * w * h) by (nonlinear_arith)
        requires
            0 <= x < w,
            0 <= y < h,
    {
    }
}

/// Row-major order: an earlier pixel has a smaller cell index.
pub proof fn lemma_row_major_mono(w: int, x1: int, y1: int, x2: int, y2: int)
    requires
        0 <= x1 < w,
        0 <= x2 < w,
        0 <= y1,
        0 <= y2,
        y1 < y2 || (y1 == y2 && x1 < x2),
    ensures
        y1 * w + x1 < y2 * w + x2,
{
    assert(y1 * w + x1 < y2 * w + x2) by (nonlinear_arith)
        requires
            0 <= x1 < w,
            0 <= x2 < w,
            0 <= y1,
            0 <= y2,
            y1 < y2 || (y1 == y2 && x1 < x2),
    {
    }
}

/// Distinct coordinates have distinct cell indices.
pub proof fn lemma_cell_index_injective(w: int, x1: int, y1: int, x2: int, y2: int)
    requires
        0 <= x1 < w,
        0 <= x2 < w,
        0 <= y1,
        0 <= y2,
        y1 * w + x1 == y2 * w + x2,
    ensures
        x1 == x2 && y1 == y2,
{
    assert(x1 == x2 && y1 == y2) by (nonlinear_arith)
        requires
            0 <= x1 < w,
            0 <= x2 < w,
            0 <= y1,
            0 <= y2,
            y1 * w + x1 == y2 * w + x2,
    {
    }
}

impl PixelBuffer {
    /// The buffer holds exactly three channel bytes for every pixel.
    pub open spec fn wf(self) -> bool {
        self.data@.len() == 3 * (self.width as int) * (self.height as int)
    }

    /// Channel `c` (0 red, 1 green, 2 blue) of the pixel at column `x`, row `y`.
    pub open spec fn chan(self, x: int, y: int, c: int) -> u8 {
        self.data@[3 * (y * (self.width as int) + x) + c]
    }

    pub open spec fn in_bounds(self, x: int, y: int) -> bool {
        0 <= x < self.width && 0 <= y < self.height
    }

    /// Both buffers cover the same dimensions.
    pub open spec fn same_dims(self, other: PixelBuffer) -> bool {
        self.width == other.width && self.height == other.height
    }

    pub fn width(&self) -> (w: u32)
        ensures
            w == self.width,
    {
        self.width
    }

    pub fn height(&self) -> (h: u32)
        ensures
            h == self.height,
    {
        self.height
    }

    /// Byte offset of the first channel of pixel (x, y), with the bound that
    /// makes the three channel accesses safe.
    fn offset_of(&self, x: u32, y: u32) -> (idx: usize)
        requires
            self.wf(),
            self.in_bounds(x as int, y as int),
        ensures
            idx == 3 * (y * (self.width as int) + x),
            idx + 2 < self.data@.len(),
            idx + 2 <= usize::MAX,
    {
        proof {
            lemma_cell_index_bounds(
                self.width as int,
                self.height as int,
                x as int,
                y as int,
            );
        }
        let n: usize = self.data.len();
        let cell: usize = (y as usize) * (self.width as usize) + (x as usize);
        3 * cell
    }

    /// Read the three channels of pixel (x, y).
    pub fn get_pixel(&self, x: u32, y: u32) -> (rgb: (u8, u8, u8))
        requires
            self.wf(),
            self.in_bounds(x as int, y as int),
        ensures
            rgb.0 == self.chan(x as int, y as int, 0),
            rgb.1 == self.chan(x as int, y as int, 1),
            rgb.2 == self.chan(x as int, y as int, 2),
    {
        let idx = self.offset_of(x, y);
        (self.data[idx], self.data[idx + 1], self.data[idx + 2])
    }

    /// Overwrite the three channels of pixel (x, y), leaving every other
    /// pixel, and the dimensions, unchanged.
    pub fn put_pixel(&mut self, x: u32, y: u32, r: u8, g: u8, b: u8)
        requires
            old(self).wf(),
            old(self).in_bounds(x as int, y as int),
        ensures
            final(self).wf(),
            final(self).same_dims(*old(self)),
            final(self).chan(x as int, y as int, 0) == r,
            final(self).chan(x as int, y as int, 1) == g,
            final(self).chan(x as int, y as int, 2) == b,
            final(self).data@ == old(self).data@.update(
                3 * ((y as int) * (old(self).width as int) + (x as int)),
                r,
            ).update(3 * ((y as int) * (old(self).width as int) + (x as int)) + 1, g).update(
                3 * ((y as int) * (old(self).width as int) + (x as int)) + 2,
                b,
            ),
            forall|x2: int, y2: int, c2: int|
                old(self).in_bounds(x2, y2) && 0 <= c2 < 3 && !(x2 == x && y2 == y)
                    ==> final(self).chan(x2, y2, c2) == old(self).chan(x2, y2, c2),
    {
        let idx = self.offset_of(x, y);
        self.data.set(idx, r);
        self.data.set(idx + 1, g);
        self.data.set(idx + 2, b);
        proof {
            let w = self.width as int;
            assert forall|x2: int, y2: int, c2: int|
                old(self).in_bounds(x2, y2) && 0 <= c2 < 3 && !(x2 == x && y2 == y)
                    implies self.chan(x2, y2, c2) == old(self).chan(x2, y2, c2) by {
                lemma_cell_index_bounds(w, self.height as int, x2, y2);
                if y2 * w + x2 == (y as int) * w + (x as int) {
                    lemma_cell_index_injective(w, x2, y2, x as int, y as int);
                }
            }
        }
    }
}

} // verus!
