//! The mottled off-white backdrop that the later stages draw over.

use rand::rngs::StdRng;
use vstd::prelude::*;

use crate::buffer::PixelBuffer;
use crate::rng::rand_below;

verus! {

/// A canvas of `width * height` pixels fits in one byte vector.
pub open spec fn dims_fit(width: int, height: int) -> bool {
    3 * width * height <= usize::MAX
}

/// A canvas that the background stage can have produced: exactly w x h, with
/// every channel in [240, 255], the red channel (the base luminance) in
/// [245, 254], and green and blue each at most 4 below their pixel's red.
pub open spec fn background_like(img: PixelBuffer, w: u32, h: u32) -> bool {
    &&& img.wf()
    &&& img.width == w
    &&& img.height == h
    &&& forall|i: int| 0 <= i < img.data@.len() ==> 240 <= #[trigger] img.data@[i] <= 255
    &&& forall|i: int|
        0 <= i < img.data@.len() && i % 3 == 0 ==> 245 <= #[trigger] img.data@[i] <= 254
    &&& forall|i: int|
        0 <= i < img.data@.len() && i % 3 == 1 ==> #[trigger] img.data@[i] <= img.data@[i - 1]
            && img.data@[i - 1] - 4 <= img.data@[i]
    &&& forall|i: int|
        0 <= i < img.data@.len() && i % 3 == 2 ==> #[trigger] img.data@[i] <= img.data@[i - 2]
            && img.data@[i - 2] - 4 <= img.data@[i]
}

/// A fresh width x height canvas of near-white pixels: every channel lies in
/// [240, 255]; the red channel, the per-pixel base luminance, in [245, 254];
/// and green and blue each carry an extra downward perturbation of at most 4
/// below their pixel's red.
pub fn create_background(width: u32, height: u32, rng: &mut StdRng) -> (img: PixelBuffer)
    requires
        dims_fit(width as int, height as int),
    ensures
        img.wf(),
        img.width == width,
        img.height == height,
        forall|i: int| 0 <= i < img.data@.len() ==> 240 <= #[trigger] img.data@[i] <= 255,
        forall|i: int|
            0 <= i < img.data@.len() && i % 3 == 0 ==> 245 <= #[trigger] img.data@[i] <= 254,
        forall|i: int|
            0 <= i < img.data@.len() && i % 3 == 1 ==> #[trigger] img.data@[i] <= img.data@[i - 1]
                && img.data@[i - 1] - 4 <= img.data@[i],
        forall|i: int|
            0 <= i < img.data@.len() && i % 3 == 2 ==> #[trigger] img.data@[i] <= img.data@[i - 2]
                && img.data@[i - 2] - 4 <= img.data@[i],
        forall|x: int, y: int, c: int|
            img.in_bounds(x, y) && 0 <= c < 3 ==> 240 <= #[trigger] img.chan(x, y, c) <= 255,
        forall|x: int, y: int| img.in_bounds(x, y) ==> 245 <= #[trigger] img.chan(x, y, 0) <= 254,
        forall|x: int, y: int, c: int|
            img.in_bounds(x, y) && 1 <= c < 3 ==> img.chan(x, y, 0) - 4 <= #[trigger] img.chan(
                x,
                y,
                c,
            ) <= img.chan(x, y, 0),
        background_like(img, width, height),
{
    proof {
        assert((width as int) * (height as int) <= usize::MAX && 3 * ((width as int) * (
        height as int)) == 3 * (width as int) * (height as int)) by (nonlinear_arith)
            requires
                3 * (width as int) * (height as int) <= usize::MAX,
                0 <= width,
                0 <= height,
        {
        }
    }
    let cells: usize = (width as usize) * (height as usize);
    let mut data: Vec<u8> = Vec::new();
    let mut i: usize = 0;
    while i < cells
        invariant
            i <= cells,
            3 * cells <= usize::MAX,
            data@.len() == 3 * i,
            forall|j: int| 0 <= j < data@.len() ==> 240 <= #[trigger] data@[j] <= 255,
            forall|j: int| 0 <= j < data@.len() && j % 3 == 0 ==> 245 <= #[trigger] data@[j] <= 254,
            forall|j: int|
                0 <= j < data@.len() && j % 3 == 1 ==> #[trigger] data@[j] <= data@[j - 1]
                    && data@[j - 1] - 4 <= data@[j],
            forall|j: int|
                0 <= j < data@.len() && j % 3 == 2 ==> #[trigger] data@[j] <= data@[j - 2]
                    && data@[j - 2] - 4 <= data@[j],
        decreases cells - i,
    {
        let base: u32 = 245 + rand_below(rng, 10);
        let g_raw: u32 = base - rand_below(rng, 5);
        let b_raw: u32 = base - rand_below(rng, 5);
        let g: u32 = if g_raw < 240 {
            240
        } else if g_raw > 255 {
            255
        } else {
            g_raw
        };
        let b: u32 = if b_raw < 240 {
            240
        } else if b_raw > 255 {
            255
        } else {
            b_raw
        };
        data.push(base as u8);
        data.push(g as u8);
        data.push(b as u8);
        i = i + 1;
    }
    let img = PixelBuffer { width, height, data };
    proof {
        assert(3 * ((width as int) * (height as int)) == 3 * (width as int) * (height as int))
            by (nonlinear_arith)
        {
        }
        assert forall|x: int, y: int, c: int|
            img.in_bounds(x, y) && 0 <= c < 3 implies 240 <= #[trigger] img.chan(x, y, c)
            <= 255 by {
            crate::buffer::lemma_cell_index_bounds(width as int, height as int, x, y);
        }
        assert forall|x: int, y: int| img.in_bounds(x, y) implies 245 <= #[trigger] img.chan(
            x,
            y,
            0,
        ) <= 254 by {
            crate::buffer::lemma_cell_index_bounds(width as int, height as int, x, y);
            assert((3 * (y * (width as int) + x)) % 3 == 0) by (nonlinear_arith)
            {
            }
        }
        assert forall|x: int, y: int, c: int|
            img.in_bounds(x, y) && 1 <= c < 3 implies img.chan(x, y, 0) - 4 <= #[trigger] img.chan(
            x,
            y,
            c,
        ) <= img.chan(x, y, 0) by {
            crate::buffer::lemma_cell_index_bounds(width as int, height as int, x, y);
            assert((3 * (y * (width as int) + x) + c) % 3 == c) by (nonlinear_arith)
                requires
                    0 <= c < 3,
            {
            }
        }
    }
    img
}

} // verus!
