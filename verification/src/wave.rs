//! The final pipeline stage: a horizontal sinusoidal resampling of the canvas.

use rand::rngs::StdRng;
use vstd::prelude::*;

use crate::buffer::{lemma_cell_index_bounds, PixelBuffer};
use crate::rng::rand_in_range;
use crate::trig::{div_floor, sine_milli, sine_milli_exec};

verus! {

/// The horizontal source offset, in whole pixels, of row `y`: the floor of
/// the amplitude in tenths of a pixel times the sine (scaled by 1000) of
/// `freq_milli * y` milliradians.
pub open spec fn wave_offset(amp_tenths: int, freq_milli: int, y: int) -> int {
    amp_tenths * sine_milli(freq_milli * y) / 10000
}

/// The source column for destination column `x`: `x` plus the row's offset,
/// clamped to the canvas, never wrapped.
pub open spec fn clamp_col(x: int, off: int, width: int) -> int {
    if x + off < 0 {
        0
    } else if x + off > width - 1 {
        width - 1
    } else {
        x + off
    }
}

/// Whatever the offset, the clamped source column lies on the canvas.
pub proof fn lemma_wave_source_in_bounds(x: int, off: int, width: int)
    requires
        0 <= x < width,
    ensures
        0 <= clamp_col(x, off, width) < width,
{
}

/// `out` is `src` resampled through the wave of the given amplitude (tenths of
/// a pixel) and angular frequency (milliradians per row).
pub open spec fn wave_resampled(src: PixelBuffer, out: PixelBuffer, amp: int, freq: int) -> bool {
    &&& out.width == src.width
    &&& out.height == src.height
    &&& out.wf()
    &&& forall|x: int, y: int, c: int|
        src.in_bounds(x, y) && 0 <= c < 3 ==> #[trigger] out.chan(x, y, c) == src.chan(
            clamp_col(x, wave_offset(amp, freq, y), src.width as int),
            y,
            c,
        )
}

/// A new canvas of the same dimensions where every destination pixel copies
/// the source pixel of the same row at the wave-shifted, clamped column.
pub fn apply_wave(src: &PixelBuffer, amp_tenths: u32, freq_milli: u32) -> (out: PixelBuffer)
    requires
        src.wf(),
        freq_milli <= 1_000_000,
    ensures
        wave_resampled(*src, out, amp_tenths as int, freq_milli as int),
{
    let w = src.width;
    let h = src.height;
    let ghost wi = w as int;
    let mut data: Vec<u8> = Vec::new();
    let mut y: u32 = 0;
    while y < h
        invariant
            src.wf(),
            w == src.width,
            h == src.height,
            wi == w as int,
            freq_milli <= 1_000_000,
            y <= h,
            data@.len() == 3 * ((y as int) * wi),
            forall|xx: int, yy: int, c: int|
                0 <= xx < wi && 0 <= yy < y && 0 <= c < 3 ==> #[trigger] data@[3 * (yy * wi + xx)
                    + c] == src.chan(
                    clamp_col(xx, wave_offset(amp_tenths as int, freq_milli as int, yy), wi),
                    yy,
                    c,
                ),
        decreases h - y,
    {
        proof {
            assert(0 <= (freq_milli as int) * (y as int) <= 4294967295000000) by (nonlinear_arith)
                requires
                    0 <= freq_milli <= 1000000,
                    0 <= y <= 4294967295,
            {
            }
        }
        let s: i64 = sine_milli_exec((freq_milli as i64) * (y as i64));
        proof {
            assert(-4294967295000 <= (amp_tenths as int) * (s as int) <= 4294967295000)
                by (nonlinear_arith)
                requires
                    -1000 <= s <= 1000,
                    0 <= amp_tenths <= 4294967295,
            {
            }
        }
        let num: i64 = (amp_tenths as i64) * s;
        let off: i64 = div_floor(num, 10000);
        assert(-4294967295000 <= off <= 4294967295000);
        assert(off == wave_offset(amp_tenths as int, freq_milli as int, y as int));
        let mut x: u32 = 0;
        while x < w
            invariant
                src.wf(),
                w == src.width,
                h == src.height,
                wi == w as int,
                y < h,
                x <= w,
                off == wave_offset(amp_tenths as int, freq_milli as int, y as int),
                -4294967295000 <= off <= 4294967295000,
                data@.len() == 3 * ((y as int) * wi + x as int),
                forall|xx: int, yy: int, c: int|
                    0 <= xx < wi && 0 <= yy < y && 0 <= c < 3 ==> #[trigger] data@[3 * (yy * wi
                        + xx) + c] == src.chan(
                        clamp_col(xx, wave_offset(amp_tenths as int, freq_milli as int, yy), wi),
                        yy,
                        c,
                    ),
                forall|xx: int, c: int|
                    0 <= xx < x && 0 <= c < 3 ==> #[trigger] data@[3 * ((y as int) * wi + xx)
                        + c] == src.chan(
                        clamp_col(xx, wave_offset(amp_tenths as int, freq_milli as int, y as int), wi),
                        y as int,
                        c,
                    ),
            decreases w - x,
        {
            let sxi: i64 = (x as i64) + off;
            let sx: u32 = if sxi < 0 {
                0
            } else if sxi > (w as i64) - 1 {
                w - 1
            } else {
                sxi as u32
            };
            assert(sx as int == clamp_col(
                x as int,
                wave_offset(amp_tenths as int, freq_milli as int, y as int),
                wi,
            ));
            let (r, g, b) = src.get_pixel(sx, y);
            data.push(r);
            data.push(g);
            data.push(b);
            proof {
                lemma_cell_index_bounds(wi, h as int, x as int, y as int);
                assert forall|xx: int, yy: int, c: int|
                    0 <= xx < wi && 0 <= yy < y && 0 <= c < 3 implies #[trigger] data@[3 * (yy * wi
                        + xx) + c] == src.chan(
                        clamp_col(xx, wave_offset(amp_tenths as int, freq_milli as int, yy), wi),
                        yy,
                        c,
                    ) by {
                    crate::buffer::lemma_row_major_mono(wi, xx, yy, x as int, y as int);
                }
                assert forall|xx: int, c: int|
                    0 <= xx < x + 1 && 0 <= c < 3 implies #[trigger] data@[3 * ((y as int) * wi
                        + xx) + c] == src.chan(
                        clamp_col(xx, wave_offset(amp_tenths as int, freq_milli as int, y as int), wi),
                        y as int,
                        c,
                    ) by {
                    if xx < x {
                        crate::buffer::lemma_row_major_mono(wi, xx, y as int, x as int, y as int);
                    }
                }
            }
            x = x + 1;
        }
        proof {
            assert(((y as int) + 1) * wi == (y as int) * wi + wi) by (nonlinear_arith)
            {
            }
            assert forall|xx: int, yy: int, c: int|
                0 <= xx < wi && 0 <= yy < y + 1 && 0 <= c < 3 implies #[trigger] data@[3 * (yy * wi
                    + xx) + c] == src.chan(
                    clamp_col(xx, wave_offset(amp_tenths as int, freq_milli as int, yy), wi),
                    yy,
                    c,
                ) by {
            }
        }
        y = y + 1;
    }
    let out = PixelBuffer { width: w, height: h, data };
    proof {
        assert(3 * ((h as int) * wi) == 3 * wi * (h as int)) by (nonlinear_arith)
        {
        }
        assert forall|x: int, y: int, c: int|
            src.in_bounds(x, y) && 0 <= c < 3 implies #[trigger] out.chan(x, y, c) == src.chan(
            clamp_col(x, wave_offset(amp_tenths as int, freq_milli as int, y), wi),
            y,
            c,
        ) by {
        }
    }
    out
}

/// The full effect of the stage: the canvas was resampled through one wave
/// whose amplitude came from `[amp_min, amp_max)` in tenths of a pixel (or is
/// exactly `amp_min` when that range is degenerate) and whose frequency came
/// from [60, 90) milliradians per row.
pub open spec fn wave_drawn(b0: PixelBuffer, b1: PixelBuffer, amp_min: u32, amp_max: u32) -> bool {
    exists|amp: int, freq: int|
        {
            &&& if amp_min < amp_max {
                amp_min <= amp < amp_max
            } else {
                amp == amp_min
            }
            &&& 60 <= freq < 90
            &&& #[trigger] wave_resampled(b0, b1, amp, freq)
        }
}

/// Wave-distort the canvas with an amplitude drawn from `[amp_min, amp_max)`
/// tenths of a pixel (or exactly `amp_min` when the range is degenerate) and a
/// frequency drawn from [60, 90) milliradians per row.
pub fn add_wave_distortion(img: &PixelBuffer, amp_min: u32, amp_max: u32, rng: &mut StdRng) -> (out:
    PixelBuffer)
    requires
        img.wf(),
    ensures
        out.wf(),
        out.width == img.width,
        out.height == img.height,
        wave_drawn(*img, out, amp_min, amp_max),
{
    let amp: u32 = if amp_min < amp_max {
        rand_in_range(rng, amp_min, amp_max)
    } else {
        amp_min
    };
    let freq: u32 = rand_in_range(rng, 60, 90);
    let out = apply_wave(img, amp, freq);
    proof {
        assert(wave_resampled(*img, out, amp as int, freq as int));
    }
    out
}

} // verus!
