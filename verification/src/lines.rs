//! Sinusoidal interference line strokes drawn over the canvas.

use rand::rngs::StdRng;
use vstd::prelude::*;

use crate::buffer::PixelBuffer;
use crate::rng::{rand_below, rand_in_range};
use crate::trig::{sine_milli, sine_milli_exec, trunc_div};

verus! {

/// The pixel at (x, y) carries a stroke's coloring: every channel a light
/// gray in [180, 210).
pub open spec fn line_colored(img: PixelBuffer, x: int, y: int) -> bool {
    forall|c: int| 0 <= c < 3 ==> 180 <= #[trigger] img.chan(x, y, c) < 210
}

/// The stroke's center row at column `x`: the starting row plus the sine of
/// `freq_milli * x` (scaled by 1000) times the amplitude in thousandths of a
/// pixel, truncated toward zero.
pub open spec fn stroke_center(start_y: int, amp_milli: int, freq_milli: int, x: int) -> int {
    start_y + trunc_div(amp_milli * sine_milli(freq_milli * x), 1000000)
}

/// A row clamped onto the canvas.
pub open spec fn clamp_row(y: int, height: int) -> int {
    if y < 0 {
        0
    } else if y > height - 1 {
        height - 1
    } else {
        y
    }
}

/// The stroke covers (x, y): the row is one of the three rows centered on the
/// stroke's center at column x, each clamped onto the canvas.
pub open spec fn on_stroke(
    start_y: int,
    amp_milli: int,
    freq_milli: int,
    height: int,
    x: int,
    y: int,
) -> bool {
    exists|k: int|
        0 <= k < 3 && y == #[trigger] clamp_row(
            stroke_center(start_y, amp_milli, freq_milli, x) + k - 1,
            height,
        )
}

/// The random choices behind one stroke.
pub struct StrokeParams {
    pub cr: u8,
    pub cg: u8,
    pub cb: u8,
    pub start_y: u32,
    pub amp_milli: u32,
    pub freq_milli: u32,
}

/// The ranges the stroke sampler draws from: a light gray, a starting row on
/// the canvas, an amplitude of 8 to 12 pixels and a frequency of 0.02 to 0.04
/// radians per column, both in thousandths.
pub open spec fn stroke_params_valid(p: StrokeParams, height: int) -> bool {
    &&& 180 <= p.cr < 210
    &&& 180 <= p.cg < 210
    &&& 180 <= p.cb < 210
    &&& p.start_y < height
    &&& 8000 <= p.amp_milli < 12000
    &&& 20 <= p.freq_milli < 40
}

/// `b1` is `b0` with the single stroke `p` painted: the covered pixels carry
/// the stroke's color, every other pixel is untouched.
pub open spec fn stroke_applied(b0: PixelBuffer, b1: PixelBuffer, p: StrokeParams) -> bool {
    &&& b1.wf()
    &&& b1.same_dims(b0)
    &&& forall|x: int, y: int|
        b0.in_bounds(x, y) && #[trigger] on_stroke(
            p.start_y as int,
            p.amp_milli as int,
            p.freq_milli as int,
            b0.height as int,
            x,
            y,
        ) ==> b1.chan(x, y, 0) == p.cr && b1.chan(x, y, 1) == p.cg && b1.chan(x, y, 2) == p.cb
    &&& forall|x: int, y: int, c: int|
        b0.in_bounds(x, y) && 0 <= c < 3 && !on_stroke(
            p.start_y as int,
            p.amp_milli as int,
            p.freq_milli as int,
            b0.height as int,
            x,
            y,
        ) ==> #[trigger] b1.chan(x, y, c) == b0.chan(x, y, c)
}

/// `chain` records the canvas before and after each stroke of `ps`: stroke i
/// turns `chain[i]` into `chain[i + 1]`.
pub open spec fn strokes_applied(chain: Seq<PixelBuffer>, ps: Seq<StrokeParams>) -> bool {
    &&& chain.len() == ps.len() + 1
    &&& forall|i: int| 0 <= i < ps.len() ==> stroke_applied(chain[i], chain[i + 1], #[trigger] ps[i])
}

/// The full effect of the stage: some number of strokes within the sampled
/// ranges was painted, one after the other, turning `b0` into `b1`; the count
/// comes from `[line_min, line_max)`, or is exactly `line_min` when that
/// range is degenerate.
pub open spec fn lines_drawn(b0: PixelBuffer, b1: PixelBuffer, line_min: u32, line_max: u32) -> bool {
    exists|ps: Seq<StrokeParams>, chain: Seq<PixelBuffer>|
        {
            &&& if line_min < line_max {
                line_min <= ps.len() < line_max
            } else {
                ps.len() == line_min
            }
            &&& (forall|i: int|
                0 <= i < ps.len() ==> stroke_params_valid(#[trigger] ps[i], b0.height as int))
            &&& #[trigger] strokes_applied(chain, ps)
            &&& chain.first() == b0
            &&& chain.last() == b1
        }
}

/// Paint one stroke: at every column, the three rows centered on the stroke's
/// sinusoidal center, clamped to the canvas, take the stroke's color exactly;
/// every other pixel, and the dimensions, stay as they were.
pub fn paint_stroke(
    img: &mut PixelBuffer,
    cr: u8,
    cg: u8,
    cb: u8,
    start_y: u32,
    amp_milli: u32,
    freq_milli: u32,
)
    requires
        old(img).wf(),
        old(img).width >= 1,
        old(img).height >= 1,
        freq_milli <= 1_000_000,
    ensures
        final(img).wf(),
        final(img).same_dims(*old(img)),
        forall|x: int, y: int|
            old(img).in_bounds(x, y) && #[trigger] on_stroke(
                start_y as int,
                amp_milli as int,
                freq_milli as int,
                old(img).height as int,
                x,
                y,
            ) ==> final(img).chan(x, y, 0) == cr && final(img).chan(x, y, 1) == cg
                && final(img).chan(x, y, 2) == cb,
        forall|x: int, y: int, c: int|
            old(img).in_bounds(x, y) && 0 <= c < 3 && !on_stroke(
                start_y as int,
                amp_milli as int,
                freq_milli as int,
                old(img).height as int,
                x,
                y,
            ) ==> #[trigger] final(img).chan(x, y, c) == old(img).chan(x, y, c),
{
    let width = img.width();
    let height = img.height();
    let ghost s0 = start_y as int;
    let ghost a0 = amp_milli as int;
    let ghost f0 = freq_milli as int;
    let ghost h0 = height as int;
    let mut x: u32 = 0;
    while x < width
        invariant
            img.wf(),
            img.same_dims(*old(img)),
            width == img.width,
            height == img.height,
            width >= 1,
            height >= 1,
            freq_milli <= 1_000_000,
            s0 == start_y as int,
            a0 == amp_milli as int,
            f0 == freq_milli as int,
            h0 == height as int,
            x <= width,
            forall|px: int, py: int|
                0 <= px < x && 0 <= py < height && #[trigger] on_stroke(s0, a0, f0, h0, px, py)
                    ==> img.chan(px, py, 0) == cr && img.chan(px, py, 1) == cg && img.chan(
                    px,
                    py,
                    2,
                ) == cb,
            forall|px: int, py: int, c: int|
                0 <= px < x && 0 <= py < height && 0 <= c < 3 && !on_stroke(s0, a0, f0, h0, px, py)
                    ==> #[trigger] img.chan(px, py, c) == old(img).chan(px, py, c),
            forall|px: int, py: int, c: int|
                x <= px < width && 0 <= py < height && 0 <= c < 3 ==> #[trigger] img.chan(
                    px,
                    py,
                    c,
                ) == old(img).chan(px, py, c),
        decreases width - x,
    {
        proof {
            assert(0 <= (freq_milli as int) * (x as int) <= 4294967295000000) by (nonlinear_arith)
                requires
                    0 <= freq_milli <= 1000000,
                    0 <= x <= 4294967295,
            {
            }
        }
        let s: i64 = sine_milli_exec((freq_milli as i64) * (x as i64));
        proof {
            assert(-4294967295000 <= (amp_milli as int) * (s as int) <= 4294967295000)
                by (nonlinear_arith)
                requires
                    0 <= amp_milli <= 4294967295,
                    -1000 <= s <= 1000,
            {
            }
        }
        let swing: i64 = (amp_milli as i64) * s;
        let wobble: i64 = if swing >= 0 {
            swing / 1000000
        } else {
            -((-swing) / 1000000)
        };
        let y_center: i64 = (start_y as i64) + wobble;
        assert(y_center == stroke_center(s0, a0, f0, x as int));
        let mut k: u32 = 0;
        while k < 3
            invariant
                img.wf(),
                img.same_dims(*old(img)),
                width == img.width,
                height == img.height,
                width >= 1,
                height >= 1,
                x < width,
                k <= 3,
                s0 == start_y as int,
                a0 == amp_milli as int,
                f0 == freq_milli as int,
                h0 == height as int,
                -4294967296000 <= y_center <= 8589934590000,
                y_center == stroke_center(s0, a0, f0, x as int),
                k >= 1 ==> img.chan(x as int, clamp_row(y_center - 1, h0), 0) == cr && img.chan(
                    x as int,
                    clamp_row(y_center - 1, h0),
                    1,
                ) == cg && img.chan(x as int, clamp_row(y_center - 1, h0), 2) == cb,
                k >= 2 ==> img.chan(x as int, clamp_row(y_center as int, h0), 0) == cr && img.chan(
                    x as int,
                    clamp_row(y_center as int, h0),
                    1,
                ) == cg && img.chan(x as int, clamp_row(y_center as int, h0), 2) == cb,
                k >= 3 ==> img.chan(x as int, clamp_row(y_center + 1, h0), 0) == cr && img.chan(
                    x as int,
                    clamp_row(y_center + 1, h0),
                    1,
                ) == cg && img.chan(x as int, clamp_row(y_center + 1, h0), 2) == cb,
                forall|py: int, c: int|
                    0 <= py < height && 0 <= c < 3 && !(k >= 1 && py == clamp_row(y_center - 1, h0))
                        && !(k >= 2 && py == clamp_row(y_center as int, h0)) && !(k >= 3 && py
                        == clamp_row(y_center + 1, h0)) ==> #[trigger] img.chan(x as int, py, c)
                        == old(img).chan(x as int, py, c),
                forall|px: int, py: int|
                    0 <= px < x && 0 <= py < height && #[trigger] on_stroke(s0, a0, f0, h0, px, py)
                        ==> img.chan(px, py, 0) == cr && img.chan(px, py, 1) == cg && img.chan(
                        px,
                        py,
                        2,
                    ) == cb,
                forall|px: int, py: int, c: int|
                    0 <= px < x && 0 <= py < height && 0 <= c < 3 && !on_stroke(s0, a0, f0, h0, px, py)
                        ==> #[trigger] img.chan(px, py, c) == old(img).chan(px, py, c),
                forall|px: int, py: int, c: int|
                    x < px < width && 0 <= py < height && 0 <= c < 3 ==> #[trigger] img.chan(
                        px,
                        py,
                        c,
                    ) == old(img).chan(px, py, c),
            decreases 3 - k,
        {
            let yk: i64 = y_center + (k as i64) - 1;
            let py: u32 = if yk < 0 {
                0
            } else if yk > (height as i64) - 1 {
                height - 1
            } else {
                yk as u32
            };
            assert(py as int == clamp_row(y_center + (k as int) - 1, h0));
            img.put_pixel(x, py, cr, cg, cb);
            k = k + 1;
        }
        proof {
            assert forall|py: int|
                0 <= py < height && #[trigger] on_stroke(s0, a0, f0, h0, x as int, py)
                    implies img.chan(x as int, py, 0) == cr && img.chan(x as int, py, 1) == cg
                && img.chan(x as int, py, 2) == cb by {
                let j = choose|j: int|
                    0 <= j < 3 && py == #[trigger] clamp_row(
                        stroke_center(s0, a0, f0, x as int) + j - 1,
                        h0,
                    );
                if j == 0 {
                    assert(py == clamp_row(y_center - 1, h0));
                } else if j == 1 {
                    assert(py == clamp_row(y_center as int, h0));
                } else {
                    assert(py == clamp_row(y_center + 1, h0));
                }
            }
            assert forall|py: int, c: int|
                0 <= py < height && 0 <= c < 3 && !on_stroke(s0, a0, f0, h0, x as int, py)
                    implies #[trigger] img.chan(x as int, py, c) == old(img).chan(
                x as int,
                py,
                c,
            ) by {
                assert forall|j: int| 0 <= j < 3 implies py != #[trigger] clamp_row(
                    stroke_center(s0, a0, f0, x as int) + j - 1,
                    h0,
                ) by {
                }
                assert(py != clamp_row(y_center - 1, h0)) by {
                    assert(y_center - 1 == stroke_center(s0, a0, f0, x as int) + 0 - 1);
                }
                assert(py != clamp_row(y_center as int, h0)) by {
                    assert(y_center as int == stroke_center(s0, a0, f0, x as int) + 1 - 1);
                }
                assert(py != clamp_row(y_center + 1, h0)) by {
                    assert(y_center + 1 == stroke_center(s0, a0, f0, x as int) + 2 - 1);
                }
            }
        }
        x = x + 1;
    }
}

/// Draws a sampled count of light-gray sinusoidal strokes, each a three pixel
/// tall column per x, clamped to the canvas. The count is drawn from the
/// half-open range `[line_min, line_max)`; a degenerate range (min >= max)
/// yields exactly `line_min` strokes. Strokes overwrite pixels and never
/// change the dimensions; whatever a stroke changed carries its light-gray
/// coloring.
pub fn add_interference_lines(
    img: &mut PixelBuffer,
    line_min: u32,
    line_max: u32,
    rng: &mut StdRng,
)
    requires
        old(img).wf(),
        old(img).width >= 1,
        old(img).height >= 1,
    ensures
        final(img).wf(),
        final(img).same_dims(*old(img)),
        lines_drawn(*old(img), *final(img), line_min, line_max),
        forall|x: int, y: int, c: int|
            old(img).in_bounds(x, y) && 0 <= c < 3 && #[trigger] final(img).chan(x, y, c)
                != old(img).chan(x, y, c) ==> line_colored(*final(img), x, y),
{
    let width = img.width();
    let height = img.height();
    let ghost mut ps: Seq<StrokeParams> = Seq::empty();
    let ghost mut chain: Seq<PixelBuffer> = seq![*old(img)];
    let count: u32 = if line_min < line_max {
        rand_in_range(rng, line_min, line_max)
    } else {
        line_min
    };
    let mut line: u32 = 0;
    while line < count
        invariant
            img.wf(),
            img.same_dims(*old(img)),
            width == img.width,
            height == img.height,
            width >= 1,
            height >= 1,
            line <= count,
            ps.len() == line as int,
            forall|i: int|
                0 <= i < ps.len() ==> stroke_params_valid(#[trigger] ps[i], old(img).height as int),
            strokes_applied(chain, ps),
            chain.first() == *old(img),
            chain.last() == *img,
            forall|x2: int, y2: int, c: int|
                old(img).in_bounds(x2, y2) && 0 <= c < 3 && #[trigger] img.chan(x2, y2, c)
                    != old(img).chan(x2, y2, c) ==> line_colored(*img, x2, y2),
        decreases count - line,
    {
        let cr = rand_in_range(rng, 180, 210) as u8;
        let cg = rand_in_range(rng, 180, 210) as u8;
        let cb = rand_in_range(rng, 180, 210) as u8;
        let start_y: u32 = rand_below(rng, height);
        let amp_milli: u32 = rand_in_range(rng, 8000, 12000);
        let freq_milli: u32 = rand_in_range(rng, 20, 40);
        let ghost pre = *img;
        paint_stroke(img, cr, cg, cb, start_y, amp_milli, freq_milli);
        proof {
            let p = StrokeParams { cr, cg, cb, start_y, amp_milli, freq_milli };
            assert(stroke_applied(pre, *img, p));
            let ps2 = ps.push(p);
            let chain2 = chain.push(*img);
            assert forall|i: int| 0 <= i < ps2.len() implies stroke_applied(
                chain2[i],
                chain2[i + 1],
                #[trigger] ps2[i],
            ) by {
                if i < ps.len() {
                    assert(stroke_applied(chain[i], chain[i + 1], ps[i]));
                }
            }
            assert(strokes_applied(chain2, ps2));
            ps = ps2;
            chain = chain2;
            assert forall|x2: int, y2: int, c: int|
                old(img).in_bounds(x2, y2) && 0 <= c < 3 && #[trigger] img.chan(x2, y2, c)
                    != old(img).chan(x2, y2, c) implies line_colored(*img, x2, y2) by {
                if on_stroke(
                    start_y as int,
                    amp_milli as int,
                    freq_milli as int,
                    pre.height as int,
                    x2,
                    y2,
                ) {
                } else {
                    assert(forall|c2: int|
                        0 <= c2 < 3 ==> #[trigger] img.chan(x2, y2, c2) == pre.chan(x2, y2, c2));
                    assert(pre.chan(x2, y2, c) != old(img).chan(x2, y2, c));
                    assert(line_colored(pre, x2, y2));
                }
            }
        }
        line = line + 1;
    }
    proof {
        assert(ps.len() == count as int);
        assert(strokes_applied(chain, ps) && chain.first() == *old(img) && chain.last() == *img);
        assert(lines_drawn(*old(img), *img, line_min, line_max));
    }
}

} // verus!
