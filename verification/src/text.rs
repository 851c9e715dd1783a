//! Glyph rasters and the text-drawing stage.
//!
//! Rasterizing an outline font is the work of an outside renderer; what this
//! module needs of it is plain data: per-character coverage masks and advance
//! widths, carried by `ModelFont`. Layout, per-character rotation, jitter and
//! alpha compositing are all computed and verified here.

use rand::rngs::StdRng;
use vstd::prelude::*;
use vstd::string::StrSliceExecFns;

use crate::buffer::{lemma_cell_index_bounds, PixelBuffer};
use crate::code::alphabet;
use crate::code::charset;
use crate::rng::{rand_below, rand_in_range};
use crate::trig::{cosine_milli, cosine_milli_exec, div_trunc, sine_milli, sine_milli_signed, trunc_div};

verus! {

/// The coverage mask of one glyph at one size: per-pixel opacity scaled to
/// 0..=255, row-major over a `width x height` box whose origin sits at
/// (bb_min_x, bb_min_y) relative to the drawing position.
pub struct GlyphRaster {
    pub bb_min_x: i32,
    pub bb_min_y: i32,
    pub width: u32,
    pub height: u32,
    pub coverage: Vec<u8>,
}

impl GlyphRaster {
    /// One coverage byte per cell, within sane raster bounds.
    pub open spec fn wf(self) -> bool {
        &&& self.coverage@.len() == (self.width as int) * (self.height as int)
        &&& self.width <= 4096
        &&& self.height <= 4096
        &&& -100000 <= self.bb_min_x <= 100000
        &&& -100000 <= self.bb_min_y <= 100000
    }
}

/// One character of the model font: its horizontal advance in thousandths of
/// a pixel, and its raster. A character with no outline has no raster, draws
/// nothing, and still advances the cursor by its metric advance.
pub struct Glyph {
    pub advance_milli: u32,
    pub raster: Option<GlyphRaster>,
}

impl Glyph {
    pub open spec fn wf(self) -> bool {
        &&& self.advance_milli <= 16_000_000
        &&& match self.raster {
            Some(r) => r.wf(),
            None => true,
        }
    }
}

/// The alphabet rasterized at one size: one glyph per alphabet character, in
/// alphabet order.
pub struct ModelFont {
    pub glyphs: Vec<Glyph>,
}

impl ModelFont {
    pub open spec fn wf(self) -> bool {
        &&& self.glyphs@.len() == alphabet().len()
        &&& forall|i: int| 0 <= i < self.glyphs@.len() ==> (#[trigger] self.glyphs@[i]).wf()
    }
}

/// `j` is the first position of the alphabet holding `c`. At most one
/// position satisfies this, so it determines the glyph a character draws with.
pub open spec fn is_alpha_index(c: char, j: int) -> bool {
    &&& 0 <= j < alphabet().len()
    &&& alphabet()[j] == c
    &&& forall|j2: int| 0 <= j2 < j ==> alphabet()[j2] != c
}

/// Straight alpha compositing of one channel: the background weighted by the
/// remaining opacity plus the color weighted by the coverage, in 255ths,
/// rounded toward zero.
pub open spec fn blend_channel(bg: int, col: int, cov: int) -> int {
    (bg * (255 - cov) + col * cov) / 255
}

/// One blended channel, executable.
pub fn blend(bg: u8, col: u8, cov: u8) -> (r: u8)
    ensures
        r == blend_channel(bg as int, col as int, cov as int),
{
    proof {
        assert(0 <= (bg as int) * (255 - cov as int) + (col as int) * (cov as int)
            <= 65025) by (nonlinear_arith)
            requires
                0 <= bg <= 255,
                0 <= col <= 255,
                0 <= cov <= 255,
        {
        }
    }
    let num: u32 = (bg as u32) * (255 - cov as u32) + (col as u32) * (cov as u32);
    (num / 255) as u8
}

/// The random choices behind one drawn character.
pub struct CharParams {
    pub rot: int,
    pub jx: int,
    pub jy: int,
    pub cr: u8,
    pub cg: u8,
    pub cb: u8,
}

/// The ranges the per-character sampler draws from: a rotation within about
/// 15 degrees, a horizontal jitter of 2 and a vertical jitter of 5 pixels in
/// thousandths, and a dark color.
pub open spec fn char_params_valid(p: CharParams) -> bool {
    &&& -260 <= p.rot < 260
    &&& -2000 <= p.jx < 2000
    &&& -5000 <= p.jy < 5000
    &&& 30 <= p.cr < 70
    &&& 30 <= p.cg < 70
    &&& 30 <= p.cb < 70
}

/// The advance, in thousandths of a pixel, that character `c` contributes to
/// the layout: its glyph's metric advance when it is an alphabet character,
/// nothing otherwise.
pub open spec fn char_advance(font: ModelFont, c: char) -> int {
    if exists|j: int| is_alpha_index(c, j) {
        font.glyphs@[choose|j: int| is_alpha_index(c, j)].advance_milli as int
    } else {
        0
    }
}

/// One step of the measuring pass: an alphabet character adds its advance and
/// the 8-pixel spacing, capped; any other character adds nothing.
pub open spec fn measure_step(t: int, font: ModelFont, c: char) -> int {
    if exists|j: int| is_alpha_index(c, j) {
        if t + char_advance(font, c) + 8000 > 1_000_000_000_000 {
            1_000_000_000_000
        } else {
            t + char_advance(font, c) + 8000
        }
    } else {
        t
    }
}

/// The measured width of the text's first k characters.
pub open spec fn measure_upto(font: ModelFont, text: Seq<char>, k: nat) -> int
    decreases k,
{
    if k == 0 {
        0
    } else {
        measure_step(measure_upto(font, text, (k - 1) as nat), font, text[k as int - 1])
    }
}

/// The measured line width: the advances and spacings of the text's alphabet
/// characters, less the one trailing spacing.
pub open spec fn line_width(font: ModelFont, text: Seq<char>) -> int {
    let t = measure_upto(font, text, text.len());
    if t >= 8000 {
        t - 8000
    } else {
        t
    }
}

/// The cursor before the k-th character of the drawing pass: the line starts
/// centered, and each alphabet character moves the cursor by its advance plus
/// the spacing, capped.
pub open spec fn cursor_at(width: int, font: ModelFont, text: Seq<char>, k: nat) -> int
    decreases k,
{
    if k == 0 {
        trunc_div(width * 1000 - line_width(font, text), 2)
    } else {
        let prev = cursor_at(width, font, text, (k - 1) as nat);
        let c = text[k as int - 1];
        if exists|j: int| is_alpha_index(c, j) {
            if prev + char_advance(font, c) + 8000 > 4_000_000_000_000 {
                4_000_000_000_000
            } else {
                prev + char_advance(font, c) + 8000
            }
        } else {
            prev
        }
    }
}

/// The text baseline: half the canvas height plus a third of the font size.
pub open spec fn baseline(height: int, font_size: int) -> int {
    height / 2 + font_size / 3
}

/// `b1` is `b0` with the single character `c` drawn at cursor position
/// `cursor` under the choices `p`: an alphabet character whose glyph has a
/// raster composites that raster, jittered about the cursor and the baseline;
/// any other character leaves the canvas as it stands.
pub open spec fn char_drawn(
    b0: PixelBuffer,
    b1: PixelBuffer,
    font: ModelFont,
    c: char,
    cursor: int,
    base_y: int,
    p: CharParams,
) -> bool {
    if exists|j: int| is_alpha_index(c, j) {
        match font.glyphs@[choose|j: int| is_alpha_index(c, j)].raster {
            Some(r) => {
                &&& b1.width == b0.width
                &&& b1.height == b0.height
                &&& b1.data@ == draw_glyph_data(
                    b0.data@,
                    b0.width as int,
                    b0.height as int,
                    r,
                    cursor + p.jx,
                    base_y * 1000 + p.jy,
                    p.rot,
                    p.cr,
                    p.cg,
                    p.cb,
                    ((r.width as int) * (r.height as int)) as nat,
                )
            },
            None => b1 == b0,
        }
    } else {
        b1 == b0
    }
}

/// `chain` records the canvas before and after each character of the text:
/// character i turns `chain[i]` into `chain[i + 1]`, drawn at the layout's
/// cursor for position i.
pub open spec fn text_applied(
    chain: Seq<PixelBuffer>,
    font: ModelFont,
    text: Seq<char>,
    font_size: int,
    ps: Seq<CharParams>,
) -> bool {
    &&& chain.len() == text.len() + 1
    &&& ps.len() == text.len()
    &&& forall|i: int|
        0 <= i < text.len() ==> char_drawn(
            chain[i],
            chain[i + 1],
            font,
            text[i],
            cursor_at(chain.first().width as int, font, text, i as nat),
            baseline(chain.first().height as int, font_size),
            #[trigger] ps[i],
        )
}

/// The full effect of the stage: every character of the text drawn in order
/// at the centered layout, each under its own choices from the sampled
/// ranges.
pub open spec fn text_drawn(
    b0: PixelBuffer,
    b1: PixelBuffer,
    font: ModelFont,
    text: Seq<char>,
    font_size: int,
) -> bool {
    exists|ps: Seq<CharParams>, chain: Seq<PixelBuffer>|
        {
            &&& (forall|i: int| 0 <= i < ps.len() ==> char_params_valid(#[trigger] ps[i]))
            &&& #[trigger] text_applied(chain, font, text, font_size, ps)
            &&& chain.first() == b0
            &&& chain.last() == b1
        }
}

/// The first alphabet position of a character is the only one satisfying
/// `is_alpha_index`, so it is what `choose` picks.
proof fn lemma_alpha_index_unique(c: char, j: int)
    requires
        is_alpha_index(c, j),
    ensures
        exists|jj: int| is_alpha_index(c, jj),
        (choose|jj: int| is_alpha_index(c, jj)) == j,
{
    assert(is_alpha_index(c, j));
    let j2 = choose|jj: int| is_alpha_index(c, jj);
    assert(is_alpha_index(c, j2));
    if j2 < j {
        assert(alphabet()[j2] != c);
    }
    if j < j2 {
        assert(alphabet()[j] != c);
    }
}

/// A character outside the alphabet has no alphabet position.
proof fn lemma_no_alpha_index(c: char)
    requires
        !alphabet().contains(c),
    ensures
        !(exists|jj: int| is_alpha_index(c, jj)),
{
    if exists|jj: int| is_alpha_index(c, jj) {
        let j = choose|jj: int| is_alpha_index(c, jj);
        assert(alphabet()[j] == c);
        assert(alphabet().contains(c));
    }
}

/// The position of `c` in the alphabet, if it is an alphabet character: the
/// first position that holds it.
pub fn alphabet_index(c: char) -> (r: Option<usize>)
    ensures
        match r {
            Some(j) => is_alpha_index(c, j as int),
            None => !alphabet().contains(c),
        },
{
    let cs = charset();
    let mut j: usize = 0;
    while j < 32
        invariant
            cs@ == alphabet(),
            cs@.len() == 32,
            j <= 32,
            forall|k: int| 0 <= k < j ==> alphabet()[k] != c,
        decreases 32 - j,
    {
        if cs.get_char(j) == c {
            return Some(j);
        }
        j = j + 1;
    }
    None
}

/// The canvas column where sample (gx, gy) of the raster lands: the sample is
/// centered on the raster, rotated, and translated by the horizontal offset
/// and the raster origin, all in thousandths of a pixel truncating toward
/// zero as a float-to-integer cast does.
pub open spec fn sample_x(r: GlyphRaster, gx: int, gy: int, x_off: int, rot: int) -> int {
    let cx = (r.width as int) * 500;
    let cy = (r.height as int) * 500;
    let gxf = gx * 1000 - cx;
    let gyf = gy * 1000 - cy;
    let rx = trunc_div(gxf * cosine_milli(rot) - gyf * sine_milli(rot), 1000);
    trunc_div(rx + cx + x_off + (r.bb_min_x as int) * 1000, 1000)
}

/// The canvas row where sample (gx, gy) of the raster lands.
pub open spec fn sample_y(r: GlyphRaster, gx: int, gy: int, y_off: int, rot: int) -> int {
    let cx = (r.width as int) * 500;
    let cy = (r.height as int) * 500;
    let gxf = gx * 1000 - cx;
    let gyf = gy * 1000 - cy;
    let ry = trunc_div(gxf * sine_milli(rot) + gyf * cosine_milli(rot), 1000);
    trunc_div(ry + cy + y_off + (r.bb_min_y as int) * 1000, 1000)
}

/// The canvas bytes after compositing the raster sample with row-major index
/// `k`: a sample of opacity at least 3 in 255 that lands on the canvas blends
/// the color over the pixel it lands on; any other sample changes nothing.
pub open spec fn blend_sample(
    data: Seq<u8>,
    w: int,
    h: int,
    r: GlyphRaster,
    x_off: int,
    y_off: int,
    rot: int,
    cr: u8,
    cg: u8,
    cb: u8,
    k: int,
) -> Seq<u8> {
    let gx = k % (r.width as int);
    let gy = k / (r.width as int);
    let cov = r.coverage@[k];
    let fx = sample_x(r, gx, gy, x_off, rot);
    let fy = sample_y(r, gx, gy, y_off, rot);
    if cov >= 3 && 0 <= fx < w && 0 <= fy < h {
        let base = 3 * (fy * w + fx);
        data.update(base, blend_channel(data[base] as int, cr as int, cov as int) as u8).update(
            base + 1,
            blend_channel(data[base + 1] as int, cg as int, cov as int) as u8,
        ).update(base + 2, blend_channel(data[base + 2] as int, cb as int, cov as int) as u8)
    } else {
        data
    }
}

/// The canvas bytes after compositing the raster samples with row-major
/// indices 0 through k-1, in that order.
pub open spec fn draw_glyph_data(
    data: Seq<u8>,
    w: int,
    h: int,
    r: GlyphRaster,
    x_off: int,
    y_off: int,
    rot: int,
    cr: u8,
    cg: u8,
    cb: u8,
    k: nat,
) -> Seq<u8>
    decreases k,
{
    if k == 0 {
        data
    } else {
        blend_sample(
            draw_glyph_data(data, w, h, r, x_off, y_off, rot, cr, cg, cb, (k - 1) as nat),
            w,
            h,
            r,
            x_off,
            y_off,
            rot,
            cr,
            cg,
            cb,
            k - 1,
        )
    }
}

/// Rasterize one glyph onto the canvas: every mask sample of opacity at least
/// 3 in 255 is rotated about the raster's center, translated by the offsets
/// (in thousandths of a pixel) plus the raster origin, and alpha-composited
/// where it lands on the canvas; samples landing outside are dropped. The
/// dimensions never change.
pub fn draw_character(
    img: &mut PixelBuffer,
    raster: &GlyphRaster,
    x_off_milli: i64,
    y_off_milli: i64,
    rot_milli: i64,
    cr: u8,
    cg: u8,
    cb: u8,
)
    requires
        old(img).wf(),
        raster.wf(),
        -1571 <= rot_milli <= 1571,
        -4_100_000_000_000 <= x_off_milli <= 4_100_000_000_000,
        -4_100_000_000_000 <= y_off_milli <= 4_100_000_000_000,
    ensures
        final(img).wf(),
        final(img).same_dims(*old(img)),
        final(img).data@ == draw_glyph_data(
            old(img).data@,
            old(img).width as int,
            old(img).height as int,
            *raster,
            x_off_milli as int,
            y_off_milli as int,
            rot_milli as int,
            cr,
            cg,
            cb,
            ((raster.width as int) * (raster.height as int)) as nat,
        ),
{
    let ghost w0 = old(img).width as int;
    let ghost h0 = old(img).height as int;
    let cos_m: i64 = cosine_milli_exec(rot_milli);
    let sin_m: i64 = sine_milli_signed(rot_milli);
    let gw = raster.width;
    let gh = raster.height;
    let cx_milli: i64 = (gw as i64) * 500;
    let cy_milli: i64 = (gh as i64) * 500;
    let mut gy: u32 = 0;
    while gy < gh
        invariant
            img.wf(),
            img.same_dims(*old(img)),
            raster.wf(),
            gw == raster.width,
            gh == raster.height,
            cx_milli == gw * 500,
            cy_milli == gh * 500,
            -1000 <= cos_m <= 1000,
            -1000 <= sin_m <= 1000,
            -4_100_000_000_000 <= x_off_milli <= 4_100_000_000_000,
            -4_100_000_000_000 <= y_off_milli <= 4_100_000_000_000,
            gy <= gh,
            w0 == old(img).width as int,
            h0 == old(img).height as int,
            cos_m == cosine_milli(rot_milli as int),
            sin_m == sine_milli(rot_milli as int),
            -1571 <= rot_milli <= 1571,
            img.data@ == draw_glyph_data(
                old(img).data@,
                w0,
                h0,
                *raster,
                x_off_milli as int,
                y_off_milli as int,
                rot_milli as int,
                cr,
                cg,
                cb,
                ((gy as int) * (gw as int)) as nat,
            ),
        decreases gh - gy,
    {
        let mut gx: u32 = 0;
        while gx < gw
            invariant
                img.wf(),
                img.same_dims(*old(img)),
                raster.wf(),
                gw == raster.width,
                gh == raster.height,
                cx_milli == gw * 500,
                cy_milli == gh * 500,
                -1000 <= cos_m <= 1000,
                -1000 <= sin_m <= 1000,
                -4_100_000_000_000 <= x_off_milli <= 4_100_000_000_000,
                -4_100_000_000_000 <= y_off_milli <= 4_100_000_000_000,
                gy < gh,
                gx <= gw,
                w0 == old(img).width as int,
                h0 == old(img).height as int,
                cos_m == cosine_milli(rot_milli as int),
                sin_m == sine_milli(rot_milli as int),
                -1571 <= rot_milli <= 1571,
                img.data@ == draw_glyph_data(
                    old(img).data@,
                    w0,
                    h0,
                    *raster,
                    x_off_milli as int,
                    y_off_milli as int,
                    rot_milli as int,
                    cr,
                    cg,
                    cb,
                    ((gy as int) * (gw as int) + gx as int) as nat,
                ),
            decreases gw - gx,
        {
            proof {
                lemma_cell_index_bounds(gw as int, gh as int, gx as int, gy as int);
                assert((gw as int) * (gh as int) <= 16777216) by (nonlinear_arith)
                    requires
                        0 <= gw <= 4096,
                        0 <= gh <= 4096,
                {
                }
            }
            let idx: usize = (gy as usize) * (gw as usize) + (gx as usize);
            let ghost ki = (gy as int) * (gw as int) + (gx as int);
            let ghost pre = img.data@;
            proof {
                vstd::arithmetic::div_mod::lemma_fundamental_div_mod_converse(
                    ki,
                    gw as int,
                    gy as int,
                    gx as int,
                );
            }
            let cov = raster.coverage[idx];
            if cov >= 3 {
                let gxf: i64 = (gx as i64) * 1000 - cx_milli;
                let gyf: i64 = (gy as i64) * 1000 - cy_milli;
                proof {
                    assert({
                        &&& -4100000000 <= (gxf as int) * (cos_m as int) <= 4100000000
                        &&& -4100000000 <= (gxf as int) * (sin_m as int) <= 4100000000
                        &&& -4100000000 <= (gyf as int) * (cos_m as int) <= 4100000000
                        &&& -4100000000 <= (gyf as int) * (sin_m as int) <= 4100000000
                    }) by (nonlinear_arith)
                        requires
                            -4100000 <= gxf <= 4100000,
                            -4100000 <= gyf <= 4100000,
                            -1000 <= cos_m <= 1000,
                            -1000 <= sin_m <= 1000,
                    {
                    }
                }
                let rx: i64 = div_trunc(gxf * cos_m - gyf * sin_m, 1000);
                let ry: i64 = div_trunc(gxf * sin_m + gyf * cos_m, 1000);
                let fx: i64 = div_trunc(
                    rx + cx_milli + x_off_milli + (raster.bb_min_x as i64) * 1000,
                    1000,
                );
                let fy: i64 = div_trunc(
                    ry + cy_milli + y_off_milli + (raster.bb_min_y as i64) * 1000,
                    1000,
                );
                proof {
                    assert(fx as int == sample_x(
                        *raster,
                        gx as int,
                        gy as int,
                        x_off_milli as int,
                        rot_milli as int,
                    ));
                    assert(fy as int == sample_y(
                        *raster,
                        gx as int,
                        gy as int,
                        y_off_milli as int,
                        rot_milli as int,
                    ));
                }
                if fx >= 0 && fy >= 0 && fx < img.width() as i64 && fy < img.height() as i64 {
                    let (br, bgr, bbl) = img.get_pixel(fx as u32, fy as u32);
                    let nr = blend(br, cr, cov);
                    let ng = blend(bgr, cg, cov);
                    let nb = blend(bbl, cb, cov);
                    img.put_pixel(fx as u32, fy as u32, nr, ng, nb);
                }
            }
            proof {
                assert(img.data@ == blend_sample(
                    pre,
                    w0,
                    h0,
                    *raster,
                    x_off_milli as int,
                    y_off_milli as int,
                    rot_milli as int,
                    cr,
                    cg,
                    cb,
                    ki,
                ));
                assert(img.data@ == draw_glyph_data(
                    old(img).data@,
                    w0,
                    h0,
                    *raster,
                    x_off_milli as int,
                    y_off_milli as int,
                    rot_milli as int,
                    cr,
                    cg,
                    cb,
                    (ki + 1) as nat,
                ));
                assert((gy as int) * (gw as int) + (gx as int + 1) == ki + 1);
            }
            gx = gx + 1;
        }
        proof {
            assert(((gy as int) + 1) * (gw as int) == (gy as int) * (gw as int) + (gw as int))
                by (nonlinear_arith)
            {
            }
        }
        gy = gy + 1;
    }
    proof {
        assert((gh as int) * (gw as int) == (gw as int) * (gh as int)) by (nonlinear_arith)
        {
        }
    }
}

/// No character of the text has ink in this font: it is outside the alphabet,
/// or its glyph carries no raster. Such a text draws nothing at all.
pub open spec fn inkless(text: Seq<char>, font: ModelFont) -> bool {
    forall|i: int, j: int|
        0 <= i < text.len() && #[trigger] is_alpha_index(text[i], j) ==> font.glyphs@[j].raster
            is None
}

/// Lay out and draw the text. The characters' advances, plus an 8-pixel
/// spacing between neighbors, center the line horizontally; the baseline sits
/// at half the canvas height plus a third of the font size; each character
/// gets its own small random rotation, vertical and horizontal jitter, and
/// dark color. Characters outside the alphabet draw nothing and do not
/// advance; an alphabet character whose glyph has no raster draws nothing but
/// still advances the cursor. The dimensions never change, and a text with no
/// ink in the font leaves every pixel as it was.
pub fn draw_text(
    img: &mut PixelBuffer,
    text: &str,
    font: &ModelFont,
    font_size: u32,
    rng: &mut StdRng,
)
    requires
        old(img).wf(),
        font.wf(),
    ensures
        final(img).wf(),
        final(img).same_dims(*old(img)),
        inkless(text@, *font) ==> final(img).data@ == old(img).data@,
        text_drawn(*old(img), *final(img), *font, text@, font_size as int),
{
    let n: usize = text.unicode_len();
    let mut total: i64 = 0;
    let mut i: usize = 0;
    while i < n
        invariant
            font.wf(),
            n == text@.len(),
            i <= n,
            0 <= total <= 1_000_000_000_000,
            total == measure_upto(*font, text@, i as nat),
        decreases n - i,
    {
        let c = text.get_char(i);
        match alphabet_index(c) {
            Some(j) => {
                proof {
                    lemma_alpha_index_unique(c, j as int);
                }
                let a = font.glyphs[j].advance_milli;
                total = total + (a as i64) + 8000;
                if total > 1_000_000_000_000 {
                    total = 1_000_000_000_000;
                }
            },
            None => {
                proof {
                    lemma_no_alpha_index(c);
                }
            },
        }
        proof {
            assert(total == measure_upto(*font, text@, (i + 1) as nat));
        }
        i = i + 1;
    }
    if total >= 8000 {
        total = total - 8000;
    }
    assert(total == line_width(*font, text@));
    let base_y: i64 = (img.height() as i64) / 2 + (font_size as i64) / 3;
    let start_x: i64 = div_trunc((img.width() as i64) * 1000 - total, 2);
    let mut current_x: i64 = start_x;
    assert(base_y == baseline(old(img).height as int, font_size as int));
    assert(current_x == cursor_at(old(img).width as int, *font, text@, 0));
    let ghost mut ps: Seq<CharParams> = Seq::empty();
    let ghost mut chain: Seq<PixelBuffer> = seq![*old(img)];
    let mut k: usize = 0;
    while k < n
        invariant
            img.wf(),
            img.same_dims(*old(img)),
            font.wf(),
            n == text@.len(),
            k <= n,
            0 <= base_y <= 3_700_000_000,
            -1_000_000_000_000 <= current_x <= 4_000_000_000_000,
            base_y == baseline(old(img).height as int, font_size as int),
            current_x == cursor_at(old(img).width as int, *font, text@, k as nat),
            ps.len() == k as int,
            chain.len() == k as int + 1,
            chain.first() == *old(img),
            chain.last() == *img,
            forall|i2: int| 0 <= i2 < ps.len() ==> char_params_valid(#[trigger] ps[i2]),
            forall|i2: int|
                0 <= i2 < ps.len() ==> char_drawn(
                    chain[i2],
                    chain[i2 + 1],
                    *font,
                    text@[i2],
                    cursor_at(old(img).width as int, *font, text@, i2 as nat),
                    baseline(old(img).height as int, font_size as int),
                    #[trigger] ps[i2],
                ),
            inkless(text@, *font) ==> img.data@ == old(img).data@,
        decreases n - k,
    {
        let c = text.get_char(k);
        let ghost pre = *img;
        let ghost mut p = CharParams { rot: 0, jx: 0, jy: 0, cr: 30, cg: 30, cb: 30 };
        match alphabet_index(c) {
            Some(j) => {
                proof {
                    lemma_alpha_index_unique(c, j as int);
                }
                let rot: i64 = (rand_below(rng, 520) as i64) - 260;
                let jitter_y: i64 = (rand_below(rng, 10000) as i64) - 5000;
                let jitter_x: i64 = (rand_below(rng, 4000) as i64) - 2000;
                let cr = rand_in_range(rng, 30, 70) as u8;
                let cg = rand_in_range(rng, 30, 70) as u8;
                let cb = rand_in_range(rng, 30, 70) as u8;
                proof {
                    p = CharParams {
                        rot: rot as int,
                        jx: jitter_x as int,
                        jy: jitter_y as int,
                        cr,
                        cg,
                        cb,
                    };
                }
                let x_off: i64 = current_x + jitter_x;
                let y_off: i64 = base_y * 1000 + jitter_y;
                match &font.glyphs[j].raster {
                    Some(r) => {
                        draw_character(img, r, x_off, y_off, rot, cr, cg, cb);
                    },
                    None => {},
                }
                proof {
                    assert(char_drawn(
                        pre,
                        *img,
                        *font,
                        c,
                        cursor_at(old(img).width as int, *font, text@, k as nat),
                        baseline(old(img).height as int, font_size as int),
                        p,
                    ));
                }
                current_x = current_x + (font.glyphs[j].advance_milli as i64) + 8000;
                if current_x > 4_000_000_000_000 {
                    current_x = 4_000_000_000_000;
                }
                proof {
                    assert(current_x == cursor_at(
                        old(img).width as int,
                        *font,
                        text@,
                        (k + 1) as nat,
                    ));
                }
            },
            None => {
                proof {
                    lemma_no_alpha_index(c);
                    assert(char_drawn(
                        pre,
                        *img,
                        *font,
                        c,
                        cursor_at(old(img).width as int, *font, text@, k as nat),
                        baseline(old(img).height as int, font_size as int),
                        p,
                    ));
                    assert(current_x == cursor_at(
                        old(img).width as int,
                        *font,
                        text@,
                        (k + 1) as nat,
                    ));
                }
            },
        }
        proof {
            let ps2 = ps.push(p);
            let chain2 = chain.push(*img);
            assert forall|i2: int| 0 <= i2 < ps2.len() implies char_drawn(
                chain2[i2],
                chain2[i2 + 1],
                *font,
                text@[i2],
                cursor_at(old(img).width as int, *font, text@, i2 as nat),
                baseline(old(img).height as int, font_size as int),
                #[trigger] ps2[i2],
            ) by {
                if i2 < ps.len() {
                    assert(char_drawn(
                        chain[i2],
                        chain[i2 + 1],
                        *font,
                        text@[i2],
                        cursor_at(old(img).width as int, *font, text@, i2 as nat),
                        baseline(old(img).height as int, font_size as int),
                        ps[i2],
                    ));
                }
            }
            ps = ps2;
            chain = chain2;
        }
        k = k + 1;
    }
    proof {
        assert(text_applied(chain, *font, text@, font_size as int, ps));
        assert(text_drawn(*old(img), *img, *font, text@, font_size as int));
    }
}

} // verus!
