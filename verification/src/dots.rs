//! Random speckle overlaid on the canvas.

use rand::rngs::StdRng;
use vstd::prelude::*;

use crate::buffer::PixelBuffer;
use crate::rng::{rand_below, rand_chance, rand_in_range};

verus! {

/// The pixel at (x, y) carries a dot's coloring: either a light gray, every
/// channel in [200, 230), or a dark gray, every channel in [80, 140).
pub open spec fn dot_colored(img: PixelBuffer, x: int, y: int) -> bool {
    ||| forall|c: int| 0 <= c < 3 ==> 200 <= #[trigger] img.chan(x, y, c) < 230
    ||| forall|c: int| 0 <= c < 3 ==> 80 <= #[trigger] img.chan(x, y, c) < 140
}

/// The random choices behind one dot: its position and its gray.
pub struct DotParams {
    pub x: u32,
    pub y: u32,
    pub cr: u8,
    pub cg: u8,
    pub cb: u8,
}

/// The ranges the dot sampler draws from: a position on the canvas, and
/// either a light gray with every channel in [200, 230) or a dark gray with
/// every channel in [80, 140).
pub open spec fn dot_params_valid(p: DotParams, width: int, height: int) -> bool {
    &&& p.x < width
    &&& p.y < height
    &&& ((200 <= p.cr < 230 && 200 <= p.cg < 230 && 200 <= p.cb < 230) || (80 <= p.cr < 140 && 80
        <= p.cg < 140 && 80 <= p.cb < 140))
}

/// `b1` is `b0` with the single dot `p` plotted: the dot's own pixel takes
/// the dot's color; whatever else changed lies in the dot's 3x3 neighborhood
/// and carries the same color. Dots overwrite, they never blend.
pub open spec fn dot_applied(b0: PixelBuffer, b1: PixelBuffer, p: DotParams) -> bool {
    &&& b1.wf()
    &&& b1.same_dims(b0)
    &&& b0.in_bounds(p.x as int, p.y as int)
    &&& b1.chan(p.x as int, p.y as int, 0) == p.cr
    &&& b1.chan(p.x as int, p.y as int, 1) == p.cg
    &&& b1.chan(p.x as int, p.y as int, 2) == p.cb
    &&& forall|px: int, py: int, c: int|
        b0.in_bounds(px, py) && 0 <= c < 3 && #[trigger] b1.chan(px, py, c) != b0.chan(px, py, c)
            ==> p.x - 1 <= px <= p.x + 1 && p.y - 1 <= py <= p.y + 1 && b1.chan(px, py, 0) == p.cr
            && b1.chan(px, py, 1) == p.cg && b1.chan(px, py, 2) == p.cb
}

/// `chain` records the canvas before and after each dot of `ds`: dot i turns
/// `chain[i]` into `chain[i + 1]`.
pub open spec fn dots_applied(chain: Seq<PixelBuffer>, ds: Seq<DotParams>) -> bool {
    &&& chain.len() == ds.len() + 1
    &&& forall|i: int| 0 <= i < ds.len() ==> dot_applied(chain[i], chain[i + 1], #[trigger] ds[i])
}

/// The full effect of the stage: exactly `count` dots, each on the canvas and
/// in one of the two gray classes, plotted one after the other, turned `b0`
/// into `b1`.
pub open spec fn dots_drawn(b0: PixelBuffer, b1: PixelBuffer, count: int) -> bool {
    exists|ds: Seq<DotParams>, chain: Seq<PixelBuffer>|
        {
            &&& ds.len() == count
            &&& (forall|i: int|
                0 <= i < ds.len() ==> dot_params_valid(
                    #[trigger] ds[i],
                    b0.width as int,
                    b0.height as int,
                ))
            &&& #[trigger] dots_applied(chain, ds)
            &&& chain.first() == b0
            &&& chain.last() == b1
        }
}

/// Plots `count` dots at uniformly random positions; each is either a light
/// gray (even chance) or a dark gray, and with a one-in-five chance the dot
/// additionally speckles its 3x3 neighborhood, each cell with a three-in-ten
/// chance, clamped to the canvas. Dots overwrite pixels and never change the
/// dimensions.
pub fn add_noise_dots(img: &mut PixelBuffer, count: usize, rng: &mut StdRng)
    requires
        old(img).wf(),
        count > 0 ==> old(img).width >= 1 && old(img).height >= 1,
    ensures
        final(img).wf(),
        final(img).same_dims(*old(img)),
        count == 0 ==> final(img).data@ == old(img).data@,
        dots_drawn(*old(img), *final(img), count as int),
        forall|x: int, y: int, c: int|
            old(img).in_bounds(x, y) && 0 <= c < 3 && #[trigger] final(img).chan(x, y, c)
                != old(img).chan(x, y, c) ==> dot_colored(*final(img), x, y),
{
    let width = img.width();
    let height = img.height();
    let ghost mut ds: Seq<DotParams> = Seq::empty();
    let ghost mut chain: Seq<PixelBuffer> = seq![*old(img)];
    let mut dot: usize = 0;
    while dot < count
        invariant
            img.wf(),
            img.same_dims(*old(img)),
            width == img.width,
            height == img.height,
            count > 0 ==> width >= 1 && height >= 1,
            count == 0 ==> img.data@ == old(img).data@,
            dot <= count,
            ds.len() == dot as int,
            forall|i: int|
                0 <= i < ds.len() ==> dot_params_valid(
                    #[trigger] ds[i],
                    old(img).width as int,
                    old(img).height as int,
                ),
            dots_applied(chain, ds),
            chain.first() == *old(img),
            chain.last() == *img,
            forall|x: int, y: int, c: int|
                old(img).in_bounds(x, y) && 0 <= c < 3 && #[trigger] img.chan(x, y, c)
                    != old(img).chan(x, y, c) ==> dot_colored(*img, x, y),
        decreases count - dot,
    {
        let x: u32 = rand_below(rng, width);
        let y: u32 = rand_below(rng, height);
        let (cr, cg, cb) = if rand_chance(rng, 50) {
            (
                rand_in_range(rng, 200, 230) as u8,
                rand_in_range(rng, 200, 230) as u8,
                rand_in_range(rng, 200, 230) as u8,
            )
        } else {
            (
                rand_in_range(rng, 80, 140) as u8,
                rand_in_range(rng, 80, 140) as u8,
                rand_in_range(rng, 80, 140) as u8,
            )
        };
        let ghost pre = *img;
        img.put_pixel(x, y, cr, cg, cb);
        proof {
            lemma_dot_coloring_step(*old(img), pre, *img, x as int, y as int);
            assert forall|px: int, py: int, c: int|
                pre.in_bounds(px, py) && 0 <= c < 3 && #[trigger] img.chan(px, py, c) != pre.chan(
                    px,
                    py,
                    c,
                ) implies x - 1 <= px <= x + 1 && y - 1 <= py <= y + 1 && img.chan(px, py, 0) == cr
                && img.chan(px, py, 1) == cg && img.chan(px, py, 2) == cb by {
                if !(px == x && py == y) {
                    assert(forall|c2: int|
                        0 <= c2 < 3 ==> #[trigger] img.chan(px, py, c2) == pre.chan(px, py, c2));
                }
            }
        }
        if rand_chance(rng, 20) {
            let mut k: u32 = 0;
            while k < 9
                invariant
                    img.wf(),
                    img.same_dims(*old(img)),
                    width == img.width,
                    height == img.height,
                    width >= 1,
                    height >= 1,
                    x < width,
                    y < height,
                    pre.same_dims(*old(img)),
                    (200 <= cr < 230 && 200 <= cg < 230 && 200 <= cb < 230) || (80 <= cr < 140
                        && 80 <= cg < 140 && 80 <= cb < 140),
                    img.chan(x as int, y as int, 0) == cr,
                    img.chan(x as int, y as int, 1) == cg,
                    img.chan(x as int, y as int, 2) == cb,
                    forall|px: int, py: int, c: int|
                        pre.in_bounds(px, py) && 0 <= c < 3 && #[trigger] img.chan(px, py, c)
                            != pre.chan(px, py, c) ==> x - 1 <= px <= x + 1 && y - 1 <= py <= y + 1
                            && img.chan(px, py, 0) == cr && img.chan(px, py, 1) == cg && img.chan(
                            px,
                            py,
                            2,
                        ) == cb,
                    forall|x2: int, y2: int, c: int|
                        old(img).in_bounds(x2, y2) && 0 <= c < 3 && #[trigger] img.chan(x2, y2, c)
                            != old(img).chan(x2, y2, c) ==> dot_colored(*img, x2, y2),
                decreases 9 - k,
            {
                let dx: i64 = (k % 3) as i64 - 1;
                let dy: i64 = (k / 3) as i64 - 1;
                let xi: i64 = (x as i64) + dx;
                let yi: i64 = (y as i64) + dy;
                let nx: u32 = if xi < 0 {
                    0
                } else if xi > (width as i64) - 1 {
                    width - 1
                } else {
                    xi as u32
                };
                let ny: u32 = if yi < 0 {
                    0
                } else if yi > (height as i64) - 1 {
                    height - 1
                } else {
                    yi as u32
                };
                if rand_chance(rng, 30) {
                    let ghost pre2 = *img;
                    img.put_pixel(nx, ny, cr, cg, cb);
                    proof {
                        lemma_dot_coloring_step(*old(img), pre2, *img, nx as int, ny as int);
                        lemma_dot_box_step(
                            pre,
                            pre2,
                            *img,
                            x as int,
                            y as int,
                            nx as int,
                            ny as int,
                            cr,
                            cg,
                            cb,
                        );
                        assert(img.chan(x as int, y as int, 0) == cr && img.chan(
                            x as int,
                            y as int,
                            1,
                        ) == cg && img.chan(x as int, y as int, 2) == cb);
                    }
                }
                k = k + 1;
            }
        }
        proof {
            let p = DotParams { x, y, cr, cg, cb };
            assert(dot_applied(pre, *img, p));
            let ds2 = ds.push(p);
            let chain2 = chain.push(*img);
            assert forall|i: int| 0 <= i < ds2.len() implies dot_applied(
                chain2[i],
                chain2[i + 1],
                #[trigger] ds2[i],
            ) by {
                if i < ds.len() {
                    assert(dot_applied(chain[i], chain[i + 1], ds[i]));
                }
            }
            assert(dots_applied(chain2, ds2));
            ds = ds2;
            chain = chain2;
        }
        dot = dot + 1;
    }
    proof {
        assert(ds.len() == count as int);
        assert(dots_applied(chain, ds) && chain.first() == *old(img) && chain.last() == *img);
        assert(dots_drawn(*old(img), *img, count as int));
    }
}

/// One overwrite within the dot's clamped 3x3 box, with the dot's color,
/// keeps the per-dot guarantee: whatever differs from the canvas at the dot's
/// start lies in the box and carries the dot's color.
proof fn lemma_dot_box_step(
    pre: PixelBuffer,
    a: PixelBuffer,
    b: PixelBuffer,
    x: int,
    y: int,
    nx: int,
    ny: int,
    cr: u8,
    cg: u8,
    cb: u8,
)
    requires
        a.same_dims(pre),
        b.same_dims(a),
        x - 1 <= nx <= x + 1,
        y - 1 <= ny <= y + 1,
        forall|px: int, py: int, c: int|
            pre.in_bounds(px, py) && 0 <= c < 3 && #[trigger] a.chan(px, py, c) != pre.chan(
                px,
                py,
                c,
            ) ==> x - 1 <= px <= x + 1 && y - 1 <= py <= y + 1 && a.chan(px, py, 0) == cr && a.chan(
                px,
                py,
                1,
            ) == cg && a.chan(px, py, 2) == cb,
        b.chan(nx, ny, 0) == cr,
        b.chan(nx, ny, 1) == cg,
        b.chan(nx, ny, 2) == cb,
        forall|px: int, py: int, c: int|
            a.in_bounds(px, py) && 0 <= c < 3 && !(px == nx && py == ny) ==> #[trigger] b.chan(
                px,
                py,
                c,
            ) == a.chan(px, py, c),
    ensures
        forall|px: int, py: int, c: int|
            pre.in_bounds(px, py) && 0 <= c < 3 && #[trigger] b.chan(px, py, c) != pre.chan(
                px,
                py,
                c,
            ) ==> x - 1 <= px <= x + 1 && y - 1 <= py <= y + 1 && b.chan(px, py, 0) == cr && b.chan(
                px,
                py,
                1,
            ) == cg && b.chan(px, py, 2) == cb,
{
    assert forall|px: int, py: int, c: int|
        pre.in_bounds(px, py) && 0 <= c < 3 && #[trigger] b.chan(px, py, c) != pre.chan(
            px,
            py,
            c,
        ) implies x - 1 <= px <= x + 1 && y - 1 <= py <= y + 1 && b.chan(px, py, 0) == cr && b.chan(
        px,
        py,
        1,
    ) == cg && b.chan(px, py, 2) == cb by {
        if !(px == nx && py == ny) {
            assert(forall|c2: int|
                0 <= c2 < 3 ==> #[trigger] b.chan(px, py, c2) == a.chan(px, py, c2));
            assert(a.chan(px, py, c) != pre.chan(px, py, c));
        }
    }
}

/// One overwrite of a pixel with a dot coloring keeps the stage's guarantee:
/// whatever now differs from the starting canvas carries a dot coloring.
proof fn lemma_dot_coloring_step(
    orig: PixelBuffer,
    pre: PixelBuffer,
    post: PixelBuffer,
    px: int,
    py: int,
)
    requires
        pre.same_dims(orig),
        post.same_dims(pre),
        pre.in_bounds(px, py),
        forall|x: int, y: int, c: int|
            orig.in_bounds(x, y) && 0 <= c < 3 && #[trigger] pre.chan(x, y, c) != orig.chan(
                x,
                y,
                c,
            ) ==> dot_colored(pre, x, y),
        dot_colored(post, px, py),
        forall|x: int, y: int, c: int|
            pre.in_bounds(x, y) && 0 <= c < 3 && !(x == px && y == py)
                ==> #[trigger] post.chan(x, y, c) == pre.chan(x, y, c),
    ensures
        forall|x: int, y: int, c: int|
            orig.in_bounds(x, y) && 0 <= c < 3 && #[trigger] post.chan(x, y, c) != orig.chan(
                x,
                y,
                c,
            ) ==> dot_colored(post, x, y),
{
    assert forall|x: int, y: int, c: int|
        orig.in_bounds(x, y) && 0 <= c < 3 && #[trigger] post.chan(x, y, c) != orig.chan(
            x,
            y,
            c,
        ) implies dot_colored(post, x, y) by {
        if !(x == px && y == py) {
            assert(pre.chan(x, y, c) != orig.chan(x, y, c));
            assert(dot_colored(pre, x, y));
            assert(forall|c2: int| 0 <= c2 < 3 ==> #[trigger] post.chan(x, y, c2) == pre.chan(x, y, c2));
        }
    }
}

} // verus!
