//! The tile matcher: replacing each template tile with the best source tile.
//!
//! Each region is summarised by a signature, the mean of each color channel
//! over the region. Candidates are all full tile-sized regions of all source
//! buffers, enumerated in source order and row-major within a source. The
//! best candidate for a template tile is the one whose signature is nearest
//! (smallest sum of squared per-channel differences), the earliest winning
//! ties, and its pixels are copied into the output at the tile's position.
//! The whole computation is a function of its inputs, so two runs on the
//! same inputs produce identical output.

use vstd::prelude::*;
use vstd::arithmetic::div_mod::{
    lemma_div_is_ordered, lemma_div_multiples_vanish, lemma_fundamental_div_mod,
    lemma_fundamental_div_mod_converse_div, lemma_fundamental_div_mod_converse_mod,
    lemma_mod_division_less_than_divisor, lemma_multiply_divide_lt,
};
use crate::buffer::PixelBuffer;
use crate::error::MosaicError;
use crate::grid::GridIndexer;
use crate::vec2::{Rect, Vec2};

verus! {

/// Sum of channel `c` over the first `n` pixels of row `y`, starting at `x0`.
pub open spec fn row_sum(b: PixelBuffer, y: int, x0: int, n: int, c: int) -> int
    decreases n,
{
    if n <= 0 {
        0
    } else {
        row_sum(b, y, x0, n - 1, c) + b.pix(x0 + n - 1, y, c)
    }
}

/// Sum of channel `c` over the first `m` rows of region `r`.
pub open spec fn rect_sum(b: PixelBuffer, r: Rect<usize>, m: int, c: int) -> int
    decreases m,
{
    if m <= 0 {
        0
    } else {
        rect_sum(b, r, m - 1, c) + row_sum(
            b,
            r.pos.y + m - 1,
            r.pos.x as int,
            r.size.x as int,
            c,
        )
    }
}

/// The mean of channel `c` over region `r` (integer division by the area).
pub open spec fn mean_channel(b: PixelBuffer, r: Rect<usize>, c: int) -> int {
    rect_sum(b, r, r.size.y as int, c) / ((r.size.x as int) * (r.size.y as int))
}

/// The color signature of region `r`: the three channel means.
pub open spec fn spec_signature(b: PixelBuffer, r: Rect<usize>) -> (int, int, int) {
    (mean_channel(b, r, 0), mean_channel(b, r, 1), mean_channel(b, r, 2))
}

/// An executable signature as mathematical values.
pub open spec fn sig_view(s: (u8, u8, u8)) -> (int, int, int) {
    (s.0 as int, s.1 as int, s.2 as int)
}

/// The distance of two signatures: the sum of squared per-channel differences.
pub open spec fn sig_dist(a: (int, int, int), b: (int, int, int)) -> int {
    (a.0 - b.0) * (a.0 - b.0) + (a.1 - b.1) * (a.1 - b.1) + (a.2 - b.2) * (a.2 - b.2)
}

/// The distances of a list of signatures to the target signature `t`.
pub open spec fn dists_to(t: (int, int, int), sigs: Seq<(u8, u8, u8)>) -> Seq<int> {
    Seq::new(sigs.len(), |i: int| sig_dist(t, sig_view(sigs[i])))
}

/// The index of the smallest of the first `n` distances; on a tie the
/// earliest index wins.
pub open spec fn best_upto(d: Seq<int>, n: int) -> int
    decreases n,
{
    if n <= 1 {
        0
    } else if d[n - 1] < d[best_upto(d, n - 1)] {
        n - 1
    } else {
        best_upto(d, n - 1)
    }
}

/// A region lies within a buffer.
pub open spec fn region_in(b: PixelBuffer, r: Rect<usize>) -> bool {
    r.pos.x + r.size.x <= b.width && r.pos.y + r.size.y <= b.height
}

/// (`x`, `y`) lies in the axis-aligned block at `pos` of the given size.
pub open spec fn in_block(x: int, y: int, pos: Vec2<usize>, size: Vec2<usize>) -> bool {
    pos.x <= x < pos.x + size.x && pos.y <= y < pos.y + size.y
}

/// The signature of a region: the mean value of each color channel over the
/// region's pixels, rounded down.
pub fn region_signature(b: &PixelBuffer, r: Rect<usize>) -> (res: (u8, u8, u8))
    requires
        b.wf(),
        region_in(*b, r),
        1 <= r.size.x,
        1 <= r.size.y,
    ensures
        sig_view(res) == spec_signature(*b, r),
{
    proof {
        assert(b.data.len() == b.data@.len());
        assert((r.size.x as int) * (r.size.y as int) <= (b.width as int) * (b.height as int)
            && 1 <= (r.size.x as int) * (r.size.y as int) && (b.width as int) * (b.height as int)
            <= (b.width as int) * (b.height as int) * 3) by (nonlinear_arith)
            requires
                1 <= r.size.x <= b.width,
                1 <= r.size.y <= b.height,
        ;
    }
    let area = r.size.x * r.size.y;
    let mut sr: u128 = 0;
    let mut sg: u128 = 0;
    let mut sb: u128 = 0;
    let mut dy: usize = 0;
    while dy < r.size.y
        invariant
            b.wf(),
            region_in(*b, r),
            1 <= r.size.x,
            1 <= r.size.y,
            area == (r.size.x as int) * (r.size.y as int),
            area <= usize::MAX,
            0 <= dy <= r.size.y,
            sr == rect_sum(*b, r, dy as int, 0),
            sg == rect_sum(*b, r, dy as int, 1),
            sb == rect_sum(*b, r, dy as int, 2),
            sr <= 255 * (dy as int) * (r.size.x as int),
            sg <= 255 * (dy as int) * (r.size.x as int),
            sb <= 255 * (dy as int) * (r.size.x as int),
        decreases r.size.y - dy,
    {
        let mut dx: usize = 0;
        proof {
            assert(255 * (dy as int) * (r.size.x as int) + 255 * (r.size.x as int) == 255 * ((
            dy + 1) as int) * (r.size.x as int) && 255 * ((dy + 1) as int) * (r.size.x as int)
                <= 255 * (r.size.y as int) * (r.size.x as int)) by (nonlinear_arith)
                requires
                    0 <= dy < r.size.y,
                    1 <= r.size.x,
            ;
            assert(255 * (r.size.y as int) * (r.size.x as int) == 255 * ((r.size.x as int) * (
            r.size.y as int))) by (nonlinear_arith);
        }
        while dx < r.size.x
            invariant
                b.wf(),
                region_in(*b, r),
                1 <= r.size.x,
                1 <= r.size.y,
                area == (r.size.x as int) * (r.size.y as int),
                area <= usize::MAX,
                0 <= dy < r.size.y,
                0 <= dx <= r.size.x,
                sr == rect_sum(*b, r, dy as int, 0) + row_sum(
                    *b,
                    r.pos.y + dy,
                    r.pos.x as int,
                    dx as int,
                    0,
                ),
                sg == rect_sum(*b, r, dy as int, 1) + row_sum(
                    *b,
                    r.pos.y + dy,
                    r.pos.x as int,
                    dx as int,
                    1,
                ),
                sb == rect_sum(*b, r, dy as int, 2) + row_sum(
                    *b,
                    r.pos.y + dy,
                    r.pos.x as int,
                    dx as int,
                    2,
                ),
                sr <= 255 * (dy as int) * (r.size.x as int) + 255 * (dx as int),
                sg <= 255 * (dy as int) * (r.size.x as int) + 255 * (dx as int),
                sb <= 255 * (dy as int) * (r.size.x as int) + 255 * (dx as int),
                255 * (dy as int) * (r.size.x as int) + 255 * (r.size.x as int) <= 255 * ((
                r.size.x as int) * (r.size.y as int)),
            decreases r.size.x - dx,
        {
            let px = b.get_pixel(Vec2 { x: r.pos.x + dx, y: r.pos.y + dy });
            sr = sr + (px.0 as u128);
            sg = sg + (px.1 as u128);
            sb = sb + (px.2 as u128);
            dx = dx + 1;
        }
        dy = dy + 1;
    }
    proof {
        let a = (r.size.x as int) * (r.size.y as int);
        assert(255 * (r.size.y as int) * (r.size.x as int) == 255 * a && 1 <= a)
            by (nonlinear_arith)
            requires
                a == (r.size.x as int) * (r.size.y as int),
                1 <= r.size.x,
                1 <= r.size.y,
        ;
        lemma_mean_le_255(sr as int, a);
        lemma_mean_le_255(sg as int, a);
        lemma_mean_le_255(sb as int, a);
    }
    let ar = area as u128;
    ((sr / ar) as u8, (sg / ar) as u8, (sb / ar) as u8)
}

/// A sum of at most `255 * a` byte values has a mean of at most 255.
proof fn lemma_mean_le_255(s: int, a: int)
    requires
        1 <= a,
        0 <= s <= 255 * a,
    ensures
        0 <= s / a <= 255,
    {
    lemma_div_is_ordered(s, 255 * a, a);
    lemma_div_multiples_vanish(255, a);
    assert(255 * a == a * 255) by (nonlinear_arith);
    vstd::arithmetic::div_mod::lemma_div_pos_is_pos(s, a);
}

/// The distance of two signatures.
fn sig_distance(a: (u8, u8, u8), b: (u8, u8, u8)) -> (d: u32)
    ensures
        d == sig_dist(sig_view(a), sig_view(b)),
{
    let dr = a.0 as i32 - b.0 as i32;
    let dg = a.1 as i32 - b.1 as i32;
    let db = a.2 as i32 - b.2 as i32;
    proof {
        assert(0 <= dr * dr <= 65025 && 0 <= dg * dg <= 65025 && 0 <= db * db <= 65025)
            by (nonlinear_arith)
            requires
                -255 <= dr <= 255,
                -255 <= dg <= 255,
                -255 <= db <= 255,
        ;
    }
    (dr * dr + dg * dg + db * db) as u32
}

/// The index of the candidate signature nearest to `t`; the earliest of the
/// nearest wins.
fn find_best(t: (u8, u8, u8), sigs: &Vec<(u8, u8, u8)>) -> (k: usize)
    requires
        sigs@.len() >= 1,
    ensures
        0 <= k < sigs@.len(),
        k == best_upto(dists_to(sig_view(t), sigs@), sigs@.len() as int),
{
    let mut best: usize = 0;
    let mut best_d = sig_distance(t, sigs[0]);
    let mut i: usize = 1;
    while i < sigs.len()
        invariant
            1 <= i <= sigs@.len(),
            0 <= best < i,
            best == best_upto(dists_to(sig_view(t), sigs@), i as int),
            best_d == dists_to(sig_view(t), sigs@)[best as int],
        decreases sigs@.len() - i,
    {
        let d = sig_distance(t, sigs[i]);
        if d < best_d {
            best = i;
            best_d = d;
        }
        i = i + 1;
    }
    best
}

/// Copies the `size`-sized block of `src` at `src_pos` into `dst` at
/// `dst_pos`; every pixel of `dst` outside the written block keeps its value.
fn copy_region(
    dst: &mut PixelBuffer,
    src: &PixelBuffer,
    src_pos: Vec2<usize>,
    dst_pos: Vec2<usize>,
    size: Vec2<usize>,
)
    requires
        old(dst).wf(),
        src.wf(),
        src_pos.x + size.x <= src.width,
        src_pos.y + size.y <= src.height,
        dst_pos.x + size.x <= old(dst).width,
        dst_pos.y + size.y <= old(dst).height,
    ensures
        final(dst).wf(),
        final(dst).width == old(dst).width,
        final(dst).height == old(dst).height,
        forall|x: int, y: int, c: int|
            final(dst).in_bounds(x, y) && 0 <= c < 3 ==> final(dst).pix(x, y, c) == (if in_block(
                x,
                y,
                dst_pos,
                size,
            ) {
                src.pix(src_pos.x + (x - dst_pos.x), src_pos.y + (y - dst_pos.y), c)
            } else {
                old(dst).pix(x, y, c)
            }),
{
    let mut dy: usize = 0;
    while dy < size.y
        invariant
            dst.wf(),
            src.wf(),
            dst.width == old(dst).width,
            dst.height == old(dst).height,
            src_pos.x + size.x <= src.width,
            src_pos.y + size.y <= src.height,
            dst_pos.x + size.x <= dst.width,
            dst_pos.y + size.y <= dst.height,
            0 <= dy <= size.y,
            forall|x: int, y: int, c: int|
                dst.in_bounds(x, y) && 0 <= c < 3 ==> dst.pix(x, y, c) == (if in_block(
                    x,
                    y,
                    dst_pos,
                    Vec2 { x: size.x, y: dy },
                ) {
                    src.pix(src_pos.x + (x - dst_pos.x), src_pos.y + (y - dst_pos.y), c)
                } else {
                    old(dst).pix(x, y, c)
                }),
        decreases size.y - dy,
    {
        let mut dx: usize = 0;
        while dx < size.x
            invariant
                dst.wf(),
                src.wf(),
                dst.width == old(dst).width,
                dst.height == old(dst).height,
                src_pos.x + size.x <= src.width,
                src_pos.y + size.y <= src.height,
                dst_pos.x + size.x <= dst.width,
                dst_pos.y + size.y <= dst.height,
                0 <= dy < size.y,
                0 <= dx <= size.x,
                forall|x: int, y: int, c: int|
                    dst.in_bounds(x, y) && 0 <= c < 3 ==> dst.pix(x, y, c) == (if in_block(
                        x,
                        y,
                        dst_pos,
                        Vec2 { x: size.x, y: dy },
                    ) || (y == dst_pos.y + dy && dst_pos.x <= x < dst_pos.x + dx) {
                        src.pix(src_pos.x + (x - dst_pos.x), src_pos.y + (y - dst_pos.y), c)
                    } else {
                        old(dst).pix(x, y, c)
                    }),
            decreases size.x - dx,
        {
            let px = src.get_pixel(Vec2 { x: src_pos.x + dx, y: src_pos.y + dy });
            dst.set_pixel(Vec2 { x: dst_pos.x + dx, y: dst_pos.y + dy }, px);
            dx = dx + 1;
        }
        dy = dy + 1;
    }
}

/// One candidate tile: a source image and the tile's top-left pixel in it.
#[derive(Debug, Clone, Copy, PartialEq, Eq, Structural)]
pub struct Candidate {
    /// Index of the source buffer the tile is cut from.
    pub source: usize,
    /// Top-left corner of the tile within that source.
    pub pos: Vec2<usize>,
}

/// How many full tiles fit across source `s`.
pub open spec fn cand_grid_w(s: PixelBuffer, tile: Vec2<usize>) -> int {
    (s.width as int) / (tile.x as int)
}

/// How many full tiles fit down source `s`.
pub open spec fn cand_grid_h(s: PixelBuffer, tile: Vec2<usize>) -> int {
    (s.height as int) / (tile.y as int)
}

/// The candidates of source `j`: its full tiles, row-major.
pub open spec fn cands_of_source(j: int, s: PixelBuffer, tile: Vec2<usize>) -> Seq<Candidate> {
    Seq::new(
        (cand_grid_w(s, tile) * cand_grid_h(s, tile)) as nat,
        |i: int|
            Candidate {
                source: j as usize,
                pos: Vec2 {
                    x: ((i % cand_grid_w(s, tile)) * (tile.x as int)) as usize,
                    y: ((i / cand_grid_w(s, tile)) * (tile.y as int)) as usize,
                },
            },
    )
}

/// The candidates of the first `j` sources, in source order.
pub open spec fn cands_upto(sources: Seq<PixelBuffer>, tile: Vec2<usize>, j: int) -> Seq<
    Candidate,
>
    decreases j,
{
    if j <= 0 {
        Seq::empty()
    } else {
        cands_upto(sources, tile, j - 1) + cands_of_source(j - 1, sources[j - 1], tile)
    }
}

/// All candidates: every full tile of every source, in source order and
/// row-major within a source.
pub open spec fn all_cands(sources: Seq<PixelBuffer>, tile: Vec2<usize>) -> Seq<Candidate> {
    cands_upto(sources, tile, sources.len() as int)
}

/// A candidate addresses a tile that lies within its source.
pub open spec fn cand_ok(sources: Seq<PixelBuffer>, tile: Vec2<usize>, c: Candidate) -> bool {
    &&& c.source < sources.len()
    &&& c.pos.x + tile.x <= sources[c.source as int].width
    &&& c.pos.y + tile.y <= sources[c.source as int].height
}

/// The tile-sized region a candidate denotes in its source.
pub open spec fn cand_rect(c: Candidate, tile: Vec2<usize>) -> Rect<usize> {
    Rect { pos: c.pos, size: tile }
}

/// The signature of a candidate's tile.
pub open spec fn cand_sig(sources: Seq<PixelBuffer>, tile: Vec2<usize>, c: Candidate) -> (
    int,
    int,
    int,
) {
    spec_signature(sources[c.source as int], cand_rect(c, tile))
}

/// Every enumerated candidate addresses a tile within its source.
pub proof fn lemma_cands_upto_ok(sources: Seq<PixelBuffer>, tile: Vec2<usize>, j: int)
    requires
        1 <= tile.x,
        1 <= tile.y,
        0 <= j <= sources.len(),
        sources.len() <= usize::MAX,
    ensures
        forall|i: int|
            0 <= i < cands_upto(sources, tile, j).len() ==> cand_ok(
                sources,
                tile,
                #[trigger] cands_upto(sources, tile, j)[i],
            ),
    decreases j,
{
    if j > 0 {
        lemma_cands_upto_ok(sources, tile, j - 1);
        let s = sources[j - 1];
        let fw = cand_grid_w(s, tile);
        let fh = cand_grid_h(s, tile);
        let cs = cands_of_source(j - 1, s, tile);
        assert forall|i: int| 0 <= i < cs.len() implies cand_ok(sources, tile, cs[i]) by {
            assert(0 < fw && 0 < fh) by (nonlinear_arith)
                requires
                    0 <= i < fw * fh,
                    0 <= fw,
                    0 <= fh,
            ;
            lemma_mod_division_less_than_divisor(i, fw);
            lemma_multiply_divide_lt(i, fw, fh);
            lemma_fundamental_div_mod(s.width as int, tile.x as int);
            lemma_fundamental_div_mod(s.height as int, tile.y as int);
            lemma_mod_division_less_than_divisor(s.width as int, tile.x as int);
            lemma_mod_division_less_than_divisor(s.height as int, tile.y as int);
            assert((i % fw) * (tile.x as int) + tile.x <= fw * (tile.x as int) && 0 <= (i % fw)
                * (tile.x as int)) by (nonlinear_arith)
                requires
                    0 <= i % fw < fw,
                    1 <= tile.x,
            ;
            assert((i / fw) * (tile.y as int) + tile.y <= fh * (tile.y as int) && 0 <= (i / fw)
                * (tile.y as int)) by (nonlinear_arith)
                requires
                    0 <= i / fw < fh,
                    1 <= tile.y,
            ;
            assert(fw * (tile.x as int) == (tile.x as int) * fw && fh * (tile.y as int) == (
            tile.y as int) * fh) by (nonlinear_arith);
        }
        let pre = cands_upto(sources, tile, j - 1);
        assert forall|i: int| 0 <= i < cands_upto(sources, tile, j).len() implies cand_ok(
            sources,
            tile,
            #[trigger] cands_upto(sources, tile, j)[i],
        ) by {
            if i < pre.len() {
                assert(cands_upto(sources, tile, j)[i] == pre[i]);
            } else {
                assert(cands_upto(sources, tile, j)[i] == cs[i - pre.len()]);
            }
        }
    }
}

/// Enumerates every full tile of every source: the candidate pool.
fn collect_candidates(sources: &Vec<PixelBuffer>, tile: Vec2<usize>) -> (r: Vec<Candidate>)
    requires
        1 <= tile.x,
        1 <= tile.y,
        forall|i: int| 0 <= i < sources@.len() ==> (#[trigger] sources@[i]).wf(),
    ensures
        r@ == all_cands(sources@, tile),
{
    let mut r: Vec<Candidate> = Vec::new();
    let mut j: usize = 0;
    while j < sources.len()
        invariant
            1 <= tile.x,
            1 <= tile.y,
            0 <= j <= sources@.len(),
            r@ == cands_upto(sources@, tile, j as int),
        decreases sources@.len() - j,
    {
        let s = &sources[j];
        let fw = s.width / tile.x;
        let fh = s.height / tile.y;
        let ghost cs = cands_of_source(j as int, sources@[j as int], tile);
        proof {
            assert(cs.len() == fw * fh && 0 <= (fw as int) * (fh as int)) by (nonlinear_arith)
                requires
                    0 <= fw,
                    0 <= fh,
                    cs.len() == ((fw as int) * (fh as int)) as nat,
            ;
            lemma_fundamental_div_mod(s.width as int, tile.x as int);
            lemma_mod_division_less_than_divisor(s.width as int, tile.x as int);
            lemma_fundamental_div_mod(s.height as int, tile.y as int);
            lemma_mod_division_less_than_divisor(s.height as int, tile.y as int);
            assert((tile.x as int) * (fw as int) == (fw as int) * (tile.x as int) && (
            tile.y as int) * (fh as int) == (fh as int) * (tile.y as int)) by (nonlinear_arith);
        }
        let mut cy: usize = 0;
        while cy < fh
            invariant
                1 <= tile.x,
                1 <= tile.y,
                0 <= j < sources@.len(),
                fw == cand_grid_w(sources@[j as int], tile),
                fh == cand_grid_h(sources@[j as int], tile),
                cs == cands_of_source(j as int, sources@[j as int], tile),
                cs.len() == (fw as int) * (fh as int),
                (fw as int) * (tile.x as int) <= sources@[j as int].width,
                (fh as int) * (tile.y as int) <= sources@[j as int].height,
                0 <= cy <= fh,
                r@ == cands_upto(sources@, tile, j as int) + cs.take((cy as int) * (fw as int)),
            decreases fh - cy,
        {
            let mut cx: usize = 0;
            proof {
                assert((cy as int) * (fw as int) + fw <= (fw as int) * (fh as int) && ((cy
                    + 1) as int) * (fw as int) == (cy as int) * (fw as int) + fw)
                    by (nonlinear_arith)
                    requires
                        0 <= cy < fh,
                        0 <= fw,
                ;
            }
            while cx < fw
                invariant
                    1 <= tile.x,
                    1 <= tile.y,
                    0 <= j < sources@.len(),
                    fw == cand_grid_w(sources@[j as int], tile),
                    fh == cand_grid_h(sources@[j as int], tile),
                    cs == cands_of_source(j as int, sources@[j as int], tile),
                    cs.len() == (fw as int) * (fh as int),
                    (fw as int) * (tile.x as int) <= sources@[j as int].width,
                    (fh as int) * (tile.y as int) <= sources@[j as int].height,
                    0 <= cy < fh,
                    0 <= cx <= fw,
                    (cy as int) * (fw as int) + fw <= (fw as int) * (fh as int),
                    r@ == cands_upto(sources@, tile, j as int) + cs.take(
                        (cy as int) * (fw as int) + cx as int,
                    ),
                decreases fw - cx,
            {
                let ghost k = (cy as int) * (fw as int) + cx as int;
                proof {
                    lemma_fundamental_div_mod_converse_div(k, fw as int, cy as int, cx as int);
                    lemma_fundamental_div_mod_converse_mod(k, fw as int, cy as int, cx as int);
                    assert((cx as int) * (tile.x as int) + tile.x <= (fw as int) * (tile.x as int)
                        && 0 <= (cx as int) * (tile.x as int)) by (nonlinear_arith)
                        requires
                            0 <= cx < fw,
                            1 <= tile.x,
                    ;
                    assert((cy as int) * (tile.y as int) + tile.y <= (fh as int) * (tile.y as int)
                        && 0 <= (cy as int) * (tile.y as int)) by (nonlinear_arith)
                        requires
                            0 <= cy < fh,
                            1 <= tile.y,
                    ;
                    assert(cs.take(k + 1) =~= cs.take(k).push(cs[k]));
                }
                r.push(Candidate { source: j, pos: Vec2 { x: cx * tile.x, y: cy * tile.y } });
                cx = cx + 1;
            }
            cy = cy + 1;
        }
        proof {
            assert((fh as int) * (fw as int) == (fw as int) * (fh as int)) by (nonlinear_arith);
            assert(cs.take((fh as int) * (fw as int)) =~= cs);
        }
        j = j + 1;
    }
    r
}

/// The signature of every candidate, aligned with the candidate list.
fn candidate_signatures(sources: &Vec<PixelBuffer>, tile: Vec2<usize>, cands: &Vec<Candidate>)
    -> (sigs: Vec<(u8, u8, u8)>)
    requires
        1 <= tile.x,
        1 <= tile.y,
        forall|i: int| 0 <= i < sources@.len() ==> (#[trigger] sources@[i]).wf(),
        forall|i: int|
            0 <= i < cands@.len() ==> cand_ok(sources@, tile, #[trigger] cands@[i]),
    ensures
        sigs@.len() == cands@.len(),
        forall|i: int|
            0 <= i < cands@.len() ==> sig_view(#[trigger] sigs@[i]) == cand_sig(
                sources@,
                tile,
                cands@[i],
            ),
{
    let mut sigs: Vec<(u8, u8, u8)> = Vec::new();
    let mut i: usize = 0;
    while i < cands.len()
        invariant
            1 <= tile.x,
            1 <= tile.y,
            forall|q: int| 0 <= q < sources@.len() ==> (#[trigger] sources@[q]).wf(),
            forall|q: int|
                0 <= q < cands@.len() ==> cand_ok(sources@, tile, #[trigger] cands@[q]),
            0 <= i <= cands@.len(),
            sigs@.len() == i,
            forall|q: int|
                0 <= q < i ==> sig_view(#[trigger] sigs@[q]) == cand_sig(
                    sources@,
                    tile,
                    cands@[q],
                ),
        decreases cands@.len() - i,
    {
        let c = cands[i];
        let s = region_signature(&sources[c.source], Rect { pos: c.pos, size: tile });
        sigs.push(s);
        i = i + 1;
    }
    sigs
}

/// The distances of all candidates' signatures to the target signature `t`.
pub open spec fn cand_dists(t: (int, int, int), sources: Seq<PixelBuffer>, tile: Vec2<usize>)
    -> Seq<int> {
    Seq::new(
        all_cands(sources, tile).len(),
        |i: int| sig_dist(t, cand_sig(sources, tile, all_cands(sources, tile)[i])),
    )
}

/// The candidate chosen for a template region: the first of the candidates
/// whose signature distance to the region's signature is smallest.
pub open spec fn best_index(
    tpl: PixelBuffer,
    sources: Seq<PixelBuffer>,
    tile: Vec2<usize>,
    r: Rect<usize>,
) -> int {
    best_upto(
        cand_dists(spec_signature(tpl, r), sources, tile),
        all_cands(sources, tile).len() as int,
    )
}

/// The value of channel `c` of output pixel (`x`, `y`): the corresponding
/// pixel of the candidate chosen for the template tile containing (`x`, `y`).
pub open spec fn mosaic_pix(
    tpl: PixelBuffer,
    sources: Seq<PixelBuffer>,
    tile: Vec2<usize>,
    x: int,
    y: int,
    c: int,
) -> u8 {
    let g = GridIndexer { template_size: Vec2 { x: tpl.width, y: tpl.height }, tile_size: tile };
    let coord = g.grid_coord_of(Vec2 { x: x as usize, y: y as usize });
    let r = g.spec_region_at(coord);
    let k = best_index(tpl, sources, tile, r);
    let cand = all_cands(sources, tile)[k];
    sources[cand.source as int].pix(
        cand.pos.x + (x - r.pos.x),
        cand.pos.y + (y - r.pos.y),
        c,
    )
}

/// What it means for `out` to be the mosaic of the given inputs: it has the
/// template's dimensions and every pixel carries `mosaic_pix` of the inputs.
pub open spec fn is_mosaic_of(
    out: PixelBuffer,
    tpl: PixelBuffer,
    sources: Seq<PixelBuffer>,
    tile: Vec2<usize>,
) -> bool {
    &&& out.wf()
    &&& out.width == tpl.width
    &&& out.height == tpl.height
    &&& forall|x: int, y: int, c: int|
        0 <= x < tpl.width && 0 <= y < tpl.height && 0 <= c < 3 ==> #[trigger] out.pix(x, y, c)
            == mosaic_pix(tpl, sources, tile, x, y, c)
}

/// Builds the mosaic: every template tile is replaced by the candidate tile
/// with the nearest mean color, earliest candidate first on ties.
///
/// Fails with the configuration error exactly when the tile size is zero on
/// an axis, and with the insufficient-material error exactly when no source
/// contains even one full tile (in particular when there are no sources).
pub fn build_mosaic(template: &PixelBuffer, sources: &Vec<PixelBuffer>, tile_size: Vec2<usize>)
    -> (r: Result<PixelBuffer, MosaicError>)
    requires
        template.wf(),
        forall|i: int| 0 <= i < sources@.len() ==> (#[trigger] sources@[i]).wf(),
    ensures
        match r {
            Ok(out) => 1 <= tile_size.x && 1 <= tile_size.y && all_cands(
                sources@,
                tile_size,
            ).len() > 0 && is_mosaic_of(out, *template, sources@, tile_size),
            Err(MosaicError::ConfigurationError) => tile_size.x == 0 || tile_size.y == 0,
            Err(MosaicError::InsufficientSourceMaterial) => 1 <= tile_size.x && 1 <= tile_size.y
                && all_cands(sources@, tile_size).len() == 0,
        },
{
    if tile_size.x == 0 || tile_size.y == 0 {
        return Err(MosaicError::ConfigurationError);
    }
    let cands = collect_candidates(sources, tile_size);
    if cands.len() == 0 {
        return Err(MosaicError::InsufficientSourceMaterial);
    }
    proof {
        assert(sources.len() == sources@.len());
        lemma_cands_upto_ok(sources@, tile_size, sources@.len() as int);
        assert(template.data.len() == template.data@.len());
        assert((template.width as int) * (template.height as int) <= (template.width as int) * (
        template.height as int) * 3) by (nonlinear_arith)
            requires
                0 <= template.width,
                0 <= template.height,
        ;
    }
    let sigs = candidate_signatures(sources, tile_size, &cands);
    let tsize = template.size();
    let mut out = PixelBuffer::new(tsize);
    let g = GridIndexer { template_size: tsize, tile_size };
    let gs = g.grid_size();
    let mut cy: usize = 0;
    while cy < gs.y
        invariant
            template.wf(),
            forall|i: int| 0 <= i < sources@.len() ==> (#[trigger] sources@[i]).wf(),
            1 <= tile_size.x,
            1 <= tile_size.y,
            g == (GridIndexer {
                template_size: Vec2 { x: template.width, y: template.height },
                tile_size,
            }),
            g.wf(),
            gs.x == g.grid_w(),
            gs.y == g.grid_h(),
            cands@ == all_cands(sources@, tile_size),
            cands@.len() >= 1,
            forall|i: int|
                0 <= i < cands@.len() ==> cand_ok(sources@, tile_size, #[trigger] cands@[i]),
            sigs@.len() == cands@.len(),
            forall|i: int|
                0 <= i < cands@.len() ==> sig_view(#[trigger] sigs@[i]) == cand_sig(
                    sources@,
                    tile_size,
                    cands@[i],
                ),
            out.wf(),
            out.width == template.width,
            out.height == template.height,
            0 <= cy <= gs.y,
            forall|x: int, y: int, c: int|
                0 <= x < template.width && 0 <= y < template.height && 0 <= c < 3
                    && g.grid_coord_of(Vec2 { x: x as usize, y: y as usize }).y < cy
                    ==> #[trigger] out.pix(x, y, c) == mosaic_pix(
                    *template,
                    sources@,
                    tile_size,
                    x,
                    y,
                    c,
                ),
        decreases gs.y - cy,
    {
        let mut cx: usize = 0;
        while cx < gs.x
            invariant
                template.wf(),
                forall|i: int| 0 <= i < sources@.len() ==> (#[trigger] sources@[i]).wf(),
                1 <= tile_size.x,
                1 <= tile_size.y,
                g == (GridIndexer {
                    template_size: Vec2 { x: template.width, y: template.height },
                    tile_size,
                }),
                g.wf(),
                gs.x == g.grid_w(),
                gs.y == g.grid_h(),
                cands@ == all_cands(sources@, tile_size),
                cands@.len() >= 1,
                forall|i: int|
                    0 <= i < cands@.len() ==> cand_ok(sources@, tile_size, #[trigger] cands@[i]),
                sigs@.len() == cands@.len(),
                forall|i: int|
                    0 <= i < cands@.len() ==> sig_view(#[trigger] sigs@[i]) == cand_sig(
                        sources@,
                        tile_size,
                        cands@[i],
                    ),
                out.wf(),
                out.width == template.width,
                out.height == template.height,
                0 <= cy < gs.y,
                0 <= cx <= gs.x,
                forall|x: int, y: int, c: int|
                    0 <= x < template.width && 0 <= y < template.height && 0 <= c < 3 && ({
                        let gc = g.grid_coord_of(Vec2 { x: x as usize, y: y as usize });
                        gc.y < cy || (gc.y == cy && gc.x < cx)
                    }) ==> #[trigger] out.pix(x, y, c) == mosaic_pix(
                        *template,
                        sources@,
                        tile_size,
                        x,
                        y,
                        c,
                    ),
            decreases gs.x - cx,
        {
            let coord = Vec2 { x: cx, y: cy };
            let region = g.region_at(coord);
            proof {
                crate::grid::lemma_region_at_bounds(g, coord);
            }
            let tsig = region_signature(template, region);
            let k = find_best(tsig, &sigs);
            proof {
                assert(dists_to(sig_view(tsig), sigs@) =~= cand_dists(
                    spec_signature(*template, region),
                    sources@,
                    tile_size,
                ));
            }
            let cand = cands[k];
            let ghost prev = out;
            copy_region(&mut out, &sources[cand.source], cand.pos, region.pos, region.size);
            proof {
                assert forall|x: int, y: int, c: int|
                    0 <= x < template.width && 0 <= y < template.height && 0 <= c < 3 && ({
                        let gc = g.grid_coord_of(Vec2 { x: x as usize, y: y as usize });
                        gc.y < cy || (gc.y == cy && gc.x < cx + 1)
                    }) implies #[trigger] out.pix(x, y, c) == mosaic_pix(
                    *template,
                    sources@,
                    tile_size,
                    x,
                    y,
                    c,
                ) by {
                    let p = Vec2 { x: x as usize, y: y as usize };
                    crate::grid::lemma_grid_partition(g, p);
                    let gc = g.grid_coord_of(p);
                    if gc == coord {
                        assert(crate::grid::rect_contains(region, p));
                        assert(in_block(x, y, region.pos, region.size));
                    } else {
                        if in_block(x, y, region.pos, region.size) {
                            assert(crate::grid::rect_contains(g.spec_region_at(coord), p));
                            assert(gc == coord);
                        }
                        assert(out.pix(x, y, c) == prev.pix(x, y, c));
                    }
                }
            }
            cx = cx + 1;
        }
        proof {
            assert forall|x: int, y: int, c: int|
                0 <= x < template.width && 0 <= y < template.height && 0 <= c < 3
                    && g.grid_coord_of(Vec2 { x: x as usize, y: y as usize }).y < cy
                    + 1 implies #[trigger] out.pix(x, y, c) == mosaic_pix(
                *template,
                sources@,
                tile_size,
                x,
                y,
                c,
            ) by {
                let p = Vec2 { x: x as usize, y: y as usize };
                crate::grid::lemma_grid_partition(g, p);
            }
        }
        cy = cy + 1;
    }
    proof {
        assert forall|x: int, y: int, c: int|
            0 <= x < template.width && 0 <= y < template.height && 0 <= c
                < 3 implies #[trigger] out.pix(x, y, c) == mosaic_pix(
            *template,
            sources@,
            tile_size,
            x,
            y,
            c,
        ) by {
            let p = Vec2 { x: x as usize, y: y as usize };
            crate::grid::lemma_grid_partition(g, p);
        }
    }
    Ok(out)
}

/// The matcher is deterministic: any two buffers that are each the mosaic of
/// the same inputs hold byte-identical pixel data.
pub proof fn lemma_matcher_deterministic(
    tpl: PixelBuffer,
    sources: Seq<PixelBuffer>,
    tile: Vec2<usize>,
    r1: PixelBuffer,
    r2: PixelBuffer,
)
    requires
        is_mosaic_of(r1, tpl, sources, tile),
        is_mosaic_of(r2, tpl, sources, tile),
    ensures
        r1.width == r2.width,
        r1.height == r2.height,
        r1.data@ == r2.data@,
{
    let w = tpl.width as int;
    let h = tpl.height as int;
    assert forall|jj: int| 0 <= jj < r1.data@.len() implies r1.data@[jj] == r2.data@[jj] by {
        assert(0 < w && 0 < h) by (nonlinear_arith)
            requires
                0 <= jj < w * h * 3,
                0 <= w,
                0 <= h,
        ;
        let pi = jj / 3;
        let c = jj % 3;
        lemma_fundamental_div_mod(jj, 3);
        lemma_mod_division_less_than_divisor(jj, 3);
        assert(w * h * 3 == 3 * (w * h)) by (nonlinear_arith);
        lemma_multiply_divide_lt(jj, 3, w * h);
        let x = pi % w;
        let y = pi / w;
        lemma_fundamental_div_mod(pi, w);
        lemma_mod_division_less_than_divisor(pi, w);
        lemma_multiply_divide_lt(pi, w, h);
        assert(w * y + x == y * w + x) by (nonlinear_arith);
        assert(r1.pix_index(x, y, c) == jj);
        assert(r1.pix(x, y, c) == mosaic_pix(tpl, sources, tile, x, y, c));
        assert(r2.pix(x, y, c) == mosaic_pix(tpl, sources, tile, x, y, c));
    }
    assert(r1.data@ =~= r2.data@);
}

} // verus!
