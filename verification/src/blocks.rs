//! Per-block channel sums and the averaged block color: each channel of a
//! block is summed across all of the block's pixels and divided by the
//! block's exact pixel count.

use vstd::prelude::*;
use crate::color::Rgba;
use crate::raster::Image;

verus! {

/// Sum of channel `k` over the `n` pixels of row `y` starting at column
/// `x0`, in a grid `width` pixels wide stored row-major in `pix`.
pub open spec fn row_sum(pix: Seq<Rgba>, width: int, y: int, x0: int, n: int, k: int) -> int
    decreases n,
{
    if n <= 0 {
        0
    } else {
        row_sum(pix, width, y, x0, n - 1, k) + pix[y * width + x0 + (n - 1)].chan(k)
    }
}

/// Sum of channel `k` over the w × h block with top-left corner (x0, y0).
pub open spec fn block_sum(
    pix: Seq<Rgba>,
    width: int,
    x0: int,
    y0: int,
    w: int,
    h: int,
    k: int,
) -> int
    decreases h,
{
    if h <= 0 {
        0
    } else {
        block_sum(pix, width, x0, y0, w, h - 1, k) + row_sum(pix, width, y0 + (h - 1), x0, w, k)
    }
}

/// A row sum of `n` 8-bit channels lies between 0 and 255 · n.
pub proof fn lemma_row_sum_bounds(pix: Seq<Rgba>, width: int, y: int, x0: int, n: int, k: int)
    requires
        n >= 0,
    ensures
        0 <= row_sum(pix, width, y, x0, n, k) <= 255 * n,
    decreases n,
{
    if n > 0 {
        lemma_row_sum_bounds(pix, width, y, x0, n - 1, k);
    }
}

/// A block sum of w × h 8-bit channels lies between 0 and 255 · w · h.
pub proof fn lemma_block_sum_bounds(
    pix: Seq<Rgba>,
    width: int,
    x0: int,
    y0: int,
    w: int,
    h: int,
    k: int,
)
    requires
        w >= 0,
        h >= 0,
    ensures
        0 <= block_sum(pix, width, x0, y0, w, h, k) <= 255 * (w * h),
    decreases h,
{
    if h > 0 {
        lemma_block_sum_bounds(pix, width, x0, y0, w, h - 1, k);
        lemma_row_sum_bounds(pix, width, y0 + (h - 1), x0, w, k);
        assert(255 * (w * (h - 1)) + 255 * w == 255 * (w * h)) by (nonlinear_arith);
    }
}

/// A sum of at most 255 per counted pixel averages to at most 255.
proof fn lemma_avg_in_byte_range(s: int, count: int)
    requires
        count >= 1,
        0 <= s <= 255 * count,
    ensures
        0 <= s / count <= 255,
{
    vstd::arithmetic::div_mod::lemma_div_is_ordered(s, 255 * count, count);
    vstd::arithmetic::div_mod::lemma_div_multiples_vanish(255, count);
    vstd::arithmetic::div_mod::lemma_div_pos_is_pos(s, count);
}

/// The average color of the w × h block with top-left corner (x0, y0):
/// each channel is the block's channel sum divided by the block's exact
/// pixel count w · h (integer division, truncating).
pub fn block_average(img: &Image, x0: usize, y0: usize, w: usize, h: usize) -> (avg: (
    u8,
    u8,
    u8,
    u8,
))
    requires
        img.wf(),
        1 <= w,
        1 <= h,
        x0 + w <= img.width,
        y0 + h <= img.height,
    ensures
        avg.0 as int == block_sum(
            img.pixels@,
            img.width as int,
            x0 as int,
            y0 as int,
            w as int,
            h as int,
            0,
        ) / ((w as int) * (h as int)),
        avg.1 as int == block_sum(
            img.pixels@,
            img.width as int,
            x0 as int,
            y0 as int,
            w as int,
            h as int,
            1,
        ) / ((w as int) * (h as int)),
        avg.2 as int == block_sum(
            img.pixels@,
            img.width as int,
            x0 as int,
            y0 as int,
            w as int,
            h as int,
            2,
        ) / ((w as int) * (h as int)),
        avg.3 as int == block_sum(
            img.pixels@,
            img.width as int,
            x0 as int,
            y0 as int,
            w as int,
            h as int,
            3,
        ) / ((w as int) * (h as int)),
{
    let ghost pix = img.pixels@;
    let ghost wi = img.width as int;
    proof {
        vstd::std_specs::vec::axiom_spec_len(&img.pixels);
        assert((w as int) * (h as int) <= (img.width as int) * (img.height as int))
            by (nonlinear_arith)
            requires
                1 <= w as int <= img.width as int,
                1 <= h as int <= img.height as int,
        ;
    }
    let count: usize = w * h;
    let mut sr: u128 = 0;
    let mut sg: u128 = 0;
    let mut sb: u128 = 0;
    let mut sa: u128 = 0;
    let mut j: usize = 0;
    while j < h
        invariant
            img.wf(),
            pix == img.pixels@,
            wi == img.width as int,
            1 <= w,
            1 <= h,
            x0 + w <= img.width,
            y0 + h <= img.height,
            j <= h,
            (w as int) * (h as int) <= usize::MAX,
            sr as int == block_sum(pix, wi, x0 as int, y0 as int, w as int, j as int, 0),
            sg as int == block_sum(pix, wi, x0 as int, y0 as int, w as int, j as int, 1),
            sb as int == block_sum(pix, wi, x0 as int, y0 as int, w as int, j as int, 2),
            sa as int == block_sum(pix, wi, x0 as int, y0 as int, w as int, j as int, 3),
        decreases h - j,
    {
        let mut i: usize = 0;
        let y: usize = y0 + j;
        while i < w
            invariant
                img.wf(),
                pix == img.pixels@,
                wi == img.width as int,
                1 <= w,
                1 <= h,
                x0 + w <= img.width,
                y0 + h <= img.height,
                j < h,
                y == y0 + j,
                i <= w,
                (w as int) * (h as int) <= usize::MAX,
                sr as int == block_sum(pix, wi, x0 as int, y0 as int, w as int, j as int, 0)
                    + row_sum(pix, wi, y as int, x0 as int, i as int, 0),
                sg as int == block_sum(pix, wi, x0 as int, y0 as int, w as int, j as int, 1)
                    + row_sum(pix, wi, y as int, x0 as int, i as int, 1),
                sb as int == block_sum(pix, wi, x0 as int, y0 as int, w as int, j as int, 2)
                    + row_sum(pix, wi, y as int, x0 as int, i as int, 2),
                sa as int == block_sum(pix, wi, x0 as int, y0 as int, w as int, j as int, 3)
                    + row_sum(pix, wi, y as int, x0 as int, i as int, 3),
            decreases w - i,
        {
            let c = img.get(x0 + i, y);
            proof {
                lemma_block_sum_bounds(pix, wi, x0 as int, y0 as int, w as int, j as int, 0);
                lemma_block_sum_bounds(pix, wi, x0 as int, y0 as int, w as int, j as int, 1);
                lemma_block_sum_bounds(pix, wi, x0 as int, y0 as int, w as int, j as int, 2);
                lemma_block_sum_bounds(pix, wi, x0 as int, y0 as int, w as int, j as int, 3);
                lemma_row_sum_bounds(pix, wi, y as int, x0 as int, i as int, 0);
                lemma_row_sum_bounds(pix, wi, y as int, x0 as int, i as int, 1);
                lemma_row_sum_bounds(pix, wi, y as int, x0 as int, i as int, 2);
                lemma_row_sum_bounds(pix, wi, y as int, x0 as int, i as int, 3);
                assert(255 * ((w as int) * (j as int)) + 255 * (i as int) + 255 < 0x1000000000000000000000000)
                    by (nonlinear_arith)
                    requires
                        0 <= j as int,
                        (j as int) < (h as int),
                        0 <= i as int <= w as int,
                        1 <= w as int,
                        (w as int) * (h as int) <= usize::MAX,
                ;
            }
            sr = sr + c.r as u128;
            sg = sg + c.g as u128;
            sb = sb + c.b as u128;
            sa = sa + c.a as u128;
            i = i + 1;
        }
        j = j + 1;
    }
    proof {
        lemma_block_sum_bounds(pix, wi, x0 as int, y0 as int, w as int, h as int, 0);
        lemma_block_sum_bounds(pix, wi, x0 as int, y0 as int, w as int, h as int, 1);
        lemma_block_sum_bounds(pix, wi, x0 as int, y0 as int, w as int, h as int, 2);
        lemma_block_sum_bounds(pix, wi, x0 as int, y0 as int, w as int, h as int, 3);
        assert(1 <= (w as int) * (h as int)) by (nonlinear_arith)
            requires
                1 <= w as int,
                1 <= h as int,
        ;
        lemma_avg_in_byte_range(sr as int, (w as int) * (h as int));
        lemma_avg_in_byte_range(sg as int, (w as int) * (h as int));
        lemma_avg_in_byte_range(sb as int, (w as int) * (h as int));
        lemma_avg_in_byte_range(sa as int, (w as int) * (h as int));
    }
    let ar = (sr / count as u128) as u8;
    let ag = (sg / count as u128) as u8;
    let ab = (sb / count as u128) as u8;
    let aa = (sa / count as u128) as u8;
    (ar, ag, ab, aa)
}

} // verus!
