//! The pixelation pipeline: partition the image into `size` × `size`
//! blocks (smaller at the right and bottom edges), replace every pixel of
//! a block by the palette entry nearest to the block's average color, and
//! either keep the full resolution or shrink to one pixel per block.

use vstd::prelude::*;
use crate::blocks::block_average;
use crate::blocks::block_sum;
use crate::color::Rgb;
use crate::color::Rgba;
use crate::quant::lemma_nearest_idx_in_range;
use crate::quant::nearest_color_idx;
use crate::quant::nearest_idx;
use crate::raster::Image;

verus! {

/// Settings for one run: the block edge length, the ordered palette, and
/// whether the output keeps the input's resolution.
pub struct Config {
    pub size: usize,
    pub palette: Vec<Rgb>,
    pub large: bool,
}

/// Why a run was rejected before any processing.
#[derive(Clone, Copy, PartialEq, Eq, Structural, Debug)]
pub enum PixError {
    /// The block size is zero.
    InvalidConfig,
    /// The input has zero width or zero height.
    EmptyImage,
}

/// The leftmost column of the block that contains column `x`.
pub open spec fn block_x0(size: int, x: int) -> int {
    (x / size) * size
}

/// The width of the block that contains column `x`, in an image `width`
/// columns wide: `size`, except that the last column of blocks may be
/// narrower.
pub open spec fn block_w(width: int, size: int, x: int) -> int {
    if block_x0(size, x) + size <= width {
        size
    } else {
        width - block_x0(size, x)
    }
}

/// Channel `k` of the average color of the block containing pixel (x, y).
pub open spec fn block_avg(
    pix: Seq<Rgba>,
    width: int,
    height: int,
    size: int,
    x: int,
    y: int,
    k: int,
) -> int {
    block_sum(
        pix,
        width,
        block_x0(size, x),
        block_x0(size, y),
        block_w(width, size, x),
        block_w(height, size, y),
        k,
    ) / (block_w(width, size, x) * block_w(height, size, y))
}

/// The output color of pixel (x, y): the palette entry nearest to the
/// average color of the pixel's block, fully opaque.
pub open spec fn out_color(
    pix: Seq<Rgba>,
    width: int,
    height: int,
    size: int,
    palette: Seq<Rgb>,
    x: int,
    y: int,
) -> Rgba {
    let r = block_avg(pix, width, height, size, x, y, 0);
    let g = block_avg(pix, width, height, size, x, y, 1);
    let b = block_avg(pix, width, height, size, x, y, 2);
    let i = nearest_idx(palette, r, g, b);
    Rgba { r: palette[i].r, g: palette[i].g, b: palette[i].b, a: 255 }
}

/// A multiple of `size` is its own block's leftmost column.
pub proof fn lemma_block_start(size: int, x0: int)
    requires
        size >= 1,
        0 <= x0,
        x0 % size == 0,
    ensures
        block_x0(size, x0) == x0,
{
    vstd::arithmetic::div_mod::lemma_fundamental_div_mod(x0, size);
    assert(size * (x0 / size) == (x0 / size) * size) by (nonlinear_arith);
}

/// Every column within `size` of a block's start belongs to that block.
pub proof fn lemma_same_block(size: int, x0: int, x: int)
    requires
        size >= 1,
        0 <= x0,
        x0 % size == 0,
        x0 <= x < x0 + size,
    ensures
        block_x0(size, x) == x0,
{
    lemma_block_start(size, x0);
    let q = x0 / size;
    vstd::arithmetic::div_mod::lemma_fundamental_div_mod_converse(x, size, q, x - x0);
    assert(block_x0(size, x) == q * size);
}

/// A block index below `width / size` names a whole block inside the
/// image.
pub proof fn lemma_block_index_in_image(width: int, size: int, bx: int)
    requires
        size >= 1,
        0 <= bx < width / size,
    ensures
        0 <= bx * size,
        bx * size + size <= width,
        (bx * size) % size == 0,
{
    vstd::arithmetic::div_mod::lemma_fundamental_div_mod(width, size);
    vstd::arithmetic::div_mod::lemma_mod_division_less_than_divisor(width, size);
    assert((bx + 1) * size <= (width / size) * size) by (nonlinear_arith)
        requires
            bx + 1 <= width / size,
            size >= 1,
    ;
    assert((width / size) * size <= width) by (nonlinear_arith)
        requires
            width == size * (width / size) + width % size,
            width % size >= 0,
    ;
    assert(0 <= bx * size && (bx + 1) * size == bx * size + size) by (nonlinear_arith)
        requires
            0 <= bx,
            1 <= size,
    ;
    vstd::arithmetic::div_mod::lemma_mod_multiples_basic(bx, size);
}

/// Write color `c` into every pixel of the rectangle of width `w` and
/// height `h` whose top-left corner is (x0, y0); every pixel outside the
/// rectangle keeps its value.
pub fn fill_rect(img: &mut Image, x0: usize, y0: usize, w: usize, h: usize, c: Rgba)
    requires
        old(img).wf(),
        x0 + w <= old(img).width,
        y0 + h <= old(img).height,
    ensures
        final(img).wf(),
        final(img).width == old(img).width,
        final(img).height == old(img).height,
        forall|x: int, y: int|
            x0 <= x < x0 + w && y0 <= y < y0 + h ==> final(img).pix(x, y) == c,
        forall|x: int, y: int|
            0 <= x < final(img).width && 0 <= y < final(img).height && !(x0 <= x < x0 + w && y0 <= y
                < y0 + h) ==> final(img).pix(x, y) == old(img).pix(x, y),
{
    let mut j: usize = 0;
    while j < h
        invariant
            img.wf(),
            img.width == old(img).width,
            img.height == old(img).height,
            x0 + w <= img.width,
            y0 + h <= img.height,
            j <= h,
            forall|x: int, y: int|
                x0 <= x < x0 + w && y0 <= y < y0 + j ==> img.pix(x, y) == c,
            forall|x: int, y: int|
                0 <= x < img.width && 0 <= y < img.height && !(x0 <= x < x0 + w && y0 <= y < y0 + j)
                    ==> img.pix(x, y) == old(img).pix(x, y),
        decreases h - j,
    {
        let y: usize = y0 + j;
        let mut i: usize = 0;
        while i < w
            invariant
                img.wf(),
                img.width == old(img).width,
                img.height == old(img).height,
                x0 + w <= img.width,
                y0 + h <= img.height,
                j < h,
                y == y0 + j,
                i <= w,
                forall|x: int, yy: int|
                    x0 <= x < x0 + w && y0 <= yy < y0 + j ==> img.pix(x, yy) == c,
                forall|x: int| x0 <= x < x0 + i ==> img.pix(x, y as int) == c,
                forall|x: int, yy: int|
                    0 <= x < img.width && 0 <= yy < img.height && !(x0 <= x < x0 + w && y0 <= yy < y0
                        + j) && !(x0 <= x < x0 + i && yy == y) ==> img.pix(x, yy) == old(img).pix(
                        x,
                        yy,
                    ),
            decreases w - i,
        {
            img.set(x0 + i, y, c);
            i = i + 1;
        }
        j = j + 1;
    }
}

/// The full-resolution pass: every pixel of every block is replaced by
/// the palette entry nearest to the block's average color.
pub fn pixelate_full(input: &Image, size: usize, palette: &Vec<Rgb>) -> (out: Image)
    requires
        input.wf(),
        size >= 1,
        input.width >= 1,
        input.height >= 1,
        palette@.len() >= 1,
    ensures
        out.wf(),
        out.width == input.width,
        out.height == input.height,
        forall|x: int, y: int|
            0 <= x < input.width && 0 <= y < input.height ==> out.pix(x, y) == out_color(
                input.pixels@,
                input.width as int,
                input.height as int,
                size as int,
                palette@,
                x,
                y,
            ),
{
    let width = input.width;
    let height = input.height;
    let ghost pix = input.pixels@;
    proof {
        vstd::std_specs::vec::axiom_spec_len(&input.pixels);
    }
    let mut out = Image::new(width, height, Rgba { r: 0, g: 0, b: 0, a: 0 });
    let mut y0: usize = 0;
    while y0 < height
        invariant
            input.wf(),
            out.wf(),
            out.width == width,
            out.height == height,
            width == input.width,
            height == input.height,
            pix == input.pixels@,
            1 <= size,
            1 <= width,
            1 <= height,
            palette@.len() >= 1,
            y0 <= height,
            y0 % size == 0 || y0 == height,
            forall|x: int, y: int|
                0 <= x < width && 0 <= y < height && y < y0 ==> out.pix(x, y) == out_color(
                    pix,
                    width as int,
                    height as int,
                    size as int,
                    palette@,
                    x,
                    y,
                ),
        decreases height - y0,
    {
        let bh = if size <= height - y0 {
            size
        } else {
            height - y0
        };
        let mut x0: usize = 0;
        while x0 < width
            invariant
                input.wf(),
                out.wf(),
                out.width == width,
                out.height == height,
                width == input.width,
                height == input.height,
                pix == input.pixels@,
                1 <= size,
                1 <= width,
                1 <= height,
                palette@.len() >= 1,
                y0 < height,
                y0 % size == 0,
                1 <= bh,
                y0 + bh <= height,
                bh as int == (if (y0 as int) + (size as int) <= (height as int) {
                    size as int
                } else {
                    (height as int) - (y0 as int)
                }),
                x0 <= width,
                x0 % size == 0 || x0 == width,
                forall|x: int, y: int|
                    0 <= x < width && 0 <= y < height && (y < y0 || (y < y0 + bh && x < x0))
                        ==> out.pix(x, y) == out_color(
                        pix,
                        width as int,
                        height as int,
                        size as int,
                        palette@,
                        x,
                        y,
                    ),
            decreases width - x0,
        {
            let bw = if size <= width - x0 {
                size
            } else {
                width - x0
            };
            let avg = block_average(input, x0, y0, bw, bh);
            let idx = nearest_color_idx(palette, avg.0, avg.1, avg.2);
            let entry = palette[idx];
            let c = Rgba { r: entry.r, g: entry.g, b: entry.b, a: 255 };
            fill_rect(&mut out, x0, y0, bw, bh, c);
            proof {
                assert forall|x: int, y: int|
                    0 <= x < width && 0 <= y < height && (y < y0 || (y < y0 + bh && x < x0
                        + bw)) implies out.pix(x, y) == out_color(
                    pix,
                    width as int,
                    height as int,
                    size as int,
                    palette@,
                    x,
                    y,
                ) by {
                    if y0 <= y && x0 <= x && y < y0 + bh && x < x0 + bw {
                        lemma_same_block(size as int, x0 as int, x);
                        lemma_same_block(size as int, y0 as int, y);
                        assert(block_w(width as int, size as int, x) == bw as int);
                        assert(block_w(height as int, size as int, y) == bh as int);
                        assert(out.pix(x, y) == c);
                    }
                }
            }
            proof {
                vstd::arithmetic::div_mod::lemma_mod_add_multiples_vanish(x0 as int, size as int);
            }
            x0 = x0 + bw;
        }
        proof {
            vstd::arithmetic::div_mod::lemma_mod_add_multiples_vanish(y0 as int, size as int);
        }
        y0 = y0 + bh;
    }
    out
}

/// The shrinking pass: one output pixel per whole block, taken from the
/// block's top-left pixel; trailing partial blocks are dropped.
pub fn downsample(img: &Image, size: usize) -> (out: Image)
    requires
        img.wf(),
        size >= 1,
    ensures
        out.wf(),
        out.width as int == (img.width as int) / (size as int),
        out.height as int == (img.height as int) / (size as int),
        forall|bx: int, by: int|
            0 <= bx < out.width && 0 <= by < out.height ==> out.pix(bx, by) == img.pix(
                bx * (size as int),
                by * (size as int),
            ),
{
    let ow = img.width / size;
    let oh = img.height / size;
    proof {
        vstd::std_specs::vec::axiom_spec_len(&img.pixels);
        vstd::arithmetic::div_mod::lemma_div_nonincreasing(img.width as int, size as int);
        vstd::arithmetic::div_mod::lemma_div_nonincreasing(img.height as int, size as int);
        assert((ow as int) * (oh as int) <= (img.width as int) * (img.height as int))
            by (nonlinear_arith)
            requires
                0 <= ow as int <= img.width as int,
                0 <= oh as int <= img.height as int,
        ;
    }
    let mut out = Image::new(ow, oh, Rgba { r: 0, g: 0, b: 0, a: 0 });
    let mut by: usize = 0;
    while by < oh
        invariant
            img.wf(),
            out.wf(),
            out.width == ow,
            out.height == oh,
            ow as int == (img.width as int) / (size as int),
            oh as int == (img.height as int) / (size as int),
            1 <= size,
            by <= oh,
            forall|x: int, y: int|
                0 <= x < ow && 0 <= y < oh && y < by ==> out.pix(x, y) == img.pix(
                    x * (size as int),
                    y * (size as int),
                ),
        decreases oh - by,
    {
        let mut bx: usize = 0;
        while bx < ow
            invariant
                img.wf(),
                out.wf(),
                out.width == ow,
                out.height == oh,
                ow as int == (img.width as int) / (size as int),
                oh as int == (img.height as int) / (size as int),
                1 <= size,
                by < oh,
                bx <= ow,
                forall|x: int, y: int|
                    0 <= x < ow && 0 <= y < oh && (y < by || (y == by && x < bx)) ==> out.pix(x, y)
                        == img.pix(x * (size as int), y * (size as int)),
            decreases ow - bx,
        {
            proof {
                lemma_block_index_in_image(img.width as int, size as int, bx as int);
                lemma_block_index_in_image(img.height as int, size as int, by as int);
            }
            let sx: usize = bx * size;
            let sy: usize = by * size;
            let sample = img.get(sx, sy);
            out.set(bx, by, sample);
            bx = bx + 1;
        }
        by = by + 1;
    }
    out
}

/// One full run of the pipeline. Rejects a zero block size and an empty
/// image; otherwise returns the full-resolution rendition when
/// `config.large` is set, and one pixel per whole block when it is not.
pub fn pixelate(input: &Image, config: &Config) -> (out: Result<Image, PixError>)
    requires
        input.wf(),
        config.palette@.len() >= 1,
    ensures
        match out {
            Ok(img) => {
                &&& config.size >= 1
                &&& input.width >= 1
                &&& input.height >= 1
                &&& img.wf()
                &&& (config.large ==> img.width == input.width && img.height == input.height
                    && forall|x: int, y: int|
                    0 <= x < input.width && 0 <= y < input.height ==> img.pix(x, y) == out_color(
                        input.pixels@,
                        input.width as int,
                        input.height as int,
                        config.size as int,
                        config.palette@,
                        x,
                        y,
                    ))
                &&& (!config.large ==> img.width as int == (input.width as int) / (
                config.size as int) && img.height as int == (input.height as int) / (
                config.size as int) && forall|bx: int, by: int|
                    0 <= bx < img.width && 0 <= by < img.height ==> img.pix(bx, by) == out_color(
                        input.pixels@,
                        input.width as int,
                        input.height as int,
                        config.size as int,
                        config.palette@,
                        bx * (config.size as int),
                        by * (config.size as int),
                    ))
            },
            Err(e) => {
                &&& !(config.size >= 1 && input.width >= 1 && input.height >= 1)
                &&& (e == PixError::InvalidConfig <==> config.size == 0)
                &&& (e == PixError::EmptyImage <==> config.size >= 1 && (input.width == 0
                    || input.height == 0))
            },
        },
{
    if config.size == 0 {
        return Err(PixError::InvalidConfig);
    }
    if input.width == 0 || input.height == 0 {
        return Err(PixError::EmptyImage);
    }
    let full = pixelate_full(input, config.size, &config.palette);
    if config.large {
        Ok(full)
    } else {
        let small = downsample(&full, config.size);
        proof {
            assert forall|bx: int, by: int|
                0 <= bx < small.width && 0 <= by < small.height implies small.pix(bx, by)
                == out_color(
                input.pixels@,
                input.width as int,
                input.height as int,
                config.size as int,
                config.palette@,
                bx * (config.size as int),
                by * (config.size as int),
            ) by {
                lemma_block_index_in_image(input.width as int, config.size as int, bx);
                lemma_block_index_in_image(input.height as int, config.size as int, by);
            }
        }
        Ok(small)
    }
}

/// Law: two pixels that lie in the same block receive the same output
/// color.
pub proof fn lemma_block_uniform(
    pix: Seq<Rgba>,
    width: int,
    height: int,
    size: int,
    palette: Seq<Rgb>,
    x1: int,
    y1: int,
    x2: int,
    y2: int,
)
    requires
        size >= 1,
        x1 / size == x2 / size,
        y1 / size == y2 / size,
    ensures
        out_color(pix, width, height, size, palette, x1, y1) == out_color(
            pix,
            width,
            height,
            size,
            palette,
            x2,
            y2,
        ),
{
    assert(block_x0(size, x1) == block_x0(size, x2));
    assert(block_x0(size, y1) == block_x0(size, y2));
}

/// Law: every output color's red, green and blue channels are those of
/// some palette entry, and the output alpha is always 255.
pub proof fn lemma_output_in_palette(
    pix: Seq<Rgba>,
    width: int,
    height: int,
    size: int,
    palette: Seq<Rgb>,
    x: int,
    y: int,
)
    requires
        palette.len() >= 1,
    ensures
        out_color(pix, width, height, size, palette, x, y).a == 255,
        exists|i: int|
            0 <= i < palette.len() && out_color(pix, width, height, size, palette, x, y).r
                == #[trigger] palette[i].r && out_color(pix, width, height, size, palette, x, y).g
                == palette[i].g && out_color(pix, width, height, size, palette, x, y).b
                == palette[i].b,
{
    let r = block_avg(pix, width, height, size, x, y, 0);
    let g = block_avg(pix, width, height, size, x, y, 1);
    let b = block_avg(pix, width, height, size, x, y, 2);
    let i = nearest_idx(palette, r, g, b);
    lemma_nearest_idx_in_range(palette, r, g, b);
    assert(0 <= i < palette.len() && out_color(pix, width, height, size, palette, x, y).r
        == palette[i].r && out_color(pix, width, height, size, palette, x, y).g == palette[i].g
        && out_color(pix, width, height, size, palette, x, y).b == palette[i].b);
}

/// Law: with a single-entry palette, every output pixel is that entry,
/// fully opaque.
pub proof fn lemma_single_entry_palette(
    pix: Seq<Rgba>,
    width: int,
    height: int,
    size: int,
    palette: Seq<Rgb>,
    x: int,
    y: int,
)
    requires
        palette.len() == 1,
    ensures
        out_color(pix, width, height, size, palette, x, y) == (Rgba {
            r: palette[0].r,
            g: palette[0].g,
            b: palette[0].b,
            a: 255,
        }),
{
}

} // verus!
