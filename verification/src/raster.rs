//! The image type: a width × height grid of pixels stored row-major in a
//! single vector, with the arithmetic that ties grid coordinates to vector
//! indices.

use vstd::prelude::*;
use crate::color::Rgba;

verus! {

/// A decoded raster image: `pixels[y * width + x]` is the pixel at column
/// `x` of row `y`.
pub struct Image {
    pub width: usize,
    pub height: usize,
    pub pixels: Vec<Rgba>,
}

/// A row-major index stays inside the pixel vector.
pub proof fn lemma_row_major_bounds(width: int, height: int, x: int, y: int)
    by (nonlinear_arith)
    requires
        0 <= x < width,
        0 <= y < height,
    ensures
        0 <= y * width + x < width * height,
{
}

/// Distinct in-range coordinates give distinct row-major indices.
pub proof fn lemma_row_major_injective(width: int, x1: int, y1: int, x2: int, y2: int)
    by (nonlinear_arith)
    requires
        0 <= x1 < width,
        0 <= x2 < width,
        0 <= y1,
        0 <= y2,
        y1 * width + x1 == y2 * width + x2,
    ensures
        x1 == x2,
        y1 == y2,
{
}

impl Image {
    /// The pixel vector holds exactly one entry per grid cell.
    pub open spec fn wf(self) -> bool {
        self.pixels@.len() == self.width as int * self.height as int
    }

    /// The pixel at column `x`, row `y`.
    pub open spec fn pix(self, x: int, y: int) -> Rgba {
        self.pixels@[y * self.width as int + x]
    }

    /// A fresh image of the given dimensions with every pixel set to `fill`.
    pub fn new(width: usize, height: usize, fill: Rgba) -> (img: Image)
        requires
            width * height <= usize::MAX,
        ensures
            img.wf(),
            img.width == width,
            img.height == height,
            forall|x: int, y: int|
                0 <= x < width && 0 <= y < height ==> img.pix(x, y) == fill,
    {
        let n: usize = width * height;
        let mut pixels: Vec<Rgba> = Vec::new();
        while pixels.len() < n
            invariant
                pixels@.len() <= n,
                forall|i: int| 0 <= i < pixels@.len() ==> pixels@[i] == fill,
            decreases n - pixels@.len(),
        {
            pixels.push(fill);
        }
        let img = Image { width, height, pixels };
        proof {
            assert forall|x: int, y: int|
                0 <= x < width && 0 <= y < height implies img.pix(x, y) == fill by {
                lemma_row_major_bounds(width as int, height as int, x, y);
            }
        }
        img
    }

    /// Read the pixel at (`x`, `y`).
    pub fn get(&self, x: usize, y: usize) -> (c: Rgba)
        requires
            self.wf(),
            x < self.width,
            y < self.height,
        ensures
            c == self.pix(x as int, y as int),
    {
        let n: usize = self.pixels.len();
        proof {
            lemma_row_major_bounds(self.width as int, self.height as int, x as int, y as int);
            assert((y as int) * (self.width as int) + (x as int) < (n as int));
        }
        let idx: usize = y * self.width + x;
        self.pixels[idx]
    }

    /// Overwrite the pixel at (`x`, `y`); every other pixel keeps its value.
    pub fn set(&mut self, x: usize, y: usize, c: Rgba)
        requires
            old(self).wf(),
            x < old(self).width,
            y < old(self).height,
        ensures
            final(self).wf(),
            final(self).width == old(self).width,
            final(self).height == old(self).height,
            final(self).pix(x as int, y as int) == c,
            forall|i: int, j: int|
                0 <= i < final(self).width && 0 <= j < final(self).height && !(i == x && j == y)
                    ==> final(self).pix(i, j) == old(self).pix(i, j),
    {
        let n: usize = self.pixels.len();
        proof {
            lemma_row_major_bounds(self.width as int, self.height as int, x as int, y as int);
            assert((y as int) * (self.width as int) + (x as int) < (n as int));
        }
        let idx: usize = y * self.width + x;
        self.pixels.set(idx, c);
        proof {
            assert forall|i: int, j: int|
                0 <= i < self.width && 0 <= j < self.height && !(i == x && j == y) implies self.pix(
                i,
                j,
            ) == old(self).pix(i, j) by {
                lemma_row_major_bounds(self.width as int, self.height as int, i, j);
                if j * self.width as int + i == idx as int {
                    lemma_row_major_injective(self.width as int, i, j, x as int, y as int);
                }
            }
        }
    }
}

} // verus!
