//! Colors: full pixels (red, green, blue, alpha) and palette entries
//! (red, green, blue), 8 bits per channel, and the squared Euclidean
//! distance in (R, G, B) channel space used by the nearest-color search.

use vstd::prelude::*;

verus! {

/// One pixel: red, green, blue and alpha channels, 8 bits each.
#[derive(Clone, Copy, PartialEq, Eq, Structural, Debug)]
pub struct Rgba {
    pub r: u8,
    pub g: u8,
    pub b: u8,
    pub a: u8,
}

/// One palette entry: red, green and blue, no alpha.
#[derive(Clone, Copy, PartialEq, Eq, Structural, Debug)]
pub struct Rgb {
    pub r: u8,
    pub g: u8,
    pub b: u8,
}

impl Rgba {
    /// Channel `k` of the pixel, in the order red, green, blue, alpha.
    pub open spec fn chan(self, k: int) -> int {
        if k == 0 {
            self.r as int
        } else if k == 1 {
            self.g as int
        } else if k == 2 {
            self.b as int
        } else {
            self.a as int
        }
    }
}

/// Squared Euclidean distance between a palette entry and the point
/// (r, g, b) in channel space; alpha plays no part.
pub open spec fn dist2(c: Rgb, r: int, g: int, b: int) -> int {
    (c.r as int - r) * (c.r as int - r) + (c.g as int - g) * (c.g as int - g) + (c.b as int - b)
        * (c.b as int - b)
}

/// Squared Euclidean distance between a palette entry and an averaged
/// color, computed exactly in integers.
pub fn distance2(c: Rgb, r: u8, g: u8, b: u8) -> (d: u64)
    ensures
        d == dist2(c, r as int, g as int, b as int),
{
    let dr: i64 = c.r as i64 - r as i64;
    let dg: i64 = c.g as i64 - g as i64;
    let db: i64 = c.b as i64 - b as i64;
    assert(0 <= dr * dr <= 65025 && 0 <= dg * dg <= 65025 && 0 <= db * db <= 65025)
        by (nonlinear_arith)
        requires
            -255 <= dr <= 255,
            -255 <= dg <= 255,
            -255 <= db <= 255,
    ;
    (dr * dr + dg * dg + db * db) as u64
}

} // verus!
