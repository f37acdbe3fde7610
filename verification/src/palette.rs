//! Palette parsing: each line of a palette file holds one CSS color
//! (`#9a6348`, `rgb(…)`, a named color, …), parsed by the csscolorparser
//! crate into an 8-bit (red, green, blue) triple.

use vstd::prelude::*;
use crate::color::Rgb;

verus! {

/// The 8-bit (red, green, blue) triple that CSS color syntax assigns to a
/// piece of text, or None where the text is not a CSS color. The result
/// depends on the text alone.
pub uninterp spec fn css_rgb_of(s: Seq<char>) -> Option<(u8, u8, u8)>;

/// Relies on csscolorparser::parse: parsing a CSS color string is a pure
/// function of the string, and Color::to_rgba8 rounds each channel to 8
/// bits.
#[verifier::external_body]
fn parse_css_color(line: &String) -> (c: Option<(u8, u8, u8)>)
    ensures
        c == css_rgb_of(line@),
{
    match csscolorparser::parse(line) {
        Ok(color) => {
            let rgba = color.to_rgba8();
            Some((rgba[0], rgba[1], rgba[2]))
        },
        Err(_) => None,
    }
}

/// The palette entry for a parsed (red, green, blue) triple.
pub open spec fn rgb_of(t: (u8, u8, u8)) -> Rgb {
    Rgb { r: t.0, g: t.1, b: t.2 }
}

/// Parse palette lines, one CSS color each, into an ordered palette,
/// keeping the line order. Fails on the first line that is not a CSS
/// color, reporting that line's index.
pub fn parse_palette(lines: &Vec<String>) -> (out: Result<Vec<Rgb>, usize>)
    ensures
        match out {
            Ok(p) => {
                &&& p@.len() == lines@.len()
                &&& forall|i: int|
                    0 <= i < lines@.len() ==> #[trigger] css_rgb_of(lines@[i]@) is Some && p@[i]
                        == rgb_of(css_rgb_of(lines@[i]@).unwrap())
            },
            Err(idx) => {
                &&& idx < lines@.len()
                &&& css_rgb_of(lines@[idx as int]@) is None
                &&& forall|i: int| 0 <= i < idx ==> #[trigger] css_rgb_of(lines@[i]@) is Some
            },
        },
{
    let mut palette: Vec<Rgb> = Vec::new();
    let mut i: usize = 0;
    while i < lines.len()
        invariant
            i <= lines@.len(),
            palette@.len() == i as int,
            forall|j: int|
                0 <= j < i ==> #[trigger] css_rgb_of(lines@[j]@) is Some && palette@[j] == rgb_of(
                    css_rgb_of(lines@[j]@).unwrap(),
                ),
        decreases lines@.len() - i,
    {
        let parsed = parse_css_color(&lines[i]);
        match parsed {
            Some(t) => {
                palette.push(Rgb { r: t.0, g: t.1, b: t.2 });
            },
            None => {
                return Err(i);
            },
        }
        i = i + 1;
    }
    Ok(palette)
}

} // verus!
