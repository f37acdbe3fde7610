//! Nearest-palette-color search: a stable linear scan that replaces the
//! current best only on strict improvement, so that exact ties go to the
//! entry with the lowest index.

use vstd::prelude::*;
use crate::color::Rgb;
use crate::color::dist2;
use crate::color::distance2;

verus! {

/// The index the scan settles on for the point (r, g, b): walking the
/// palette left to right, a later entry takes over only when its squared
/// distance is strictly smaller.
pub open spec fn nearest_idx(p: Seq<Rgb>, r: int, g: int, b: int) -> int
    decreases p.len(),
{
    if p.len() <= 1 {
        0
    } else {
        let prev = nearest_idx(p.drop_last(), r, g, b);
        if dist2(p.last(), r, g, b) < dist2(p[prev], r, g, b) {
            p.len() - 1
        } else {
            prev
        }
    }
}

/// The chosen index lies inside the palette.
pub proof fn lemma_nearest_idx_in_range(p: Seq<Rgb>, r: int, g: int, b: int)
    requires
        p.len() >= 1,
    ensures
        0 <= nearest_idx(p, r, g, b) < p.len(),
    decreases p.len(),
{
    if p.len() > 1 {
        lemma_nearest_idx_in_range(p.drop_last(), r, g, b);
    }
}

/// Law: the chosen entry has minimal squared distance to (r, g, b) over
/// the whole palette, and every entry before it is strictly farther away —
/// so among all minima the lowest index wins.
pub proof fn lemma_nearest_idx_first_min(p: Seq<Rgb>, r: int, g: int, b: int)
    requires
        p.len() >= 1,
    ensures
        0 <= nearest_idx(p, r, g, b) < p.len(),
        forall|j: int|
            0 <= j < p.len() ==> dist2(p[nearest_idx(p, r, g, b)], r, g, b) <= #[trigger] dist2(
                p[j],
                r,
                g,
                b,
            ),
        forall|j: int|
            0 <= j < nearest_idx(p, r, g, b) ==> #[trigger] dist2(p[j], r, g, b) > dist2(
                p[nearest_idx(p, r, g, b)],
                r,
                g,
                b,
            ),
    decreases p.len(),
{
    lemma_nearest_idx_in_range(p, r, g, b);
    if p.len() > 1 {
        lemma_nearest_idx_first_min(p.drop_last(), r, g, b);
        assert(forall|j: int| 0 <= j < p.len() - 1 ==> p.drop_last()[j] == p[j]);
    }
}

/// Law: when two palette entries are exactly equidistant from (r, g, b)
/// and that distance is minimal, the search never picks the higher index
/// of the two.
pub proof fn lemma_tie_break_lowest_index(p: Seq<Rgb>, r: int, g: int, b: int, i: int, j: int)
    requires
        0 <= i < j < p.len(),
        dist2(p[i], r, g, b) == dist2(p[j], r, g, b),
        forall|k: int| 0 <= k < p.len() ==> dist2(p[i], r, g, b) <= dist2(p[k], r, g, b),
    ensures
        nearest_idx(p, r, g, b) <= i,
        nearest_idx(p, r, g, b) != j,
{
    lemma_nearest_idx_first_min(p, r, g, b);
}

/// The index into `palette` of the entry nearest to (r, g, b); exact ties
/// go to the lowest index.
pub fn nearest_color_idx(palette: &Vec<Rgb>, r: u8, g: u8, b: u8) -> (idx: usize)
    requires
        palette@.len() >= 1,
    ensures
        idx < palette@.len(),
        idx == nearest_idx(palette@, r as int, g as int, b as int),
{
    let mut best: usize = 0;
    let mut best_d: u64 = distance2(palette[0], r, g, b);
    let mut i: usize = 1;
    proof {
        assert(palette@.take(1) =~= seq![palette@[0]]);
    }
    while i < palette.len()
        invariant
            1 <= i <= palette@.len(),
            best < i,
            best == nearest_idx(palette@.take(i as int), r as int, g as int, b as int),
            best_d == dist2(palette@[best as int], r as int, g as int, b as int),
        decreases palette@.len() - i,
    {
        let d = distance2(palette[i], r, g, b);
        proof {
            let prefix = palette@.take(i as int);
            let next = palette@.take(i as int + 1);
            assert(next.drop_last() =~= prefix);
            assert(next.last() == palette@[i as int]);
            lemma_nearest_idx_in_range(prefix, r as int, g as int, b as int);
        }
        if d < best_d {
            best = i;
            best_d = d;
        }
        i = i + 1;
    }
    proof {
        assert(palette@.take(palette@.len() as int) =~= palette@);
    }
    best
}

} // verus!
