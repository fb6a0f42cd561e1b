//! Channel conjugation: swap two of the three RGB channels, chosen by
//! relative magnitude.
//!
//! With `minmax == true` the channel holding the largest value (ties broken
//! by position r, g, b) stays in place and the other two are swapped; with
//! `minmax == false` the channel holding the smallest value stays.

use vstd::prelude::*;
use crate::color::{Rgb, max3, min3};

verus! {

/// The channel of `p` at position `i` (0 is r, 1 is g, 2 is b).
pub open spec fn chan_at(p: Rgb, i: int) -> u8 {
    if i == 0 {
        p.r
    } else if i == 1 {
        p.g
    } else {
        p.b
    }
}

/// The first position whose channel holds the extreme value: the maximum of
/// the three channels when `pick_max`, else the minimum.
pub open spec fn extreme_pos(p: Rgb, pick_max: bool) -> int {
    let ext = if pick_max {
        max3(p.r as int, p.g as int, p.b as int)
    } else {
        min3(p.r as int, p.g as int, p.b as int)
    };
    if p.r as int == ext {
        0
    } else if p.g as int == ext {
        1
    } else {
        2
    }
}

/// Conjugation leaves the extreme-holding channel in place and swaps the
/// other two: one of three fixed patterns, selected by `extreme_pos`.
pub open spec fn spec_rgb_conjugate(p: Rgb, pick_max: bool) -> Rgb {
    let pos = extreme_pos(p, pick_max);
    if pos == 0 {
        Rgb { r: p.r, g: p.b, b: p.g }
    } else if pos == 1 {
        Rgb { r: p.b, g: p.g, b: p.r }
    } else {
        Rgb { r: p.g, g: p.r, b: p.b }
    }
}

pub fn rgb_conjugate(pixel: &Rgb, minmax: bool) -> (out: Rgb)
    ensures
        out == spec_rgb_conjugate(*pixel, minmax),
{
    let ext = if minmax {
        if pixel.r >= pixel.g && pixel.r >= pixel.b {
            pixel.r
        } else if pixel.g >= pixel.b {
            pixel.g
        } else {
            pixel.b
        }
    } else {
        if pixel.r <= pixel.g && pixel.r <= pixel.b {
            pixel.r
        } else if pixel.g <= pixel.b {
            pixel.g
        } else {
            pixel.b
        }
    };
    if pixel.r == ext {
        Rgb { r: pixel.r, g: pixel.b, b: pixel.g }
    } else if pixel.g == ext {
        Rgb { r: pixel.b, g: pixel.g, b: pixel.r }
    } else {
        Rgb { r: pixel.g, g: pixel.r, b: pixel.b }
    }
}

/// Conjugation is a permutation of the channels that never moves the extreme
/// one: the channel holding the extreme value keeps both its position and its
/// value, the other two trade places, and the overall maximum and minimum of
/// the pixel are unchanged.
pub proof fn lemma_conjugate_permutes(p: Rgb, pick_max: bool)
    ensures
        ({
            let q = spec_rgb_conjugate(p, pick_max);
            let pos = extreme_pos(p, pick_max);
            &&& chan_at(q, pos) == chan_at(p, pos)
            &&& pick_max ==> chan_at(q, pos) as int == max3(p.r as int, p.g as int, p.b as int)
            &&& !pick_max ==> chan_at(q, pos) as int == min3(p.r as int, p.g as int, p.b as int)
            &&& max3(q.r as int, q.g as int, q.b as int) == max3(p.r as int, p.g as int, p.b as int)
            &&& min3(q.r as int, q.g as int, q.b as int) == min3(p.r as int, p.g as int, p.b as int)
            &&& (q == Rgb { r: p.r, g: p.b, b: p.g } || q == Rgb { r: p.b, g: p.g, b: p.r }
                || q == Rgb { r: p.g, g: p.r, b: p.b })
        }),
{
}

} // verus!
