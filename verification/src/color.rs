//! RGB ↔ HSV conversion for one pixel.
//!
//! Channels are 8-bit; the derived HSV triple is exact: hue in `[0, 360)`
//! degrees, saturation and value in `[0, 100]`, all rationals. A fully
//! desaturated pixel (`max == 0`) gets saturation `0` rather than a division
//! by zero, and a grey pixel (`max == min`) gets hue `0`.

use vstd::prelude::*;
use crate::rat::{Frac, Rat, mod_euclid, div_floor_nonneg, lemma_mul_bounds, lemma_mul_bounds_pos, lemma_mul_mono, lemma_mod_id, lemma_mod_wrap};
use vstd::arithmetic::div_mod::{lemma_div_multiples_vanish, lemma_div_is_ordered};

verus! {

/// One RGB pixel: three 8-bit channels.
#[derive(Clone, Copy, Debug, PartialEq, Eq, Structural)]
pub struct Rgb {
    pub r: u8,
    pub g: u8,
    pub b: u8,
}

/// One RGBA pixel: RGB plus an 8-bit alpha channel.
#[derive(Clone, Copy, Debug, PartialEq, Eq, Structural)]
pub struct Rgba {
    pub r: u8,
    pub g: u8,
    pub b: u8,
    pub a: u8,
}

/// An HSV triple: hue in `[0, 360)` degrees, saturation and value in
/// `[0, 100]`, all exact rationals.
#[derive(Clone, Copy, Debug)]
pub struct Hsv {
    pub h: Frac,
    pub s: Frac,
    pub v: Frac,
}

/// Ghost form of an HSV triple.
pub struct HsvG {
    pub h: Rat,
    pub s: Rat,
    pub v: Rat,
}

impl View for Hsv {
    type V = HsvG;

    open spec fn view(&self) -> HsvG {
        HsvG { h: self.h@, s: self.s@, v: self.v@ }
    }
}

/// A well-formed HSV triple: positive denominators (bounded so that all
/// conversion arithmetic stays within `i128`), hue in `[0, 360)`,
/// saturation and value in `[0, 100]`.
pub open spec fn hsv_wf(p: HsvG) -> bool {
    &&& 1 <= p.h.d <= 1_000_000_000_000_000_000
    &&& 0 <= p.h.n < 360 * p.h.d
    &&& 1 <= p.s.d <= 10_000
    &&& 0 <= p.s.n <= 100 * p.s.d
    &&& 1 <= p.v.d <= 10_000
    &&& 0 <= p.v.n <= 100 * p.v.d
}

pub open spec fn max3(a: int, b: int, c: int) -> int {
    if a >= b && a >= c {
        a
    } else if b >= c {
        b
    } else {
        c
    }
}

pub open spec fn min3(a: int, b: int, c: int) -> int {
    if a <= b && a <= c {
        a
    } else if b <= c {
        b
    } else {
        c
    }
}

/// RGB to HSV, exactly. With `mx`/`mn` the largest/smallest channel and
/// `c = mx - mn`:
///   - value is `100 * mx / 255`;
///   - saturation is `100 * c / mx` (`0` for black);
///   - hue is one of the three 60-degree-sector formulas
///     `60*(g-b)/c`, `120 + 60*(b-r)/c`, `240 + 60*(r-g)/c`, chosen by which
///     channel holds the maximum (ties broken in the order r, g, b), reduced
///     into `[0, 360)`; a grey pixel gets hue `0`.
pub open spec fn spec_rgb_to_hsv(p: Rgb) -> HsvG {
    let r = p.r as int;
    let g = p.g as int;
    let b = p.b as int;
    let mx = max3(r, g, b);
    let mn = min3(r, g, b);
    let c = mx - mn;
    let h = if c == 0 {
        Rat { n: 0, d: 1 }
    } else if mx == r {
        Rat { n: (60 * (g - b)) % (360 * c), d: c }
    } else if mx == g {
        Rat { n: (120 * c + 60 * (b - r)) % (360 * c), d: c }
    } else {
        Rat { n: (240 * c + 60 * (r - g)) % (360 * c), d: c }
    };
    let s = if mx == 0 {
        Rat { n: 0, d: 1 }
    } else {
        Rat { n: 100 * c, d: mx }
    };
    let v = Rat { n: 100 * mx, d: 255 };
    HsvG { h, s, v }
}

pub fn rgb_to_hsv(pixel: &Rgb) -> (hsv: Hsv)
    ensures
        hsv@ == spec_rgb_to_hsv(*pixel),
        hsv_wf(hsv@),
        hsv@.h.d <= 255,
        hsv@.s.d <= 255,
        hsv@.v.d == 255,
{
    let r = pixel.r;
    let g = pixel.g;
    let b = pixel.b;
    let mx = if r >= g && r >= b { r } else if g >= b { g } else { b };
    let mn = if r <= g && r <= b { r } else if g <= b { g } else { b };
    let c: i128 = mx as i128 - mn as i128;
    let h: Frac = if c == 0 {
        Frac { num: 0, den: 1 }
    } else if mx == r {
        Frac { num: mod_euclid(60 * (g as i128 - b as i128), 360 * c), den: c }
    } else if mx == g {
        Frac { num: mod_euclid(120 * c + 60 * (b as i128 - r as i128), 360 * c), den: c }
    } else {
        Frac { num: mod_euclid(240 * c + 60 * (r as i128 - g as i128), 360 * c), den: c }
    };
    let s: Frac = if mx == 0 {
        Frac { num: 0, den: 1 }
    } else {
        Frac { num: 100 * c, den: mx as i128 }
    };
    let v: Frac = Frac { num: 100 * (mx as i128), den: 255 };
    Hsv { h, s, v }
}

/// The 8-bit channel for a value `n / d` of `[0, 1]`: truncation of
/// `255 * n / d`.
pub open spec fn chan_of(n: int, d: int) -> u8 {
    ((255 * n) / d) as u8
}

/// HSV to RGB, exactly. The hue, shifted down by 360 degrees when at or
/// above 300, selects one of the sectors of width 60 degrees; within the
/// sector the three channels are `max`, `min`, and a value interpolated
/// between them, where `max = v/100`, `min = max * (1 - s/100)`, and the
/// chroma is `max - min`. Channels are scaled to `[0, 255]` by truncation.
///
/// All channel values are kept over the common denominator
/// `dd = 60 * h.d * 10000 * s.d * v.d`; `hn6` is the numerator of the
/// shifted hue over `60 * h.d`, so the sector bounds -60, 0, 60, 120, ...
/// degrees become `-60 * h.d` and so on against `p.h`'s own denominator.
pub open spec fn spec_hsv_to_rgb(p: HsvG) -> Rgb {
    let hd = p.h.d;
    let hn6 = if 300 * hd <= p.h.n {
        p.h.n - 360 * hd
    } else {
        p.h.n
    };
    let dd = 60 * hd * 10000 * p.s.d * p.v.d;
    let minn = (100 * p.s.d - p.s.n) * p.v.n * (60 * hd);
    let maxn = (100 * p.s.d) * p.v.n * (60 * hd);
    let sv = p.s.n * p.v.n;
    if -60 * hd <= hn6 < 60 * hd {
        if hn6 < 0 {
            Rgb { r: chan_of(maxn, dd), g: chan_of(minn, dd), b: chan_of(minn - hn6 * sv, dd) }
        } else {
            Rgb { r: chan_of(maxn, dd), g: chan_of(minn + hn6 * sv, dd), b: chan_of(minn, dd) }
        }
    } else if 60 * hd <= hn6 < 180 * hd {
        if hn6 < 120 * hd {
            Rgb {
                r: chan_of(minn - (hn6 - 120 * hd) * sv, dd),
                g: chan_of(maxn, dd),
                b: chan_of(minn, dd),
            }
        } else {
            Rgb {
                r: chan_of(minn, dd),
                g: chan_of(maxn, dd),
                b: chan_of(minn + (hn6 - 120 * hd) * sv, dd),
            }
        }
    } else if 180 * hd <= hn6 < 300 * hd {
        if hn6 < 240 * hd {
            Rgb {
                r: chan_of(minn, dd),
                g: chan_of(minn - (hn6 - 240 * hd) * sv, dd),
                b: chan_of(maxn, dd),
            }
        } else {
            Rgb {
                r: chan_of(minn + (hn6 - 240 * hd) * sv, dd),
                g: chan_of(minn, dd),
                b: chan_of(maxn, dd),
            }
        }
    } else {
        Rgb { r: 0, g: 0, b: 0 }
    }
}

/// One channel: `255 * n / d` truncated, for `n / d` in `[0, 1]`.
fn chan_exec(n: i128, d: i128) -> (c: u8)
    requires
        0 <= n <= d,
        1 <= d <= 100_000_000_000_000_000_000_000_000_000_000,
    ensures
        c == chan_of(n as int, d as int),
        c as int == (255 * (n as int)) / (d as int),
{
    proof {
        lemma_mul_mono(n as int, d as int, 255);
    }
    let q = div_floor_nonneg(255 * n, d);
    proof {
        lemma_div_is_ordered(255 * n, 255 * d, d as int);
        lemma_div_multiples_vanish(255, d as int);
    }
    q as u8
}

pub fn hsv_to_rgb(pixel: &Hsv) -> (out: Rgb)
    requires
        hsv_wf(pixel@),
    ensures
        out == spec_hsv_to_rgb(pixel@),
{
    let hn = pixel.h.num;
    let hd = pixel.h.den;
    let sn = pixel.s.num;
    let sd = pixel.s.den;
    let vn = pixel.v.num;
    let vd = pixel.v.den;
    let hn6: i128 = if 300 * hd <= hn {
        hn - 360 * hd
    } else {
        hn
    };
    let d1: i128 = 60 * hd;
    let d2: i128 = d1 * 10000;
    proof {
        lemma_mul_bounds_pos(d2 as int, sd as int, 600_000_000_000_000_000_000_000, 10_000);
    }
    let d3: i128 = d2 * sd;
    proof {
        lemma_mul_bounds_pos(d3 as int, vd as int, 6_000_000_000_000_000_000_000_000_000, 10_000);
    }
    let dd: i128 = d3 * vd;
    let sdiff: i128 = 100 * sd - sn;
    proof {
        lemma_mul_bounds(sdiff as int, vn as int, 1_000_000, 1_000_000);
        lemma_mul_bounds(100 * sd as int, vn as int, 1_000_000, 1_000_000);
        lemma_mul_bounds(sn as int, vn as int, 1_000_000, 1_000_000);
    }
    let p1: i128 = sdiff * vn;
    let p2: i128 = (100 * sd) * vn;
    let sv: i128 = sn * vn;
    proof {
        lemma_mul_bounds(p1 as int, d1 as int, 1_000_000_000_000, 60_000_000_000_000_000_000);
        lemma_mul_bounds(p2 as int, d1 as int, 1_000_000_000_000, 60_000_000_000_000_000_000);
    }
    let minn: i128 = p1 * d1;
    let maxn: i128 = p2 * d1;
    proof {
        // minn <= maxn <= dd, and the chroma over dd is exactly maxn - minn.
        assert(minn <= maxn) by (nonlinear_arith)
            requires
                minn == p1 * d1,
                maxn == p2 * d1,
                p1 == sdiff * vn,
                p2 == (100 * sd) * vn,
                sdiff <= 100 * sd,
                0 <= vn,
                0 <= d1,
            ;
        assert(maxn <= dd) by (nonlinear_arith)
            requires
                maxn == p2 * d1,
                p2 == (100 * sd) * vn,
                dd == d3 * vd,
                d3 == d2 * sd,
                d2 == d1 * 10000,
                vn <= 100 * vd,
                1 <= sd,
                1 <= vd,
                0 <= d1,
            ;
        assert(maxn - minn == sv * d1) by (nonlinear_arith)
            requires
                minn == p1 * d1,
                maxn == p2 * d1,
                p1 == sdiff * vn,
                p2 == (100 * sd) * vn,
                sdiff == 100 * sd - sn,
                sv == sn * vn,
            ;
    }
    if -60 * hd <= hn6 && hn6 < 60 * hd {
        if hn6 < 0 {
            proof {
                assert(0 <= - (hn6 * sv) <= sv * d1) by (nonlinear_arith)
                    requires
                        -d1 <= hn6 < 0,
                        0 <= sv,
                    ;
            }
            let t: i128 = hn6 * sv;
            Rgb { r: chan_exec(maxn, dd), g: chan_exec(minn, dd), b: chan_exec(minn - t, dd) }
        } else {
            proof {
                assert(0 <= hn6 * sv <= sv * d1) by (nonlinear_arith)
                    requires
                        0 <= hn6 <= d1,
                        0 <= sv,
                    ;
            }
            let t: i128 = hn6 * sv;
            Rgb { r: chan_exec(maxn, dd), g: chan_exec(minn + t, dd), b: chan_exec(minn, dd) }
        }
    } else if 60 * hd <= hn6 && hn6 < 180 * hd {
        if hn6 < 120 * hd {
            proof {
                assert(0 <= - ((hn6 - 120 * hd) * sv) <= sv * d1) by (nonlinear_arith)
                    requires
                        -d1 <= hn6 - 120 * hd <= 0,
                        0 <= sv,
                    ;
            }
            let t: i128 = (hn6 - 120 * hd) * sv;
            Rgb { r: chan_exec(minn - t, dd), g: chan_exec(maxn, dd), b: chan_exec(minn, dd) }
        } else {
            proof {
                assert(0 <= (hn6 - 120 * hd) * sv <= sv * d1) by (nonlinear_arith)
                    requires
                        0 <= hn6 - 120 * hd <= d1,
                        0 <= sv,
                    ;
            }
            let t: i128 = (hn6 - 120 * hd) * sv;
            Rgb { r: chan_exec(minn, dd), g: chan_exec(maxn, dd), b: chan_exec(minn + t, dd) }
        }
    } else if 180 * hd <= hn6 && hn6 < 300 * hd {
        if hn6 < 240 * hd {
            proof {
                assert(0 <= - ((hn6 - 240 * hd) * sv) <= sv * d1) by (nonlinear_arith)
                    requires
                        -d1 <= hn6 - 240 * hd <= 0,
                        0 <= sv,
                    ;
            }
            let t: i128 = (hn6 - 240 * hd) * sv;
            Rgb { r: chan_exec(minn, dd), g: chan_exec(minn - t, dd), b: chan_exec(maxn, dd) }
        } else {
            proof {
                assert(0 <= (hn6 - 240 * hd) * sv <= sv * d1) by (nonlinear_arith)
                    requires
                        0 <= hn6 - 240 * hd <= d1,
                        0 <= sv,
                    ;
            }
            let t: i128 = (hn6 - 240 * hd) * sv;
            Rgb { r: chan_exec(minn + t, dd), g: chan_exec(minn, dd), b: chan_exec(maxn, dd) }
        }
    } else {
        Rgb { r: 0, g: 0, b: 0 }
    }
}

/// The product forms that appear as channel numerators when converting an
/// HSV triple that came from an RGB pixel (chroma `c`, maximum `mx`,
/// minimum `mn`), rewritten to the common shape `600000 * c * mx * t`.
proof fn lemma_chan_forms(c: int, mx: int, mn: int, d: int)
    requires
        mn == mx - c,
    ensures
        (100 * mx) * (100 * mx) * (60 * c) == 600_000 * c * mx * mx,
        (100 * mx - 100 * c) * (100 * mx) * (60 * c) == 600_000 * c * mx * mn,
        (100 * mx - 100 * c) * (100 * mx) * (60 * c) + (60 * d) * ((100 * c) * (100 * mx))
            == 600_000 * c * mx * (mn + d),
        (100 * mx - 100 * c) * (100 * mx) * (60 * c) - (60 * d) * ((100 * c) * (100 * mx))
            == 600_000 * c * mx * (mn - d),
{
    assert((100 * mx) * (100 * mx) * (60 * c) == 600_000 * c * mx * mx) by (nonlinear_arith);
    assert((100 * mx - 100 * c) * (100 * mx) * (60 * c) == 600_000 * c * mx * (mx - c))
        by (nonlinear_arith);
    assert((60 * d) * ((100 * c) * (100 * mx)) == 600_000 * c * mx * d) by (nonlinear_arith);
    assert(600_000 * c * mx * (mx - c) + 600_000 * c * mx * d == 600_000 * c * mx * ((mx - c) + d))
        by (nonlinear_arith);
    assert(600_000 * c * mx * (mx - c) - 600_000 * c * mx * d == 600_000 * c * mx * ((mx - c) - d))
        by (nonlinear_arith);
}

/// A channel numerator of the shape `600000 * c * mx * t` over the common
/// denominator `60 * c * 10000 * mx * 255` truncates back to exactly `t`.
proof fn lemma_chan_cancel(num: int, c: int, mx: int, t: int)
    requires
        1 <= c,
        1 <= mx <= 255,
        0 <= t <= 255,
        num == 600_000 * c * mx * t,
    ensures
        chan_of(num, 60 * c * 10000 * mx * 255) == t,
{
    let dd = 60 * c * 10000 * mx * 255;
    assert(dd >= 1 && 255 * num == dd * t) by (nonlinear_arith)
        requires
            num == 600_000 * c * mx * t,
            1 <= c,
            1 <= mx,
            0 <= t,
            dd == 60 * c * 10000 * mx * 255;
    lemma_div_multiples_vanish(t, dd);
}

/// Round trip for a grey pixel: hue 0, saturation 0, value from the shared
/// channel level.
proof fn lemma_rt_grey(p: Rgb)
    requires
        max3(p.r as int, p.g as int, p.b as int) == min3(p.r as int, p.g as int, p.b as int),
    ensures
        spec_hsv_to_rgb(spec_rgb_to_hsv(p)) == p,
{
    let r = p.r as int;
    let g = p.g as int;
    let b = p.b as int;
    let mx = max3(r, g, b);
    assert(r == mx && g == mx && b == mx);
    let hsv = spec_rgb_to_hsv(p);
    let sd = if mx == 0 { 1int } else { mx };
    assert(hsv.h == Rat { n: 0, d: 1 } && hsv.s == Rat { n: 0, d: sd }
        && hsv.v == Rat { n: 100 * mx, d: 255 });
    let dd = 60 * 1 * 10000 * sd * 255;
    let base = (100 * sd - 0) * (100 * mx) * (60 * 1);
    assert(dd >= 1 && 255 * base == dd * mx) by (nonlinear_arith)
        requires
            1 <= sd,
            base == (100 * sd - 0) * (100 * mx) * (60 * 1),
            dd == 60 * 1 * 10000 * sd * 255;
    lemma_div_multiples_vanish(mx, dd);
    assert(chan_of(base, dd) == mx);
    assert(0 * (hsv.s.n * hsv.v.n) == 0) by (nonlinear_arith);
    assert(spec_hsv_to_rgb(hsv) == p);
}

/// Round trip when the red channel holds the maximum: hue lies in the
/// sector `[0, 60]` when green is at least blue, else in `[300, 360)`.
proof fn lemma_rt_rmax(p: Rgb)
    requires
        max3(p.r as int, p.g as int, p.b as int) == p.r as int,
        max3(p.r as int, p.g as int, p.b as int) > min3(p.r as int, p.g as int, p.b as int),
    ensures
        spec_hsv_to_rgb(spec_rgb_to_hsv(p)) == p,
{
    let r = p.r as int;
    let g = p.g as int;
    let b = p.b as int;
    let mx = r;
    let mn = min3(r, g, b);
    let c = mx - mn;
    assert(1 <= c && 1 <= mx <= 255 && mn == if g <= b { g } else { b });
    let hsv = spec_rgb_to_hsv(p);
    assert(hsv.s == Rat { n: 100 * c, d: mx } && hsv.v == Rat { n: 100 * mx, d: 255 });
    let dd = 60 * c * 10000 * mx * 255;
    if g >= b {
        assert(mn == b);
        lemma_mod_id(60 * (g - b), 360 * c);
        assert(hsv.h == Rat { n: 60 * (g - b), d: c });
        lemma_chan_forms(c, mx, mn, g - b);
        if g - b < c {
            // sector [0, 60): channels (max, min + h' * chroma, min)
            lemma_chan_cancel((100 * mx) * (100 * mx) * (60 * c), c, mx, mx);
            lemma_chan_cancel((100 * mx - 100 * c) * (100 * mx) * (60 * c), c, mx, mn);
            lemma_chan_cancel((100 * mx - 100 * c) * (100 * mx) * (60 * c)
                + (60 * (g - b)) * ((100 * c) * (100 * mx)), c, mx, mn + (g - b));
            assert(spec_hsv_to_rgb(hsv) == p);
        } else {
            // g - b == c exactly: hue 60, evaluated by the next sector,
            // which meets the first continuously.
            assert(g - b == c && g == mx && b == mn);
            lemma_chan_forms(c, mx, mn, (g - b) - 2 * c);
            lemma_chan_cancel((100 * mx) * (100 * mx) * (60 * c), c, mx, mx);
            lemma_chan_cancel((100 * mx - 100 * c) * (100 * mx) * (60 * c), c, mx, mn);
            lemma_chan_cancel((100 * mx - 100 * c) * (100 * mx) * (60 * c)
                - (60 * ((g - b) - 2 * c)) * ((100 * c) * (100 * mx)), c, mx,
                mn - ((g - b) - 2 * c));
            assert(spec_hsv_to_rgb(hsv) == p);
        }
    } else {
        // sector [300, 360): hue wraps below zero after the shift
        assert(mn == g);
        lemma_mod_wrap(60 * (g - b), 360 * c);
        assert(hsv.h == Rat { n: 60 * (g - b) + 360 * c, d: c });
        assert(300 * c <= hsv.h.n);
        lemma_chan_forms(c, mx, mn, g - b);
        lemma_chan_cancel((100 * mx) * (100 * mx) * (60 * c), c, mx, mx);
        lemma_chan_cancel((100 * mx - 100 * c) * (100 * mx) * (60 * c), c, mx, mn);
        lemma_chan_cancel((100 * mx - 100 * c) * (100 * mx) * (60 * c)
            - (60 * (g - b)) * ((100 * c) * (100 * mx)), c, mx, mn - (g - b));
        assert(spec_hsv_to_rgb(hsv) == p);
    }
}

/// Round trip when the green channel holds the maximum (and red does
/// not): hue lies in `(60, 180]`.
proof fn lemma_rt_gmax(p: Rgb)
    requires
        max3(p.r as int, p.g as int, p.b as int) == p.g as int,
        max3(p.r as int, p.g as int, p.b as int) != p.r as int,
        max3(p.r as int, p.g as int, p.b as int) > min3(p.r as int, p.g as int, p.b as int),
    ensures
        spec_hsv_to_rgb(spec_rgb_to_hsv(p)) == p,
{
    let r = p.r as int;
    let g = p.g as int;
    let b = p.b as int;
    let mx = g;
    let mn = min3(r, g, b);
    let c = mx - mn;
    assert(1 <= c && 1 <= mx <= 255 && mn == if r <= b { r } else { b });
    let hsv = spec_rgb_to_hsv(p);
    assert(hsv.s == Rat { n: 100 * c, d: mx } && hsv.v == Rat { n: 100 * mx, d: 255 });
    lemma_mod_id(120 * c + 60 * (b - r), 360 * c);
    assert(hsv.h == Rat { n: 120 * c + 60 * (b - r), d: c });
    lemma_chan_forms(c, mx, mn, 0);
    lemma_chan_cancel((100 * mx) * (100 * mx) * (60 * c), c, mx, mx);
    lemma_chan_cancel((100 * mx - 100 * c) * (100 * mx) * (60 * c), c, mx, mn);
    if b < r {
        // sector (60, 120): channels (min - (h' - 2) * chroma, max, min)
        assert(mn == b);
        lemma_chan_forms(c, mx, mn, b - r);
        lemma_chan_cancel((100 * mx - 100 * c) * (100 * mx) * (60 * c)
            - (60 * (b - r)) * ((100 * c) * (100 * mx)), c, mx, mn - (b - r));
        assert(spec_hsv_to_rgb(hsv) == p);
    } else if b - r < c {
        // sector [120, 180): channels (min, max, min + (h' - 2) * chroma)
        assert(mn == r);
        lemma_chan_forms(c, mx, mn, b - r);
        lemma_chan_cancel((100 * mx - 100 * c) * (100 * mx) * (60 * c)
            + (60 * (b - r)) * ((100 * c) * (100 * mx)), c, mx, mn + (b - r));
        assert(spec_hsv_to_rgb(hsv) == p);
    } else {
        // b - r == c exactly: hue 180, evaluated by the next sector, which
        // meets this one continuously.
        assert(b - r == c && b == mx && r == mn);
        lemma_chan_forms(c, mx, mn, (b - r) - 2 * c);
        lemma_chan_cancel((100 * mx - 100 * c) * (100 * mx) * (60 * c)
            - (60 * ((b - r) - 2 * c)) * ((100 * c) * (100 * mx)), c, mx,
            mn - ((b - r) - 2 * c));
        assert(spec_hsv_to_rgb(hsv) == p);
    }
}

/// Round trip when the blue channel holds the maximum (and neither red nor
/// green does): hue lies strictly inside `(180, 300)`.
proof fn lemma_rt_bmax(p: Rgb)
    requires
        max3(p.r as int, p.g as int, p.b as int) == p.b as int,
        max3(p.r as int, p.g as int, p.b as int) != p.r as int,
        max3(p.r as int, p.g as int, p.b as int) != p.g as int,
        max3(p.r as int, p.g as int, p.b as int) > min3(p.r as int, p.g as int, p.b as int),
    ensures
        spec_hsv_to_rgb(spec_rgb_to_hsv(p)) == p,
{
    let r = p.r as int;
    let g = p.g as int;
    let b = p.b as int;
    let mx = b;
    let mn = min3(r, g, b);
    let c = mx - mn;
    assert(1 <= c && 1 <= mx <= 255 && mn == if r <= g { r } else { g });
    assert(r < mx && g < mx);
    let hsv = spec_rgb_to_hsv(p);
    assert(hsv.s == Rat { n: 100 * c, d: mx } && hsv.v == Rat { n: 100 * mx, d: 255 });
    lemma_mod_id(240 * c + 60 * (r - g), 360 * c);
    assert(hsv.h == Rat { n: 240 * c + 60 * (r - g), d: c });
    assert(hsv.h.n < 300 * c);
    lemma_chan_forms(c, mx, mn, r - g);
    lemma_chan_cancel((100 * mx) * (100 * mx) * (60 * c), c, mx, mx);
    lemma_chan_cancel((100 * mx - 100 * c) * (100 * mx) * (60 * c), c, mx, mn);
    if r < g {
        // sector (180, 240): channels (min, min - (h' - 4) * chroma, max)
        assert(mn == r);
        lemma_chan_cancel((100 * mx - 100 * c) * (100 * mx) * (60 * c)
            - (60 * (r - g)) * ((100 * c) * (100 * mx)), c, mx, mn - (r - g));
        assert(spec_hsv_to_rgb(hsv) == p);
    } else {
        // sector [240, 300): channels (min + (h' - 4) * chroma, min, max)
        assert(mn == g);
        lemma_chan_cancel((100 * mx - 100 * c) * (100 * mx) * (60 * c)
            + (60 * (r - g)) * ((100 * c) * (100 * mx)), c, mx, mn + (r - g));
        assert(spec_hsv_to_rgb(hsv) == p);
    }
}

/// Round trip: converting any RGB pixel to HSV and back returns exactly
/// the original pixel. The conversions are exact rational arithmetic, and
/// the final truncation to 8 bits lands on the original channel values.
pub proof fn lemma_rgb_hsv_round_trip(p: Rgb)
    ensures
        spec_hsv_to_rgb(spec_rgb_to_hsv(p)) == p,
{
    let r = p.r as int;
    let g = p.g as int;
    let b = p.b as int;
    let mx = max3(r, g, b);
    let mn = min3(r, g, b);
    if mx == mn {
        lemma_rt_grey(p);
    } else if mx == r {
        lemma_rt_rmax(p);
    } else if mx == g {
        lemma_rt_gmax(p);
    } else {
        lemma_rt_bmax(p);
    }
}

} // verus!
