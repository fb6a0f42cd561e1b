//! Hue-remapping functions over the circular domain of degrees `[0, 360)`.
//!
//! A `HueMap` is either a reflection across a fixed axis or a
//! piecewise-linear function through control points. Control points are
//! given in thousandths of a degree (millidegrees) and are reduced into
//! `[0, 360)` first; a synthetic copy of the last point shifted down a full
//! turn and of the first point shifted up a full turn make the function
//! continuous across the 0/360 seam. Evaluation first reduces its argument
//! into the covered window, so the map treats `x` and `x + 360` alike.

use vstd::prelude::*;
use vstd::seq_lib::{to_multiset_insert, to_multiset_build};
use vstd::arithmetic::div_mod::{
    lemma_fundamental_div_mod, lemma_mod_add_multiples_vanish, lemma_mod_sub_multiples_vanish,
    lemma_mod_bound,
};
use crate::rat::{
    Frac, Rat, rat_wf, rat_sub, rat_eq, rat_add_int, rat_mod360, rat_normalized, mod_euclid,
    cong360, cong360_witness, lemma_rat_eq_cong360, lemma_cong360_trans,
    lemma_cong360_sub_right, lemma_mod360_cong,
    lemma_mul_abs_bound, lemma_mul_bounds_pos, lemma_mul_mono, lemma_mod_id,
};

verus! {

broadcast use to_multiset_insert, to_multiset_build;

/// An error of the hue-map builders.
#[derive(Clone, Copy, Debug, PartialEq, Eq, Structural)]
pub enum RemapError {
    /// Two control points share a sample angle, so a segment would have an
    /// undefined slope.
    InvalidControlPoints,
}

/// One precomputed segment between consecutive control points: the slope is
/// `dy / dx`, and `bias == y * dx - dy * x` anchors the line at the
/// segment's left control point `(x, y)`.
#[derive(Clone, Copy, Debug, PartialEq, Eq, Structural)]
pub struct Seg {
    pub dy: i64,
    pub dx: i64,
    pub bias: i64,
}

/// A hue-remapping function: degrees to degrees on the circle.
#[derive(Debug)]
pub enum HueMap {
    /// Reflection across the axis at `angle_md` millidegrees:
    /// `x` maps to `2 * angle - x`, modulo 360 degrees.
    Reflect { angle_md: i64 },
    /// Piecewise-linear interpolation through control points in
    /// millidegrees, wrapped across the 0/360 seam; one segment per
    /// consecutive pair of points.
    Piecewise { pts: Vec<(i64, i64)>, segs: Vec<Seg> },
}

/// Segment `i` carries exactly the slope and bias of the line through
/// control points `i` and `i + 1`.
pub open spec fn seg_matches(pts: Seq<(i64, i64)>, sg: Seg, i: int) -> bool {
    &&& sg.dx == pts[i + 1].0 - pts[i].0
    &&& sg.dy == pts[i + 1].1 - pts[i].1
    &&& sg.bias == pts[i].1 * sg.dx - sg.dy * pts[i].0
}

/// A well-formed wrapped control-point list: at least three points (one
/// real point plus the two synthetic wrap points), strictly ascending
/// sample angles, the first point a copy of the second-to-last shifted down
/// one full turn, the last a copy of the second shifted up one full turn,
/// and one matching segment per consecutive pair.
pub open spec fn piecewise_wf(pts: Seq<(i64, i64)>, segs: Seq<Seg>) -> bool {
    &&& 3 <= pts.len()
    &&& segs.len() == pts.len() - 1
    &&& forall|i: int| 0 <= i < pts.len() - 1 ==> (#[trigger] pts[i]).0 < pts[i + 1].0
    &&& forall|i: int|
        0 <= i < pts.len() ==> -360_000 <= (#[trigger] pts[i]).0 <= 720_000 && -360_000
            <= pts[i].1 <= 720_000
    &&& pts[0].0 == pts[pts.len() - 2].0 - 360_000
    &&& pts[0].1 == pts[pts.len() - 2].1 - 360_000
    &&& pts[pts.len() - 1].0 == pts[1].0 + 360_000
    &&& pts[pts.len() - 1].1 == pts[1].1 + 360_000
    &&& forall|i: int| 0 <= i < segs.len() ==> seg_matches(pts, #[trigger] segs[i], i)
}

pub open spec fn huemap_wf(m: HueMap) -> bool {
    match m {
        HueMap::Reflect { angle_md } => 0 <= angle_md < 360_000,
        HueMap::Piecewise { pts, segs } => piecewise_wf(pts@, segs@),
    }
}

/// The first segment index at or after `i` whose right breakpoint lies
/// strictly beyond `nr / xd` millidegrees, defaulting to the last segment.
pub open spec fn seg_index_from(pts: Seq<(i64, i64)>, nr: int, xd: int, i: int) -> int
    decreases pts.len() - i,
{
    if i >= pts.len() - 2 {
        pts.len() - 2
    } else if nr < pts[i + 1].0 * xd {
        i
    } else {
        seg_index_from(pts, nr, xd, i + 1)
    }
}

/// Reflection: `(2 * angle - x) mod 360`, with `angle` in millidegrees.
pub open spec fn spec_eval_reflect(angle_md: int, x: Rat) -> Rat {
    rat_mod360(Rat { n: 2 * angle_md * x.d - 1000 * x.n, d: 1000 * x.d })
}

/// Piecewise evaluation: reduce `x` into the covered window
/// `[pts[0], pts[0] + 360)` (the numerator `nr` is in millidegrees over the
/// denominator `1000 * x.d`), select the half-open segment containing it,
/// and apply that segment's line `(bias + dy * xr) / dx`, modulo 360.
pub open spec fn spec_eval_piecewise(pts: Seq<(i64, i64)>, segs: Seq<Seg>, x: Rat) -> Rat {
    let x0 = pts[0].0 as int;
    let nr = (1000 * x.n - x0 * x.d) % (360_000 * x.d) + x0 * x.d;
    let sg = segs[seg_index_from(pts, nr, x.d, 0)];
    rat_mod360(Rat { n: sg.bias * x.d + sg.dy * nr, d: 1000 * sg.dx * x.d })
}

pub open spec fn spec_eval_hue(m: HueMap, x: Rat) -> Rat {
    match m {
        HueMap::Reflect { angle_md } => spec_eval_reflect(angle_md as int, x),
        HueMap::Piecewise { pts, segs } => spec_eval_piecewise(pts@, segs@, x),
    }
}

/// An argument the evaluator accepts: a well-formed rational of bounded
/// size (hue angles of the conversion pipeline stay far below the bounds).
pub open spec fn eval_arg_ok(x: Rat) -> bool {
    &&& 1 <= x.d <= 1_000_000
    &&& -1_000_000_000_000 <= x.n <= 1_000_000_000_000
}

impl HueMap {
    /// Apply the map to the hue angle `x`, in degrees.
    #[verifier::loop_isolation(false)]
    pub fn eval(&self, x: &Frac) -> (r: Frac)
        requires
            huemap_wf(*self),
            eval_arg_ok(x@),
        ensures
            r@ == spec_eval_hue(*self, x@),
            rat_wf(r@),
            rat_normalized(r@),
            r@.d <= 2_000_000_000_000_000,
    {
        match self {
            HueMap::Reflect { angle_md } => {
                proof {
                    lemma_mul_abs_bound(
                        2 * (*angle_md as int), x.den as int, 720_000, 1_000_000);
                }
                let an: i128 = 2 * (*angle_md as i128) * x.den - 1000 * x.num;
                let dn: i128 = 1000 * x.den;
                let rn = mod_euclid(an, 360 * dn);
                Frac { num: rn, den: dn }
            },
            HueMap::Piecewise { pts, segs } => {
                let x0: i64 = pts[0].0;
                let xd: i128 = x.den;
                proof {
                    lemma_mul_abs_bound(x0 as int, xd as int, 360_000, 1_000_000);
                }
                let shift: i128 = (x0 as i128) * xd;
                let nr: i128 = mod_euclid(1000 * x.num - shift, 360_000 * xd) + shift;
                let n = pts.len();
                let mut i: usize = 0;
                let mut searching: bool = true;
                while searching
                    invariant
                        0 <= i <= n - 2,
                        seg_index_from(pts@, nr as int, xd as int, 0)
                            == seg_index_from(pts@, nr as int, xd as int, i as int),
                        !searching ==> i as int == seg_index_from(pts@, nr as int, xd as int, 0),
                    decreases n - i + (if searching { 1int } else { 0int }),
                {
                    if i >= n - 2 {
                        searching = false;
                    } else {
                        let b: i64 = pts[i + 1].0;
                        proof {
                            lemma_mul_abs_bound(b as int, xd as int, 720_000, 1_000_000);
                        }
                        if nr < (b as i128) * xd {
                            searching = false;
                        } else {
                            i = i + 1;
                        }
                    }
                }
                let sg = segs[i];
                proof {
                    assert(seg_matches(pts@, segs@[i as int], i as int));
                    lemma_mul_abs_bound(sg.dx as int, sg.dy as int, 1_080_000, 1_080_000);
                    lemma_mul_abs_bound(pts@[i as int].1 as int, sg.dx as int, 720_000, 1_080_000);
                    lemma_mul_abs_bound(sg.dy as int, pts@[i as int].0 as int, 1_080_000, 720_000);
                    lemma_mul_abs_bound(sg.bias as int, xd as int,
                        1_555_200_000_000, 1_000_000);
                    lemma_mul_abs_bound(sg.dy as int, nr as int,
                        1_080_000, 720_000_000_000);
                    lemma_mul_bounds_pos(sg.dx as int, xd as int, 1_080_000, 1_000_000);
                }
                let fnum: i128 = (sg.bias as i128) * xd + (sg.dy as i128) * nr;
                let dxd: i128 = (sg.dx as i128) * xd;
                let fden: i128 = 1000 * dxd;
                proof {
                    assert(fden as int == 1000 * (sg.dx as int) * (xd as int))
                        by (nonlinear_arith)
                        requires
                            fden == 1000 * dxd,
                            dxd == (sg.dx as int) * (xd as int);
                }
                let rn = mod_euclid(fnum, 360 * fden);
                Frac { num: rn, den: fden }
            },
        }
    }
}

/// Both coordinates of a control point reduced into `[0, 360)` degrees,
/// in millidegrees.
pub open spec fn spec_norm_point(p: (i64, i64)) -> (i64, i64) {
    ((p.0 as int % 360_000) as i64, (p.1 as int % 360_000) as i64)
}

/// No two control points share a sample angle.
pub open spec fn samples_distinct(s: Seq<(i64, i64)>) -> bool {
    forall|i: int, j: int| 0 <= i < j < s.len() ==> s[i].0 != s[j].0
}

/// Points reduced into `[0, 360)` on both coordinates.
pub open spec fn points_normalized(s: Seq<(i64, i64)>) -> bool {
    forall|i: int| 0 <= i < s.len() ==> 0 <= (#[trigger] s[i]).0 < 360_000 && 0 <= s[i].1 < 360_000
}

/// Strictly ascending sample angles.
pub open spec fn points_sorted(s: Seq<(i64, i64)>) -> bool {
    forall|a: int, b: int| 0 <= a < b < s.len() ==> s[a].0 < s[b].0
}

/// The wrapped list: a copy of the last point shifted down one full turn,
/// then the points, then a copy of the first point shifted up one full turn.
pub open spec fn spec_wrap_pts(mid: Seq<(i64, i64)>) -> Seq<(i64, i64)> {
    seq![(((mid[mid.len() - 1].0 - 360_000) as i64, (mid[mid.len() - 1].1 - 360_000) as i64))]
        + mid + seq![(((mid[0].0 + 360_000) as i64, (mid[0].1 + 360_000) as i64))]
}

/// The segment through control points `i` and `i + 1`.
pub open spec fn spec_seg_of(pts: Seq<(i64, i64)>, i: int) -> Seg {
    let dx = pts[i + 1].0 - pts[i].0;
    let dy = pts[i + 1].1 - pts[i].1;
    Seg { dy: dy as i64, dx: dx as i64, bias: (pts[i].1 * dx - dy * pts[i].0) as i64 }
}

/// One segment per consecutive pair of control points.
pub open spec fn spec_segs_of(pts: Seq<(i64, i64)>) -> Seq<Seg> {
    Seq::new((pts.len() - 1) as nat, |i: int| spec_seg_of(pts, i))
}

/// The wrapped list over a sorted, normalized, nonempty point list, with
/// its matching segments, is well-formed.
proof fn lemma_wrap_wf(mid: Seq<(i64, i64)>, pts: Seq<(i64, i64)>, segs: Seq<Seg>)
    requires
        1 <= mid.len(),
        points_normalized(mid),
        points_sorted(mid),
        pts == spec_wrap_pts(mid),
        segs == spec_segs_of(pts),
    ensures
        piecewise_wf(pts, segs),
{
    let kk = mid.len() as int;
    assert(pts.len() == kk + 2);
    assert forall|t: int| 0 <= t < pts.len() implies -360_000 <= (#[trigger] pts[t]).0 <= 720_000
        && -360_000 <= pts[t].1 <= 720_000 by {
        if 0 < t < pts.len() - 1 {
            assert(pts[t] == mid[t - 1]);
        }
    }
    assert forall|t: int| 0 <= t < pts.len() - 1 implies (#[trigger] pts[t]).0 < pts[t + 1].0 by {
        if t == 0 {
            assert(pts[0].0 == mid[kk - 1].0 - 360_000 < 0 <= mid[0].0);
            assert(pts[1] == mid[0]);
        } else if t < pts.len() - 2 {
            assert(pts[t] == mid[t - 1] && pts[t + 1] == mid[t]);
        } else {
            assert(pts[t] == mid[kk - 1] && pts[t + 1].0 == mid[0].0 + 360_000);
        }
    }
    assert(pts[0].0 == pts[pts.len() - 2].0 - 360_000);
    assert(pts[0].1 == pts[pts.len() - 2].1 - 360_000);
    assert(pts[pts.len() - 1].0 == pts[1].0 + 360_000);
    assert(pts[pts.len() - 1].1 == pts[1].1 + 360_000);
    assert forall|t: int| 0 <= t < segs.len() implies seg_matches(pts, #[trigger] segs[t], t) by {
        assert(segs[t] == spec_seg_of(pts, t));
        assert(-360_000 <= pts[t].0 <= 720_000 && -360_000 <= pts[t].1 <= 720_000);
        assert(-360_000 <= pts[t + 1].0 <= 720_000 && -360_000 <= pts[t + 1].1 <= 720_000);
        let dx = pts[t + 1].0 - pts[t].0;
        let dy = pts[t + 1].1 - pts[t].1;
        assert(segs[t].dx == dx && segs[t].dy == dy);
        crate::rat::lemma_mul_abs_bound(pts[t].1 as int, dx, 720_000, 1_080_000);
        crate::rat::lemma_mul_abs_bound(dy, pts[t].0 as int, 1_080_000, 720_000);
        assert(segs[t].bias == pts[t].1 * dx - dy * pts[t].0);
    }
}

/// Wrap a sorted, normalized control-point list and precompute its
/// segments.
#[verifier::loop_isolation(false)]
fn build_piecewise(mid: Vec<(i64, i64)>) -> (m: HueMap)
    requires
        1 <= mid@.len(),
        points_normalized(mid@),
        points_sorted(mid@),
    ensures
        huemap_wf(m),
        (m matches HueMap::Piecewise { pts, segs } && pts@ == spec_wrap_pts(mid@)
            && segs@ == spec_segs_of(pts@)),
{
    let k = mid.len();
    let first = mid[0];
    let last = mid[k - 1];
    let mut pts: Vec<(i64, i64)> = Vec::new();
    pts.push((last.0 - 360_000, last.1 - 360_000));
    let mut j: usize = 0;
    while j < k
        invariant
            j <= k,
            pts@.len() == j + 1,
            pts@[0] == ((((last.0 - 360_000) as i64, (last.1 - 360_000) as i64))),
            forall|t: int| 0 <= t < j ==> pts@[t + 1] == mid@[t],
        decreases k - j,
    {
        pts.push(mid[j]);
        j = j + 1;
    }
    pts.push((first.0 + 360_000, first.1 + 360_000));
    proof {
        let w = spec_wrap_pts(mid@);
        assert(pts@.len() == w.len());
        assert forall|t: int| 0 <= t < pts@.len() implies pts@[t] == w[t] by {
            if t == 0 {
                assert(w[0] == (((mid@[mid@.len() - 1].0 - 360_000) as i64,
                    (mid@[mid@.len() - 1].1 - 360_000) as i64)));
            } else if t < pts@.len() - 1 {
                assert(pts@[t] == mid@[t - 1]);
                assert(w[t] == mid@[t - 1]);
            } else {
                assert(w[t] == (((mid@[0].0 + 360_000) as i64, (mid@[0].1 + 360_000) as i64)));
            }
        }
        assert(pts@ =~= spec_wrap_pts(mid@));
    }
    let n = pts.len();
    let mut segs: Vec<Seg> = Vec::new();
    let mut i: usize = 0;
    while i < n - 1
        invariant
            segs@.len() == i,
            i <= n - 1,
            forall|t: int| 0 <= t < i ==> segs@[t] == spec_seg_of(pts@, t),
        decreases n - 1 - i,
    {
        let dx: i64 = pts[i + 1].0 - pts[i].0;
        let dy: i64 = pts[i + 1].1 - pts[i].1;
        proof {
            lemma_mul_abs_bound(pts@[i as int].1 as int, dx as int, 720_000, 1_080_000);
            lemma_mul_abs_bound(dy as int, pts@[i as int].0 as int, 1_080_000, 720_000);
        }
        let bias128: i128 = (pts[i].1 as i128) * (dx as i128) - (dy as i128) * (pts[i].0 as i128);
        segs.push(Seg { dy, dx, bias: bias128 as i64 });
        i = i + 1;
    }
    proof {
        assert(segs@ =~= spec_segs_of(pts@));
        lemma_wrap_wf(mid@, pts@, segs@);
    }
    HueMap::Piecewise { pts, segs }
}

/// Insertion sort by sample angle; sample angles must be pairwise
/// distinct, so the result is strictly ascending.
#[verifier::loop_isolation(false)]
fn sort_points(v: &Vec<(i64, i64)>) -> (out: Vec<(i64, i64)>)
    requires
        samples_distinct(v@),
    ensures
        out@.len() == v@.len(),
        out@.to_multiset() == v@.to_multiset(),
        points_sorted(out@),
        forall|t: int| 0 <= t < out@.len() ==> v@.contains(#[trigger] out@[t]),
{
    let mut out: Vec<(i64, i64)> = Vec::new();
    proof {
        assert(out@ =~= v@.take(0));
    }
    let mut k: usize = 0;
    while k < v.len()
        invariant
            k <= v@.len(),
            out@.len() == k,
            out@.to_multiset() == v@.take(k as int).to_multiset(),
            points_sorted(out@),
            forall|t: int| 0 <= t < out@.len() ==>
                exists|j: int| 0 <= j < k && #[trigger] out@[t] == v@[j],
        decreases v@.len() - k,
    {
        let x = v[k];
        let mut pos: usize = 0;
        while pos < out.len() && out[pos].0 < x.0
            invariant
                pos <= out@.len(),
                forall|t: int| 0 <= t < pos ==> (#[trigger] out@[t]).0 < x.0,
            decreases out@.len() - pos,
        {
            pos = pos + 1;
        }
        proof {
            // No element of `out` shares x's sample angle (the samples are
            // pairwise distinct), so the first element not below x is
            // strictly above it, and so is everything after it.
            assert forall|t: int| pos <= t < out@.len() implies (#[trigger] out@[t]).0 > x.0 by {
                let j0 = choose|j: int| 0 <= j < k && out@[pos as int] == v@[j];
                assert(v@[j0].0 != v@[k as int].0);
                assert(out@[pos as int].0 > x.0);
                if t > pos {
                    assert(out@[pos as int].0 < out@[t].0);
                }
            }
        }
        let ghost prev = out@;
        out.insert(pos, x);
        proof {
            prev.insert_ensures(pos as int, x);
            assert(points_sorted(out@)) by {
                assert forall|a: int, b: int| 0 <= a < b < out@.len() implies out@[a].0
                    < out@[b].0 by {
                    if b < pos {
                        assert(out@[a] == prev[a] && out@[b] == prev[b]);
                    } else if a > pos {
                        assert(out@[a] == prev[a - 1] && out@[b] == prev[b - 1]);
                    } else if a == pos && b > pos {
                        assert(out@[b] == prev[b - 1] && prev[b - 1].0 > x.0);
                    } else if b == pos {
                        assert(out@[a] == prev[a] && prev[a].0 < x.0);
                    } else {
                        assert(a < pos && b > pos);
                        assert(out@[a] == prev[a] && out@[b] == prev[b - 1]);
                    }
                }
            }
            assert(v@.take(k as int + 1) =~= v@.take(k as int).push(v@[k as int]));
            assert(out@.to_multiset() == v@.take(k as int + 1).to_multiset());
            assert forall|t: int| 0 <= t < out@.len() implies
                exists|j: int| 0 <= j < k + 1 && #[trigger] out@[t] == v@[j] by {
                if t < pos {
                    assert(out@[t] == prev[t]);
                } else if t == pos {
                    assert(out@[t] == v@[k as int]);
                } else {
                    assert(out@[t] == prev[t - 1]);
                }
            }
        }
        k = k + 1;
    }
    proof {
        assert(v@.take(v@.len() as int) =~= v@);
    }
    out
}

/// Build the reflection map across `reflect_angle` millidegrees; the axis
/// angle is reduced into `[0, 360)` degrees first, which does not change
/// the reflection.
pub fn angle_reflect(reflect_angle: i64) -> (m: HueMap)
    ensures
        m == (HueMap::Reflect { angle_md: (reflect_angle as int % 360_000) as i64 }),
        huemap_wf(m),
{
    let a = mod_euclid(reflect_angle as i128, 360_000);
    HueMap::Reflect { angle_md: a as i64 }
}

/// The two-point map: both points reduced into `[0, 360)` and ordered by
/// sample angle; the low-to-high segment interpolates between them and the
/// wrap segments cover the rest of the circle. Fails when the two reduced
/// sample angles coincide, since the slope would be undefined.
#[verifier::loop_isolation(false)]
pub fn linear_piece_two(p1: (i64, i64), p2: (i64, i64)) -> (res: Result<HueMap, RemapError>)
    ensures
        ({
            let q1 = spec_norm_point(p1);
            let q2 = spec_norm_point(p2);
            let lo = if q1.0 < q2.0 { q1 } else { q2 };
            let hi = if q1.0 < q2.0 { q2 } else { q1 };
            match res {
                Ok(m) => {
                    &&& q1.0 != q2.0
                    &&& huemap_wf(m)
                    &&& (m matches HueMap::Piecewise { pts, segs }
                        && pts@ == spec_wrap_pts(seq![lo, hi])
                        && segs@ == spec_segs_of(spec_wrap_pts(seq![lo, hi])))
                },
                Err(e) => {
                    &&& q1.0 == q2.0
                    &&& e == RemapError::InvalidControlPoints
                },
            }
        }),
{
    let q1 = (mod_euclid(p1.0 as i128, 360_000) as i64, mod_euclid(p1.1 as i128, 360_000) as i64);
    let q2 = (mod_euclid(p2.0 as i128, 360_000) as i64, mod_euclid(p2.1 as i128, 360_000) as i64);
    if q1.0 == q2.0 {
        return Err(RemapError::InvalidControlPoints);
    }
    let lo = if q1.0 < q2.0 { q1 } else { q2 };
    let hi = if q1.0 < q2.0 { q2 } else { q1 };
    let mut mid: Vec<(i64, i64)> = Vec::new();
    mid.push(lo);
    mid.push(hi);
    proof {
        assert(mid@ =~= seq![lo, hi]);
    }
    Ok(build_piecewise(mid))
}

/// The N-point map: all points reduced into `[0, 360)`, sorted by sample
/// angle, and wrapped across the seam; an empty list gets the single
/// default point at 180 degrees mapping to itself. Fails when two reduced
/// sample angles coincide, since a segment's slope would be undefined.
#[verifier::loop_isolation(false)]
pub fn linear_piece_any(points: Vec<(i64, i64)>) -> (res: Result<HueMap, RemapError>)
    ensures
        ({
            let normed = if points@.len() == 0 {
                seq![((180_000i64, 180_000i64))]
            } else {
                points@.map_values(|p: (i64, i64)| spec_norm_point(p))
            };
            match res {
                Ok(m) => {
                    &&& samples_distinct(normed)
                    &&& huemap_wf(m)
                    &&& (m matches HueMap::Piecewise { pts, segs }
                        && pts@.len() == normed.len() + 2
                        && pts@.subrange(1, pts@.len() - 1).to_multiset() == normed.to_multiset()
                        && segs@ == spec_segs_of(pts@))
                },
                Err(e) => {
                    &&& !samples_distinct(normed)
                    &&& e == RemapError::InvalidControlPoints
                },
            }
        }),
{
    let ghost normed_spec: Seq<(i64, i64)> = if points@.len() == 0 {
        seq![((180_000i64, 180_000i64))]
    } else {
        points@.map_values(|p: (i64, i64)| spec_norm_point(p))
    };
    let mut normed: Vec<(i64, i64)> = Vec::new();
    let mut idx: usize = 0;
    while idx < points.len()
        invariant
            idx <= points@.len(),
            normed@.len() == idx,
            forall|j: int| 0 <= j < idx ==> normed@[j] == spec_norm_point(points@[j]),
        decreases points@.len() - idx,
    {
        let p = points[idx];
        let a = mod_euclid(p.0 as i128, 360_000) as i64;
        let t = mod_euclid(p.1 as i128, 360_000) as i64;
        normed.push((a, t));
        idx = idx + 1;
    }
    if normed.len() == 0 {
        normed.push((180_000, 180_000));
    }
    proof {
        assert(normed@ =~= normed_spec);
    }
    let n = normed.len();
    let mut i: usize = 0;
    while i < n
        invariant
            i <= n,
            n == normed@.len(),
            forall|a: int, b: int| 0 <= a < i && a < b < n ==> normed@[a].0 != normed@[b].0,
        decreases n - i,
    {
        let mut j: usize = i + 1;
        while j < n
            invariant
                i < n,
                i + 1 <= j <= n,
                n == normed@.len(),
                forall|a: int, b: int| 0 <= a < i && a < b < n ==> normed@[a].0 != normed@[b].0,
                forall|b: int| i < b < j ==> normed@[i as int].0 != normed@[b].0,
            decreases n - j,
        {
            if normed[i].0 == normed[j].0 {
                proof {
                    assert(!samples_distinct(normed_spec)) by {
                        assert(normed_spec[i as int].0 == normed_spec[j as int].0);
                    }
                }
                return Err(RemapError::InvalidControlPoints);
            }
            j = j + 1;
        }
        i = i + 1;
    }
    assert(samples_distinct(normed@));
    let sorted = sort_points(&normed);
    proof {
        assert forall|t: int| 0 <= t < sorted@.len() implies 0 <= (#[trigger] sorted@[t]).0
            < 360_000 && 0 <= sorted@[t].1 < 360_000 by {
            assert(normed@.contains(sorted@[t]));
        }
    }
    let m = build_piecewise(sorted);
    proof {
        match &m {
            HueMap::Piecewise { pts, .. } => {
                assert(pts@.subrange(1, pts@.len() - 1) =~= sorted@);
            },
            _ => {},
        }
    }
    Ok(m)
}

/// Circular continuity: every hue map treats `x` and `x + 360` alike, for
/// any angle `x` — the two arguments are the same point of the circular
/// domain, and the results are identical.
pub proof fn lemma_eval_periodic(m: HueMap, x: Rat)
    requires
        huemap_wf(m),
        rat_wf(x),
    ensures
        spec_eval_hue(m, rat_add_int(x, 360)) == spec_eval_hue(m, x),
{
    let x1 = rat_add_int(x, 360);
    match m {
        HueMap::Reflect { angle_md } => {
            let a = angle_md as int;
            let t = 2 * a * x.d - 1000 * x.n;
            let mm = 360 * (1000 * x.d);
            assert(2 * a * x1.d - 1000 * x1.n == t - mm);
            lemma_mod_sub_multiples_vanish(t, mm);
        },
        HueMap::Piecewise { pts, segs } => {
            let x0 = pts@[0].0 as int;
            let pre = 1000 * x.n - x0 * x.d;
            let mm = 360_000 * x.d;
            assert(1000 * x1.n - x0 * x1.d == pre + mm);
            lemma_mod_add_multiples_vanish(pre, mm);
        },
    }
}

/// Reflection is an involution on the circle: reflecting an angle twice
/// across the same axis returns the original angle, modulo 360.
pub proof fn lemma_reflect_involution(angle_md: int, x: Rat)
    requires
        rat_wf(x),
    ensures
        cong360(spec_eval_reflect(angle_md, spec_eval_reflect(angle_md, x)), x),
{
    let a2 = Rat { n: 2 * angle_md, d: 1000 };
    let r1 = Rat { n: 2 * angle_md * x.d - 1000 * x.n, d: 1000 * x.d };
    let y = rat_mod360(r1);
    let r2 = Rat { n: 2 * angle_md * y.d - 1000 * y.n, d: 1000 * y.d };
    let z = rat_mod360(r2);
    assert(r1 == rat_sub(a2, x));
    assert(r2 == rat_sub(a2, y));
    // z is congruent to 2a - y, and y to 2a - x, so z to 2a - (2a - x) == x.
    lemma_mod360_cong(r2);
    lemma_mod360_cong(r1);
    lemma_cong360_sub_right(a2, y, r1);
    let s2 = rat_sub(a2, rat_sub(a2, x));
    assert(rat_eq(s2, x)) by {
        assert((2 * angle_md * (1000 * x.d) - (2 * angle_md * x.d - 1000 * x.n) * 1000) * x.d
            == x.n * (1000 * (1000 * x.d))) by (nonlinear_arith);
    }
    lemma_rat_eq_cong360(s2, x);
    lemma_cong360_trans(z, rat_sub(a2, y), s2);
    lemma_cong360_trans(z, s2, x);
}

/// Reducing an angle into the window anchored at `x0` millidegrees keeps it
/// on the circle: the reduced angle differs from the original by a multiple
/// of 360 degrees.
proof fn lemma_window_reduce_cong(x: Rat, x0: int)
    requires
        rat_wf(x),
    ensures
        ({
            let nr = (1000 * x.n - x0 * x.d) % (360_000 * x.d) + x0 * x.d;
            cong360(Rat { n: nr, d: 1000 * x.d }, x)
        }),
{
    let mm = 360_000 * x.d;
    let pre = 1000 * x.n - x0 * x.d;
    let nr = pre % mm + x0 * x.d;
    lemma_fundamental_div_mod(pre, mm);
    let q = pre / mm;
    assert(nr * x.d - x.n * (1000 * x.d) == 360 * (-q) * ((1000 * x.d) * x.d))
        by (nonlinear_arith)
        requires
            nr == pre - (360_000 * x.d) * q + x0 * x.d,
            pre == 1000 * x.n - x0 * x.d;
    assert(cong360_witness(Rat { n: nr, d: 1000 * x.d }, x, -q));
}

/// The map built from the empty control-point list is the identity on the
/// circle: with only the default point, which maps 180 degrees to itself,
/// every angle maps to itself modulo 360.
pub proof fn lemma_default_map_identity(m: HueMap, x: Rat)
    requires
        rat_wf(x),
        huemap_wf(m),
        (m matches HueMap::Piecewise { pts, segs } && pts@.len() == 3
            && pts@.subrange(1, 2).to_multiset()
                == seq![((180_000i64, 180_000i64))].to_multiset()
            && segs@ == spec_segs_of(pts@)),
    ensures
        cong360(spec_eval_hue(m, x), x),
{
    match m {
        HueMap::Reflect { .. } => {},
        HueMap::Piecewise { pts, segs } => {
            let sub = pts@.subrange(1, 2);
            assert(sub.to_multiset().contains(sub[0])) by {
                broadcast use vstd::seq_lib::group_to_multiset_ensures;
            }
            assert(pts@[1] == ((180_000i64, 180_000i64))) by {
                let single = seq![((180_000i64, 180_000i64))];
                assert(single.to_multiset().contains(sub[0]));
                if sub[0] != single[0] {
                    broadcast use vstd::seq_lib::group_to_multiset_ensures;
                    assert(single.contains(sub[0]));
                }
            }
            assert(pts@[0] == ((-180_000i64, -180_000i64)));
            assert(pts@[2] == ((540_000i64, 540_000i64)));
            let sg = segs@[0];
            assert(sg == spec_seg_of(pts@, 0));
            assert(sg.dx == 360_000 && sg.dy == 360_000 && sg.bias == 0);
            let x0 = -180_000int;
            let mm = 360_000 * x.d;
            let pre = 1000 * x.n - x0 * x.d;
            let nr = pre % mm + x0 * x.d;
            lemma_mod_bound(pre, mm);
            assert(seg_index_from(pts@, nr, x.d, 0) == 0) by {
                assert(nr < pts@[1].0 * x.d) by (nonlinear_arith)
                    requires
                        nr < 360_000 * x.d + (-180_000) * x.d,
                        pts@[1].0 == 180_000,
                        x.d >= 1;
            }
            let raw = Rat { n: sg.bias * x.d + sg.dy * nr, d: 1000 * sg.dx * x.d };
            let red = Rat { n: nr, d: 1000 * x.d };
            assert(spec_eval_hue(m, x) == rat_mod360(raw));
            lemma_mod360_cong(raw);
            assert(rat_eq(raw, red)) by {
                assert((0 * x.d + 360_000 * nr) * (1000 * x.d)
                    == nr * (1000 * 360_000 * x.d)) by (nonlinear_arith);
            }
            assert(rat_wf(raw) && rat_wf(red)) by {
                assert(1000 * 360_000 * x.d >= 1 && 1000 * x.d >= 1);
            }
            lemma_rat_eq_cong360(raw, red);
            lemma_window_reduce_cong(x, x0);
            lemma_cong360_trans(rat_mod360(raw), raw, red);
            lemma_cong360_trans(rat_mod360(raw), red, x);
        },
    }
}

/// The scan for the containing segment stops exactly at the segment whose
/// half-open interval holds `nr / xd`.
proof fn lemma_seg_index_hits(pts: Seq<(i64, i64)>, nr: int, xd: int, k: int, i: int)
    requires
        3 <= pts.len(),
        forall|a: int| 0 <= a < pts.len() - 1 ==> (#[trigger] pts[a]).0 < pts[a + 1].0,
        xd >= 1,
        0 <= k <= i <= pts.len() - 2,
        pts[i].0 * xd <= nr,
        i < pts.len() - 2 ==> nr < pts[i + 1].0 * xd,
    ensures
        seg_index_from(pts, nr, xd, k) == i,
    decreases i - k,
{
    if k < i {
        // the scan cannot stop before i: breakpoint k + 1 is not past nr
        assert(pts[k + 1].0 <= pts[i].0) by {
            if k + 1 < i {
                lemma_points_ascending(pts, k + 1, i);
            }
        }
        lemma_mul_mono(pts[k + 1].0 as int, pts[i].0 as int, xd);
        lemma_seg_index_hits(pts, nr, xd, k + 1, i);
    }
}

/// Strict ascent between neighbours gives strict ascent between any pair.
proof fn lemma_points_ascending(pts: Seq<(i64, i64)>, a: int, b: int)
    requires
        forall|t: int| 0 <= t < pts.len() - 1 ==> (#[trigger] pts[t]).0 < pts[t + 1].0,
        0 <= a < b < pts.len(),
    ensures
        pts[a].0 < pts[b].0,
    decreases b - a,
{
    if a + 1 < b {
        lemma_points_ascending(pts, a + 1, b);
    }
}

/// The piecewise map interpolates exactly through its control points: the
/// sample angle of every real control point (the synthetic wrap copies
/// left aside) maps to that point's target angle, modulo 360.
#[verifier::rlimit(60)]
pub proof fn lemma_piecewise_interpolates(pts: Seq<(i64, i64)>, segs: Seq<Seg>, i: int)
    requires
        piecewise_wf(pts, segs),
        1 <= i <= pts.len() - 2,
    ensures
        cong360(
            spec_eval_piecewise(pts, segs, Rat { n: pts[i].0 as int, d: 1000 }),
            Rat { n: pts[i].1 as int, d: 1000 },
        ),
{
    let x = Rat { n: pts[i].0 as int, d: 1000 };
    let x0 = pts[0].0 as int;
    let mm = 360_000 * x.d;
    let pre = 1000 * x.n - x0 * x.d;
    let nr = pre % mm + x0 * x.d;
    // every real sample angle lies in the window [pts[0], pts[0] + 360),
    // except the second-to-last point, which sits exactly one turn above
    // the first and so reduces onto it
    let j: int = if i < pts.len() - 2 {
        assert(pts[0].0 < pts[i].0) by {
            lemma_points_ascending(pts, 0, i);
        }
        assert(pts[i].0 < pts[pts.len() - 2].0) by {
            lemma_points_ascending(pts, i, pts.len() - 2);
        }
        lemma_mod_id(pre, mm);
        i
    } else {
        assert(pre == mm);
        lemma_mod_id(0, mm);
        lemma_mod_add_multiples_vanish(0, mm);
        0
    };
    assert(nr == (pts[j].0 as int) * 1000);
    assert(j < pts.len() - 2 ==> nr < pts[j + 1].0 * x.d) by {
        if j < pts.len() - 2 {
            assert(pts[j].0 < pts[j + 1].0);
        }
    }
    lemma_seg_index_hits(pts, nr, x.d, 0, j);
    let sg = segs[j];
    assert(seg_matches(pts, sg, j));
    let raw = Rat { n: sg.bias * x.d + sg.dy * nr, d: 1000 * sg.dx * x.d };
    assert(spec_eval_piecewise(pts, segs, x) == rat_mod360(raw));
    // on the segment's left endpoint the line passes through its target
    let yj = pts[j].1 as int;
    let yi = pts[i].1 as int;
    assert(rat_eq(raw, Rat { n: yj, d: 1000 })) by {
        assert((sg.bias * 1000 + sg.dy * ((pts[j].0 as int) * 1000)) * 1000
            == (pts[j].1 as int) * (1000 * sg.dx * 1000)) by (nonlinear_arith)
            requires
                sg.bias == pts[j].1 * sg.dx - sg.dy * pts[j].0;
    }
    assert(rat_wf(raw)) by {
        assert(1000 * sg.dx * x.d >= 1) by (nonlinear_arith)
            requires
                sg.dx >= 1,
                x.d == 1000;
    }
    lemma_mod360_cong(raw);
    lemma_rat_eq_cong360(raw, Rat { n: yj, d: 1000 });
    lemma_cong360_trans(rat_mod360(raw), raw, Rat { n: yj, d: 1000 });
    // and target j is target i up to one full turn: they are equal for an
    // interior point, one turn apart when the angle reduced onto the first
    let kk: int = if i < pts.len() - 2 { 0 } else { -1 };
    assert(yj * 1000 - yi * 1000 == 360 * kk * (1000 * 1000)) by {
        if i < pts.len() - 2 {
            assert(j == i && kk == 0);
        } else {
            assert(j == 0 && i == pts.len() - 2 && kk == -1);
            assert(pts[0].1 == pts[pts.len() - 2].1 - 360_000);
        }
    }
    assert(cong360_witness(Rat { n: yj, d: 1000 }, Rat { n: yi, d: 1000 }, kk));
    lemma_cong360_trans(rat_mod360(raw), Rat { n: yj, d: 1000 }, Rat { n: yi, d: 1000 });
}

} // verus!
