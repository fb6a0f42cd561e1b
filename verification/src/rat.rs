//! Exact rational angles.
//!
//! A hue angle is a rational number of degrees, held as an integer
//! numerator/denominator pair. `Frac` is the executable carrier; its
//! mathematical view is the ghost pair `Rat`. Congruence modulo 360 degrees
//! (`cong360`) is the equality of the circular domain.

use vstd::prelude::*;
use vstd::arithmetic::div_mod::{
    lemma_fundamental_div_mod, lemma_fundamental_div_mod_converse_mod, lemma_mod_bound,
};

verus! {

/// A rational value `n / d`; mathematical (ghost) form.
pub struct Rat {
    pub n: int,
    pub d: int,
}

/// A rational value `num / den`; executable form. Well-formed when `den >= 1`.
#[derive(Clone, Copy, Debug)]
pub struct Frac {
    pub num: i128,
    pub den: i128,
}

impl View for Frac {
    type V = Rat;

    open spec fn view(&self) -> Rat {
        Rat { n: self.num as int, d: self.den as int }
    }
}

pub open spec fn rat_wf(a: Rat) -> bool {
    a.d >= 1
}

/// `a == b` as rationals, by cross multiplication (denominators positive).
pub open spec fn rat_eq(a: Rat, b: Rat) -> bool {
    a.n * b.d == b.n * a.d
}

/// `a + k` for an integer `k`.
pub open spec fn rat_add_int(a: Rat, k: int) -> Rat {
    Rat { n: a.n + k * a.d, d: a.d }
}

/// `a - b` as rationals.
pub open spec fn rat_sub(a: Rat, b: Rat) -> Rat {
    Rat { n: a.n * b.d - b.n * a.d, d: a.d * b.d }
}

/// The representative of `a` in `[0, 360)`: numerator reduced into
/// `[0, 360 * d)` by the Euclidean remainder.
pub open spec fn rat_mod360(a: Rat) -> Rat {
    Rat { n: a.n % (360 * a.d), d: a.d }
}

/// `a` lies in `[0, 360)`.
pub open spec fn rat_normalized(a: Rat) -> bool {
    0 <= a.n < 360 * a.d
}

/// The cross-multiplied difference of `a` and `b` is the multiple `k` of 360.
pub open spec fn cong360_witness(a: Rat, b: Rat, k: int) -> bool {
    a.n * b.d - b.n * a.d == 360 * k * (a.d * b.d)
}

/// `a` and `b` differ by an integer multiple of 360: the two angles are the
/// same point of the circular domain.
pub open spec fn cong360(a: Rat, b: Rat) -> bool {
    exists|k: int| cong360_witness(a, b, k)
}

pub proof fn lemma_rat_eq_cong360(a: Rat, b: Rat)
    requires
        rat_wf(a),
        rat_wf(b),
        rat_eq(a, b),
    ensures
        cong360(a, b),
{
    assert(a.n * b.d - b.n * a.d == 360 * 0 * (a.d * b.d)) by (nonlinear_arith)
        requires a.n * b.d == b.n * a.d;
    assert(cong360_witness(a, b, 0));
}

pub proof fn lemma_cong360_trans(a: Rat, b: Rat, c: Rat)
    requires
        rat_wf(a),
        rat_wf(b),
        rat_wf(c),
        cong360(a, b),
        cong360(b, c),
    ensures
        cong360(a, c),
{
    let k1 = choose|k: int| cong360_witness(a, b, k);
    let k2 = choose|k: int| cong360_witness(b, c, k);
    let kk = k1 + k2;
    // Pure ring identity, no hypotheses needed.
    assert((a.n * b.d - b.n * a.d) * c.d + (b.n * c.d - c.n * b.d) * a.d
        == (a.n * c.d - c.n * a.d) * b.d) by (nonlinear_arith);
    assert((360 * k1 * (a.d * b.d)) * c.d == 360 * k1 * (a.d * (b.d * c.d)))
        by (nonlinear_arith);
    assert((360 * k2 * (b.d * c.d)) * a.d == 360 * k2 * (a.d * (b.d * c.d)))
        by (nonlinear_arith);
    assert(360 * k1 * (a.d * (b.d * c.d)) + 360 * k2 * (a.d * (b.d * c.d))
        == 360 * (k1 + k2) * (a.d * (b.d * c.d))) by (nonlinear_arith);
    assert((360 * (k1 + k2)) * (a.d * c.d) * b.d == 360 * (k1 + k2) * (a.d * (b.d * c.d)))
        by (nonlinear_arith);
    assert((a.n * c.d - c.n * a.d) * b.d == (360 * kk) * (a.d * c.d) * b.d) by (nonlinear_arith)
        requires
            (a.n * b.d - b.n * a.d) * c.d + (b.n * c.d - c.n * b.d) * a.d
                == (a.n * c.d - c.n * a.d) * b.d,
            (360 * k1 * (a.d * b.d)) * c.d + (360 * k2 * (b.d * c.d)) * a.d
                == (360 * kk) * (a.d * c.d) * b.d,
            a.n * b.d - b.n * a.d == 360 * k1 * (a.d * b.d),
            b.n * c.d - c.n * b.d == 360 * k2 * (b.d * c.d);
    assert(a.n * c.d - c.n * a.d == 360 * kk * (a.d * c.d)) by (nonlinear_arith)
        requires
            (a.n * c.d - c.n * a.d) * b.d == (360 * kk) * (a.d * c.d) * b.d,
            b.d >= 1;
    assert(cong360_witness(a, c, kk));
}

/// Reducing modulo 360 keeps the angle on the circle and lands in `[0, 360)`.
pub proof fn lemma_mod360_cong(a: Rat)
    requires
        rat_wf(a),
    ensures
        rat_wf(rat_mod360(a)),
        rat_normalized(rat_mod360(a)),
        cong360(rat_mod360(a), a),
{
    let m = 360 * a.d;
    lemma_mod_bound(a.n, m);
    lemma_fundamental_div_mod(a.n, m);
    let q = a.n / m;
    // a.n % m - a.n == -q * (360 * a.d)
    assert((a.n % m) * a.d - a.n * a.d == 360 * (-q) * (a.d * a.d)) by (nonlinear_arith)
        requires
            a.n == (360 * a.d) * q + a.n % (360 * a.d),
            m == 360 * a.d;
    assert(cong360_witness(rat_mod360(a), a, -q));
}

/// Congruence is preserved by subtracting from a fixed angle.
pub proof fn lemma_cong360_sub_right(c: Rat, a: Rat, b: Rat)
    requires
        rat_wf(c),
        rat_wf(a),
        rat_wf(b),
        cong360(a, b),
    ensures
        cong360(rat_sub(c, a), rat_sub(c, b)),
{
    let k = choose|k: int| cong360_witness(a, b, k);
    assert((c.n * a.d - a.n * c.d) * (c.d * b.d)
        == c.n * a.d * (c.d * b.d) - a.n * c.d * (c.d * b.d)) by (nonlinear_arith);
    assert((c.n * b.d - b.n * c.d) * (c.d * a.d)
        == c.n * b.d * (c.d * a.d) - b.n * c.d * (c.d * a.d)) by (nonlinear_arith);
    assert(c.n * a.d * (c.d * b.d) == c.n * b.d * (c.d * a.d)) by (nonlinear_arith);
    assert(a.n * c.d * (c.d * b.d) == (c.d * c.d) * (a.n * b.d)) by (nonlinear_arith);
    assert(b.n * c.d * (c.d * a.d) == (c.d * c.d) * (b.n * a.d)) by (nonlinear_arith);
    assert((c.d * c.d) * (b.n * a.d) - (c.d * c.d) * (a.n * b.d)
        == 360 * (-k) * ((c.d * a.d) * (c.d * b.d))) by (nonlinear_arith)
        requires
            a.n * b.d - b.n * a.d == 360 * k * (a.d * b.d);
    assert(cong360_witness(rat_sub(c, a), rat_sub(c, b), -k));
}

/// A value already in `[0, m)` is its own remainder.
pub proof fn lemma_mod_id(raw: int, m: int)
    requires
        0 <= raw < m,
    ensures
        raw % m == raw,
{
    lemma_fundamental_div_mod_converse_mod(raw, m, 0, raw);
}

/// A value in `[-m, 0)` wraps up by one period.
pub proof fn lemma_mod_wrap(raw: int, m: int)
    requires
        -m <= raw < 0,
    ensures
        raw % m == raw + m,
{
    lemma_fundamental_div_mod_converse_mod(raw, m, -1, raw + m);
}

/// Euclidean remainder `n mod m`, for `m >= 1`: the result is in `[0, m)`.
pub fn mod_euclid(n: i128, m: i128) -> (r: i128)
    requires
        1 <= m,
    ensures
        r == n as int % m as int,
        0 <= r < m,
{
    proof {
        lemma_mod_bound(n as int, m as int);
    }
    if n >= 0 {
        ((n as u128) % (m as u128)) as i128
    } else {
        // For n < 0, with k = -(n + 1) >= 0:  n mod m == m - 1 - (k mod m).
        let k = -(n + 1);
        let t = ((k as u128) % (m as u128)) as i128;
        proof {
            lemma_fundamental_div_mod(k as int, m as int);
            lemma_mod_bound(k as int, m as int);
            let q = k as int / m as int;
            assert(n == m * (-q - 1) + (m - 1 - t)) by (nonlinear_arith)
                requires
                    k == m * q + t,
                    n == -(k + 1int),
                    m >= 1;
            lemma_fundamental_div_mod_converse_mod(n as int, m as int, -q - 1, m as int - 1 - t);
        }
        m - 1 - t
    }
}

/// Floor division of a nonnegative numerator by a positive denominator.
pub fn div_floor_nonneg(n: i128, d: i128) -> (q: i128)
    requires
        0 <= n,
        1 <= d,
    ensures
        q == n as int / d as int,
        0 <= q <= n,
{
    let q = ((n as u128) / (d as u128)) as i128;
    proof {
        lemma_fundamental_div_mod(n as int, d as int);
        lemma_mod_bound(n as int, d as int);
        let qq = n as int / d as int;
        assert(0 <= qq <= n) by (nonlinear_arith)
            requires
                n == d * qq + n as int % d as int,
                0 <= (n as int % d as int) < d,
                0 <= n,
                1 <= d;
    }
    q
}

/// Bounds of a product of nonnegative bounded factors.
pub proof fn lemma_mul_bounds(x: int, y: int, xb: int, yb: int) by (nonlinear_arith)
    requires
        0 <= x <= xb,
        0 <= y <= yb,
    ensures
        0 <= x * y <= xb * yb,
{
}

/// Bounds of a product of positive bounded factors.
pub proof fn lemma_mul_bounds_pos(x: int, y: int, xb: int, yb: int) by (nonlinear_arith)
    requires
        1 <= x <= xb,
        1 <= y <= yb,
    ensures
        1 <= x * y <= xb * yb,
{
}

/// Bound of a product from bounds on the factors' magnitudes.
pub proof fn lemma_mul_abs_bound(x: int, y: int, xb: int, yb: int) by (nonlinear_arith)
    requires
        -xb <= x <= xb,
        -yb <= y <= yb,
        0 <= xb,
        0 <= yb,
    ensures
        -(xb * yb) <= x * y <= xb * yb,
{
}

/// Multiplying both sides of an inequality by a nonnegative factor.
pub proof fn lemma_mul_mono(x: int, y: int, z: int) by (nonlinear_arith)
    requires
        x <= y,
        0 <= z,
    ensures
        x * z <= y * z,
{
}

} // verus!
