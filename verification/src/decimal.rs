//! Decimal amounts in millionths, and the rounding that division needs.
//!
//! Sums, differences, products and comparisons of amounts are exact. The only
//! operations that lose anything are division, which goes to the nearest
//! millionth with halves away from zero, and the square root, which goes down.
//! A quotient that is held against a threshold goes toward zero instead, so
//! that rounding never carries it across.

use vstd::arithmetic::div_mod::*;
use vstd::arithmetic::mul::*;
use vstd::prelude::*;

verus! {

/// Millionths in one unit.
pub const SCALE: i128 = 1_000_000;

/// A decimal amount with six places.
#[derive(Debug, Clone, Copy, PartialEq, Eq, Structural)]
pub struct Decimal {
    /// The amount, counted in millionths.
    pub micros: i128,
}

impl View for Decimal {
    type V = int;

    /// The amount, counted in millionths.
    open spec fn view(&self) -> int {
        self.micros as int
    }
}

impl Decimal {
    /// A whole number of units.
    pub fn whole(units: i64) -> (d: Decimal)
        ensures
            d@ == units * SCALE,
    {
        Decimal { micros: units as i128 * SCALE }
    }
}

/// The absolute value of an integer.
pub open spec fn magnitude(x: int) -> int {
    if x < 0 {
        -x
    } else {
        x
    }
}

/// `a / b` to the nearest integer, halves away from zero.
pub open spec fn nearest(a: int, b: int) -> int
    recommends
        b > 0,
{
    if a >= 0 {
        (2 * a + b) / (2 * b)
    } else {
        -((2 * (-a) + b) / (2 * b))
    }
}

/// The distance between `nearest(a, b)` and `a / b` is at most one half.
pub proof fn nearest_error(a: int, b: int)
    requires
        b > 0,
    ensures
        2 * magnitude(b * nearest(a, b) - a) <= b,
        a >= 0 ==> nearest(a, b) >= 0,
        a <= 0 ==> nearest(a, b) <= 0,
{
    let m = magnitude(a);
    let q = (2 * m + b) / (2 * b);
    lemma_fundamental_div_mod(2 * m + b, 2 * b);
    lemma_mod_bound(2 * m + b, 2 * b);
    lemma_div_pos_is_pos(2 * m + b, 2 * b);
    assert(2 * b * q == 2 * (b * q)) by (nonlinear_arith);
    assert(b * (-q) == -(b * q)) by (nonlinear_arith);
    if a == 0 {
        lemma_basic_div(b, 2 * b);
    }
}

/// `nearest` keeps order.
pub proof fn nearest_monotone(a1: int, a2: int, b: int)
    requires
        b > 0,
        a1 <= a2,
    ensures
        nearest(a1, b) <= nearest(a2, b),
{
    nearest_error(a1, b);
    nearest_error(a2, b);
    if a1 >= 0 {
        lemma_div_is_ordered(2 * a1 + b, 2 * a2 + b, 2 * b);
    } else if a2 < 0 {
        lemma_div_is_ordered(2 * (-a2) + b, 2 * (-a1) + b, 2 * b);
    }
}

/// An exact multiple needs no rounding.
pub proof fn nearest_exact(k: int, b: int)
    requires
        b > 0,
    ensures
        nearest(b * k, b) == k,
{
    let q = nearest(b * k, b);
    nearest_error(b * k, b);
    assert(b * q - b * k == b * (q - k)) by (nonlinear_arith);
    assert(b * (q - k) == -(b * (k - q))) by (nonlinear_arith);
    assert(q == k) by (nonlinear_arith)
        requires
            b > 0,
            2 * (b * (q - k)) <= b,
            2 * (b * (k - q)) <= b,
    ;
}

/// A quotient between two integers stays between them when rounded.
pub proof fn nearest_between(a: int, b: int, lo: int, hi: int)
    requires
        b > 0,
        b * lo <= a <= b * hi,
    ensures
        lo <= nearest(a, b) <= hi,
{
    nearest_exact(lo, b);
    nearest_exact(hi, b);
    nearest_monotone(b * lo, a, b);
    nearest_monotone(a, b * hi, b);
}

/// The magnitude of `a`.
pub fn unsigned(a: i128) -> (m: u128)
    ensures
        m == magnitude(a as int),
{
    if a < 0 {
        (-(a + 1)) as u128 + 1
    } else {
        a as u128
    }
}

/// `a / b` to the nearest integer, halves away from zero.
pub fn divide_nearest(a: i128, b: i128) -> (q: i128)
    requires
        b > 0,
        a > i128::MIN,
    ensures
        q == nearest(a as int, b as int),
{
    let m: u128 = unsigned(a);
    let d: u128 = b as u128;
    let whole: u128 = m / d;
    let rest: u128 = m % d;
    proof {
        lemma_fundamental_div_mod(m as int, d as int);
        lemma_mod_bound(m as int, d as int);
        lemma_div_is_ordered_by_denominator(m as int, 1, d as int);
        lemma_div_basics(m as int);
        let doubled = 2 * m + d;
        assert(m == d * whole + rest);
        assert(2 * d * whole == 2 * (d * whole)) by (nonlinear_arith);
        if rest >= d - rest {
            assert(2 * d * (whole + 1) == 2 * (d * whole) + 2 * d) by (nonlinear_arith);
            lemma_fundamental_div_mod_converse(doubled, 2 * d, whole + 1, 2 * rest - d);
            assert(whole < m) by (nonlinear_arith)
                requires
                    m == d * whole + rest,
                    rest < d,
                    rest >= d - rest,
                    d > 0,
                    whole >= 0,
            ;
        } else {
            assert(doubled == whole * (2 * d) + (2 * rest + d)) by (nonlinear_arith)
                requires
                    doubled == 2 * m + d,
                    m == d * whole + rest,
            ;
            lemma_fundamental_div_mod_converse(doubled, 2 * d, whole as int, 2 * rest + d);
        }
    }
    let q: u128 = if rest >= d - rest {
        whole + 1
    } else {
        whole
    };
    if a < 0 {
        -(q as i128)
    } else {
        q as i128
    }
}

/// `a / b`, cut toward zero.
pub open spec fn toward_zero(a: int, b: int) -> int
    recommends
        b != 0,
{
    let q = magnitude(a) / magnitude(b);
    if (a < 0) != (b < 0) {
        -q
    } else {
        q
    }
}

/// A quotient that is cut toward zero reaches a threshold exactly when the
/// quotient itself does.
pub proof fn threshold_is_exact(a: int, b: int, threshold: int)
    requires
        b != 0,
        threshold > 0,
    ensures
        magnitude(toward_zero(a, b)) >= threshold <==> magnitude(a) >= threshold * magnitude(b),
        magnitude(toward_zero(a, b)) <= magnitude(a),
{
    let m = magnitude(a);
    let d = magnitude(b);
    let q = m / d;
    lemma_fundamental_div_mod(m, d);
    lemma_mod_bound(m, d);
    lemma_div_pos_is_pos(m, d);
    let rest = m % d;
    assert(q >= threshold <==> m >= threshold * d) by (nonlinear_arith)
        requires
            m == d * q + rest,
            0 <= rest < d,
    ;
    assert(q <= m) by (nonlinear_arith)
        requires
            m == d * q + rest,
            0 <= rest < d,
            q >= 0,
    ;
}

/// `a / b`, cut toward zero.
pub fn divide_toward_zero(a: i128, b: i128) -> (q: i128)
    requires
        b != 0,
        a > i128::MIN,
    ensures
        q == toward_zero(a as int, b as int),
        q > i128::MIN,
{
    proof {
        threshold_is_exact(a as int, b as int, 1);
        lemma_div_pos_is_pos(magnitude(a as int), magnitude(b as int));
    }
    let q: i128 = (unsigned(a) / unsigned(b)) as i128;
    if (a < 0) != (b < 0) {
        -q
    } else {
        q
    }
}

/// The largest integer whose square does not exceed `x`.
pub open spec fn is_floor_root(x: int, r: int) -> bool {
    &&& r >= 0
    &&& r * r <= x < (r + 1) * (r + 1)
}

/// There is only one such integer.
pub proof fn floor_root_unique(x: int, r: int, s: int)
    requires
        is_floor_root(x, r),
        is_floor_root(x, s),
    ensures
        r == s,
{
    assert(r < s + 1) by (nonlinear_arith)
        requires
            r >= 0,
            s >= 0,
            r * r < (s + 1) * (s + 1),
    ;
    assert(s < r + 1) by (nonlinear_arith)
        requires
            r >= 0,
            s >= 0,
            s * s < (r + 1) * (r + 1),
    ;
}

/// A rounded quotient is the integer nearest to the quotient, and of two equally
/// near the one further from zero.
pub proof fn rounding_is_to_the_nearest(a: i128, b: i128, q: i128)
    requires
        call_ensures(divide_nearest, (a, b), q),
        b > 0,
    ensures
        -b <= 2 * (b * q - a) <= b,
        2 * (b * q - a) == b ==> a >= 0,
        2 * (b * q - a) == -b ==> a <= 0,
{
    nearest_error(a as int, b as int);
    let x = a as int;
    let m = magnitude(x);
    let d = b as int;
    let n = (2 * m + d) / (2 * d);
    lemma_fundamental_div_mod(2 * m + d, 2 * d);
    lemma_mod_bound(2 * m + d, 2 * d);
    assert(2 * d * n == 2 * (d * n)) by (nonlinear_arith);
    assert(d * (-n) == -(d * n)) by (nonlinear_arith);
}

/// A quotient cut toward zero has the sign of the quotient, is no larger than it,
/// and falls short of it by less than one.
pub proof fn cutting_is_toward_zero(a: i128, b: i128, q: i128)
    requires
        call_ensures(divide_toward_zero, (a, b), q),
        b != 0,
    ensures
        ({
            let m = if a < 0 {
                -a
            } else {
                a as int
            };
            let d = if b < 0 {
                -b
            } else {
                b as int
            };
            let size = if q < 0 {
                -q
            } else {
                q as int
            };
            &&& size * d <= m < (size + 1) * d
            &&& q > 0 ==> (a < 0) == (b < 0)
            &&& q < 0 ==> (a < 0) != (b < 0)
        }),
{
    let m = magnitude(a as int);
    let d = magnitude(b as int);
    lemma_fundamental_div_mod(m, d);
    lemma_mod_bound(m, d);
    lemma_div_pos_is_pos(m, d);
    let n = m / d;
    let rest = m % d;
    assert(n * d <= m < (n + 1) * d) by (nonlinear_arith)
        requires
            m == d * n + rest,
            0 <= rest < d,
    ;
}

/// A size is the number without its sign.
pub proof fn sizes_have_no_sign(a: i128, m: u128)
    requires
        call_ensures(unsigned, (a,), m),
    ensures
        m == a || m == -a,
{
}

/// Whole units are that many millions of millionths.
pub proof fn whole_units(units: i64, d: Decimal)
    requires
        call_ensures(Decimal::whole, (units,), d),
    ensures
        d@ == 1_000_000 * units,
{
}

} // verus!
