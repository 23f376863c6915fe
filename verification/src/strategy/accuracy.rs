//! How close the indicators come to their defining formulas over the reals.
//!
//! The formulas are stated here over exact real numbers of millionths; each
//! law bounds the distance of the computed value from its formula.
//!
//! Every proof runs in a solver of its own: products of reals that linger from
//! one proof slow the next.

use crate::decimal::{is_floor_root, magnitude, nearest, nearest_error, Decimal, SCALE};
use crate::strategy::candles::Candle;
use crate::strategy::indicators::{
    amounts, bar_prices, bar_spread, bar_weights, ema_micros, ema_scale, ema_scale_step, ema_sum,
    gains, is_distance, losses, mean, mean_square, moment, price_total, slope_micros, smoothed,
    smoothed_bounds, smoothed_scale, smoothed_scale_step, spread_total, squares, strength,
    strength_of, total, total_volume, true_ranges, variance, vwap_micros, weight, weight_sum,
    weight_sum_value, wilder_micros,
};
use crate::strategy::regime::was_calmer;
use vstd::prelude::*;

verus! {

/// The mean of samples.
pub open spec fn real_mean(s: Seq<Decimal>) -> real {
    (total(s) as real) / (s.len() as real)
}

/// `EMA' = a*P + (1-a)*EMA` with `a = 2/(n+1)`, seeded with the mean of the
/// first `n` samples.
#[verifier::opaque]
pub open spec fn real_ema(s: Seq<Decimal>, n: int) -> real
    decreases s.len(),
{
    let a = (2 as real) / ((n + 1) as real);
    if s.len() <= n || s.len() == 0 {
        real_mean(s)
    } else {
        a * (s.last()@ as real) + ((1 as real) - a) * real_ema(s.drop_last(), n)
    }
}

/// The rounded quotient lies within one half of the quotient.
#[verifier::spinoff_prover]
pub proof fn nearest_accuracy(a: int, b: int)
    requires
        b > 0,
    ensures
        -1 as real <= (2 as real) * ((nearest(a, b) as real) - (a as real) / (b as real))
            <= 1 as real,
{
    nearest_error(a, b);
    let q = nearest(a, b) as real;
    let x = a as real;
    let y = b as real;
    let r = x / y;
    assert((b * nearest(a, b)) as real == y * q) by (nonlinear_arith)
        requires
            y == b as real,
            q == nearest(a, b) as real,
    ;
    assert(y * r == x) by (nonlinear_arith)
        requires
            y > 0 as real,
            r == x / y,
    ;
    assert(-1 as real <= (2 as real) * (q - r) <= 1 as real) by (nonlinear_arith)
        requires
            y > 0 as real,
            y * r == x,
            -y <= (2 as real) * (y * q - x) <= y,
    ;
}

/// A mean lies within half a millionth of its formula.
#[verifier::spinoff_prover]
pub proof fn mean_accuracy(s: Seq<Decimal>)
    requires
        s.len() > 0,
    ensures
        -1 as real <= (2 as real) * ((mean(s) as real) - real_mean(s)) <= 1 as real,
{
    nearest_accuracy(total(s), s.len() as int);
}

/// `100 - 100/(1 + G/L)` in millionths, for an average gain `G` and an average
/// loss `L`: 100 without losses, 50 without any move.
#[verifier::opaque]
pub open spec fn real_strength(gain: real, loss: real) -> real {
    let full = (100 * SCALE) as real;
    if loss == 0 as real {
        if gain > 0 as real {
            full
        } else {
            full / (2 as real)
        }
    } else {
        full - full / ((1 as real) + gain / loss)
    }
}

/// `W' = (W*(n-1) + x)/n` over moves, seeded with the mean of the first `n`.
#[verifier::opaque]
pub open spec fn real_smoothed(moves: Seq<int>, n: int) -> real
    decreases moves.len(),
{
    if moves.len() == 0 {
        0 as real
    } else if moves.len() <= n {
        real_smoothed(moves.drop_last(), n) + (moves.last() as real) / (n as real)
    } else {
        (real_smoothed(moves.drop_last(), n) * ((n - 1) as real) + (moves.last() as real)) / (
        n as real)
    }
}

/// A quotient undone.
#[verifier::spinoff_prover]
proof fn undo_division(x: real, n: real)
    requires
        n > 0 as real,
    ensures
        (x / n) * n == x,
{
    let q = x / n;
    assert(q * n == x) by (nonlinear_arith)
        requires
            n > 0 as real,
            q == x / n,
    ;
}

/// One step of the average at the common scale `p`, and at the next.
#[verifier::spinoff_prover]
proof fn scaled_step(kept: real, x: real, n: real, p: real, next: real, whole: real)
    requires
        n > 0 as real,
        kept * p == whole,
        next == n * p,
    ensures
        ((kept * (n - (1 as real)) + x) / n) * next == (n - (1 as real)) * whole + p * x,
{
    let top = kept * (n - (1 as real)) + x;
    let r = top / n;
    undo_division(top, n);
    assert(r * next == (r * n) * p) by (nonlinear_arith)
        requires
            next == n * p,
    ;
    let k = n - (1 as real);
    assert(top * p == k * (kept * p) + p * x) by (nonlinear_arith)
        requires
            top == kept * k + x,
    ;
}

/// The product of two integers, over the reals.
#[verifier::spinoff_prover]
proof fn product_as_real(a: int, b: int)
    ensures
        (a * b) as real == (a as real) * (b as real),
{
    let x = a as real;
    let y = b as real;
    assert((a * b) as real == x * y) by (nonlinear_arith)
        requires
            x == a as real,
            y == b as real,
    ;
}

/// One step of the average at the common scale `p`, over integers.
#[verifier::spinoff_prover]
proof fn whole_step(kept: real, n: int, p: int, next: int, whole: int, m: int, after: int)
    requires
        n > 0,
        kept * (p as real) == whole as real,
        next == n * p,
        after == (n - 1) * whole + p * m,
    ensures
        ((kept * ((n - 1) as real) + (m as real)) / (n as real)) * (next as real) == after as real,
{
    product_as_real(n, p);
    product_as_real(n - 1, whole);
    product_as_real(p, m);
    scaled_step(kept, m as real, n as real, p as real, next as real, whole as real);
}

/// One more share of a mean, over integers.
#[verifier::spinoff_prover]
proof fn share_step(kept: real, n: int, whole: int, m: int)
    requires
        n > 0,
        kept * (n as real) == whole as real,
    ensures
        (kept + (m as real) / (n as real)) * (n as real) == (whole + m) as real,
{
    let nr = n as real;
    let share = (m as real) / nr;
    undo_division(m as real, nr);
    assert((kept + share) * nr == kept * nr + share * nr) by (nonlinear_arith);
}

/// An average after one more move `m`.
#[verifier::opaque]
spec fn next_average(kept: real, seeding: bool, n: int, m: int) -> real {
    if seeding {
        kept + (m as real) / (n as real)
    } else {
        (kept * ((n - 1) as real) + (m as real)) / (n as real)
    }
}

/// A real number at an integer scale.
#[verifier::opaque]
spec fn scaled(x: real, scale: int) -> real {
    x * (scale as real)
}

/// What one more move makes of an average.
#[verifier::spinoff_prover]
proof fn real_smoothed_step(moves: Seq<int>, n: int)
    ensures
        moves.len() == 0 ==> real_smoothed(moves, n) == 0 as real,
        moves.len() > 0 ==> real_smoothed(moves, n) == next_average(
            real_smoothed(moves.drop_last(), n),
            moves.len() <= n,
            n,
            moves.last(),
        ),
{
    reveal_with_fuel(real_smoothed, 1);
    reveal(next_average);
}

/// What one more move makes of the whole number behind an average, and of its
/// scale.
#[verifier::spinoff_prover]
proof fn smoothed_step(moves: Seq<int>, n: int, p: int, next: int, held: int, whole: int)
    requires
        n > 0,
        moves.len() > 0,
        p == smoothed_scale((moves.len() - 1) as nat, n),
        next == smoothed_scale(moves.len(), n),
        held == smoothed(moves.drop_last(), n),
        whole == smoothed(moves, n),
    ensures
        moves.len() <= n ==> p == n && next == n && whole == held + moves.last(),
        moves.len() > n ==> next == n * p && whole == (n - 1) * held + p * moves.last(),
{
    smoothed_scale_step((moves.len() - 1) as nat, n);
    smoothed_scale_step(moves.len(), n);
}

/// The first moves of an average, at their scale.
#[verifier::spinoff_prover]
proof fn seeding_step(kept: real, n: int, m: int, held: int)
    requires
        n > 0,
        scaled(kept, n) == held as real,
    ensures
        scaled(next_average(kept, true, n, m), n) == (held + m) as real,
{
    reveal(next_average);
    reveal(scaled);
    share_step(kept, n, held, m);
}

/// One step of an average, at the scale of the moves so far and at the next.
#[verifier::spinoff_prover]
proof fn smoothing_step(kept: real, n: int, m: int, p: int, next: int, held: int, whole: int)
    requires
        n > 0,
        scaled(kept, p) == held as real,
        next == n * p,
        whole == (n - 1) * held + p * m,
    ensures
        scaled(next_average(kept, false, n, m), next) == whole as real,
{
    reveal(next_average);
    reveal(scaled);
    whole_step(kept, n, p, next, held, m, whole);
}

/// The whole number behind a smoothed average is the average times its scale.
#[verifier::spinoff_prover]
proof fn smoothed_value(moves: Seq<int>, n: int, c: int, whole: int)
    requires
        n > 0,
        c == smoothed_scale(moves.len(), n),
        whole == smoothed(moves, n),
    ensures
        scaled(real_smoothed(moves, n), c) == whole as real,
    decreases moves.len(),
{
    real_smoothed_step(moves, n);
    if moves.len() == 0 {
        scaled_zero(c);
    } else {
        let rest = moves.drop_last();
        let p = smoothed_scale(rest.len(), n);
        let held = smoothed(rest, n);
        smoothed_value(rest, n, p, held);
        smoothed_step(moves, n, p, c, held, whole);
        if moves.len() <= n {
            seeding_step(real_smoothed(rest, n), n, moves.last(), held);
        } else {
            smoothing_step(real_smoothed(rest, n), n, moves.last(), p, c, held, whole);
        }
    }
}

/// Zero at any scale.
#[verifier::spinoff_prover]
proof fn scaled_zero(c: int)
    ensures
        scaled(0 as real, c) == 0 as real,
{
    reveal(scaled);
    let cr = c as real;
    assert((0 as real) * cr == 0 as real) by (nonlinear_arith);
}

/// What one more sample makes of an exponential moving average.
#[verifier::spinoff_prover]
proof fn real_ema_step(s: Seq<Decimal>, n: int)
    requires
        0 < n <= s.len(),
    ensures
        s.len() == n ==> real_ema(s, n) == real_mean(s),
        s.len() > n ==> real_ema(s, n) == ((2 as real) / ((n + 1) as real)) * (s.last()@ as real)
            + ((1 as real) - (2 as real) / ((n + 1) as real)) * real_ema(s.drop_last(), n),
{
    reveal_with_fuel(real_ema, 1);
}

/// One step of an exponential moving average at the scale `d`, and at the next.
#[verifier::spinoff_prover]
proof fn weighted_step(kept: real, x: real, y: real, d: real, next: real, whole: real)
    requires
        y > 0 as real,
        kept * d == whole,
        next == d * y,
    ensures
        (((2 as real) / y) * x + ((1 as real) - (2 as real) / y) * kept) * next == (y - (2 as real))
            * whole + (2 as real) * (d * x),
{
    let a = (2 as real) / y;
    let r = a * x + ((1 as real) - a) * kept;
    undo_division(2 as real, y);
    assert(r * y == (a * y) * x + (y - a * y) * kept) by (nonlinear_arith)
        requires
            r == a * x + ((1 as real) - a) * kept,
    ;
    let k = y - (2 as real);
    let top = (2 as real) * x + k * kept;
    assert(r * next == (r * y) * d) by (nonlinear_arith)
        requires
            next == d * y,
    ;
    assert(top * d == k * (kept * d) + (2 as real) * (d * x)) by (nonlinear_arith)
        requires
            top == (2 as real) * x + k * kept,
    ;
}

/// A sum of up to `n` samples is their total.
#[verifier::spinoff_prover]
proof fn seed_value(s: Seq<Decimal>, n: int)
    requires
        s.len() <= n,
    ensures
        ema_sum(s, n) == total(s),
    decreases s.len(),
{
    if s.len() > 0 {
        seed_value(s.drop_last(), n);
    }
}

/// The whole number behind an exponential moving average is the average times
/// its scale.
#[verifier::spinoff_prover]
proof fn ema_value(s: Seq<Decimal>, n: int)
    requires
        0 < n <= s.len(),
    ensures
        ema_scale(s.len(), n) > 0,
        real_ema(s, n) * (ema_scale(s.len(), n) as real) == ema_sum(s, n) as real,
    decreases s.len(),
{
    real_ema_step(s, n);
    ema_scale_step(s.len(), n);
    if s.len() == n {
        seed_value(s, n);
        undo_division(total(s) as real, n as real);
    } else {
        let rest = s.drop_last();
        ema_value(rest, n);
        ema_scale_step(rest.len(), n);
        let d = ema_scale(rest.len(), n);
        let next = ema_scale(s.len(), n);
        let held = ema_sum(rest, n);
        let x = s.last()@;
        product_as_real(d, n + 1);
        product_as_real(n - 1, held);
        product_as_real(d, x);
        weighted_step(
            real_ema(rest, n),
            x as real,
            (n + 1) as real,
            d as real,
            next as real,
            held as real,
        );
    }
}

/// A rounded quotient against the exact one.
#[verifier::spinoff_prover]
proof fn rounded_once(whole: int, scale: int, exact: real)
    requires
        scale > 0,
        exact * (scale as real) == whole as real,
    ensures
        -1 as real <= (2 as real) * ((nearest(whole, scale) as real) - exact) <= 1 as real,
{
    nearest_accuracy(whole, scale);
    let k = scale as real;
    let t = whole as real;
    assert(k * exact == t) by (nonlinear_arith)
        requires
            exact * k == t,
    ;
    factor_is_quotient(k, exact, t);
}

/// An exponential moving average lies within half a millionth of its formula,
/// however long the series.
#[verifier::spinoff_prover]
pub proof fn ema_accuracy(s: Seq<Decimal>, n: int)
    requires
        0 < n <= s.len(),
    ensures
        -1 as real <= (2 as real) * ((ema_micros(s, n) as real) - real_ema(s, n)) <= 1 as real,
{
    ema_value(s, n);
    rounded_once(ema_sum(s, n), ema_scale(s.len(), n), real_ema(s, n));
}

/// A Wilder average lies within half a millionth of its formula, however long
/// the series.
#[verifier::spinoff_prover]
pub proof fn wilder_accuracy(s: Seq<Decimal>, n: int)
    requires
        0 < n <= s.len(),
    ensures
        -1 as real <= (2 as real) * ((wilder_micros(s, n) as real) - real_smoothed(amounts(s), n))
            <= 1 as real,
{
    let moves = amounts(s);
    smoothed_scale_step(s.len(), n);
    smoothed_value(moves, n, smoothed_scale(s.len(), n), smoothed(moves, n));
    reveal(scaled);
    rounded_once(smoothed(moves, n), smoothed_scale(s.len(), n), real_smoothed(moves, n));
}

/// Two quotients compare as their cross products do.
#[verifier::spinoff_prover]
proof fn cross_products(a: real, p: real, b: real, q: real)
    requires
        p > 0 as real,
        q > 0 as real,
    ensures
        (a * p) * q < (b * q) * p <==> a < b,
{
    let pq = p * q;
    assert(pq > 0 as real) by (nonlinear_arith)
        requires
            p > 0 as real,
            q > 0 as real,
            pq == p * q,
    ;
    assert((a * p) * q == pq * a) by (nonlinear_arith)
        requires
            pq == p * q,
    ;
    assert((b * q) * p == pq * b) by (nonlinear_arith)
        requires
            pq == p * q,
    ;
    cancel_factor(pq, a, b);
    cancel_factor(pq, b, a);
}

/// Two whole numbers at their scales compare as the averages behind them do.
#[verifier::spinoff_prover]
proof fn scaled_order(a: real, p: int, whole: int, b: real, q: int, other: int)
    requires
        p > 0,
        q > 0,
        scaled(a, p) == whole as real,
        scaled(b, q) == other as real,
    ensures
        whole * q < other * p <==> a < b,
{
    reveal(scaled);
    product_as_real(whole, q);
    product_as_real(other, p);
    cross_products(a, p as real, b, q as real);
}

/// A window counts as calmer exactly when its ATR, by the formula, lies below
/// the current one: no rounding decides.
#[verifier::spinoff_prover]
pub proof fn calmer_is_exact(bars: Seq<Candle>, period: int, k: int)
    requires
        0 < period,
        0 <= k,
        k + period + 1 <= bars.len(),
    ensures
        ({
            let then = amounts(true_ranges(bars.subrange(k, k + period + 1)));
            let now = amounts(true_ranges(bars));
            was_calmer(bars, period, k) <==> real_smoothed(then, period) < real_smoothed(
                now,
                period,
            )
        }),
{
    let then = amounts(true_ranges(bars.subrange(k, k + period + 1)));
    let now = amounts(true_ranges(bars));
    let p = smoothed_scale(then.len(), period);
    let q = smoothed_scale(now.len(), period);
    smoothed_scale_step(then.len(), period);
    smoothed_scale_step(now.len(), period);
    let whole = smoothed(then, period);
    let other = smoothed(now, period);
    smoothed_value(then, period, p, whole);
    smoothed_value(now, period, q, other);
    scaled_order(
        real_smoothed(then, period),
        p,
        whole,
        real_smoothed(now, period),
        q,
        other,
    );
}

/// The formula gives the gain's share of the averages' sum.
#[verifier::spinoff_prover]
proof fn strength_share(g: real, l: real)
    requires
        g >= 0 as real,
        l >= 0 as real,
        g + l > 0 as real,
    ensures
        real_strength(g, l) * (g + l) == ((100 * SCALE) as real) * g,
{
    reveal(real_strength);
    let full = (100 * SCALE) as real;
    let r = real_strength(g, l);
    if l == 0 as real {
        assert(r * (g + l) == full * g) by (nonlinear_arith)
            requires
                r == full,
                l == 0 as real,
        ;
    } else {
        let ratio = g / l;
        let part = full / ((1 as real) + ratio);
        assert(ratio * l == g && ratio >= 0 as real) by (nonlinear_arith)
            requires
                l > 0 as real,
                g >= 0 as real,
                ratio == g / l,
        ;
        assert(part * ((1 as real) + ratio) == full) by (nonlinear_arith)
            requires
                ratio >= 0 as real,
                part == full / ((1 as real) + ratio),
        ;
        let k = (1 as real) + ratio;
        assert(k * l == g + l) by (nonlinear_arith)
            requires
                k == (1 as real) + ratio,
                ratio * l == g,
        ;
        assert(part * (k * l) == (part * k) * l) by (nonlinear_arith);
        assert(r * (g + l) == full * g + full * l - part * (g + l)) by (nonlinear_arith)
            requires
                r == full - part,
        ;
    }
}

/// Computed strength lies within one half of the gain's share.
#[verifier::spinoff_prover]
proof fn strength_rounding(gain: int, loss: int)
    requires
        gain >= 0,
        loss >= 0,
        gain + loss > 0,
    ensures
        ({
            let sum = (gain as real) + (loss as real);
            let gap = (strength(gain, loss) as real) * sum - ((100 * SCALE) as real) * (
            gain as real);
            -sum <= (2 as real) * gap <= sum
        }),
{
    let full = (100 * SCALE) as real;
    let gr = gain as real;
    let sum = gr + (loss as real);
    let q = strength(gain, loss) as real;
    if loss == 0 {
        assert(q * sum == full * gr) by (nonlinear_arith)
            requires
                q == full,
                sum == gr,
        ;
    } else {
        nearest_error(100 * SCALE * gain, gain + loss);
        assert(((gain + loss) * strength(gain, loss)) as real == q * sum) by (nonlinear_arith)
            requires
                q == strength(gain, loss) as real,
                sum == (gain + loss) as real,
        ;
        assert((100 * SCALE * gain) as real == full * gr) by (nonlinear_arith)
            requires
                full == (100 * SCALE) as real,
                gr == gain as real,
        ;
    }
}

/// A share that is computed at one scale, against the share at another.
#[verifier::spinoff_prover]
proof fn ratio_exact(q: real, r: real, g: real, l: real, gr: real, lr: real, c: real, full: real)
    requires
        g * c == gr,
        l * c == lr,
        gr + lr > 0 as real,
        r * (g + l) == full * g,
        -(gr + lr) <= (2 as real) * (q * (gr + lr) - full * gr) <= gr + lr,
    ensures
        -1 as real <= (2 as real) * (q - r) <= 1 as real,
{
    let w = g + l;
    assert(w * c == g * c + l * c) by (nonlinear_arith)
        requires
            w == g + l,
    ;
    assert(r * (w * c) == (r * w) * c) by (nonlinear_arith);
    assert((full * g) * c == full * (g * c)) by (nonlinear_arith);
    half_gap(q, r, gr + lr, full * gr);
}

/// The share of the gain does not depend on the scale of the averages.
#[verifier::spinoff_prover]
proof fn strength_exact(gain: int, loss: int, g: real, l: real, c: real, q: real, r: real)
    requires
        gain >= 0,
        loss >= 0,
        gain + loss > 0,
        c > 0 as real,
        g * c == gain as real,
        l * c == loss as real,
        q == strength(gain, loss) as real,
        r == real_strength(g, l),
    ensures
        -1 as real <= (2 as real) * (q - r) <= 1 as real,
{
    sign_of_factor(g, c, gain as real);
    sign_of_factor(l, c, loss as real);
    strength_share(g, l);
    strength_rounding(gain, loss);
    ratio_exact(q, r, g, l, gain as real, loss as real, c, (100 * SCALE) as real);
}

/// A factor has the sign of a product with a positive number.
#[verifier::spinoff_prover]
proof fn sign_of_factor(x: real, c: real, product: real)
    requires
        c > 0 as real,
        x * c == product,
        product >= 0 as real,
    ensures
        x >= 0 as real,
        product > 0 as real ==> x > 0 as real,
{
    if x < 0 as real {
        assert(x * c < 0 as real) by (nonlinear_arith)
            requires
                x < 0 as real,
                c > 0 as real,
        ;
    }
    if x == 0 as real {
        assert(x * c == 0 as real) by (nonlinear_arith)
            requires
                x == 0 as real,
        ;
    }
}

/// A gap whose multiple is at most half the multiplier is at most one half.
#[verifier::spinoff_prover]
proof fn half_gap(q: real, r: real, sum: real, target: real)
    requires
        sum > 0 as real,
        r * sum == target,
        -sum <= (2 as real) * (q * sum - target) <= sum,
    ensures
        -1 as real <= (2 as real) * (q - r) <= 1 as real,
{
    let twice = (2 as real) * (q - r);
    assert(sum * twice == (2 as real) * (q * sum - r * sum)) by (nonlinear_arith)
        requires
            twice == (2 as real) * (q - r),
    ;
    let one = 1 as real;
    assert(sum * one == sum && sum * (-one) == -sum) by (nonlinear_arith)
        requires
            one == 1 as real,
    ;
    cancel_factor(sum, twice, one);
    cancel_factor(sum, -one, twice);
}

/// Relative strength lies within half a millionth of its formula over the exact
/// Wilder averages, whatever the series.
#[verifier::spinoff_prover]
pub proof fn strength_accuracy(s: Seq<Decimal>, n: int)
    requires
        0 < n < s.len(),
    ensures
        ({
            let exact = real_strength(real_smoothed(gains(s), n), real_smoothed(losses(s), n));
            -1 as real <= (2 as real) * ((strength_of(s, n) as real) - exact) <= 1 as real
        }),
{
    let up = gains(s);
    let down = losses(s);
    smoothed_bounds(up, n, 0);
    smoothed_bounds(down, n, 0);
    let c = smoothed_scale(up.len(), n);
    smoothed_scale_step(up.len(), n);
    let gain = smoothed(up, n);
    let loss = smoothed(down, n);
    let g = real_smoothed(up, n);
    let l = real_smoothed(down, n);
    smoothed_value(up, n, c, gain);
    smoothed_value(down, n, c, loss);
    reveal(scaled);
    if gain + loss > 0 {
        strength_exact(
            gain,
            loss,
            g,
            l,
            c as real,
            strength_of(s, n) as real,
            real_strength(g, l),
        );
    } else {
        zero_factor(g, c as real);
        zero_factor(l, c as real);
        reveal(real_strength);
    }
}

/// A factor of zero, next to one that is positive, is zero.
#[verifier::spinoff_prover]
proof fn zero_factor(x: real, c: real)
    requires
        c > 0 as real,
        x * c == 0 as real,
    ensures
        x == 0 as real,
{
    sign_of_factor(x, c, 0 as real);
    if x > 0 as real {
        assert(x * c > 0 as real) by (nonlinear_arith)
            requires
                x > 0 as real,
                c > 0 as real,
        ;
    }
}

/// `(high + low + close) / 3`.
pub open spec fn real_typical(c: Candle) -> real {
    (c.price_sum() as real) / (3 as real)
}

/// The weighted sum of the exact typical prices.
pub open spec fn real_typical_sum(bars: Seq<Candle>, by_volume: bool) -> real
    decreases bars.len(),
{
    if bars.len() == 0 {
        0 as real
    } else {
        real_typical_sum(bars.drop_last(), by_volume) + real_typical(bars.last()) * (weight(
            bars.last(),
            by_volume,
        ) as real)
    }
}

/// `sum(typical*weight)/sum(weight)`: the weights are the volumes, or all one
/// when no bar has volume.
pub open spec fn real_vwap(bars: Seq<Candle>) -> real {
    let by_volume = total_volume(bars) > 0;
    real_typical_sum(bars, by_volume) / (weight_sum(bars, by_volume) as real)
}

/// The weighted sum of the prices is three times that of the typical prices.
#[verifier::spinoff_prover]
proof fn price_total_value(bars: Seq<Candle>, by_volume: bool)
    ensures
        price_total(bars, by_volume) as real == (3 as real) * real_typical_sum(bars, by_volume),
    decreases bars.len(),
{
    if bars.len() > 0 {
        price_total_value(bars.drop_last(), by_volume);
        let c = bars.last();
        let x = c.price_sum();
        let v = weight(c, by_volume);
        product_as_real(x, v);
        undo_division(x as real, 3 as real);
        let third = real_typical(c);
        let xr = x as real;
        let vr = v as real;
        assert((3 as real) * (third * vr) == xr * vr) by (nonlinear_arith)
            requires
                third * (3 as real) == xr,
        ;
    }
}

/// The average price times three weights is the weighted sum of the prices.
#[verifier::spinoff_prover]
proof fn vwap_value(bars: Seq<Candle>)
    requires
        bars.len() > 0,
    ensures
        bar_weights(bars) > 0,
        ((3 * bar_weights(bars)) as real) * real_vwap(bars) == bar_prices(bars) as real,
{
    let by_volume = total_volume(bars) > 0;
    weight_sum_value(bars, by_volume);
    price_total_value(bars, by_volume);
    let w = bar_weights(bars) as real;
    let y = real_typical_sum(bars, by_volume);
    undo_division(y, w);
    let m = real_vwap(bars);
    assert(((3 as real) * w) * m == (3 as real) * (m * w)) by (nonlinear_arith);
}

/// A factor is the quotient of its product.
#[verifier::spinoff_prover]
proof fn factor_is_quotient(k: real, m: real, t: real)
    requires
        k > 0 as real,
        k * m == t,
    ensures
        t / k == m,
{
    let q = t / k;
    undo_division(t, k);
    assert(q == m) by (nonlinear_arith)
        requires
            q * k == t,
            k * m == t,
            k > 0 as real,
    ;
}

/// A volume-weighted average price lies within half a millionth of its formula.
#[verifier::spinoff_prover]
pub proof fn vwap_accuracy(bars: Seq<Candle>)
    requires
        bars.len() > 0,
    ensures
        -1 as real <= (2 as real) * ((vwap_micros(bars) as real) - real_vwap(bars)) <= 1 as real,
{
    vwap_value(bars);
    let k = 3 * bar_weights(bars);
    nearest_accuracy(bar_prices(bars), k);
    factor_is_quotient(k as real, real_vwap(bars), bar_prices(bars) as real);
}


/// The sum over a window of `(i - mid) * (y_i - level)`, where `mid` is
/// `(n - 1) / 2`.
#[verifier::opaque]
pub open spec fn covariation(s: Seq<Decimal>, n: int, level: real) -> real
    decreases s.len(),
{
    if s.len() == 0 {
        0 as real
    } else {
        covariation(s.drop_last(), n, level) + (((s.len() - 1) as real) - ((n - 1) as real) / (
        2 as real)) * ((s.last()@ as real) - level)
    }
}

/// The sum over the first `k` places of a window of `(i - mid)^2`, where `mid`
/// is `(n - 1) / 2`.
#[verifier::opaque]
pub open spec fn variation(k: int, n: int) -> real
    decreases k,
{
    if k <= 0 {
        0 as real
    } else {
        let d = ((k - 1) as real) - ((n - 1) as real) / (2 as real);
        variation(k - 1, n) + d * d
    }
}

/// The least-squares slope of a window against the sample index, in percent of
/// the window's mean per sample.
#[verifier::opaque]
pub open spec fn real_slope(s: Seq<Decimal>) -> real {
    let n = s.len() as int;
    covariation(s, n, real_mean(s)) / variation(n, n) / real_mean(s) * (100 as real)
}

/// The covariation in closed form.
#[verifier::spinoff_prover]
proof fn covariation_value(s: Seq<Decimal>, n: int, level: real)
    ensures
        (2 as real) * covariation(s, n, level) == (moment(s, n) as real) - level * ((s.len() * (
        s.len() - n)) as real),
    decreases s.len(),
{
    reveal_with_fuel(covariation, 1);
    if s.len() > 0 {
        let rest = s.drop_last();
        covariation_value(rest, n, level);
        let k = s.len() as int;
        let last = s.last()@;
        let lr = last as real;
        let arm = 2 * (k - 1) - (n - 1);
        let ar = arm as real;
        let d = ((k - 1) as real) - ((n - 1) as real) / (2 as real);
        assert((2 as real) * d == ar);
        assert((arm * last) as real == ar * lr) by (nonlinear_arith)
            requires
                ar == arm as real,
                lr == last as real,
        ;
        assert((2 as real) * (d * (lr - level)) == ar * lr - ar * level) by (nonlinear_arith)
            requires
                (2 as real) * d == ar,
        ;
        assert(k * (k - n) == (k - 1) * (k - 1 - n) + arm) by (nonlinear_arith)
            requires
                arm == 2 * (k - 1) - (n - 1),
        ;
        let a = ((k - 1) * (k - 1 - n)) as real;
        let b = (k * (k - n)) as real;
        assert(b == a + ar);
        assert(level * b == level * a + level * ar) by (nonlinear_arith)
            requires
                b == a + ar,
        ;
        assert(level * ar == ar * level) by (nonlinear_arith);
    } else {
        assert(0 * (0 - n) == 0) by (nonlinear_arith);
        assert(level * (0 as real) == 0 as real) by (nonlinear_arith);
    }
}

/// The variation in closed form: twelve times it is
/// `k * (4*k^2 - 6*n*k + 3*n^2 - 1)`.
#[verifier::spinoff_prover]
proof fn variation_value(k: int, n: int)
    requires
        k >= 0,
    ensures
        (12 as real) * variation(k, n) == (k * (4 * k * k - 6 * n * k + 3 * n * n - 1)) as real,
    decreases k,
{
    reveal_with_fuel(variation, 1);
    if k > 0 {
        variation_value(k - 1, n);
        let d = ((k - 1) as real) - ((n - 1) as real) / (2 as real);
        let arm = 2 * (k - 1) - (n - 1);
        let ar = arm as real;
        assert((2 as real) * d == ar);
        assert((arm * arm) as real == ar * ar) by (nonlinear_arith)
            requires
                ar == arm as real,
        ;
        assert((4 as real) * (d * d) == ar * ar) by (nonlinear_arith)
            requires
                (2 as real) * d == ar,
        ;
        let j = k - 1;
        let before = 4 * j * j - 6 * n * j + 3 * n * n - 1;
        let after = 4 * k * k - 6 * n * k + 3 * n * n - 1;
        let growth = 8 * j + 4 - 6 * n;
        assert(4 * k * k == 4 * j * j + 8 * j + 4) by (nonlinear_arith)
            requires
                j == k - 1,
        ;
        assert(6 * n * k == 6 * n * j + 6 * n) by (nonlinear_arith)
            requires
                j == k - 1,
        ;
        assert(after == before + growth);
        assert(k * after == j * before + j * growth + after) by (nonlinear_arith)
            requires
                j == k - 1,
                after == before + growth,
        ;
        assert(j * growth == 2 * (4 * j * j) + 4 * j - 6 * n * j) by (nonlinear_arith)
            requires
                growth == 8 * j + 4 - 6 * n,
        ;
        assert(3 * (arm * arm) == 3 * (4 * j * j) + 3 * n * n + 3 - 2 * (6 * n * j) + 12 * j - 6 * n)
            by (nonlinear_arith)
            requires
                arm == 2 * j - (n - 1),
        ;
    } else {
        assert(0 * (4 * 0 * 0 - 6 * n * 0 + 3 * n * n - 1) == 0) by (nonlinear_arith);
    }
}

/// The slope of a window, from its covariation and variation over the reals.
#[verifier::spinoff_prover]
proof fn slope_ratio(cov: real, var: real, level: real, n: real, rise: real, sum: real, m: real)
    requires
        (2 as real) * cov == m,
        (12 as real) * var == n * rise,
        n * level == sum,
        n > 0 as real,
        rise > 0 as real,
        sum != 0 as real,
    ensures
        (cov / var / level) * (sum * rise) == (6 as real) * m,
{
    let p = cov / var;
    let q = p / level;
    assert(var > 0 as real) by (nonlinear_arith)
        requires
            (12 as real) * var == n * rise,
            n > 0 as real,
            rise > 0 as real,
    ;
    assert(level != 0 as real) by (nonlinear_arith)
        requires
            n * level == sum,
            sum != 0 as real,
    ;
    assert(p * var == cov) by (nonlinear_arith)
        requires
            p == cov / var,
            var != 0 as real,
    ;
    assert(q * level == p) by (nonlinear_arith)
        requires
            q == p / level,
            level != 0 as real,
    ;
    let lv = level * var;
    assert(q * lv == cov) by (nonlinear_arith)
        requires
            lv == level * var,
            q * level == p,
            p * var == cov,
    ;
    assert((12 as real) * lv == sum * rise) by (nonlinear_arith)
        requires
            lv == level * var,
            (12 as real) * var == n * rise,
            n * level == sum,
    ;
    let product = sum * rise;
    assert(q * product == (12 as real) * cov) by (nonlinear_arith)
        requires
            q * lv == cov,
            (12 as real) * lv == product,
    ;
}

/// The mean times the number of samples is their total.
#[verifier::spinoff_prover]
proof fn mean_value(s: Seq<Decimal>)
    requires
        s.len() > 0,
    ensures
        (s.len() as real) * real_mean(s) == total(s) as real,
{
    let n = s.len() as real;
    let m = real_mean(s);
    undo_division(total(s) as real, n);
    assert(n * m == m * n) by (nonlinear_arith);
}

/// The covariation of a window around its mean, and the variation of its places.
#[verifier::spinoff_prover]
proof fn window_values(s: Seq<Decimal>, n: int, rise: int)
    requires
        n == s.len(),
        rise == n * n - 1,
    ensures
        (2 as real) * covariation(s, n, real_mean(s)) == moment(s, n) as real,
        (12 as real) * variation(n, n) == (n as real) * (rise as real),
{
    let level = real_mean(s);
    covariation_value(s, n, level);
    variation_value(n, n);
    assert(n * (n - n) == 0) by (nonlinear_arith);
    assert(level * (0 as real) == 0 as real) by (nonlinear_arith);
    assert(n * (4 * n * n - 6 * n * n + 3 * n * n - 1) == n * rise) by (nonlinear_arith)
        requires
            rise == n * n - 1,
    ;
    product_as_real(n, rise);
}

/// The least-squares slope of a window, in millionths.
#[verifier::opaque]
spec fn slope_target(s: Seq<Decimal>) -> real {
    (SCALE as real) * real_slope(s)
}

/// The slope against the numbers that it is computed from.
#[verifier::spinoff_prover]
proof fn slope_value(s: Seq<Decimal>, n: int, rise: int)
    requires
        n == s.len(),
        n >= 2,
        rise == n * n - 1,
        rise > 0,
        total(s) != 0,
    ensures
        slope_target(s) * ((rise * total(s)) as real) == (600 * SCALE * moment(s, n)) as real,
{
    let cov = covariation(s, n, real_mean(s));
    let var = variation(n, n);
    let m = moment(s, n) as real;
    let sum = total(s) as real;
    let rr = rise as real;
    window_values(s, n, rise);
    mean_value(s);
    slope_ratio(cov, var, real_mean(s), n as real, rr, sum, m);
    let q = cov / var / real_mean(s);
    let target = slope_target(s);
    assert(target == (1_000_000 as real) * (q * (100 as real))) by {
        reveal(slope_target);
        reveal(real_slope);
    }
    product_as_real(rise, total(s));
    scaled_target(target, q, sum, rr, m);
    let whole = moment(s, n);
    assert(600 * SCALE * whole == 600_000_000 * whole) by (nonlinear_arith)
        requires
            SCALE == 1_000_000,
    ;
}

/// The scaled slope, over the reals.
#[verifier::spinoff_prover]
proof fn scaled_target(target: real, q: real, sum: real, rise: real, m: real)
    requires
        target == (1_000_000 as real) * (q * (100 as real)),
        q * (sum * rise) == (6 as real) * m,
    ensures
        target * (rise * sum) == (600_000_000 as real) * m,
{
    let product = sum * rise;
    assert(rise * sum == product) by (nonlinear_arith)
        requires
            product == sum * rise,
    ;
    assert(target * product == (100_000_000 as real) * (q * product)) by (nonlinear_arith)
        requires
            target == (1_000_000 as real) * (q * (100 as real)),
    ;
}

/// A quotient rounded by its divisor's sign, against the exact one.
#[verifier::spinoff_prover]
proof fn signed_rounding(top: int, bottom: int, target: real)
    requires
        bottom != 0,
        target * (bottom as real) == top as real,
    ensures
        bottom > 0 ==> -1 as real <= (2 as real) * ((nearest(top, bottom) as real) - target)
            <= 1 as real,
        bottom < 0 ==> -1 as real <= (2 as real) * ((nearest(-top, -bottom) as real) - target)
            <= 1 as real,
{
    if bottom > 0 {
        rounded_once(top, bottom, target);
    } else {
        let b = bottom as real;
        assert(target * (-b) == -(target * b)) by (nonlinear_arith);
        rounded_once(-top, -bottom, target);
    }
}

/// A regression slope lies within half a millionth of the least-squares
/// formula.
#[verifier::spinoff_prover]
pub proof fn slope_accuracy(s: Seq<Decimal>)
    requires
        s.len() >= 2,
        total(s) != 0,
    ensures
        -1 as real <= (2 as real) * ((slope_micros(s) as real) - (SCALE as real) * real_slope(s))
            <= 1 as real,
{
    let n = s.len() as int;
    let rise = n * n - 1;
    assert(rise > 0) by (nonlinear_arith)
        requires
            n >= 2,
            rise == n * n - 1,
    ;
    let sum = total(s);
    let bottom = rise * sum;
    assert(bottom != 0) by (nonlinear_arith)
        requires
            bottom == rise * sum,
            rise > 0,
            sum != 0,
    ;
    slope_value(s, n, rise);
    signed_rounding(600 * SCALE * moment(s, n), bottom, slope_target(s));
    reveal(slope_target);
}

/// The sum of the squared distances of samples from `level`.
pub open spec fn real_squares(s: Seq<Decimal>, level: real) -> real
    decreases s.len(),
{
    if s.len() == 0 {
        0 as real
    } else {
        real_squares(s.drop_last(), level) + ((s.last()@ as real) - level) * ((s.last()@ as real)
            - level)
    }
}

/// The population variance of samples around their mean.
#[verifier::opaque]
pub open spec fn real_variance(s: Seq<Decimal>) -> real {
    real_squares(s, real_mean(s)) / (s.len() as real)
}

/// A scaled distance and its square: `y` is `k` times the distance of `x` from
/// `m`.
#[verifier::spinoff_prover]
proof fn scaled_square(y: real, x: real, m: real, k: real, v: real)
    requires
        y == k * x - k * m,
    ensures
        y * y * v == (k * k) * ((x - m) * (x - m) * v),
{
    let u = x - m;
    assert(k * x - k * m == k * u) by (nonlinear_arith)
        requires
            u == x - m,
    ;
    assert(y * y == (k * k) * (u * u)) by (nonlinear_arith)
        requires
            y == k * u,
    ;
    let uu = u * u;
    let kk = k * k;
    assert((kk * uu) * v == kk * (uu * v)) by (nonlinear_arith);
}

/// One more term of a scaled sum.
#[verifier::spinoff_prover]
proof fn scaled_sum(kk: real, a: real, b: real)
    ensures
        kk * (a + b) == kk * a + kk * b,
{
    assert(kk * (a + b) == kk * a + kk * b) by (nonlinear_arith);
}

/// The squares of samples, scaled by `n`, around `t`, in terms of those around
/// the level `m` that `n` scales to `t`.
#[verifier::spinoff_prover]
proof fn squares_value(s: Seq<Decimal>, n: int, t: int, m: real)
    requires
        (n as real) * m == t as real,
    ensures
        squares(s, n, t) as real == ((n as real) * (n as real)) * real_squares(s, m),
    decreases s.len(),
{
    let k = n as real;
    let kk = k * k;
    if s.len() > 0 {
        let rest = s.drop_last();
        squares_value(rest, n, t, m);
        let x = s.last()@;
        let y = n * x - t;
        product_as_real(n, x);
        product_as_real(y, y);
        let xr = x as real;
        let yr = y as real;
        scaled_square(yr, xr, m, k, 1 as real);
        let u = xr - m;
        scaled_sum(kk, real_squares(rest, m), u * u);
    } else {
        assert(kk * (0 as real) == 0 as real) by (nonlinear_arith);
    }
}

/// The rounded quotient of two integers, over the reals.
#[verifier::spinoff_prover]
proof fn floor_quotient(sum: int, w: int)
    requires
        w > 0,
    ensures
        (w as real) * ((sum / w) as real) <= sum as real,
        (sum as real) < (w as real) * ((sum / w) as real) + (w as real),
{
    let q = sum / w;
    vstd::arithmetic::div_mod::lemma_fundamental_div_mod(sum, w);
    vstd::arithmetic::div_mod::lemma_mod_bound(sum, w);
    product_as_real(w, q);
}

/// A common positive factor keeps order.
#[verifier::spinoff_prover]
proof fn cancel_factor(w: real, a: real, b: real)
    requires
        w > 0 as real,
    ensures
        w * a <= w * b ==> a <= b,
        w * a < w * b ==> a < b,
{
    if a > b {
        assert(w * a > w * b) by (nonlinear_arith)
            requires
                w > 0 as real,
                a > b,
        ;
    } else {
        assert(a == b ==> w * a == w * b);
    }
}

/// The root of a rounded quotient against the quotient `v`.
#[verifier::spinoff_prover]
proof fn root_of_quotient(sum: int, w: int, v: real, root: int)
    requires
        w > 0,
        sum as real == (w as real) * v,
        is_floor_root(sum / w, root),
    ensures
        (root * root) as real <= v,
        v < ((root + 1) * (root + 1)) as real,
{
    let q = sum / w;
    let low = root * root;
    let high = (root + 1) * (root + 1);
    floor_quotient(sum, w);
    let wr = w as real;
    let qr = q as real;
    let next = qr + (1 as real);
    scaled_sum(wr, qr, 1 as real);
    cancel_factor(wr, qr, v);
    cancel_factor(wr, v, next);
    assert(low as real <= qr);
    assert(next <= high as real);
}

/// A variance times the cube of a count, from the sum of squares.
#[verifier::spinoff_prover]
proof fn cube_of_count(n: real, squared: real, v: real, sum: real)
    requires
        n > 0 as real,
        v == squared / n,
        sum == (n * n) * squared,
    ensures
        sum == (n * (n * n)) * v,
{
    undo_division(squared, n);
    let nn = n * n;
    assert((n * nn) * v == nn * (v * n)) by (nonlinear_arith);
}

/// The computed standard deviation of samples is that of its formula, cut to a
/// whole millionth.
#[verifier::spinoff_prover]
pub proof fn deviation_accuracy(s: Seq<Decimal>, deviation: int)
    requires
        s.len() > 0,
        is_floor_root(mean_square(s), deviation),
    ensures
        (deviation * deviation) as real <= real_variance(s),
        real_variance(s) < ((deviation + 1) * (deviation + 1)) as real,
{
    reveal(real_variance);
    let n = s.len() as int;
    let t = total(s);
    let m = real_mean(s);
    let nr = n as real;
    undo_division(t as real, nr);
    assert(nr * m == t as real) by (nonlinear_arith)
        requires
            m * nr == t as real,
    ;
    squares_value(s, n, t, m);
    let sum = squares(s, n, t);
    let cube = n * (n * n);
    assert(cube > 0) by (nonlinear_arith)
        requires
            cube == n * (n * n),
            n > 0,
    ;
    product_as_real(n, n);
    product_as_real(n, n * n);
    cube_of_count(nr, real_squares(s, m), real_variance(s), sum as real);
    root_of_quotient(sum, cube, real_variance(s), deviation);
}

/// The weighted sum of the squared distances of the typical prices from
/// `level`.
pub open spec fn real_square_sum(bars: Seq<Candle>, by_volume: bool, level: real) -> real
    decreases bars.len(),
{
    if bars.len() == 0 {
        0 as real
    } else {
        let x = real_typical(bars.last());
        real_square_sum(bars.drop_last(), by_volume, level) + (x - level) * (x - level) * (weight(
            bars.last(),
            by_volume,
        ) as real)
    }
}

/// The weighted variance of the typical prices around the average price.
#[verifier::opaque]
pub open spec fn typical_variance(bars: Seq<Candle>) -> real {
    real_square_sum(bars, total_volume(bars) > 0, real_vwap(bars)) / (bar_weights(bars) as real)
}

/// The scaled squares of prices around `t`, in terms of those of the typical
/// prices around the level `m` that three times `w` scales to `t`.
#[verifier::spinoff_prover]
proof fn spread_over_reals(bars: Seq<Candle>, by_volume: bool, w: int, t: int, m: real)
    requires
        ((3 * w) as real) * m == t as real,
    ensures
        spread_total(bars, by_volume, w, t) as real == (((3 * w) as real) * ((3 * w) as real))
            * real_square_sum(bars, by_volume, m),
    decreases bars.len(),
{
    let k = (3 * w) as real;
    let kk = k * k;
    if bars.len() > 0 {
        let rest = bars.drop_last();
        spread_over_reals(rest, by_volume, w, t, m);
        let sum = bars.last().price_sum();
        let v = weight(bars.last(), by_volume);
        let y = w * sum - t;
        product_as_real(w, sum);
        product_as_real(y, y);
        product_as_real(y * y, v);
        let x = real_typical(bars.last());
        let wr = w as real;
        let sr = sum as real;
        undo_division(sr, 3 as real);
        assert(k * x == wr * sr) by (nonlinear_arith)
            requires
                k == (3 as real) * wr,
                x * (3 as real) == sr,
        ;
        let vr = v as real;
        let yr = y as real;
        scaled_square(yr, x, m, k, vr);
        let u = x - m;
        scaled_sum(kk, real_square_sum(rest, by_volume, m), u * u * vr);
    } else {
        assert(kk * (0 as real) == 0 as real) by (nonlinear_arith);
    }
}

/// A variance times the cube of three weights, from the sum of squares.
#[verifier::spinoff_prover]
proof fn cube_of_weights(w: real, k: real, squared: real, v: real, sum: real)
    requires
        w > 0 as real,
        k == (3 as real) * w,
        v == squared / w,
        sum == (k * k) * squared,
    ensures
        sum == ((9 as real) * (w * (w * w))) * v,
{
    undo_division(squared, w);
    let ww = w * w;
    assert(k * k == (9 as real) * ww) by (nonlinear_arith)
        requires
            k == (3 as real) * w,
            ww == w * w,
    ;
    let nine = (9 as real) * ww;
    assert(nine * (v * w) == ((9 as real) * (w * ww)) * v) by (nonlinear_arith)
        requires
            nine == (9 as real) * ww,
    ;
}

/// The spread of bars in terms of the variance of their typical prices.
#[verifier::spinoff_prover]
proof fn spread_of_variance(bars: Seq<Candle>)
    requires
        bars.len() > 0,
    ensures
        ({
            let w = bar_weights(bars);
            &&& 9 * (w * (w * w)) > 0
            &&& (9 * (w * (w * w))) as real == (9 as real) * ((w as real) * ((w as real) * (
            w as real)))
            &&& bar_spread(bars) as real == ((9 * (w * (w * w))) as real) * typical_variance(bars)
        }),
{
    reveal(typical_variance);
    let by_volume = total_volume(bars) > 0;
    let w = bar_weights(bars);
    let t = bar_prices(bars);
    let m = real_vwap(bars);
    vwap_value(bars);
    spread_over_reals(bars, by_volume, w, t, m);
    assert(9 * (w * (w * w)) > 0) by (nonlinear_arith)
        requires
            w > 0,
    ;
    product_as_real(w, w);
    product_as_real(w, w * w);
    cube_of_weights(
        w as real,
        (3 * w) as real,
        real_square_sum(bars, by_volume, m),
        typical_variance(bars),
        bar_spread(bars) as real,
    );
}

/// The computed sigma of some bars is the weighted standard deviation of their
/// typical prices, cut to a whole millionth.
#[verifier::spinoff_prover]
pub proof fn sigma_accuracy(bars: Seq<Candle>, sigma: int)
    requires
        bars.len() > 0,
        is_floor_root(variance(bars), sigma),
    ensures
        (sigma * sigma) as real <= typical_variance(bars),
        typical_variance(bars) < ((sigma + 1) * (sigma + 1)) as real,
{
    let w = bar_weights(bars);
    spread_of_variance(bars);
    root_of_quotient(bar_spread(bars), 9 * (w * (w * w)), typical_variance(bars), sigma);
}

/// The square of a distance times three weights, times one weight.
#[verifier::spinoff_prover]
proof fn weighted_square(w: real, k: real, d: real, gap: real, cube: real)
    requires
        k == (3 as real) * w,
        d == k * gap,
        cube == (9 as real) * (w * (w * w)),
    ensures
        w * (d * d) == cube * (gap * gap),
{
    let g = gap * gap;
    assert(d * d == (k * k) * g) by (nonlinear_arith)
        requires
            d == k * gap,
            g == gap * gap,
    ;
    let ww = w * w;
    assert(k * k == (9 as real) * ww) by (nonlinear_arith)
        requires
            k == (3 as real) * w,
            ww == w * w,
    ;
    assert(w * (((9 as real) * ww) * g) == ((9 as real) * (w * ww)) * g) by (nonlinear_arith);
}

/// The root of the quotient of two multiples of `c`, against their quotient.
#[verifier::spinoff_prover]
proof fn root_of_ratio(top: int, spread: int, root: int, c: real, a: real, v: real)
    requires
        spread > 0,
        c > 0 as real,
        top as real == c * a,
        spread as real == c * v,
        is_floor_root(top / spread, root),
    ensures
        ((root * root) as real) * v <= a,
        a < (((root + 1) * (root + 1)) as real) * v,
{
    let q = top / spread;
    let low = (root * root) as real;
    let high = ((root + 1) * (root + 1)) as real;
    let sr = spread as real;
    let qr = q as real;
    floor_quotient(top, spread);
    assert(sr * low <= sr * qr) by (nonlinear_arith)
        requires
            low <= qr,
            sr > 0 as real,
    ;
    assert(sr * qr + sr <= sr * high) by (nonlinear_arith)
        requires
            qr + (1 as real) <= high,
            sr > 0 as real,
    ;
    assert(sr * low == c * (low * v)) by (nonlinear_arith)
        requires
            sr == c * v,
    ;
    assert(sr * high == c * (high * v)) by (nonlinear_arith)
        requires
            sr == c * v,
    ;
    cancel_factor(c, low * v, a);
    cancel_factor(c, a, high * v);
}

/// The computed distance of a price from the average price is the distance in
/// standard deviations of its formula, cut to a whole millionth: stated over
/// squares, for bars whose prices differ.
#[verifier::spinoff_prover]
pub proof fn distance_accuracy(bars: Seq<Candle>, spot: int, z: int)
    requires
        bars.len() > 0,
        is_distance(bars, spot, z),
        bar_spread(bars) > 0,
    ensures
        ({
            let root = magnitude(z);
            let gap = (spot as real) - real_vwap(bars);
            let square = ((SCALE * SCALE) as real) * (gap * gap);
            &&& ((root * root) as real) * typical_variance(bars) <= square
            &&& square < (((root + 1) * (root + 1)) as real) * typical_variance(bars)
            &&& z > 0 ==> gap > 0 as real
            &&& z < 0 ==> gap < 0 as real
        }),
{
    let w = bar_weights(bars);
    let k = 3 * w;
    let t = bar_prices(bars);
    let d = 3 * w * spot - t;
    let m = real_vwap(bars);
    let gap = (spot as real) - m;
    let wr = w as real;
    let kr = k as real;
    let dr = d as real;
    let spot_r = spot as real;
    vwap_value(bars);
    spread_of_variance(bars);
    product_as_real(k, spot);
    assert(dr == kr * gap) by (nonlinear_arith)
        requires
            dr == kr * spot_r - kr * m,
            gap == spot_r - m,
    ;
    product_as_real(d, d);
    product_as_real(w, d * d);
    let cube = (9 * (w * (w * w))) as real;
    weighted_square(wr, kr, dr, gap, cube);
    let scale = (SCALE * SCALE) as real;
    product_as_real(SCALE * SCALE, w * (d * d));
    let g = gap * gap;
    assert(scale * (cube * g) == cube * (scale * g)) by (nonlinear_arith);
    let top = (SCALE * SCALE) * (w * (d * d));
    root_of_ratio(top, bar_spread(bars), magnitude(z), cube, scale * g, typical_variance(bars));
    sign_of_gap(kr, gap);
}

/// A positive factor keeps the sign.
#[verifier::spinoff_prover]
proof fn sign_of_gap(k: real, gap: real)
    requires
        k > 0 as real,
    ensures
        k * gap > 0 as real ==> gap > 0 as real,
        k * gap < 0 as real ==> gap < 0 as real,
{
    assert(k * (0 as real) == 0 as real) by (nonlinear_arith);
    cancel_factor(k, 0 as real, gap);
    cancel_factor(k, gap, 0 as real);
}

} // verus!
