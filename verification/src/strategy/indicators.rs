//! Technical indicator math.
//!
//! Every function takes a slice and returns `None` rather than a fabricated
//! number whenever the input is too short to define the indicator. Each result
//! is its formula, rounded once: averages are carried as whole numbers over a
//! common denominator. What is required of longer input is only that the sums
//! and products formed on the way fit their machine integers.
//!
//! - **EMA**   `a = 2/(n+1)`, `EMA' = a*P + (1-a)*EMA`, seeded with the SMA of
//!   the first `n` samples.
//! - **ATR**   `TR = max(H-L, |H-C'|, |L-C'|)`, Wilder-smoothed
//!   `ATR' = (ATR*(n-1) + TR)/n`.
//! - **RSI**   Wilder-smoothed average gain and loss,
//!   `RSI = 100 - 100/(1+RS) = 100*gain/(gain+loss)`.
//! - **VWAP**  `sum(typical*vol)/sum(vol)` with `typical = (H+L+C)/3`; bands
//!   are `VWAP +- k*sigma` where `sigma` is the volume-weighted standard
//!   deviation of the typical price.

use crate::decimal::{divide_nearest, divide_toward_zero, unsigned, Decimal, SCALE};
use crate::decimal::{floor_root_unique, is_floor_root, magnitude, nearest, toward_zero};
use crate::decimal::{nearest_between, nearest_error, threshold_is_exact};
use crate::natural::{power, power_positive, Natural};
use crate::strategy::candles::Candle;
use vstd::prelude::*;

verus! {

/// Whether every sample lies between `lo` and `hi`.
pub open spec fn within(s: Seq<Decimal>, lo: int, hi: int) -> bool {
    forall|i: int| 0 <= i < s.len() ==> lo <= (#[trigger] s[i])@ <= hi
}

/// Whether `k` times any sample can be formed.
pub open spec fn multiples_fit(s: Seq<Decimal>, k: int) -> bool {
    forall|i: int| 0 <= i < s.len() ==> k * magnitude((#[trigger] s[i])@) <= i128::MAX
}

/// The bound on samples whose multiples fit.
proof fn multiples_bound(s: Seq<Decimal>, k: int) -> (b: int)
    requires
        k > 0,
        multiples_fit(s, k),
    ensures
        b >= 0,
        b <= i128::MAX,
        k * b <= i128::MAX,
        within(s, -b, b),
{
    let top = i128::MAX as int;
    let b = top / k;
    vstd::arithmetic::div_mod::lemma_fundamental_div_mod(top, k);
    vstd::arithmetic::div_mod::lemma_mod_bound(top, k);
    vstd::arithmetic::div_mod::lemma_div_pos_is_pos(top, k);
    let rest = top % k;
    assert forall|i: int| 0 <= i < s.len() implies -b <= (#[trigger] s[i])@ <= b by {
        let m = magnitude(s[i]@);
        assert(m <= b) by (nonlinear_arith)
            requires
                k > 0,
                k * m <= top,
                top == k * b + rest,
                0 <= rest < k,
        ;
    }
    assert(b <= k * b) by (nonlinear_arith)
        requires
            b >= 0,
            k >= 1,
    ;
    b
}

/// Parts of a series have smaller multiples that fit too.
proof fn multiples_part(s: Seq<Decimal>, k: int, from: int, to: int, j: int)
    requires
        0 <= j <= k,
        0 <= from <= to <= s.len(),
        multiples_fit(s, k),
    ensures
        multiples_fit(s.subrange(from, to), j),
{
    let part = s.subrange(from, to);
    assert forall|i: int| 0 <= i < part.len() implies j * magnitude((#[trigger] part[i])@)
        <= i128::MAX by {
        let m = magnitude(s[from + i]@);
        assert(part[i] == s[from + i]);
        assert(j * m <= k * m) by (nonlinear_arith)
            requires
                0 <= j <= k,
                m >= 0,
        ;
    }
}

/// The sum of all samples.
pub open spec fn total(s: Seq<Decimal>) -> int
    decreases s.len(),
{
    if s.len() == 0 {
        0
    } else {
        total(s.drop_last()) + s.last()@
    }
}

/// The last `n` samples.
pub open spec fn tail(s: Seq<Decimal>, n: int) -> Seq<Decimal> {
    s.subrange(s.len() - n, s.len() as int)
}

/// The mean of all samples.
pub open spec fn mean(s: Seq<Decimal>) -> int {
    nearest(total(s), s.len() as int)
}

/// The factor that makes an exponential moving average whole: `n` for the mean
/// of the first `n` samples, and `n + 1` for each sample after them.
#[verifier::opaque]
pub open spec fn ema_scale(count: nat, n: int) -> int {
    n * power(
        (n + 1) as nat,
        if count <= n {
            0
        } else {
            (count - n) as nat
        },
    )
}

/// The exponential moving average of at least `n` samples, times its scale.
pub open spec fn ema_sum(s: Seq<Decimal>, n: int) -> int
    decreases s.len(),
{
    if s.len() == 0 {
        0
    } else if s.len() <= n {
        ema_sum(s.drop_last(), n) + s.last()@
    } else {
        (n - 1) * ema_sum(s.drop_last(), n) + 2 * (ema_scale((s.len() - 1) as nat, n)
            * s.last()@)
    }
}

/// The exponential moving average of at least `n` samples, rounded once.
pub open spec fn ema_micros(s: Seq<Decimal>, n: int) -> int {
    nearest(ema_sum(s, n), ema_scale(s.len(), n))
}

/// Samples as integers.
pub open spec fn amounts(s: Seq<Decimal>) -> Seq<int> {
    Seq::new(s.len(), |i: int| s[i]@)
}

/// Wilder's smoothed average of at least `n` samples, rounded once.
pub open spec fn wilder_micros(s: Seq<Decimal>, n: int) -> int {
    nearest(smoothed(amounts(s), n), smoothed_scale(s.len(), n))
}

/// The true range of every bar but the first, against the bar before it.
pub open spec fn true_ranges(bars: Seq<Candle>) -> Seq<Decimal> {
    Seq::new(
        (bars.len() - 1) as nat,
        |i: int|
            Decimal { micros: bars[i + 1].true_range_micros(Some(bars[i].close)) as i128 },
    )
}

/// The rises from sample to sample; a fall counts as zero.
pub open spec fn gains(s: Seq<Decimal>) -> Seq<int> {
    Seq::new(
        (s.len() - 1) as nat,
        |i: int|
            if s[i + 1]@ > s[i]@ {
                s[i + 1]@ - s[i]@
            } else {
                0
            },
    )
}

/// The falls from sample to sample; a rise counts as zero.
pub open spec fn losses(s: Seq<Decimal>) -> Seq<int> {
    Seq::new(
        (s.len() - 1) as nat,
        |i: int|
            if s[i + 1]@ > s[i]@ {
                0
            } else {
                s[i]@ - s[i + 1]@
            },
    )
}

/// The factor that makes a smoothed average whole: `n` for the mean of the first
/// `n` moves, and another `n` for each move after them.
#[verifier::opaque]
pub open spec fn smoothed_scale(count: nat, n: int) -> int {
    n * power(
        n as nat,
        if count <= n {
            0
        } else {
            (count - n) as nat
        },
    )
}

/// Wilder's smoothed average of at least `n` moves, times its scale. Gains and
/// losses share the scale, so it drops out of their ratio and nothing is
/// rounded.
pub open spec fn smoothed(moves: Seq<int>, n: int) -> int
    decreases moves.len(),
{
    if moves.len() == 0 {
        0
    } else if moves.len() <= n {
        smoothed(moves.drop_last(), n) + moves.last()
    } else {
        (n - 1) * smoothed(moves.drop_last(), n) + smoothed_scale((moves.len() - 1) as nat, n)
            * moves.last()
    }
}

/// Relative strength, from the average gain and the average loss at one scale.
pub open spec fn strength(gain: int, loss: int) -> int {
    if loss == 0 {
        if gain > 0 {
            100 * SCALE
        } else {
            50 * SCALE
        }
    } else {
        nearest(100 * SCALE * gain, gain + loss)
    }
}

/// The relative strength of a series.
pub open spec fn strength_of(s: Seq<Decimal>, n: int) -> int {
    strength(smoothed(gains(s), n), smoothed(losses(s), n))
}

/// The sum of samples between bounds lies between the bounds' multiples.
pub proof fn total_bounds(s: Seq<Decimal>, lo: int, hi: int)
    requires
        within(s, lo, hi),
    ensures
        s.len() * lo <= total(s) <= s.len() * hi,
    decreases s.len(),
{
    if s.len() > 0 {
        let rest = s.drop_last();
        assert(within(rest, lo, hi)) by {
            assert forall|i: int| 0 <= i < rest.len() implies lo <= (#[trigger] rest[i])@ <= hi by {
                assert(rest[i] == s[i]);
            }
        }
        total_bounds(rest, lo, hi);
        assert(s.last() == s[s.len() - 1]);
        assert(s.len() * lo == rest.len() * lo + lo) by (nonlinear_arith)
            requires
                s.len() == rest.len() + 1,
        ;
        assert(s.len() * hi == rest.len() * hi + hi) by (nonlinear_arith)
            requires
                s.len() == rest.len() + 1,
        ;
    } else {
        assert(0 * lo == 0 && 0 * hi == 0) by (nonlinear_arith);
    }
}

/// A mean lies between the bounds of its samples.
pub proof fn mean_bounds(s: Seq<Decimal>, lo: int, hi: int)
    requires
        s.len() > 0,
        within(s, lo, hi),
    ensures
        lo <= mean(s) <= hi,
{
    total_bounds(s, lo, hi);
    nearest_between(total(s), s.len() as int, lo, hi);
}

/// The scale of an exponential moving average is positive, and grows by a
/// factor with each sample after the first `n`.
pub proof fn ema_scale_step(count: nat, n: int)
    requires
        n > 0,
    ensures
        ema_scale(count, n) > 0,
        count <= n ==> ema_scale(count, n) == n,
        count >= n ==> ema_scale(count + 1, n) == ema_scale(count, n) * (n + 1),
{
    reveal(ema_scale);
    let k: nat = if count <= n {
        0
    } else {
        (count - n) as nat
    };
    let p = power((n + 1) as nat, k) as int;
    power_positive((n + 1) as nat, k);
    assert(n * p > 0 && n * 1 == n && n * ((n + 1) * p) == (n * p) * (n + 1)) by (nonlinear_arith)
        requires
            n > 0,
            p > 0,
    ;
}

/// The scaled exponential moving average lies between the scaled bounds of its
/// samples.
proof fn ema_sum_bounds(s: Seq<Decimal>, n: int, lo: int, hi: int)
    requires
        n > 0,
        within(s, lo, hi),
    ensures
        s.len() <= n ==> s.len() * lo <= ema_sum(s, n) <= s.len() * hi,
        s.len() >= n ==> ema_scale(s.len(), n) * lo <= ema_sum(s, n) <= ema_scale(s.len(), n) * hi,
    decreases s.len(),
{
    ema_scale_step(s.len(), n);
    if s.len() == 0 {
        assert(0 * lo == 0 && 0 * hi == 0) by (nonlinear_arith);
    } else {
        let rest = s.drop_last();
        assert forall|i: int| 0 <= i < rest.len() implies lo <= (#[trigger] rest[i])@ <= hi by {
            assert(rest[i] == s[i]);
        }
        ema_sum_bounds(rest, n, lo, hi);
        let last = s[s.len() - 1]@;
        if s.len() <= n {
            let k = rest.len() as int;
            assert((k + 1) * lo == k * lo + lo && (k + 1) * hi == k * hi + hi) by (nonlinear_arith);
        } else {
            ema_scale_step(rest.len(), n);
            let d = ema_scale(rest.len(), n);
            let e = ema_sum(rest, n);
            assert((d * (n + 1)) * lo <= (n - 1) * e + 2 * (d * last)) by (nonlinear_arith)
                requires
                    n >= 1,
                    d > 0,
                    d * lo <= e,
                    lo <= last,
            ;
            assert((n - 1) * e + 2 * (d * last) <= (d * (n + 1)) * hi) by (nonlinear_arith)
                requires
                    n >= 1,
                    d > 0,
                    e <= d * hi,
                    last <= hi,
            ;
        }
    }
}

/// An exponential moving average lies between the bounds of its samples.
pub proof fn ema_bounds(s: Seq<Decimal>, n: int, lo: int, hi: int)
    requires
        0 < n <= s.len(),
        within(s, lo, hi),
    ensures
        lo <= ema_micros(s, n) <= hi,
{
    ema_sum_bounds(s, n, lo, hi);
    ema_scale_step(s.len(), n);
    nearest_between(ema_sum(s, n), ema_scale(s.len(), n), lo, hi);
}

/// The scale of a smoothed average is positive, and grows by a factor with each
/// move after the first `n`.
pub proof fn smoothed_scale_step(count: nat, n: int)
    requires
        n > 0,
    ensures
        smoothed_scale(count, n) > 0,
        count <= n ==> smoothed_scale(count, n) == n,
        count >= n ==> smoothed_scale(count + 1, n) == n * smoothed_scale(count, n),
{
    reveal(smoothed_scale);
    let k: nat = if count <= n {
        0
    } else {
        (count - n) as nat
    };
    let p = power(n as nat, k) as int;
    power_positive(n as nat, k);
    assert(n * p > 0 && n * 1 == n && n * (n * p) == n * (n * p)) by (nonlinear_arith)
        requires
            n > 0,
            p > 0,
    ;
}

/// The scaled smoothed average lies between the scaled bounds of its moves.
proof fn smoothed_between(moves: Seq<int>, n: int, lo: int, hi: int)
    requires
        n > 0,
        forall|i: int| 0 <= i < moves.len() ==> lo <= (#[trigger] moves[i]) <= hi,
    ensures
        moves.len() <= n ==> moves.len() * lo <= smoothed(moves, n) <= moves.len() * hi,
        moves.len() >= n ==> smoothed_scale(moves.len(), n) * lo <= smoothed(moves, n)
            <= smoothed_scale(moves.len(), n) * hi,
    decreases moves.len(),
{
    smoothed_scale_step(moves.len(), n);
    if moves.len() == 0 {
        assert(0 * lo == 0 && 0 * hi == 0) by (nonlinear_arith);
    } else {
        let rest = moves.drop_last();
        assert forall|i: int| 0 <= i < rest.len() implies lo <= (#[trigger] rest[i]) <= hi by {
            assert(rest[i] == moves[i]);
        }
        smoothed_between(rest, n, lo, hi);
        let last = moves[moves.len() - 1];
        if moves.len() <= n {
            let k = rest.len() as int;
            assert((k + 1) * lo == k * lo + lo && (k + 1) * hi == k * hi + hi) by (nonlinear_arith);
        } else {
            smoothed_scale_step(rest.len(), n);
            let d = smoothed_scale(rest.len(), n);
            let e = smoothed(rest, n);
            assert((n * d) * lo <= (n - 1) * e + d * last) by (nonlinear_arith)
                requires
                    n >= 1,
                    d > 0,
                    d * lo <= e,
                    lo <= last,
            ;
            assert((n - 1) * e + d * last <= (n * d) * hi) by (nonlinear_arith)
                requires
                    n >= 1,
                    d > 0,
                    e <= d * hi,
                    last <= hi,
            ;
        }
    }
}

/// A Wilder average lies between the bounds of its samples.
pub proof fn wilder_bounds(s: Seq<Decimal>, n: int, lo: int, hi: int)
    requires
        0 < n <= s.len(),
        within(s, lo, hi),
    ensures
        lo <= wilder_micros(s, n) <= hi,
{
    let moves = amounts(s);
    assert forall|i: int| 0 <= i < moves.len() implies lo <= (#[trigger] moves[i]) <= hi by {
        assert(lo <= s[i]@ <= hi);
    }
    smoothed_between(moves, n, lo, hi);
    smoothed_scale_step(s.len(), n);
    nearest_between(smoothed(moves, n), smoothed_scale(s.len(), n), lo, hi);
}

/// The sum of the samples from `from` up to `to`.
fn sum_range(values: &[Decimal], from: usize, to: usize) -> (sum: i128)
    requires
        from <= to <= values@.len(),
        multiples_fit(values@.subrange(from as int, to as int), to - from),
    ensures
        sum == total(values@.subrange(from as int, to as int)),
        sum > i128::MIN,
{
    let ghost part = values@.subrange(from as int, to as int);
    let ghost mut b: int = 0;
    proof {
        if from < to {
            b = multiples_bound(part, to - from);
        }
        assert(0 * b == 0) by (nonlinear_arith);
    }
    let mut sum: i128 = 0;
    let mut i: usize = from;
    while i < to
        invariant
            from <= i <= to <= values@.len(),
            part == values@.subrange(from as int, to as int),
            b >= 0,
            (to - from) * b <= i128::MAX,
            within(part, -b, b),
            sum == total(values@.subrange(from as int, i as int)),
            -((i - from) * b) <= sum <= (i - from) * b,
            sum > i128::MIN,
        decreases to - i,
    {
        proof {
            let next = values@.subrange(from as int, i + 1);
            assert(next.drop_last() =~= values@.subrange(from as int, i as int));
            assert(next.last() == values@[i as int]);
            assert(part[i - from] == values@[i as int]);
            let done = i - from;
            assert((done + 1) * b == done * b + b) by (nonlinear_arith);
            assert((done + 1) * b <= (to - from) * b) by (nonlinear_arith)
                requires
                    done + 1 <= to - from,
                    b >= 0,
            ;
        }
        sum = sum + values[i].micros;
        i += 1;
    }
    sum
}

/// Simple moving average of the last `n` samples.
pub fn sma(values: &[Decimal], n: usize) -> (r: Option<Decimal>)
    requires
        0 < n <= values@.len() ==> multiples_fit(tail(values@, n as int), n as int),
    ensures
        r is Some <==> 0 < n <= values@.len(),
        r matches Some(d) ==> d@ == mean(tail(values@, n as int)),
{
    if n == 0 || values.len() < n {
        return None;
    }
    let sum: i128 = sum_range(values, values.len() - n, values.len());
    Some(Decimal { micros: divide_nearest(sum, n as i128) })
}

/// Exponential moving average over the whole series, seeded with the SMA of the
/// first `n` samples.
///
/// `None` until at least `n` samples exist.
pub fn ema(values: &[Decimal], n: usize) -> (r: Option<Decimal>)
    ensures
        r is Some <==> 0 < n <= values@.len(),
        r matches Some(d) ==> d@ == ema_micros(values@, n as int),
{
    if n == 0 || values.len() < n {
        return None;
    }
    let keep: u64 = n as u64 - 1;
    // Positive and negative samples are weighed apart.
    let mut plus: Natural = Natural::from_u128(0);
    let mut minus: Natural = Natural::from_u128(0);
    let mut scale: Natural = Natural::from_u128(n as u128);
    let mut i: usize = 0;
    proof {
        ema_scale_step(0, n as int);
        assert(values@.take(0).len() == 0);
    }
    while i < values.len()
        invariant
            0 < n <= values@.len(),
            keep == n - 1,
            i <= values@.len(),
            plus@ - minus@ == ema_sum(values@.take(i as int), n as int),
            scale@ == ema_scale(i as nat, n as int),
        decreases values@.len() - i,
    {
        let x: i128 = values[i].micros;
        let size: Natural = Natural::from_u128(unsigned(x));
        let seeding: bool = i < n;
        proof {
            let next = values@.take(i + 1);
            assert(next.drop_last() =~= values@.take(i as int));
            assert(next.last() == values@[i as int]);
            ema_scale_step(i as nat, n as int);
            ema_scale_step((i + 1) as nat, n as int);
            let p = plus@ as int;
            let m = minus@ as int;
            let d = scale@ as int;
            let k = keep as int;
            let a = magnitude(x as int);
            assert(p * k - m * k == k * (p - m)) by (nonlinear_arith);
            assert(d * a == d * x || d * a == -(d * x)) by (nonlinear_arith)
                requires
                    a == x || a == -x,
            ;
            assert(x < 0 ==> d * a == -(d * x)) by (nonlinear_arith)
                requires
                    x < 0 ==> a == -x,
            ;
            assert(x >= 0 ==> d * a == d * x);
        }
        let share: Natural = if seeding {
            size
        } else {
            plus = plus.times(keep);
            minus = minus.times(keep);
            scale.multiplied(&size).times(2)
        };
        if x < 0 {
            minus = minus.plus(&share);
        } else {
            plus = plus.plus(&share);
        }
        if !seeding {
            scale = scale.times(n as u64 + 1);
        }
        i += 1;
    }
    proof {
        assert(values@.take(i as int) =~= values@);
        let s = values@;
        ema_sum_bounds(s, n as int, i128::MIN as int, i128::MAX as int);
        ema_scale_step(s.len(), n as int);
    }
    Some(Decimal { micros: round_ratio(&plus, &minus, &scale) })
}

/// `(plus - minus) / scale` to the nearest integer, halves away from zero.
fn round_ratio(plus: &Natural, minus: &Natural, scale: &Natural) -> (q: i128)
    requires
        scale@ > 0,
        scale@ * i128::MIN <= plus@ - minus@ <= scale@ * i128::MAX,
    ensures
        q == nearest(plus@ - minus@, scale@ as int),
{
    let ghost d = scale@ as int;
    if minus.at_most(plus) {
        let top: Natural = plus.minus(minus);
        assert(d * i128::MAX == i128::MAX * d) by (nonlinear_arith);
        top.nearest_up_to(scale, i128::MAX as u128) as i128
    } else {
        let top: Natural = minus.minus(plus);
        let limit: u128 = 0x8000_0000_0000_0000_0000_0000_0000_0000;
        assert(d * i128::MIN == -(limit * d)) by (nonlinear_arith)
            requires
                i128::MIN == -limit,
        ;
        let size: u128 = top.nearest_up_to(scale, limit);
        if size == 0 {
            0
        } else {
            -((size - 1) as i128) - 1
        }
    }
}

/// The true ranges of bars can be held.
pub open spec fn ranges_fit(bars: Seq<Candle>) -> bool {
    forall|i: int|
        0 < i < bars.len() ==> (#[trigger] bars[i]).true_range_micros(Some(bars[i - 1].close))
            <= i128::MAX
}

/// The true range of every bar but the first.
pub(crate) fn ranges_of(candles: &[Candle]) -> (ranges: Vec<Decimal>)
    requires
        candles@.len() > 0,
        ranges_fit(candles@),
    ensures
        ranges@ == true_ranges(candles@),
        forall|i: int| 0 <= i < ranges@.len() ==> (#[trigger] ranges@[i])@ >= 0,
{
    let mut ranges: Vec<Decimal> = Vec::new();
    let mut i: usize = 1;
    while i < candles.len()
        invariant
            1 <= i <= candles@.len(),
            ranges_fit(candles@),
            ranges@ =~= true_ranges(candles@).take(i - 1),
            forall|j: int| 0 <= j < ranges@.len() ==> (#[trigger] ranges@[j])@ >= 0,
        decreases candles@.len() - i,
    {
        assert(candles@[i as int].true_range_micros(Some(candles@[i - 1].close)) >= 0);
        ranges.push(candles[i].true_range(Some(candles[i - 1].close)));
        i += 1;
    }
    assert(ranges@ =~= true_ranges(candles@));
    ranges
}

/// Wilder's smoothed average of samples that are not negative, times its scale;
/// and that scale.
pub(crate) fn smooth_all(values: &[Decimal], n: usize) -> (r: (Natural, Natural))
    requires
        0 < n <= values@.len(),
        forall|i: int| 0 <= i < values@.len() ==> (#[trigger] values@[i])@ >= 0,
    ensures
        r.0@ == smoothed(amounts(values@), n as int),
        r.1@ == smoothed_scale(values@.len(), n as int),
{
    let ghost moves = amounts(values@);
    let period: u64 = n as u64;
    let mut sum: Natural = Natural::from_u128(0);
    let mut scale: Natural = Natural::from_u128(n as u128);
    let mut i: usize = 0;
    proof {
        assert(moves.take(0).len() == 0);
        smoothed_scale_step(0, n as int);
    }
    while i < values.len()
        invariant
            0 < n <= values@.len(),
            period == n,
            i <= values@.len(),
            moves == amounts(values@),
            forall|k: int| 0 <= k < values@.len() ==> (#[trigger] values@[k])@ >= 0,
            sum@ == smoothed(moves.take(i as int), n as int),
            scale@ == smoothed_scale(i as nat, n as int),
        decreases values@.len() - i,
    {
        let seeding: bool = i < n;
        proof {
            assert(moves.take(i + 1).drop_last() =~= moves.take(i as int));
            assert(moves.take(i + 1).last() == values@[i as int]@);
            assert(values@[i as int]@ >= 0);
            smoothed_scale_step(i as nat, n as int);
            smoothed_scale_step((i + 1) as nat, n as int);
            let s = scale@;
            assert(s * n == n * s) by (nonlinear_arith);
        }
        sum = smooth(&sum, period, seeding, &scale, values[i].micros as u128);
        if !seeding {
            scale = scale.times(period);
        }
        i += 1;
    }
    assert(moves.take(i as int) =~= moves);
    (sum, scale)
}

/// Wilder's Average True Range over `n` bars.
///
/// Needs `n + 1` bars: the first bar only supplies the previous close.
pub fn atr(candles: &[Candle], n: usize) -> (r: Option<Decimal>)
    requires
        0 < n < candles@.len() ==> ranges_fit(candles@),
    ensures
        r is Some <==> 0 < n < candles@.len(),
        r matches Some(d) ==> d@ == wilder_micros(true_ranges(candles@), n as int),
{
    if n == 0 || candles.len() <= n {
        return None;
    }
    let ranges: Vec<Decimal> = ranges_of(candles);
    let (sum, scale): (Natural, Natural) = smooth_all(ranges.as_slice(), n);
    proof {
        let moves = amounts(ranges@);
        let top = i128::MAX as int;
        assert forall|i: int| 0 <= i < moves.len() implies 0 <= (#[trigger] moves[i]) <= top by {
            assert(ranges@[i]@ >= 0);
        }
        smoothed_between(moves, n as int, 0, top);
        smoothed_scale_step(moves.len(), n as int);
        let d = scale@ as int;
        assert(d * top == top * d) by (nonlinear_arith);
    }
    Some(Decimal { micros: sum.nearest_up_to(&scale, i128::MAX as u128) as i128 })
}

/// The distance between two integers.
fn gap(a: i128, b: i128) -> (d: u128)
    ensures
        d == magnitude(a - b),
{
    if (a < 0) == (b < 0) {
        unsigned(a - b)
    } else {
        unsigned(a) + unsigned(b)
    }
}

/// The smoothed average after one more move.
fn smooth(acc: &Natural, n: u64, seeding: bool, scale: &Natural, step: u128) -> (r: Natural)
    requires
        n > 0,
    ensures
        r@ == if seeding {
            acc@ + step
        } else {
            (n - 1) * acc@ + scale@ * step
        },
{
    let fresh: Natural = Natural::from_u128(step);
    if seeding {
        acc.plus(&fresh)
    } else {
        let ghost kept = acc@;
        assert(kept * (n - 1) == (n - 1) * kept) by (nonlinear_arith);
        acc.times(n - 1).plus(&scale.multiplied(&fresh))
    }
}

/// Smoothed averages of moves that are not negative are not negative.
pub proof fn smoothed_bounds(moves: Seq<int>, n: int, least: int)
    requires
        n > 0,
        0 <= least <= 1,
        moves.len() > 0,
        forall|i: int| 0 <= i < moves.len() ==> (#[trigger] moves[i]) >= least,
    ensures
        smoothed(moves, n) >= least,
    decreases moves.len(),
{
    let rest = moves.drop_last();
    let last = moves[moves.len() - 1];
    assert(last >= least);
    if rest.len() > 0 {
        assert forall|i: int| 0 <= i < rest.len() implies (#[trigger] rest[i]) >= least by {
            assert(rest[i] == moves[i]);
        }
        smoothed_bounds(rest, n, least);
    }
    if moves.len() > n {
        let kept = smoothed(rest, n);
        let p = smoothed_scale(rest.len(), n);
        smoothed_scale_step(rest.len(), n);
        assert((n - 1) * kept + p * last >= least) by (nonlinear_arith)
            requires
                n >= 1,
                kept >= 0,
                p >= 1,
                last >= least,
                least >= 0,
        ;
    }
}

/// Smoothed averages of no moves at all are zero.
proof fn smoothed_zero(moves: Seq<int>, n: int)
    requires
        n > 0,
        forall|i: int| 0 <= i < moves.len() ==> (#[trigger] moves[i]) == 0,
    ensures
        smoothed(moves, n) == 0,
    decreases moves.len(),
{
    if moves.len() > 0 {
        let rest = moves.drop_last();
        assert(moves[moves.len() - 1] == 0);
        assert forall|i: int| 0 <= i < rest.len() implies (#[trigger] rest[i]) == 0 by {
            assert(rest[i] == moves[i]);
        }
        smoothed_zero(rest, n);
        if moves.len() > n {
            let p = smoothed_scale(rest.len(), n);
            assert((n - 1) * 0 + p * 0 == 0) by (nonlinear_arith);
        }
    }
}

/// Wilder's RSI over `n` periods, in `[0, 100]`.
///
/// The averages are kept as whole numbers over a common denominator, so the
/// result is the formula rounded once.
pub fn rsi(values: &[Decimal], n: usize) -> (r: Option<Decimal>)
    ensures
        r is Some <==> 0 < n < values@.len(),
        r matches Some(d) ==> d@ == strength_of(values@, n as int) && 0 <= d@ <= 100 * SCALE,
{
    if n == 0 || values.len() <= n {
        return None;
    }
    let ghost up_moves = gains(values@);
    let ghost down_moves = losses(values@);
    let period: u64 = n as u64;
    let mut up: Natural = Natural::from_u128(0);
    let mut down: Natural = Natural::from_u128(0);
    let mut scale: Natural = Natural::from_u128(n as u128);
    let mut i: usize = 1;
    proof {
        assert(up_moves.take(0) =~= Seq::empty() && down_moves.take(0) =~= Seq::empty());
        smoothed_scale_step(0, n as int);
    }
    while i < values.len()
        invariant
            0 < n < values@.len(),
            period == n,
            1 <= i <= values@.len(),
            up_moves == gains(values@),
            down_moves == losses(values@),
            up@ == smoothed(up_moves.take(i - 1), n as int),
            down@ == smoothed(down_moves.take(i - 1), n as int),
            scale@ == smoothed_scale((i - 1) as nat, n as int),
        decreases values@.len() - i,
    {
        let seeding: bool = i <= n;
        let rises: bool = values[i].micros > values[i - 1].micros;
        let rise: u128 = if rises {
            gap(values[i].micros, values[i - 1].micros)
        } else {
            0
        };
        let fall: u128 = if rises {
            0
        } else {
            gap(values[i - 1].micros, values[i].micros)
        };
        proof {
            assert(up_moves.take(i as int).drop_last() =~= up_moves.take(i - 1));
            assert(down_moves.take(i as int).drop_last() =~= down_moves.take(i - 1));
            assert(up_moves.take(i as int).last() == rise);
            assert(down_moves.take(i as int).last() == fall);
            smoothed_scale_step((i - 1) as nat, n as int);
            smoothed_scale_step(i as nat, n as int);
            let s = scale@;
            assert(s * n == n * s) by (nonlinear_arith);
        }
        up = smooth(&up, period, seeding, &scale, rise);
        down = smooth(&down, period, seeding, &scale, fall);
        if !seeding {
            scale = scale.times(period);
        }
        i += 1;
    }
    proof {
        assert(up_moves.take(i - 1) =~= up_moves);
        assert(down_moves.take(i - 1) =~= down_moves);
        strength_bounds(up@ as int, down@ as int);
    }
    if down.is_zero() {
        if up.is_zero() {
            return Some(Decimal { micros: 50 * SCALE });
        }
        return Some(Decimal { micros: 100 * SCALE });
    }
    let both: Natural = up.plus(&down);
    let share: Natural = up.times(100_000_000);
    proof {
        let g = up@ as int;
        let b = both@ as int;
        assert(g * 100_000_000 <= 100_000_000 * b) by (nonlinear_arith)
            requires
                0 <= g <= b,
        ;
        assert(100 * SCALE * g == g * 100_000_000) by (nonlinear_arith)
            requires
                SCALE == 1_000_000,
        ;
    }
    Some(Decimal { micros: share.nearest_up_to(&both, 100_000_000) as i128 })
}

/// Relative strength lies between 0 and 100.
pub proof fn strength_bounds(gain: int, loss: int)
    requires
        gain >= 0,
        loss >= 0,
    ensures
        0 <= strength(gain, loss) <= 100 * SCALE,
{
    if loss > 0 {
        assert((gain + loss) * 0 <= 100_000_000 * gain <= (gain + loss) * 100_000_000)
            by (nonlinear_arith)
            requires
                gain >= 0,
                loss > 0,
        ;
        nearest_between(100 * SCALE * gain, gain + loss, 0, 100 * SCALE);
    }
}

/// Volume-weighted average price and its bands.
#[derive(Debug, Clone, Copy, PartialEq, Eq, Structural)]
pub struct Vwap {
    pub vwap: Decimal,
    pub upper: Decimal,
    pub lower: Decimal,
    /// Volume-weighted standard deviation of the typical price.
    pub sigma: Decimal,
}

/// The quantity traded over all bars.
pub open spec fn total_volume(bars: Seq<Candle>) -> int
    decreases bars.len(),
{
    if bars.len() == 0 {
        0
    } else {
        total_volume(bars.drop_last()) + bars.last().volume
    }
}

/// The weight of a bar: its volume, or one when no bar has any.
pub open spec fn weight(c: Candle, by_volume: bool) -> int {
    if by_volume {
        c.volume as int
    } else {
        1
    }
}

/// The sum of the weights.
pub open spec fn weight_sum(bars: Seq<Candle>, by_volume: bool) -> int
    decreases bars.len(),
{
    if bars.len() == 0 {
        0
    } else {
        weight_sum(bars.drop_last(), by_volume) + weight(bars.last(), by_volume)
    }
}

/// The weighted sum of the bars' prices: three times that of the typical prices.
pub open spec fn price_total(bars: Seq<Candle>, by_volume: bool) -> int
    decreases bars.len(),
{
    if bars.len() == 0 {
        0
    } else {
        price_total(bars.drop_last(), by_volume) + bars.last().price_sum() * weight(
            bars.last(),
            by_volume,
        )
    }
}

/// The weighted sum of the squares of `w * prices - t`. With `w` the sum of the
/// weights and `t` that of the prices, each term is the distance of a typical
/// price from their mean, times `3 * w`.
pub open spec fn spread_total(bars: Seq<Candle>, by_volume: bool, w: int, t: int) -> int
    decreases bars.len(),
{
    if bars.len() == 0 {
        0
    } else {
        spread_total(bars.drop_last(), by_volume, w, t) + (w * bars.last().price_sum() - t) * (w
            * bars.last().price_sum() - t) * weight(bars.last(), by_volume)
    }
}

/// The sum of the weights of some bars.
pub open spec fn bar_weights(bars: Seq<Candle>) -> int {
    weight_sum(bars, total_volume(bars) > 0)
}

/// The weighted sum of the prices of some bars.
pub open spec fn bar_prices(bars: Seq<Candle>) -> int {
    price_total(bars, total_volume(bars) > 0)
}

/// The weighted sum of the squared distances of some bars from their mean.
pub open spec fn bar_spread(bars: Seq<Candle>) -> int {
    spread_total(bars, total_volume(bars) > 0, bar_weights(bars), bar_prices(bars))
}

/// The volume-weighted average price of at least one bar.
pub open spec fn vwap_micros(bars: Seq<Candle>) -> int {
    nearest(bar_prices(bars), 3 * bar_weights(bars))
}

/// The weighted variance of the typical prices around their mean, rounded down.
pub open spec fn variance(bars: Seq<Candle>) -> int {
    let w = bar_weights(bars);
    bar_spread(bars) / (9 * (w * (w * w)))
}

/// Whether `z` is the distance of `spot` from the mean of the typical prices in
/// standard deviations, cut toward zero; zero when there is no dispersion.
///
/// The distance is `d / (3 * w)` and the variance `spread / (9 * w^3)`, so that
/// the square of their ratio is `w * d^2 / spread`.
pub open spec fn is_distance(bars: Seq<Candle>, spot: int, z: int) -> bool {
    let w = bar_weights(bars);
    let d = 3 * w * spot - bar_prices(bars);
    if bar_spread(bars) == 0 {
        z == 0
    } else {
        &&& is_floor_root((SCALE * SCALE) * (w * (d * d)) / bar_spread(bars), magnitude(z))
        &&& z > 0 ==> d > 0
        &&& z < 0 ==> d < 0
    }
}

/// The weights are never negative; they sum to the volume, or to the count.
pub proof fn weight_sum_value(bars: Seq<Candle>, by_volume: bool)
    ensures
        weight_sum(bars, by_volume) == if by_volume {
            total_volume(bars)
        } else {
            bars.len() as int
        },
        weight_sum(bars, by_volume) >= 0,
        total_volume(bars) >= 0,
    decreases bars.len(),
{
    if bars.len() > 0 {
        weight_sum_value(bars.drop_last(), by_volume);
    }
}

/// A prefix of the bars carries no more weight than all of them.
proof fn weight_prefix(bars: Seq<Candle>, by_volume: bool, i: int)
    requires
        0 <= i <= bars.len(),
    ensures
        0 <= weight_sum(bars.take(i), by_volume) <= weight_sum(bars, by_volume),
    decreases bars.len(),
{
    weight_sum_value(bars.take(i), by_volume);
    if i < bars.len() {
        assert(bars.take(i) =~= bars.drop_last().take(i));
        weight_prefix(bars.drop_last(), by_volume, i);
    } else {
        assert(bars.take(i) =~= bars);
    }
}

/// A weighted sum of prices between bounds lies between the bounds' multiples.
proof fn price_total_bounds(bars: Seq<Candle>, by_volume: bool, lo: int, hi: int)
    requires
        forall|i: int| 0 <= i < bars.len() ==> lo <= (#[trigger] bars[i]).price_sum() <= hi,
    ensures
        weight_sum(bars, by_volume) * lo <= price_total(bars, by_volume) <= weight_sum(
            bars,
            by_volume,
        ) * hi,
    decreases bars.len(),
{
    if bars.len() > 0 {
        let rest = bars.drop_last();
        assert forall|i: int| 0 <= i < rest.len() implies lo <= (#[trigger] rest[i]).price_sum()
            <= hi by {
            assert(rest[i] == bars[i]);
        }
        price_total_bounds(rest, by_volume, lo, hi);
        let last = bars[bars.len() - 1];
        let t = last.price_sum();
        let w = weight(last, by_volume);
        let before = weight_sum(rest, by_volume);
        assert(w * lo <= t * w <= w * hi) by (nonlinear_arith)
            requires
                lo <= t <= hi,
                w >= 0,
        ;
        assert((before + w) * lo == before * lo + w * lo) by (nonlinear_arith);
        assert((before + w) * hi == before * hi + w * hi) by (nonlinear_arith);
    } else {
        assert(0 * lo == 0 && 0 * hi == 0) by (nonlinear_arith);
    }
}

/// A weighted sum of squares of numbers up to `reach`.
proof fn spread_bounds(bars: Seq<Candle>, by_volume: bool, w: int, t: int, reach: int)
    requires
        reach >= 0,
        forall|i: int|
            0 <= i < bars.len() ==> -reach <= w * (#[trigger] bars[i]).price_sum() - t <= reach,
    ensures
        0 <= spread_total(bars, by_volume, w, t) <= weight_sum(bars, by_volume) * (reach * reach),
    decreases bars.len(),
{
    if bars.len() > 0 {
        let rest = bars.drop_last();
        assert forall|i: int| 0 <= i < rest.len() implies -reach <= w * (
        #[trigger] rest[i]).price_sum() - t <= reach by {
            assert(rest[i] == bars[i]);
        }
        spread_bounds(rest, by_volume, w, t, reach);
        let last = bars[bars.len() - 1];
        let d = w * last.price_sum() - t;
        let share = weight(last, by_volume);
        let before = weight_sum(rest, by_volume);
        let cap = reach * reach;
        assert(0 <= d * d <= cap) by (nonlinear_arith)
            requires
                -reach <= d <= reach,
                cap == reach * reach,
        ;
        let dd = d * d;
        assert(0 <= dd * share <= share * cap) by (nonlinear_arith)
            requires
                0 <= dd <= cap,
                share >= 0,
        ;
        assert((before + share) * cap == before * cap + share * cap) by (nonlinear_arith);
    } else {
        assert(0 * (reach * reach) == 0) by (nonlinear_arith);
    }
}

/// Whether the sums behind the average price can be formed: the prices of each
/// bar, three times the weights, and the weights' sum times any bar's prices.
pub open spec fn prices_weigh(bars: Seq<Candle>) -> bool {
    &&& 3 * bar_weights(bars) <= i128::MAX
    &&& forall|i: int|
        0 <= i < bars.len() ==> {
            &&& (#[trigger] bars[i]).sum_fits()
            &&& bar_weights(bars) * magnitude(bars[i].price_sum()) <= i128::MAX
        }
}

/// Whether the bands at `k` standard deviations can be formed.
pub open spec fn bands_fit(bars: Seq<Candle>, k: int) -> bool {
    forall|sigma: int| #[trigger]
        is_floor_root(variance(bars), sigma) ==> {
            &&& i128::MIN < k * sigma <= i128::MAX
            &&& i128::MIN <= vwap_micros(bars) + nearest(k * sigma, SCALE as int) <= i128::MAX
            &&& i128::MIN <= vwap_micros(bars) - nearest(k * sigma, SCALE as int) <= i128::MAX
        }
}

/// Whether the distance of `spot` from the mean can be formed, as a sum and in
/// standard deviations.
pub open spec fn distance_fits(bars: Seq<Candle>, spot: int) -> bool {
    let w = bar_weights(bars);
    let d = 3 * w * spot - bar_prices(bars);
    &&& i128::MIN <= 3 * w * spot <= i128::MAX
    &&& bar_spread(bars) != 0 ==> (SCALE * SCALE) * (w * (d * d)) < (i128::MAX * i128::MAX)
        * bar_spread(bars)
}

/// The quantity traded over all bars.
fn volume_of(candles: &[Candle]) -> (sum: u128)
    ensures
        sum == total_volume(candles@),
{
    let mut sum: u128 = 0;
    let mut i: usize = 0;
    while i < candles.len()
        invariant
            i <= candles@.len(),
            sum == total_volume(candles@.take(i as int)),
            sum <= i * 0xffff_ffff_ffff_ffff,
        decreases candles@.len() - i,
    {
        assert(candles@.take(i + 1).drop_last() =~= candles@.take(i as int));
        sum = sum + candles[i].volume as u128;
        i += 1;
    }
    assert(candles@.take(i as int) =~= candles@);
    sum
}

/// The bound on the prices of bars that weigh.
proof fn price_bound(bars: Seq<Candle>) -> (b: int)
    requires
        bars.len() > 0,
        prices_weigh(bars),
    ensures
        bar_weights(bars) > 0,
        b >= 0,
        b <= i128::MAX,
        bar_weights(bars) * b <= i128::MAX,
        forall|i: int| 0 <= i < bars.len() ==> -b <= (#[trigger] bars[i]).price_sum() <= b,
{
    weight_sum_value(bars, total_volume(bars) > 0);
    let sums = bars.map_values(|c: Candle| Decimal { micros: c.price_sum() as i128 });
    assert forall|i: int| 0 <= i < sums.len() implies bar_weights(bars) * magnitude(
        (#[trigger] sums[i])@,
    ) <= i128::MAX by {
        assert(bars[i].sum_fits());
    }
    let b = multiples_bound(sums, bar_weights(bars));
    assert forall|i: int| 0 <= i < bars.len() implies -b <= (#[trigger] bars[i]).price_sum()
        <= b by {
        assert(bars[i].sum_fits());
        assert(-b <= sums[i]@ <= b);
    }
    b
}

/// The weighted sum of the prices of bars, and of their weights.
fn weigh(candles: &[Candle], by_volume: bool) -> (sums: (i128, i128))
    requires
        prices_weigh(candles@),
        by_volume == (total_volume(candles@) > 0),
        candles@.len() > 0,
    ensures
        sums.0 == bar_prices(candles@),
        sums.1 == bar_weights(candles@),
        sums.0 > i128::MIN,
        sums.1 > 0,
{
    let ghost whole = bar_weights(candles@);
    let ghost b: int = price_bound(candles@);
    let mut sum: i128 = 0;
    let mut weights: i128 = 0;
    let mut i: usize = 0;
    assert(0 * b == 0) by (nonlinear_arith);
    while i < candles.len()
        invariant
            i <= candles@.len(),
            whole == weight_sum(candles@, by_volume),
            0 < whole <= i128::MAX,
            b >= 0,
            whole * b <= i128::MAX,
            forall|k: int| 0 <= k < candles@.len() ==> (#[trigger] candles@[k]).sum_fits(),
            forall|k: int|
                0 <= k < candles@.len() ==> -b <= (#[trigger] candles@[k]).price_sum() <= b,
            sum == price_total(candles@.take(i as int), by_volume),
            weights == weight_sum(candles@.take(i as int), by_volume),
            0 <= weights <= whole,
            -(weights * b) <= sum <= weights * b,
        decreases candles@.len() - i,
    {
        let ghost next = candles@.take(i + 1);
        let w: i128 = if by_volume {
            candles[i].volume as i128
        } else {
            1
        };
        let t: i128 = candles[i].sum_of_prices();
        proof {
            assert(next.drop_last() =~= candles@.take(i as int));
            assert(next.last() == candles@[i as int]);
            weight_prefix(candles@, by_volume, i + 1);
            assert(-(w * b) <= t * w <= w * b) by (nonlinear_arith)
                requires
                    -b <= t <= b,
                    w >= 0,
            ;
            assert((weights + w) * b == weights * b + w * b) by (nonlinear_arith);
            assert((weights + w) * b <= whole * b) by (nonlinear_arith)
                requires
                    weights + w <= whole,
                    b >= 0,
            ;
            assert(weights * b >= 0 && w * b >= 0) by (nonlinear_arith)
                requires
                    weights >= 0,
                    w >= 0,
                    b >= 0,
            ;
        }
        sum = sum + t * w;
        weights = weights + w;
        i += 1;
    }
    assert(candles@.take(i as int) =~= candles@);
    (sum, weights)
}

/// The square of a distance.
fn square_of(a: i128, b: i128) -> (square: Natural)
    ensures
        square@ == (a - b) * (a - b),
{
    let d: Natural = Natural::from_u128(gap(a, b));
    proof {
        let m = magnitude(a - b);
        let e = a - b;
        assert(m * m == e * e) by (nonlinear_arith)
            requires
                m == e || m == -e,
        ;
    }
    d.multiplied(&d)
}

/// The weighted sum of the squared distances of bars from their mean.
fn spread_of(candles: &[Candle], by_volume: bool, weights: i128, sum: i128) -> (squares: Natural)
    requires
        prices_weigh(candles@),
        weights == bar_weights(candles@),
        weights >= 0,
    ensures
        squares@ == spread_total(candles@, by_volume, weights as int, sum as int),
{
    let mut squares: Natural = Natural::from_u128(0);
    let mut i: usize = 0;
    while i < candles.len()
        invariant
            i <= candles@.len(),
            prices_weigh(candles@),
            weights == bar_weights(candles@),
            weights >= 0,
            squares@ == spread_total(
                candles@.take(i as int),
                by_volume,
                weights as int,
                sum as int,
            ),
        decreases candles@.len() - i,
    {
        let ghost next = candles@.take(i + 1);
        let ghost x = candles@[i as int].price_sum();
        proof {
            assert(next.drop_last() =~= candles@.take(i as int));
            assert(next.last() == candles@[i as int]);
            assert(candles@[i as int].sum_fits());
            let m = magnitude(x);
            assert(magnitude(weights * x) == weights * m) by (nonlinear_arith)
                requires
                    weights >= 0,
                    m == x || m == -x,
                    m >= 0,
            ;
        }
        let w: u64 = if by_volume {
            candles[i].volume
        } else {
            1
        };
        let scaled: i128 = weights * candles[i].sum_of_prices();
        squares = squares.plus(&square_of(scaled, sum).times(w));
        i += 1;
    }
    assert(candles@.take(i as int) =~= candles@);
    squares
}

/// The sums over bars from which their average price and its spread follow.
pub(crate) struct Weighed {
    prices: i128,
    weights: i128,
    spread: Natural,
}

impl Weighed {
    /// Whether these are the sums of some bars.
    pub(crate) closed spec fn is_of(&self, bars: Seq<Candle>) -> bool {
        &&& bars.len() > 0
        &&& prices_weigh(bars)
        &&& self.prices == bar_prices(bars)
        &&& self.prices > i128::MIN
        &&& self.weights == bar_weights(bars)
        &&& self.weights > 0
        &&& self.spread@ == bar_spread(bars)
    }

    /// The sums over at least one bar.
    pub(crate) fn of(candles: &[Candle]) -> (sums: Weighed)
        requires
            candles@.len() > 0,
            prices_weigh(candles@),
        ensures
            sums.is_of(candles@),
    {
        let by_volume: bool = volume_of(candles) > 0;
        let (prices, weights) = weigh(candles, by_volume);
        let spread: Natural = spread_of(candles, by_volume, weights, prices);
        Weighed { prices, weights, spread }
    }

    /// The average price.
    pub(crate) fn vwap(&self, Ghost(bars): Ghost<Seq<Candle>>) -> (v: Decimal)
        requires
            self.is_of(bars),
        ensures
            v@ == vwap_micros(bars),
    {
        Decimal { micros: divide_nearest(self.prices, 3 * self.weights) }
    }

    /// The standard deviation of the typical prices.
    pub(crate) fn sigma(&self, Ghost(bars): Ghost<Seq<Candle>>) -> (s: Decimal)
        requires
            self.is_of(bars),
        ensures
            is_floor_root(variance(bars), s@),
    {
        let w: Natural = Natural::from_u128(self.weights as u128);
        let divisor: Natural = w.multiplied(&w.multiplied(&w)).times(9);
        proof {
            sigma_fits(bars);
            let k = self.weights as int;
            assert((k * (k * k)) * 9 == 9 * (k * (k * k))) by (nonlinear_arith);
        }
        Decimal { micros: self.spread.root_below(&divisor, i128::MAX as u128) as i128 }
    }

    /// The distance of `spot` from the mean in standard deviations.
    pub(crate) fn distance(&self, spot: Decimal, Ghost(bars): Ghost<Seq<Candle>>) -> (z: Decimal)
        requires
            self.is_of(bars),
            distance_fits(bars, spot@),
        ensures
            is_distance(bars, spot@, z@),
            z@ > i128::MIN,
    {
        if self.spread.is_zero() {
            return Decimal { micros: 0 };
        }
        let at: i128 = 3 * self.weights * spot.micros;
        let square: Natural = square_of(at, self.prices);
        let w: Natural = Natural::from_u128(self.weights as u128);
        let top: Natural = Natural::from_u128(1_000_000_000_000).multiplied(
            &w.multiplied(&square),
        );
        let z: i128 = top.root_below(&self.spread, i128::MAX as u128) as i128;
        proof {
            let d = at - self.prices;
            assert(d == 0 ==> z == 0) by {
                if d == 0 {
                    let k = self.weights as int;
                    assert(1_000_000_000_000 * (k * (d * d)) == 0) by (nonlinear_arith)
                        requires
                            d == 0,
                    ;
                    let s = self.spread@ as int;
                    vstd::arithmetic::div_mod::lemma_div_basics(s);
                    assert(z == 0) by (nonlinear_arith)
                        requires
                            z >= 0,
                            z * z <= 0,
                    ;
                }
            }
        }
        if at < self.prices {
            Decimal { micros: -z }
        } else {
            Decimal { micros: z }
        }
    }
}

/// The variance of bars that weigh has a root that fits.
proof fn sigma_fits(bars: Seq<Candle>)
    requires
        bars.len() > 0,
        prices_weigh(bars),
    ensures
        ({
            let w = bar_weights(bars);
            &&& 9 * (w * (w * w)) > 0
            &&& bar_spread(bars) < (i128::MAX * i128::MAX) * (9 * (w * (w * w)))
        }),
{
    let by_volume = total_volume(bars) > 0;
    let w = bar_weights(bars);
    let t = bar_prices(bars);
    let b = price_bound(bars);
    let top = i128::MAX as int;
    let reach = 2 * top;
    price_total_bounds(bars, by_volume, -b, b);
    assert(w * (-b) == -(w * b)) by (nonlinear_arith);
    assert forall|i: int| 0 <= i < bars.len() implies -reach <= w * (
    #[trigger] bars[i]).price_sum() - t <= reach by {
        let x = bars[i].price_sum();
        assert(-(w * b) <= w * x <= w * b) by (nonlinear_arith)
            requires
                w >= 0,
                -b <= x <= b,
        ;
    }
    spread_bounds(bars, by_volume, w, t, reach);
    let s = bar_spread(bars);
    let cube = w * (w * w);
    assert(cube >= w) by (nonlinear_arith)
        requires
            cube == w * (w * w),
            w >= 1,
    ;
    let square = top * top;
    assert(reach * reach == 4 * square) by (nonlinear_arith)
        requires
            reach == 2 * top,
            square == top * top,
    ;
    assert(square > 0) by (nonlinear_arith)
        requires
            square == top * top,
            top > 0,
    ;
    assert(s < square * (9 * cube)) by (nonlinear_arith)
        requires
            s <= w * (4 * square),
            1 <= w <= cube,
            square > 0,
    ;
}

/// Session VWAP with standard-deviation bands at `k` sigma.
///
/// Falls back to an unweighted mean of typical prices when the feed carries no
/// volume at all, as index feeds do, so that VWAP stays usable as a
/// mean-reversion reference there.
pub fn vwap_bands(candles: &[Candle], k: Decimal) -> (r: Option<Vwap>)
    requires
        candles@.len() > 0 ==> prices_weigh(candles@) && bands_fit(candles@, k@),
    ensures
        r is Some <==> candles@.len() > 0,
        r matches Some(v) ==> {
            &&& v.vwap@ == vwap_micros(candles@)
            &&& is_floor_root(variance(candles@), v.sigma@)
            &&& v.upper@ == v.vwap@ + nearest(k@ * v.sigma@, SCALE as int)
            &&& v.lower@ == v.vwap@ - nearest(k@ * v.sigma@, SCALE as int)
        },
{
    if candles.len() == 0 {
        return None;
    }
    let sums: Weighed = Weighed::of(candles);
    let vwap: Decimal = sums.vwap(Ghost(candles@));
    let sigma: Decimal = sums.sigma(Ghost(candles@));
    let reach: i128 = divide_nearest(k.micros * sigma.micros, SCALE);
    Some(
        Vwap {
            vwap,
            upper: Decimal { micros: vwap.micros + reach },
            lower: Decimal { micros: vwap.micros - reach },
            sigma,
        },
    )
}

/// The sums of bars whose prices lie within `bound` can be formed when three
/// times their weight, and that times the bound, can be.
pub proof fn bounded_bars_fit(bars: Seq<Candle>, bound: int)
    requires
        bars.len() > 0,
        forall|i: int| 0 <= i < bars.len() ==> (#[trigger] bars[i]).lies_within(bound),
        0 <= bound,
        3 * bound <= i128::MAX,
        3 * bar_weights(bars) <= i128::MAX,
        bar_weights(bars) * (3 * bound) <= i128::MAX,
    ensures
        prices_weigh(bars),
        -bound <= vwap_micros(bars) <= bound,
        forall|sigma: int| #[trigger] is_floor_root(variance(bars), sigma) ==> sigma <= 2 * bound,
{
    let by_volume = total_volume(bars) > 0;
    let w = bar_weights(bars);
    let t = bar_prices(bars);
    let b = 3 * bound;
    weight_sum_value(bars, by_volume);
    assert forall|i: int| 0 <= i < bars.len() implies ({
        &&& (#[trigger] bars[i]).sum_fits()
        &&& -b <= bars[i].price_sum() <= b
        &&& w * magnitude(bars[i].price_sum()) <= i128::MAX
    }) by {
        assert(bars[i].lies_within(bound));
        let m = magnitude(bars[i].price_sum());
        assert(w * m <= w * b) by (nonlinear_arith)
            requires
                0 <= w,
                m <= b,
        ;
    }
    price_total_bounds(bars, by_volume, -b, b);
    assert((3 * w) * (-bound) == w * (-b) && (3 * w) * bound == w * b) by (nonlinear_arith)
        requires
            b == 3 * bound,
    ;
    nearest_between(t, 3 * w, -bound, bound);
    let wb = w * b;
    let reach = 2 * wb;
    assert(w * (-b) == -wb) by (nonlinear_arith)
        requires
            wb == w * b,
    ;
    assert(wb >= 0) by (nonlinear_arith)
        requires
            wb == w * b,
            w >= 0,
            b >= 0,
    ;
    assert forall|i: int| 0 <= i < bars.len() implies -reach <= w * (
    #[trigger] bars[i]).price_sum() - t <= reach by {
        assert(bars[i].sum_fits());
        let x = bars[i].price_sum();
        assert(-wb <= w * x <= wb) by (nonlinear_arith)
            requires
                w >= 0,
                -b <= x <= b,
                wb == w * b,
        ;
    }
    spread_bounds(bars, by_volume, w, t, reach);
    let s = bar_spread(bars);
    let side = 2 * bound;
    let cap = side * side;
    let divisor = 9 * (w * (w * w));
    assert(w * (reach * reach) == divisor * cap) by (nonlinear_arith)
        requires
            reach == 2 * wb,
            wb == w * b,
            b == 3 * bound,
            side == 2 * bound,
            cap == side * side,
            divisor == 9 * (w * (w * w)),
    ;
    assert(divisor > 0 && cap >= 0) by (nonlinear_arith)
        requires
            divisor == 9 * (w * (w * w)),
            w >= 1,
            cap == side * side,
    ;
    assert(variance(bars) <= cap) by {
        vstd::arithmetic::div_mod::lemma_div_is_ordered(s, divisor * cap, divisor);
        vstd::arithmetic::div_mod::lemma_div_multiples_vanish(cap, divisor);
    }
    let var = variance(bars);
    assert forall|sigma: int| #[trigger] is_floor_root(var, sigma) implies sigma <= 2 * bound by {
        assert(sigma <= side) by (nonlinear_arith)
            requires
                sigma >= 0,
                side >= 0,
                sigma * sigma <= side * side,
        ;
    }
}

/// The weighted sum of the squares of the bars' prices.
spec fn square_total(bars: Seq<Candle>, by_volume: bool) -> int
    decreases bars.len(),
{
    if bars.len() == 0 {
        0
    } else {
        square_total(bars.drop_last(), by_volume) + bars.last().price_sum()
            * bars.last().price_sum() * weight(bars.last(), by_volume)
    }
}

/// One term of the spread, multiplied out.
proof fn spread_term(w: int, x: int, t: int, v: int)
    ensures
        (w * x - t) * (w * x - t) * v == (w * w) * (x * x * v) - (2 * w * t) * (x * v) + (t * t)
            * v,
{
    let y = w * x;
    assert((y - t) * (y - t) == y * y - 2 * (y * t) + t * t) by (nonlinear_arith);
    let a = y * y;
    let b = 2 * (y * t);
    let c = t * t;
    assert((a - b + c) * v == a * v - b * v + c * v) by (nonlinear_arith);
    assert(a * v == (w * w) * (x * x * v)) by (nonlinear_arith)
        requires
            a == y * y,
            y == w * x,
    ;
    assert(b * v == (2 * w * t) * (x * v)) by (nonlinear_arith)
        requires
            b == 2 * (y * t),
            y == w * x,
    ;
}

/// The spread, multiplied out.
proof fn spread_value(bars: Seq<Candle>, by_volume: bool, w: int, t: int)
    ensures
        spread_total(bars, by_volume, w, t) == (w * w) * square_total(bars, by_volume) - (2 * w
            * t) * price_total(bars, by_volume) + (t * t) * weight_sum(bars, by_volume),
    decreases bars.len(),
{
    let ww = w * w;
    let wt = 2 * w * t;
    let tt = t * t;
    if bars.len() > 0 {
        let rest = bars.drop_last();
        spread_value(rest, by_volume, w, t);
        let x = bars.last().price_sum();
        let v = weight(bars.last(), by_volume);
        spread_term(w, x, t, v);
        let q = square_total(rest, by_volume);
        let p = price_total(rest, by_volume);
        let s = weight_sum(rest, by_volume);
        let qx = x * x * v;
        let px = x * v;
        assert(ww * (q + qx) == ww * q + ww * qx) by (nonlinear_arith);
        assert(wt * (p + px) == wt * p + wt * px) by (nonlinear_arith);
        assert(tt * (s + v) == tt * s + tt * v) by (nonlinear_arith);
    } else {
        assert(ww * 0 == 0 && wt * 0 == 0 && tt * 0 == 0) by (nonlinear_arith);
    }
}

/// The spread of bars is not negative, and a multiple of their weights: where
/// there is any, it is at least as large.
pub proof fn spread_multiple(bars: Seq<Candle>)
    requires
        bars.len() > 0,
    ensures
        bar_weights(bars) > 0,
        bar_spread(bars) == 0 || bar_spread(bars) >= bar_weights(bars),
{
    let by_volume = total_volume(bars) > 0;
    let w = bar_weights(bars);
    let t = bar_prices(bars);
    let s = bar_spread(bars);
    weight_sum_value(bars, by_volume);
    spread_not_negative(bars, by_volume, w, t);
    spread_value(bars, by_volume, w, t);
    let q = square_total(bars, by_volume);
    let inner = w * q - t * t;
    assert(s == w * inner) by (nonlinear_arith)
        requires
            s == (w * w) * q - (2 * w * t) * t + (t * t) * w,
            inner == w * q - t * t,
    ;
    assert(s == 0 || s >= w) by (nonlinear_arith)
        requires
            s == w * inner,
            s >= 0,
            w > 0,
    ;
}

/// A sum of squares is not negative.
proof fn spread_not_negative(bars: Seq<Candle>, by_volume: bool, w: int, t: int)
    ensures
        spread_total(bars, by_volume, w, t) >= 0,
    decreases bars.len(),
{
    if bars.len() > 0 {
        spread_not_negative(bars.drop_last(), by_volume, w, t);
        let d = w * bars.last().price_sum() - t;
        let v = weight(bars.last(), by_volume);
        assert(d * d * v >= 0) by (nonlinear_arith)
            requires
                v >= 0,
        ;
    }
}

/// The distance of a price within `bound` from the mean of bars whose prices
/// lie within it can be formed, up to fifty trillion in weight.
pub proof fn bounded_distance_fits(bars: Seq<Candle>, spot: int, bound: int)
    requires
        bars.len() > 0,
        forall|i: int| 0 <= i < bars.len() ==> (#[trigger] bars[i]).lies_within(bound),
        0 <= bound <= 1_000_000_000_000,
        -bound <= spot <= bound,
        bar_weights(bars) <= 50_000_000_000_000,
    ensures
        distance_fits(bars, spot),
{
    let by_volume = total_volume(bars) > 0;
    let w = bar_weights(bars);
    let t = bar_prices(bars);
    let s = bar_spread(bars);
    let limit: int = 1_000_000_000_000;
    spread_multiple(bars);
    assert forall|i: int| 0 <= i < bars.len() implies -(3 * limit) <= (
    #[trigger] bars[i]).price_sum() <= 3 * limit by {
        assert(bars[i].lies_within(bound));
    }
    price_total_bounds(bars, by_volume, -(3 * limit), 3 * limit);
    let cap = 3 * limit * w;
    assert(w * (3 * limit) == cap && w * (-(3 * limit)) == -cap) by (nonlinear_arith)
        requires
            cap == 3 * limit * w,
    ;
    let at = 3 * w * spot;
    assert(-cap <= at <= cap) by (nonlinear_arith)
        requires
            at == 3 * w * spot,
            cap == 3 * limit * w,
            -limit <= spot <= limit,
            w > 0,
    ;
    let d = at - t;
    let side: int = 300_000_000_000_000_000_000_000_000;
    assert(-side <= d <= side);
    assert(d * d <= side * side) by (nonlinear_arith)
        requires
            -side <= d <= side,
    ;
    let square = side * side;
    let dd = d * d;
    let scale = SCALE * SCALE;
    assert(w * dd <= w * square) by (nonlinear_arith)
        requires
            dd <= square,
            w > 0,
    ;
    assert(scale == 1_000_000_000_000);
    let top = i128::MAX * i128::MAX;
    assert(scale * square < top);
    assert(scale * (w * square) == (scale * square) * w) by (nonlinear_arith);
    let less = scale * square;
    if s != 0 {
        assert(less * w < top * s) by (nonlinear_arith)
            requires
                0 <= less < top,
                0 < w <= s,
        ;
    }
}

/// The bands of such bars can be formed when `k` times twice the bound can be.
pub proof fn bounded_bands_fit(bars: Seq<Candle>, bound: int, k: int)
    requires
        bars.len() > 0,
        0 <= bound,
        -bound <= vwap_micros(bars) <= bound,
        forall|sigma: int| #[trigger] is_floor_root(variance(bars), sigma) ==> sigma <= 2 * bound,
        bound + magnitude(k) * (2 * bound) <= i128::MAX,
    ensures
        bands_fit(bars, k),
{
    let most = magnitude(k) * (2 * bound);
    assert forall|sigma: int| #[trigger] is_floor_root(variance(bars), sigma) implies ({
        &&& i128::MIN < k * sigma <= i128::MAX
        &&& i128::MIN <= vwap_micros(bars) + nearest(k * sigma, SCALE as int) <= i128::MAX
        &&& i128::MIN <= vwap_micros(bars) - nearest(k * sigma, SCALE as int) <= i128::MAX
    }) by {
        let reach = k * sigma;
        let m = magnitude(k);
        assert(-most <= reach <= most) by (nonlinear_arith)
            requires
                reach == k * sigma,
                -m <= k <= m,
                0 <= sigma <= 2 * bound,
                most == m * (2 * bound),
        ;
        nearest_between(reach, SCALE as int, -most, most);
    }
}

/// An EMA ribbon: fast, medium and slow, all computed on the same closes.
#[derive(Debug, Clone, Copy, PartialEq, Eq, Structural)]
pub struct Ribbon {
    pub fast: Decimal,
    pub medium: Decimal,
    pub slow: Decimal,
}

/// `100 * part / whole`, cut toward zero; zero when `whole` is.
pub open spec fn percent_of(part: int, whole: int) -> int {
    if whole == 0 {
        0
    } else {
        toward_zero(100 * SCALE * part, whole)
    }
}

impl Ribbon {
    /// Whether a hundred times the separation can be formed.
    pub open spec fn separation_fits(self) -> bool {
        i128::MIN < 100 * SCALE * (self.fast@ - self.slow@) <= i128::MAX
    }

    /// The order of the stack.
    pub open spec fn stack(self) -> int {
        if self.fast@ > self.medium@ > self.slow@ {
            1
        } else if self.fast@ < self.medium@ < self.slow@ {
            -1
        } else {
            0
        }
    }

    /// `+1` fully bullish stack (fast > medium > slow), `-1` fully bearish,
    /// `0` interleaved.
    pub fn direction(&self) -> (d: i8)
        ensures
            d == self.stack(),
    {
        if self.fast.micros > self.medium.micros && self.medium.micros > self.slow.micros {
            1
        } else if self.fast.micros < self.medium.micros && self.medium.micros < self.slow.micros {
            -1
        } else {
            0
        }
    }

    /// Ribbon spread as a percentage of the slow EMA: how separated the stack
    /// is, which distinguishes a real trend from a flat tangle.
    pub fn spread_pct(&self) -> (p: Decimal)
        requires
            self.slow@ != 0 ==> self.separation_fits(),
        ensures
            p@ == percent_of(self.fast@ - self.slow@, self.slow@),
            p@ > i128::MIN,
    {
        if self.slow.micros == 0 {
            return Decimal { micros: 0 };
        }
        let ghost gap = self.fast@ - self.slow@;
        assert(100 * SCALE * gap == 100_000_000 * gap) by (nonlinear_arith)
            requires
                SCALE == 1_000_000,
        ;
        let part: i128 = 100 * SCALE * (self.fast.micros - self.slow.micros);
        Decimal { micros: divide_toward_zero(part, self.slow.micros) }
    }
}

/// The EMA ribbon of a series of closes.
pub fn ribbon(closes: &[Decimal], fast: usize, medium: usize, slow: usize) -> (r: Option<Ribbon>)
    ensures
        r is Some <==> (0 < fast <= closes@.len() && 0 < medium <= closes@.len() && 0 < slow
            <= closes@.len()),
        r matches Some(rib) ==> {
            &&& rib.fast@ == ema_micros(closes@, fast as int)
            &&& rib.medium@ == ema_micros(closes@, medium as int)
            &&& rib.slow@ == ema_micros(closes@, slow as int)
        },
{
    match (ema(closes, fast), ema(closes, medium), ema(closes, slow)) {
        (Some(fast), Some(medium), Some(slow)) => Some(Ribbon { fast, medium, slow }),
        _ => None,
    }
}

/// The sum of the squares of `n * sample - t`. With `n` the number of samples
/// and `t` their sum, each term is the distance from the mean, times `n`.
pub open spec fn squares(s: Seq<Decimal>, n: int, t: int) -> int
    decreases s.len(),
{
    if s.len() == 0 {
        0
    } else {
        squares(s.drop_last(), n, t) + (n * s.last()@ - t) * (n * s.last()@ - t)
    }
}

/// The variance of samples around their mean, rounded down.
pub open spec fn mean_square(s: Seq<Decimal>) -> int {
    let n = s.len() as int;
    squares(s, n, total(s)) / (n * (n * n))
}

/// A sum of squares of numbers up to `reach`.
proof fn squares_bounds(s: Seq<Decimal>, n: int, t: int, reach: int)
    requires
        reach >= 0,
        forall|i: int| 0 <= i < s.len() ==> -reach <= n * (#[trigger] s[i])@ - t <= reach,
    ensures
        0 <= squares(s, n, t) <= s.len() * (reach * reach),
    decreases s.len(),
{
    if s.len() > 0 {
        let rest = s.drop_last();
        assert forall|i: int| 0 <= i < rest.len() implies -reach <= n * (#[trigger] rest[i])@ - t
            <= reach by {
            assert(rest[i] == s[i]);
        }
        squares_bounds(rest, n, t, reach);
        assert(s.last() == s[s.len() - 1]);
        let d = n * s.last()@ - t;
        let cap = reach * reach;
        assert(0 <= d * d <= cap) by (nonlinear_arith)
            requires
                -reach <= d <= reach,
                cap == reach * reach,
        ;
        let len = s.len() as int;
        assert(len * cap == (len - 1) * cap + cap) by (nonlinear_arith);
    } else {
        assert(0 * (reach * reach) == 0) by (nonlinear_arith);
    }
}

/// The variance of samples whose multiples fit has a root that fits.
proof fn deviation_fits(s: Seq<Decimal>, n: int)
    requires
        n == s.len(),
        n >= 2,
        multiples_fit(s, n),
    ensures
        n * (n * n) > 0,
        squares(s, n, total(s)) < ((2 * i128::MAX) * (2 * i128::MAX)) * (n * (n * n)),
        mean_square(s) <= i128::MAX * i128::MAX,
{
    let b = multiples_bound(s, n);
    let t = total(s);
    let top = i128::MAX as int;
    let reach = 2 * top;
    total_bounds(s, -b, b);
    assert(n * (-b) == -(n * b)) by (nonlinear_arith);
    assert forall|i: int| 0 <= i < s.len() implies -reach <= n * (#[trigger] s[i])@ - t
        <= reach by {
        let x = s[i]@;
        assert(-(n * b) <= n * x <= n * b) by (nonlinear_arith)
            requires
                n >= 0,
                -b <= x <= b,
        ;
    }
    squares_bounds(s, n, t, reach);
    let sum = squares(s, n, t);
    let cube = n * (n * n);
    let square = top * top;
    assert(reach * reach == 4 * square && square > 0) by (nonlinear_arith)
        requires
            reach == 2 * top,
            square == top * top,
            top > 0,
    ;
    assert(cube >= 4 * n) by (nonlinear_arith)
        requires
            cube == n * (n * n),
            n >= 2,
    ;
    assert(n * (4 * square) <= cube * square) by (nonlinear_arith)
        requires
            4 * n <= cube,
            square > 0,
    ;
    assert(cube * square < (4 * square) * cube) by (nonlinear_arith)
        requires
            cube > 0,
            square > 0,
    ;
    vstd::arithmetic::div_mod::lemma_div_is_ordered(sum, cube * square, cube);
    vstd::arithmetic::div_mod::lemma_div_multiples_vanish(square, cube);
}

/// Population standard deviation of the last `n` samples.
pub fn stdev(values: &[Decimal], n: usize) -> (r: Option<Decimal>)
    requires
        2 <= n <= values@.len() ==> multiples_fit(tail(values@, n as int), n as int),
    ensures
        r is Some <==> 2 <= n <= values@.len(),
        r matches Some(d) ==> is_floor_root(mean_square(tail(values@, n as int)), d@),
{
    if n < 2 || values.len() < n {
        return None;
    }
    let ghost window = tail(values@, n as int);
    let len: usize = values.len();
    let start: usize = len - n;
    let sum: i128 = sum_range(values, start, values.len());
    let mut squared: Natural = Natural::from_u128(0);
    let mut i: usize = 0;
    while i < n
        invariant
            i <= n,
            len == values@.len(),
            start + n == len,
            window == values@.subrange(start as int, values@.len() as int),
            multiples_fit(window, n as int),
            squared@ == squares(window.take(i as int), n as int, sum as int),
        decreases n - i,
    {
        proof {
            let next = window.take(i + 1);
            assert(next.drop_last() =~= window.take(i as int));
            assert(next.last() == values@[start + i]);
            assert(window[i as int] == values@[start + i]);
            let x = values@[start + i]@;
            let m = magnitude(x);
            assert(magnitude(n * x) == n * m) by (nonlinear_arith)
                requires
                    n >= 0,
                    m == x || m == -x,
                    m >= 0,
            ;
        }
        let scaled: i128 = n as i128 * values[start + i].micros;
        squared = squared.plus(&square_of(scaled, sum));
        i += 1;
    }
    assert(window.take(n as int) =~= window);
    let count: Natural = Natural::from_u128(n as u128);
    let divisor: Natural = count.multiplied(&count.multiplied(&count));
    proof {
        deviation_fits(window, n as int);
    }
    let root: u128 = squared.root_below(&divisor, 2 * i128::MAX as u128);
    proof {
        let top = i128::MAX as int;
        let r = root as int;
        assert(r <= top) by (nonlinear_arith)
            requires
                r * r <= top * top,
                r >= 0,
                top >= 0,
        ;
    }
    Some(Decimal { micros: root as i128 })
}

/// How many samples lie below `value`.
pub open spec fn count_below(history: Seq<Decimal>, value: int) -> nat {
    history.filter(|h: Decimal| h@ < value).len()
}

/// Where `value` sits within `history`, as a percentile in `[0, 100]`.
pub fn percentile_rank(history: &[Decimal], value: Decimal) -> (r: Option<Decimal>)
    ensures
        r is Some <==> history@.len() > 0,
        r matches Some(p) ==> {
            &&& p@ == percent_of(count_below(history@, value@) as int, history@.len() as int)
            &&& 0 <= p@ <= 100 * SCALE
        },
{
    if history.len() == 0 {
        return None;
    }
    let ghost below = |h: Decimal| h@ < value@;
    let mut count: usize = 0;
    let mut i: usize = 0;
    while i < history.len()
        invariant
            i <= history@.len(),
            below == (|h: Decimal| h@ < value@),
            count <= i,
            count == history@.take(i as int).filter(below).len(),
        decreases history@.len() - i,
    {
        proof {
            reveal(Seq::filter);
            assert(history@.take(i + 1).drop_last() =~= history@.take(i as int));
        }
        if history[i].micros < value.micros {
            count += 1;
        }
        i += 1;
    }
    proof {
        assert(history@.take(i as int) =~= history@);
        let len = history@.len() as int;
        let c = count as int;
        let limit = 100 * SCALE;
        threshold_is_exact(limit * c, len, limit + 1);
        assert(limit * c < (limit + 1) * len && limit * c >= 0) by (nonlinear_arith)
            requires
                0 <= c <= len,
                len > 0,
                limit > 0,
        ;
        vstd::arithmetic::div_mod::lemma_div_pos_is_pos(limit * c, len);
    }
    let part: i128 = 100_000_000 * count as i128;
    assert(part == 100 * SCALE * count) by (nonlinear_arith)
        requires
            SCALE == 1_000_000,
            part == 100_000_000 * count,
    ;
    Some(Decimal { micros: divide_toward_zero(part, history.len() as i128) })
}

/// The sum of the samples, each times its distance from the middle of a window
/// of `n` samples, counted in half steps.
pub open spec fn moment(s: Seq<Decimal>, n: int) -> int
    decreases s.len(),
{
    if s.len() == 0 {
        0
    } else {
        moment(s.drop_last(), n) + (2 * (s.len() - 1) - (n - 1)) * s.last()@
    }
}

/// The least-squares slope of a window against the sample index, in percent of
/// the mean per sample: `600 * moment / ((n^2 - 1) * total)`.
pub open spec fn slope_micros(s: Seq<Decimal>) -> int {
    let n = s.len() as int;
    let top = 600 * SCALE * moment(s, n);
    let bottom = (n * n - 1) * total(s);
    if bottom > 0 {
        nearest(top, bottom)
    } else {
        nearest(-top, -bottom)
    }
}

/// Whether the slope of a window can be formed: the scaled moment, and the
/// divisor.
pub open spec fn regression_fits(window: Seq<Decimal>) -> bool {
    let n = window.len() as int;
    &&& multiples_fit(window, 600 * SCALE * (n * n))
    &&& multiples_fit(window, n * (n * n))
}

/// The bound on samples whose regression can be formed.
proof fn regression_bound(window: Seq<Decimal>, n: int) -> (b: int)
    requires
        n == window.len(),
        n >= 2,
        regression_fits(window),
        total(window) != 0,
    ensures
        b >= 1,
        within(window, -b, b),
        600_000_000 * (n * (n * b)) <= i128::MAX,
        (n * n) * (n * b) <= i128::MAX,
        n * n <= i128::MAX,
        n * b <= i128::MAX,
{
    let nn = n * n;
    assert(nn > 0 && n * nn > 0) by (nonlinear_arith)
        requires
            nn == n * n,
            n >= 2,
    ;
    let k1 = 600 * SCALE * nn;
    let k2 = n * nn;
    let b1 = multiples_bound(window, k1);
    let b2 = multiples_bound(window, k2);
    let b = if b1 <= b2 {
        b1
    } else {
        b2
    };
    assert(within(window, -b, b));
    if b == 0 {
        total_bounds(window, 0, 0);
        assert(n * 0 == 0) by (nonlinear_arith);
    }
    assert(k1 * b <= k1 * b1) by (nonlinear_arith)
        requires
            k1 >= 0,
            b <= b1,
    ;
    assert(k2 * b <= k2 * b2) by (nonlinear_arith)
        requires
            k2 >= 0,
            b <= b2,
    ;
    assert(600_000_000 * (n * (n * b)) == k1 * b) by (nonlinear_arith)
        requires
            k1 == 600_000_000 * nn,
            nn == n * n,
    ;
    assert(nn * (n * b) == k2 * b) by (nonlinear_arith)
        requires
            k2 == n * nn,
    ;
    let nb = n * b;
    assert(nb >= 1) by (nonlinear_arith)
        requires
            nb == n * b,
            n >= 1,
            b >= 1,
    ;
    assert(nn <= nn * nb && nb <= nn * nb) by (nonlinear_arith)
        requires
            nn >= 1,
            nb >= 1,
    ;
    b
}

/// Linear-regression slope of the last `n` samples against sample index,
/// normalised to percent of the mean per bar.
pub fn slope_pct(values: &[Decimal], n: usize) -> (r: Option<Decimal>)
    requires
        2 <= n <= values@.len() ==> regression_fits(tail(values@, n as int)),
    ensures
        r is Some <==> 2 <= n <= values@.len() && total(tail(values@, n as int)) != 0,
        r matches Some(d) ==> d@ == slope_micros(tail(values@, n as int)),
{
    if n < 2 || values.len() < n {
        return None;
    }
    let ghost window = tail(values@, n as int);
    let len: usize = values.len();
    let start: usize = len - n;
    proof {
        let m = n as int;
        assert(m <= m * (m * m)) by (nonlinear_arith)
            requires
                m >= 2,
        ;
        multiples_part(window, m * (m * m), 0, m, m);
        assert(window.subrange(0, m) =~= window);
    }
    let sum: i128 = sum_range(values, start, values.len());
    if sum == 0 {
        return None;
    }
    let ghost b: int = regression_bound(window, n as int);
    let ghost step: int = n * b;
    let mut top: i128 = 0;
    let mut i: usize = 0;
    assert(0 * step == 0) by (nonlinear_arith);
    while i < n
        invariant
            2 <= n,
            i <= n,
            len == values@.len(),
            start + n == len,
            window == values@.subrange(start as int, values@.len() as int),
            b >= 1,
            within(window, -b, b),
            step == n * b,
            0 <= step <= i128::MAX,
            600_000_000 * (n * step) <= i128::MAX,
            top == moment(window.take(i as int), n as int),
            -(i * step) <= top <= i * step,
        decreases n - i,
    {
        proof {
            assert(window.take(i + 1).drop_last() =~= window.take(i as int));
            assert(window.take(i + 1).last() == values@[start + i]);
            assert(window[i as int] == values@[start + i]);
            assert((i + 1) * step == i * step + step) by (nonlinear_arith);
            assert((i + 1) * step <= n * step) by (nonlinear_arith)
                requires
                    i + 1 <= n,
                    step >= 0,
            ;
        }
        let x: i128 = values[start + i].micros;
        let arm: i128 = 2 * (i as i128) - (n as i128 - 1);
        assert(-step <= arm * x <= step) by (nonlinear_arith)
            requires
                -n <= arm <= n,
                -b <= x <= b,
                step == n * b,
                n >= 0,
                b >= 0,
        ;
        top = top + arm * x;
        i += 1;
    }
    assert(window.take(n as int) =~= window);
    let size: i128 = n as i128;
    let rise: i128 = size * size - 1;
    proof {
        total_bounds(window, -b, b);
        assert(n * (-b) == -step) by (nonlinear_arith)
            requires
                step == n * b,
        ;
        assert(rise >= 1) by (nonlinear_arith)
            requires
                rise == size * size - 1,
                size >= 2,
        ;
        assert(-((n * n) * step) <= rise * sum <= (n * n) * step) by (nonlinear_arith)
            requires
                rise == n * n - 1,
                rise >= 1,
                -step <= sum <= step,
                step >= 0,
        ;
        assert((rise * sum > 0 <==> sum > 0) && rise * sum != 0) by (nonlinear_arith)
            requires
                rise > 0,
                sum != 0,
        ;
    }
    let bottom: i128 = rise * sum;
    let scaled: i128 = 600_000_000 * top;
    assert(scaled == 600 * SCALE * top);
    if bottom > 0 {
        Some(Decimal { micros: divide_nearest(scaled, bottom) })
    } else {
        Some(Decimal { micros: divide_nearest(-scaled, -bottom) })
    }
}

/// Whether `hi` is the highest high of some bars.
pub open spec fn is_highest(bars: Seq<Candle>, hi: int) -> bool {
    &&& forall|i: int| 0 <= i < bars.len() ==> (#[trigger] bars[i]).high@ <= hi
    &&& exists|i: int| 0 <= i < bars.len() && (#[trigger] bars[i]).high@ == hi
}

/// Whether `lo` is the lowest low of some bars.
pub open spec fn is_lowest(bars: Seq<Candle>, lo: int) -> bool {
    &&& forall|i: int| 0 <= i < bars.len() ==> (#[trigger] bars[i]).low@ >= lo
    &&& exists|i: int| 0 <= i < bars.len() && (#[trigger] bars[i]).low@ == lo
}

/// Whether every bar has its high below its low.
pub open spec fn all_inverted(bars: Seq<Candle>) -> bool {
    forall|i: int| 0 <= i < bars.len() ==> (#[trigger] bars[i]).high@ < bars[i].low@
}

/// Bars have one highest high and one lowest low.
pub proof fn extremes_unique(bars: Seq<Candle>)
    ensures
        forall|a: int, b: int| is_highest(bars, a) && is_highest(bars, b) ==> a == b,
        forall|a: int, b: int| is_lowest(bars, a) && is_lowest(bars, b) ==> a == b,
{
    assert forall|a: int, b: int| is_highest(bars, a) && is_highest(bars, b) implies a == b by {
        let i = choose|i: int| 0 <= i < bars.len() && (#[trigger] bars[i]).high@ == a;
        let j = choose|j: int| 0 <= j < bars.len() && (#[trigger] bars[j]).high@ == b;
        assert(bars[i].high@ <= b && bars[j].high@ <= a);
    }
    assert forall|a: int, b: int| is_lowest(bars, a) && is_lowest(bars, b) implies a == b by {
        let i = choose|i: int| 0 <= i < bars.len() && (#[trigger] bars[i]).low@ == a;
        let j = choose|j: int| 0 <= j < bars.len() && (#[trigger] bars[j]).low@ == b;
        assert(bars[i].low@ >= b && bars[j].low@ >= a);
    }
}

/// Opening-range high and low over the first `bars` bars of the session.
///
/// `None` when there are too few bars, or when their highs all lie below their
/// lows.
pub fn opening_range(candles: &[Candle], bars: usize) -> (r: Option<(Decimal, Decimal)>)
    ensures
        r is Some <==> 0 < bars <= candles@.len() && exists|hi: int, lo: int|
            is_highest(candles@.take(bars as int), hi) && is_lowest(
                candles@.take(bars as int),
                lo,
            ) && lo <= hi,
        r matches Some((hi, lo)) ==> {
            &&& is_highest(candles@.take(bars as int), hi@)
            &&& is_lowest(candles@.take(bars as int), lo@)
        },
        r is None && 0 < bars <= candles@.len() ==> all_inverted(candles@.take(bars as int)),
{
    if bars == 0 || candles.len() < bars {
        return None;
    }
    let mut hi: Decimal = candles[0].high;
    let mut lo: Decimal = candles[0].low;
    let mut i: usize = 1;
    assert(candles@.take(1)[0] == candles@[0]);
    while i < bars
        invariant
            1 <= i <= bars <= candles@.len(),
            is_highest(candles@.take(i as int), hi@),
            is_lowest(candles@.take(i as int), lo@),
        decreases bars - i,
    {
        let ghost seen = candles@.take(i as int);
        let ghost next = candles@.take(i + 1);
        proof {
            assert(next[i as int] == candles@[i as int]);
            assert forall|k: int| 0 <= k < seen.len() implies #[trigger] next[k] == seen[k] by {}
            let a = choose|k: int| 0 <= k < seen.len() && (#[trigger] seen[k]).high@ == hi@;
            let b = choose|k: int| 0 <= k < seen.len() && (#[trigger] seen[k]).low@ == lo@;
            assert(next[a].high@ == hi@ && next[b].low@ == lo@);
        }
        if candles[i].high.micros > hi.micros {
            hi = candles[i].high;
        }
        if candles[i].low.micros < lo.micros {
            lo = candles[i].low;
        }
        assert(is_highest(next, hi@)) by {
            assert forall|k: int| 0 <= k < next.len() implies (#[trigger] next[k]).high@ <= hi@ by {
                if k < i {
                    assert(seen[k].high@ <= hi@);
                }
            }
        }
        assert(is_lowest(next, lo@)) by {
            assert forall|k: int| 0 <= k < next.len() implies (#[trigger] next[k]).low@ >= lo@ by {
                if k < i {
                    assert(seen[k].low@ >= lo@);
                }
            }
        }
        i += 1;
    }
    proof {
        extremes_unique(candles@.take(bars as int));
        assert(is_highest(candles@.take(bars as int), hi@) && is_lowest(
            candles@.take(bars as int),
            lo@,
        ));
    }
    if hi.micros >= lo.micros {
        Some((hi, lo))
    } else {
        assert(all_inverted(candles@.take(bars as int)));
        None
    }
}

/// Averages of a constant series are that constant.
pub proof fn averages_of_constant(s: Seq<Decimal>, n: int, value: int)
    requires
        0 < n <= s.len(),
        within(s, value, value),
    ensures
        mean(tail(s, n)) == value,
        ema_micros(s, n) == value,
        wilder_micros(s, n) == value,
{
    let t = tail(s, n);
    assert forall|i: int| 0 <= i < t.len() implies value <= (#[trigger] t[i])@ <= value by {
        assert(t[i] == s[i + s.len() - n]);
    }
    mean_bounds(t, value, value);
    ema_bounds(s, n, value, value);
    wilder_bounds(s, n, value, value);
}

/// The ATR of bars that all have one true range is that range.
pub proof fn atr_of_constant_range(bars: Seq<Candle>, n: int, range: int)
    requires
        0 < n < bars.len(),
        i128::MIN <= range <= i128::MAX,
        forall|i: int|
            0 < i < bars.len() ==> (#[trigger] bars[i]).true_range_micros(Some(bars[i - 1].close))
                == range,
    ensures
        wilder_micros(true_ranges(bars), n) == range,
{
    let ranges = true_ranges(bars);
    assert forall|i: int| 0 <= i < ranges.len() implies range <= (#[trigger] ranges[i])@
        <= range by {
        assert(bars[i + 1].true_range_micros(Some(bars[i + 1 - 1].close)) == range);
    }
    wilder_bounds(ranges, n, range, range);
}

/// The strength of a series is 100 when every step rises, 0 when every step
/// falls, and 50 when none moves.
pub proof fn strength_of_runs(s: Seq<Decimal>, n: int)
    requires
        0 < n < s.len(),
    ensures
        (forall|i: int| 0 < i < s.len() ==> (#[trigger] s[i])@ > s[i - 1]@) ==> strength_of(s, n)
            == 100 * SCALE,
        (forall|i: int| 0 < i < s.len() ==> (#[trigger] s[i])@ < s[i - 1]@) ==> strength_of(s, n)
            == 0,
        (forall|i: int| 0 < i < s.len() ==> (#[trigger] s[i])@ == s[i - 1]@) ==> strength_of(s, n)
            == 50 * SCALE,
{
    let up = gains(s);
    let down = losses(s);
    if forall|i: int| 0 < i < s.len() ==> (#[trigger] s[i])@ > s[i - 1]@ {
        assert forall|i: int| 0 <= i < up.len() implies (#[trigger] up[i]) >= 1 by {
            assert(s[i + 1]@ > s[i + 1 - 1]@);
        }
        assert forall|i: int| 0 <= i < down.len() implies (#[trigger] down[i]) == 0 by {
            assert(s[i + 1]@ > s[i + 1 - 1]@);
        }
        smoothed_bounds(up, n, 1);
        smoothed_zero(down, n);
    }
    if forall|i: int| 0 < i < s.len() ==> (#[trigger] s[i])@ < s[i - 1]@ {
        assert forall|i: int| 0 <= i < up.len() implies (#[trigger] up[i]) == 0 by {
            assert(s[i + 1]@ < s[i + 1 - 1]@);
        }
        assert forall|i: int| 0 <= i < down.len() implies (#[trigger] down[i]) >= 1 by {
            assert(s[i + 1]@ < s[i + 1 - 1]@);
        }
        smoothed_zero(up, n);
        smoothed_bounds(down, n, 1);
        nearest_error(0, smoothed(down, n));
    }
    if forall|i: int| 0 < i < s.len() ==> (#[trigger] s[i])@ == s[i - 1]@ {
        assert forall|i: int| 0 <= i < up.len() implies (#[trigger] up[i]) == 0 by {
            assert(s[i + 1]@ == s[i + 1 - 1]@);
        }
        assert forall|i: int| 0 <= i < down.len() implies (#[trigger] down[i]) == 0 by {
            assert(s[i + 1]@ == s[i + 1 - 1]@);
        }
        smoothed_zero(up, n);
        smoothed_zero(down, n);
    }
}

/// A common factor drops out of a quotient.
proof fn same_quotient(a: int, b: int, k: int)
    requires
        a >= 0,
        b > 0,
        k > 0,
    ensures
        (k * a) / (k * b) == a / b,
{
    let q = a / b;
    let rest = a % b;
    vstd::arithmetic::div_mod::lemma_fundamental_div_mod(a, b);
    vstd::arithmetic::div_mod::lemma_mod_bound(a, b);
    assert(k * a == q * (k * b) + k * rest) by (nonlinear_arith)
        requires
            a == b * q + rest,
    ;
    assert(0 <= k * rest < k * b) by (nonlinear_arith)
        requires
            k > 0,
            0 <= rest < b,
    ;
    vstd::arithmetic::div_mod::lemma_fundamental_div_mod_converse(k * a, k * b, q, k * rest);
}

/// Samples that do not move leave the strength as it was, once there are more
/// moves than periods.
pub proof fn flat_tail_keeps_strength(s: Seq<Decimal>, n: int)
    requires
        1 < n < s.len(),
    ensures
        strength_of(s.push(s.last()), n) == strength_of(s, n),
{
    let more = s.push(s.last());
    let up = gains(s);
    let down = losses(s);
    assert(gains(more).drop_last() =~= up);
    assert(losses(more).drop_last() =~= down);
    assert(gains(more).last() == 0 && losses(more).last() == 0);
    let g = smoothed(up, n);
    let l = smoothed(down, n);
    let p = smoothed_scale(up.len(), n);
    assert(p * 0 == 0) by (nonlinear_arith);
    assert(smoothed(gains(more), n) == (n - 1) * g);
    assert(smoothed(losses(more), n) == (n - 1) * l);
    smoothed_bounds(up, n, 0);
    smoothed_bounds(down, n, 0);
    let k = n - 1;
    assert((k * g > 0 <==> g > 0) && (k * l == 0 <==> l == 0) && k * g >= 0) by (nonlinear_arith)
        requires
            k >= 1,
            g >= 0,
            l >= 0,
    ;
    if l > 0 {
        let a = 100 * SCALE * g;
        let b = g + l;
        assert(a >= 0) by (nonlinear_arith)
            requires
                a == 100 * SCALE * g,
                SCALE == 1_000_000,
                g >= 0,
        ;
        assert(100 * SCALE * (k * g) == k * a && k * g + k * l == k * b) by (nonlinear_arith)
            requires
                a == 100 * SCALE * g,
                b == g + l,
        ;
        assert(k * a >= 0) by (nonlinear_arith)
            requires
                k >= 1,
                a >= 0,
        ;
        assert(2 * (k * a) + k * b == k * (2 * a + b) && 2 * (k * b) == k * (2 * b))
            by (nonlinear_arith);
        same_quotient(2 * a + b, 2 * b, k);
    }
}

/// Only one amount is the distance of a price from the mean.
pub proof fn distance_unique(bars: Seq<Candle>, spot: int, z1: int, z2: int)
    requires
        is_distance(bars, spot, z1),
        is_distance(bars, spot, z2),
    ensures
        z1 == z2,
{
    if bar_spread(bars) != 0 {
        let w = bar_weights(bars);
        let d = 3 * w * spot - bar_prices(bars);
        floor_root_unique(
            (SCALE * SCALE) * (w * (d * d)) / bar_spread(bars),
            magnitude(z1),
            magnitude(z2),
        );
    }
}

/// A volume-weighted average price lies between the bounds of the typical
/// prices.
pub proof fn vwap_between(bars: Seq<Candle>, lo: int, hi: int)
    requires
        bars.len() > 0,
        forall|i: int| 0 <= i < bars.len() ==> 3 * lo <= (#[trigger] bars[i]).price_sum() <= 3 * hi,
    ensures
        lo <= vwap_micros(bars) <= hi,
{
    let by_volume = total_volume(bars) > 0;
    let w = bar_weights(bars);
    weight_sum_value(bars, by_volume);
    price_total_bounds(bars, by_volume, 3 * lo, 3 * hi);
    assert((3 * w) * lo == w * (3 * lo) && (3 * w) * hi == w * (3 * hi)) by (nonlinear_arith);
    nearest_between(bar_prices(bars), 3 * w, lo, hi);
}

/// Without any volume the average price is the plain mean of the typical
/// prices.
pub proof fn vwap_without_volume(bars: Seq<Candle>)
    requires
        bars.len() > 0,
        total_volume(bars) == 0,
    ensures
        vwap_micros(bars) == nearest(price_total(bars, false), 3 * (bars.len() as int)),
        forall|c: Candle| #[trigger] weight(c, false) == 1,
{
    weight_sum_value(bars, false);
}

} // verus!
