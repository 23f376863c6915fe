//! What the indicators and the regime reading do, stated of calls of them: each
//! law takes what a call returned and says how it relates to what was passed,
//! or to what another call returned.

use crate::decimal::{floor_root_unique, is_floor_root, magnitude, nearest, nearest_error};
use crate::decimal::{toward_zero, Decimal, SCALE};
use crate::strategy::accuracy::{
    calmer_is_exact, real_smoothed, real_strength, strength_accuracy,
};
use crate::strategy::candles::Candle;
use crate::strategy::config::StrategyConfig;
use crate::strategy::indicators::{
    amounts, atr, bar_prices, bar_spread, bar_weights, ema, ema_scale, ema_scale_step, ema_sum,
    extremes_unique, gains, is_highest, is_lowest, losses, moment, opening_range, percent_of,
    percentile_rank, price_total, ribbon, rsi, slope_pct, sma, smoothed, smoothed_bounds,
    smoothed_scale, smoothed_scale_step, spread_multiple, spread_total, squares, stdev,
    strength, tail, total, total_volume, true_ranges, variance, vwap_bands, weight_sum,
    weight_sum_value, Ribbon, Vwap,
};
use crate::strategy::regime::{classify, decide, MarketRegime, RegimeReading};
use vstd::prelude::*;

verus! {

/// Amounts added up.
pub open spec fn added(s: Seq<Decimal>) -> int {
    s.fold_left(0, |sum: int, d: Decimal| sum + d@)
}

/// Integers added up.
pub open spec fn sum_of(s: Seq<int>) -> int {
    s.fold_left(0, |sum: int, x: int| sum + x)
}

/// The two ways of adding amounts up agree.
proof fn total_is_added(s: Seq<Decimal>)
    ensures
        total(s) == added(s),
    decreases s.len(),
{
    if s.len() > 0 {
        total_is_added(s.drop_last());
    }
}

/// A simple moving average is the sum of the last `n` samples over `n`, to the
/// nearest millionth, and is there as soon as there are that many.
pub proof fn sma_is_the_mean_of_the_last(values: &[Decimal], n: usize, r: Option<Decimal>)
    requires
        call_ensures(sma, (values, n), r),
    ensures
        r is None <==> n == 0 || n > values@.len(),
        r matches Some(d) ==> {
            let last = values@.subrange(values@.len() - n, values@.len() as int);
            -n <= 2 * (n * d@ - added(last)) <= n
        },
{
    if r is Some {
        let last = tail(values@, n as int);
        total_is_added(last);
        nearest_error(total(last), n as int);
    }
}

/// The exponential moving average of just `n` samples is their mean.
pub proof fn ema_starts_at_the_mean(values: &[Decimal], n: usize, r: Option<Decimal>)
    requires
        call_ensures(ema, (values, n), r),
    ensures
        r is None <==> n == 0 || n > values@.len(),
        r matches Some(d) ==> values@.len() == n ==> -n <= 2 * (n * d@ - added(values@)) <= n,
{
    if r is Some && values@.len() == n {
        ema_seed(values@, n as int);
        total_is_added(values@);
        ema_scale_step(n as nat, n as int);
        nearest_error(total(values@), n as int);
    }
}

/// Up to `n` samples are only added up.
proof fn ema_seed(s: Seq<Decimal>, n: int)
    requires
        s.len() <= n,
    ensures
        ema_sum(s, n) == total(s),
    decreases s.len(),
{
    if s.len() > 0 {
        ema_seed(s.drop_last(), n);
    }
}

/// A rounded average after one more sample, against the rounded one before it:
/// `e / d` moves to `(k * e + g * d * v) / (d * m)`.
proof fn rounded_step(e: int, d: int, k: int, g: int, m: int, v: int, x: int, y: int)
    requires
        d > 0,
        k >= 0,
        m > 0,
        x == nearest(e, d),
        y == nearest(k * e + g * (d * v), d * m),
    ensures
        -(m + k) <= 2 * (m * y - (g * v + k * x)) <= m + k,
{
    let next = d * m;
    let top = k * e + g * (d * v);
    assert(next > 0) by (nonlinear_arith)
        requires
            next == d * m,
            d > 0,
            m > 0,
    ;
    nearest_error(e, d);
    nearest_error(top, next);
    let a = d * x - e;
    let b = next * y - top;
    let gap = m * y - (g * v + k * x);
    let my = m * y;
    let gv = g * v;
    let kx = k * x;
    assert(d * (my - (gv + kx)) == d * my - (d * gv + d * kx)) by (nonlinear_arith);
    assert((d * m) * y == d * (m * y)) by (nonlinear_arith);
    assert(g * (d * v) == d * (g * v)) by (nonlinear_arith);
    let dx = d * x;
    assert(k * (dx - e) == k * dx - k * e) by (nonlinear_arith);
    assert(k * (d * x) == d * (k * x)) by (nonlinear_arith);
    assert(d * gap == b - k * a);
    assert(-(k * d) <= 2 * (k * a) <= k * d) by (nonlinear_arith)
        requires
            k >= 0,
            -d <= 2 * a <= d,
    ;
    assert(-(m + k) <= 2 * gap <= m + k) by (nonlinear_arith)
        requires
            d > 0,
            d * gap == b - k * a,
            -(d * m) <= 2 * b <= d * m,
            -(k * d) <= 2 * (k * a) <= k * d,
    ;
}

/// One more sample moves the exponential moving average by `2 / (n + 1)` of the
/// way to it: `(n + 1) * EMA'` is `2 * P + (n - 1) * EMA`, up to the rounding of
/// the two averages.
pub proof fn ema_moves_toward_the_sample(
    before: &[Decimal],
    after: &[Decimal],
    price: Decimal,
    n: usize,
    x: Decimal,
    y: Decimal,
)
    requires
        call_ensures(ema, (before, n), Some(x)),
        call_ensures(ema, (after, n), Some(y)),
        after@ == before@.push(price),
    ensures
        -n <= (n + 1) * y@ - (2 * price@ + (n - 1) * x@) <= n,
{
    let s = before@;
    let more = after@;
    assert(more.drop_last() =~= s);
    ema_scale_step(s.len(), n as int);
    let e = ema_sum(s, n as int);
    let d = ema_scale(s.len(), n as int);
    rounded_step(e, d, n - 1, 2, n + 1, price@, x@, y@);
}

/// The first average true range is the mean of the first `n` true ranges.
pub proof fn atr_starts_at_the_mean(
    bars: &[Candle],
    n: usize,
    r: Option<Decimal>,
    ranges: Seq<Decimal>,
)
    requires
        call_ensures(atr, (bars, n), r),
        ranges.len() == bars@.len() - 1,
        forall|i: int|
            0 <= i < ranges.len() ==> call_ensures(
                Candle::true_range,
                (&bars@[i + 1], Some(bars@[i].close)),
                #[trigger] ranges[i],
            ),
    ensures
        r is None <==> n == 0 || n >= bars@.len(),
        r matches Some(d) ==> ranges.len() == n ==> -n <= 2 * (n * d@ - added(ranges)) <= n,
{
    if r is Some && ranges.len() == n {
        assert(true_ranges(bars@) =~= ranges);
        smoothed_seed(ranges, n as int);
        total_is_added(ranges);
        smoothed_scale_step(n as nat, n as int);
        nearest_error(total(ranges), n as int);
    }
}

/// Up to `n` moves are only added up.
proof fn smoothed_seed(s: Seq<Decimal>, n: int)
    requires
        s.len() <= n,
    ensures
        smoothed(amounts(s), n) == total(s),
    decreases s.len(),
{
    if s.len() > 0 {
        smoothed_seed(s.drop_last(), n);
        assert(amounts(s).drop_last() =~= amounts(s.drop_last()));
    }
}

/// One more bar moves the average true range by `1 / n` of the way to its true
/// range: `n * ATR'` is `(n - 1) * ATR + TR`, up to the rounding of the two
/// averages.
pub proof fn atr_moves_toward_the_range(
    before: &[Candle],
    after: &[Candle],
    bar: Candle,
    range: Decimal,
    n: usize,
    x: Decimal,
    y: Decimal,
)
    requires
        call_ensures(atr, (before, n), Some(x)),
        call_ensures(atr, (after, n), Some(y)),
        after@ == before@.push(bar),
        call_ensures(Candle::true_range, (&bar, Some(before@.last().close)), range),
    ensures
        -(2 * n - 1) <= 2 * (n * y@ - (range@ + (n - 1) * x@)) <= 2 * n - 1,
{
    let s = amounts(true_ranges(before@));
    let more = amounts(true_ranges(after@));
    assert(more.drop_last() =~= s);
    assert(more.last() == range@);
    smoothed_scale_step(s.len(), n as int);
    let e = smoothed(s, n as int);
    let d = smoothed_scale(s.len(), n as int);
    assert(n * d == d * n) by (nonlinear_arith);
    assert(d * range@ == 1 * (d * range@));
    rounded_step(e, d, n - 1, 1, n as int, range@, x@, y@);
}

/// A percentile rank is the share of the history strictly below the value, in
/// percent, cut to a millionth.
pub proof fn percentile_is_the_share_below(
    history: &[Decimal],
    value: Decimal,
    r: Option<Decimal>,
)
    requires
        call_ensures(percentile_rank, (history, value), r),
    ensures
        r is None <==> history@.len() == 0,
        r matches Some(p) ==> {
            let below = history@.filter(|h: Decimal| h@ < value@).len();
            p@ * history@.len() <= 100_000_000 * below < (p@ + 1) * history@.len()
        },
{
    if let Some(p) = r {
        let below = history@.filter(|h: Decimal| h@ < value@).len() as int;
        share_bounds(below, history@.len() as int, p@);
    }
}

/// A share in percent, against its parts.
proof fn share_bounds(part: int, whole: int, p: int)
    requires
        part >= 0,
        whole > 0,
        p == percent_of(part, whole),
    ensures
        p * whole <= 100_000_000 * part < (p + 1) * whole,
        p >= 0,
{
    let top = 100 * SCALE * part;
    assert(top == 100_000_000 * part && top >= 0) by (nonlinear_arith)
        requires
            top == 100 * SCALE * part,
            SCALE == 1_000_000,
            part >= 0,
    ;
    vstd::arithmetic::div_mod::lemma_fundamental_div_mod(top, whole);
    vstd::arithmetic::div_mod::lemma_mod_bound(top, whole);
    vstd::arithmetic::div_mod::lemma_div_pos_is_pos(top, whole);
    let rest = top % whole;
    assert(p * whole <= top < (p + 1) * whole) by (nonlinear_arith)
        requires
            top == whole * p + rest,
            0 <= rest < whole,
    ;
}

/// The ribbon points up exactly when the fast average lies above the medium one
/// and that above the slow one, down exactly when both lie the other way round,
/// and nowhere otherwise.
pub proof fn direction_is_the_full_stack(rib: Ribbon, d: i8)
    requires
        call_ensures(Ribbon::direction, (&rib,), d),
    ensures
        d == 1 <==> rib.fast@ > rib.medium@ && rib.medium@ > rib.slow@,
        d == -1 <==> rib.fast@ < rib.medium@ && rib.medium@ < rib.slow@,
        d == 1 || d == -1 || d == 0,
{
}

/// Exchanging two averages of a stacked ribbon leaves it undecided, unless the
/// outer two change places, which turns it round.
pub proof fn tangled_ribbons_are_undecided(
    rib: Ribbon,
    outer: Ribbon,
    upper: Ribbon,
    lower: Ribbon,
    d: i8,
    o: i8,
    u: i8,
    l: i8,
)
    requires
        outer == (Ribbon { fast: rib.slow, medium: rib.medium, slow: rib.fast }),
        upper == (Ribbon { fast: rib.medium, medium: rib.fast, slow: rib.slow }),
        lower == (Ribbon { fast: rib.fast, medium: rib.slow, slow: rib.medium }),
        call_ensures(Ribbon::direction, (&rib,), d),
        call_ensures(Ribbon::direction, (&outer,), o),
        call_ensures(Ribbon::direction, (&upper,), u),
        call_ensures(Ribbon::direction, (&lower,), l),
        d != 0,
    ensures
        o == -d,
        u == 0,
        l == 0,
{
}

/// The spread is the distance of the fast average from the slow one in percent
/// of the slow one, with the sign of that quotient and cut toward zero; without
/// a slow average it is nothing.
pub proof fn spread_is_a_percentage(rib: Ribbon, p: Decimal)
    requires
        call_ensures(Ribbon::spread_pct, (&rib,), p),
    ensures
        ({
            let gap = rib.fast@ - rib.slow@;
            let slow = rib.slow@;
            let base = if slow < 0 {
                -slow
            } else {
                slow
            };
            let part = if (gap < 0) == (slow < 0) {
                if gap < 0 {
                    -gap
                } else {
                    gap
                }
            } else {
                if gap < 0 {
                    gap
                } else {
                    -gap
                }
            };
            &&& slow == 0 ==> p@ == 0
            &&& slow != 0 && part >= 0 ==> p@ * base <= 100_000_000 * part < (p@ + 1) * base
            &&& slow != 0 && part < 0 ==> (p@ - 1) * base < 100_000_000 * part <= p@ * base
        }),
{
    let gap = rib.fast@ - rib.slow@;
    let slow = rib.slow@;
    if slow != 0 {
        let base = magnitude(slow);
        let size = magnitude(gap);
        assert(percent_of(size, base) == toward_zero(100 * SCALE * size, base));
        assert(magnitude(100 * SCALE * gap) == 100 * SCALE * size && 100 * SCALE * size >= 0 && (100
            * SCALE * gap < 0 <==> gap < 0)) by (nonlinear_arith)
            requires
                SCALE == 1_000_000,
                size == magnitude(gap),
        ;
        share_bounds(size, base, percent_of(size, base));
        let q = percent_of(size, base);
        assert(p@ == if (gap < 0) != (slow < 0) {
            -q
        } else {
            q
        });
        assert((-q) * base == -(q * base) && (-q - 1) * base == -((q + 1) * base))
            by (nonlinear_arith);
    }
}

/// A ribbon holds the three exponential moving averages of the closes, and is
/// there exactly when all three are.
pub proof fn ribbon_holds_three_averages(
    closes: &[Decimal],
    fast: usize,
    medium: usize,
    slow: usize,
    r: Option<Ribbon>,
    f: Option<Decimal>,
    m: Option<Decimal>,
    s: Option<Decimal>,
)
    requires
        call_ensures(ribbon, (closes, fast, medium, slow), r),
        call_ensures(ema, (closes, fast), f),
        call_ensures(ema, (closes, medium), m),
        call_ensures(ema, (closes, slow), s),
    ensures
        r is Some <==> f is Some && m is Some && s is Some,
        r matches Some(rib) ==> f == Some(rib.fast) && m == Some(rib.medium) && s == Some(rib.slow),
{
}

/// The opening range is the highest high and the lowest low of the first bars,
/// and of those alone.
pub proof fn opening_range_spans_the_first_bars(
    candles: &[Candle],
    bars: usize,
    r: Option<(Decimal, Decimal)>,
)
    requires
        call_ensures(opening_range, (candles, bars), r),
    ensures
        bars == 0 || bars > candles@.len() ==> r is None,
        r matches Some((hi, lo)) ==> {
            &&& lo@ <= hi@
            &&& forall|i: int|
                0 <= i < bars ==> lo@ <= (#[trigger] candles@[i]).low@ && candles@[i].high@ <= hi@
            &&& exists|i: int| 0 <= i < bars && (#[trigger] candles@[i]).high@ == hi@
            &&& exists|i: int| 0 <= i < bars && (#[trigger] candles@[i]).low@ == lo@
        },
        0 < bars <= candles@.len() && (exists|i: int|
            0 <= i < bars && (#[trigger] candles@[i]).low@ <= candles@[i].high@) ==> r is Some,
{
    let first = candles@.take(bars as int);
    extremes_unique(first);
    if let Some((hi, lo)) = r {
        range_of_the_first(candles@, bars as int, hi@, lo@);
    }
    if r is None && 0 < bars <= candles@.len() {
        assert forall|i: int| 0 <= i < bars implies !((#[trigger] candles@[i]).low@
            <= candles@[i].high@) by {
            assert(first[i] == candles@[i]);
            assert(first[i].high@ < first[i].low@);
        }
    }
}

/// The highest high and the lowest low of the first bars, seen from all of them.
proof fn range_of_the_first(bars: Seq<Candle>, n: int, hi: int, lo: int)
    requires
        0 < n <= bars.len(),
        is_highest(bars.take(n), hi),
        is_lowest(bars.take(n), lo),
    ensures
        forall|i: int| 0 <= i < n ==> lo <= (#[trigger] bars[i]).low@ && bars[i].high@ <= hi,
        exists|i: int| 0 <= i < n && (#[trigger] bars[i]).high@ == hi,
        exists|i: int| 0 <= i < n && (#[trigger] bars[i]).low@ == lo,
{
    let first = bars.take(n);
    assert forall|i: int| 0 <= i < n implies lo <= (#[trigger] bars[i]).low@ && bars[i].high@
        <= hi by {
        assert(first[i] == bars[i]);
        assert(first[i].high@ <= hi && first[i].low@ >= lo);
    }
    let a = choose|i: int| 0 <= i < first.len() && (#[trigger] first[i]).high@ == hi;
    let b = choose|i: int| 0 <= i < first.len() && (#[trigger] first[i]).low@ == lo;
    assert(bars[a].high@ == hi && bars[b].low@ == lo);
}

/// Relative strength is `100 - 100/(1 + G/L)`, to the nearest millionth, where
/// `G` and `L` are Wilder's averages of the rises and of the falls from sample to
/// sample.
pub proof fn rsi_weighs_rises_against_falls(
    values: &[Decimal],
    n: usize,
    r: Option<Decimal>,
    rises: Seq<int>,
    falls: Seq<int>,
)
    requires
        call_ensures(rsi, (values, n), r),
        rises.len() + 1 == values@.len(),
        falls.len() + 1 == values@.len(),
        forall|i: int|
            0 <= i < rises.len() ==> (#[trigger] rises[i]) - falls[i] == values@[i + 1]@
                - values@[i]@,
        forall|i: int|
            0 <= i < rises.len() ==> (#[trigger] rises[i]) >= 0 && falls[i] >= 0 && (rises[i] == 0
                || falls[i] == 0),
    ensures
        r is None <==> n == 0 || n >= values@.len(),
        r matches Some(d) ==> {
            let exact = real_strength(
                real_smoothed(rises, n as int),
                real_smoothed(falls, n as int),
            );
            -1 as real <= (2 as real) * ((d@ as real) - exact) <= 1 as real
        },
{
    if r is Some {
        let up = gains(values@);
        let down = losses(values@);
        assert forall|i: int| 0 <= i < rises.len() implies rises[i] == up[i] && falls[i]
            == down[i] by {
            assert(rises[i] - falls[i] == values@[i + 1]@ - values@[i]@);
            assert(rises[i] >= 0 && falls[i] >= 0);
        }
        assert(rises =~= up);
        assert(falls =~= down);
        strength_accuracy(values@, n as int);
    }
}

/// The relative strength of a series turned upside down is what is missing to a
/// hundred, up to the rounding of the two.
pub proof fn upside_down_strength(
    values: &[Decimal],
    turned: &[Decimal],
    n: usize,
    level: int,
    x: Decimal,
    y: Decimal,
)
    requires
        call_ensures(rsi, (values, n), Some(x)),
        call_ensures(rsi, (turned, n), Some(y)),
        turned@.len() == values@.len(),
        forall|i: int| 0 <= i < values@.len() ==> (#[trigger] turned@[i])@ == level - values@[i]@,
    ensures
        -1 <= x@ + y@ - 100_000_000 <= 1,
{
    let s = values@;
    let t = turned@;
    assert forall|i: int| 0 <= i < s.len() - 1 implies gains(t)[i] == losses(s)[i] && losses(t)[i]
        == gains(s)[i] by {
        assert(t[i]@ == level - s[i]@ && t[i + 1]@ == level - s[i + 1]@);
    }
    assert(gains(t) =~= losses(s));
    assert(losses(t) =~= gains(s));
    let g = smoothed(gains(s), n as int);
    let l = smoothed(losses(s), n as int);
    smoothed_bounds(gains(s), n as int, 0);
    smoothed_bounds(losses(s), n as int, 0);
    strengths_add_up(g, l);
}

/// The strengths of two averages, either way round.
proof fn strengths_add_up(g: int, l: int)
    requires
        g >= 0,
        l >= 0,
    ensures
        -1 <= strength(g, l) + strength(l, g) - 100_000_000 <= 1,
{
    let b = g + l;
    if g > 0 && l > 0 {
        assert(100 * SCALE * g == 100_000_000 * g && 100 * SCALE * l == 100_000_000 * l)
            by (nonlinear_arith)
            requires
                SCALE == 1_000_000,
        ;
        nearest_error(100_000_000 * g, b);
        nearest_error(100_000_000 * l, b);
        let x = strength(g, l);
        let y = strength(l, g);
        let both = x + y - 100_000_000;
        assert(b * both == (b * x - 100_000_000 * g) + (b * y - 100_000_000 * l))
            by (nonlinear_arith)
            requires
                b == g + l,
                both == x + y - 100_000_000,
        ;
        assert(-1 <= both <= 1) by (nonlinear_arith)
            requires
                b > 0,
                -b <= b * both <= b,
        ;
    } else if l > 0 {
        assert(100 * SCALE * g == 0) by (nonlinear_arith)
            requires
                g == 0,
        ;
        nearest_error(0, l);
    } else if g > 0 {
        assert(100 * SCALE * l == 0) by (nonlinear_arith)
            requires
                l == 0,
        ;
        nearest_error(0, g);
    }
}

/// The quantity traded over some bars.
pub open spec fn traded(bars: Seq<Candle>) -> int {
    bars.fold_left(0, |sum: int, c: Candle| sum + c.volume)
}

/// What a bar counts for among others: its volume, or one where nothing was
/// traded at all.
pub open spec fn say(c: Candle, bars: Seq<Candle>) -> int {
    if traded(bars) > 0 {
        c.volume as int
    } else {
        1
    }
}

/// What some bars count for together.
pub open spec fn say_of_all(bars: Seq<Candle>) -> int {
    bars.fold_left(0, |sum: int, c: Candle| sum + say(c, bars))
}

/// The highs, lows and closes, each as often as its bar counts.
pub open spec fn prices_of_all(bars: Seq<Candle>) -> int {
    bars.fold_left(0, |sum: int, c: Candle| sum + (c.high@ + c.low@ + c.close@) * say(c, bars))
}

/// The squared distances of the bars' prices from their mean, at the scale that
/// makes them whole, each as often as its bar counts.
pub open spec fn squares_of_all(bars: Seq<Candle>) -> int {
    let w = say_of_all(bars);
    let t = prices_of_all(bars);
    bars.fold_left(
        0,
        |sum: int, c: Candle|
            sum + (w * (c.high@ + c.low@ + c.close@) - t) * (w * (c.high@ + c.low@ + c.close@) - t)
                * say(c, bars),
    )
}

/// The volumes of some bars, added up either way.
proof fn volume_is_traded(bars: Seq<Candle>)
    ensures
        total_volume(bars) == traded(bars),
    decreases bars.len(),
{
    if bars.len() > 0 {
        volume_is_traded(bars.drop_last());
    }
}

/// The sums over some bars, among which they count by volume or all alike, added
/// up either way.
proof fn sums_agree(part: Seq<Candle>, bars: Seq<Candle>, w: int, t: int)
    ensures
        weight_sum(part, total_volume(bars) > 0) == part.fold_left(
            0,
            |sum: int, c: Candle| sum + say(c, bars),
        ),
        price_total(part, total_volume(bars) > 0) == part.fold_left(
            0,
            |sum: int, c: Candle| sum + (c.high@ + c.low@ + c.close@) * say(c, bars),
        ),
        spread_total(part, total_volume(bars) > 0, w, t) == part.fold_left(
            0,
            |sum: int, c: Candle|
                sum + (w * (c.high@ + c.low@ + c.close@) - t) * (w * (c.high@ + c.low@ + c.close@)
                    - t) * say(c, bars),
        ),
    decreases part.len(),
{
    volume_is_traded(bars);
    if part.len() > 0 {
        sums_agree(part.drop_last(), bars, w, t);
    }
}

/// The sums behind VWAP, either way.
proof fn bar_sums_agree(bars: Seq<Candle>)
    requires
        bars.len() > 0,
    ensures
        bar_weights(bars) == say_of_all(bars),
        bar_prices(bars) == prices_of_all(bars),
        bar_spread(bars) == squares_of_all(bars),
        say_of_all(bars) > 0,
{
    sums_agree(bars, bars, bar_weights(bars), bar_prices(bars));
    weight_sum_value(bars, total_volume(bars) > 0);
}

/// A root of a quotient, against the numbers that it is the quotient of.
proof fn root_bounds(top: int, bottom: int, root: int)
    requires
        bottom > 0,
        is_floor_root(top / bottom, root),
    ensures
        (root * root) * bottom <= top < ((root + 1) * (root + 1)) * bottom,
{
    let q = top / bottom;
    vstd::arithmetic::div_mod::lemma_fundamental_div_mod(top, bottom);
    vstd::arithmetic::div_mod::lemma_mod_bound(top, bottom);
    let rest = top % bottom;
    let low = root * root;
    let high = (root + 1) * (root + 1);
    assert(low * bottom <= top) by (nonlinear_arith)
        requires
            top == bottom * q + rest,
            0 <= rest,
            low <= q,
            bottom > 0,
    ;
    assert(top < high * bottom) by (nonlinear_arith)
        requires
            top == bottom * q + rest,
            rest < bottom,
            q + 1 <= high,
            bottom > 0,
    ;
}

/// The average price is the mean of the typical prices, each counted by the
/// volume of its bar, or all alike where nothing was traded; to the nearest
/// millionth.
pub proof fn vwap_is_the_weighed_mean(candles: &[Candle], k: Decimal, r: Option<Vwap>)
    requires
        call_ensures(vwap_bands, (candles, k), r),
    ensures
        r is None <==> candles@.len() == 0,
        r matches Some(v) ==> {
            let w = say_of_all(candles@);
            -(3 * w) <= 2 * (3 * w * v.vwap@ - prices_of_all(candles@)) <= 3 * w
        },
{
    if r is Some {
        bar_sums_agree(candles@);
        nearest_error(bar_prices(candles@), 3 * bar_weights(candles@));
    }
}

/// Sigma is the standard deviation of the typical prices around that mean, each
/// counted alike, cut to a millionth.
pub proof fn sigma_is_the_weighed_deviation(candles: &[Candle], k: Decimal, v: Vwap)
    requires
        call_ensures(vwap_bands, (candles, k), Some(v)),
    ensures
        v.sigma@ >= 0,
        ({
            let w = say_of_all(candles@);
            let cube = 9 * (w * (w * w));
            (v.sigma@ * v.sigma@) * cube <= squares_of_all(candles@) < ((v.sigma@ + 1) * (v.sigma@
                + 1)) * cube
        }),
{
    bar_sums_agree(candles@);
    let w = bar_weights(candles@);
    let cube = 9 * (w * (w * w));
    assert(cube > 0) by (nonlinear_arith)
        requires
            cube == 9 * (w * (w * w)),
            w > 0,
    ;
    root_bounds(bar_spread(candles@), cube, v.sigma@);
}

/// The bands lie `k` times sigma above and below the average price, to the
/// nearest millionth; `k` moves neither the price nor sigma.
pub proof fn bands_lie_at_k_sigma(candles: &[Candle], k: Decimal, v: Vwap, j: Decimal, u: Vwap)
    requires
        call_ensures(vwap_bands, (candles, k), Some(v)),
        call_ensures(vwap_bands, (candles, j), Some(u)),
    ensures
        v.upper@ - v.vwap@ == v.vwap@ - v.lower@,
        -1_000_000 <= 2 * (1_000_000 * (v.upper@ - v.vwap@) - k@ * v.sigma@) <= 1_000_000,
        u.vwap == v.vwap,
        u.sigma == v.sigma,
{
    nearest_error(k@ * v.sigma@, SCALE as int);
    floor_root_unique(variance(candles@), v.sigma@, u.sigma@);
}

/// The standard deviation is that of the last `n` samples around their mean, cut
/// to a millionth.
pub proof fn stdev_is_the_deviation_of_the_last(values: &[Decimal], n: usize, r: Option<Decimal>)
    requires
        call_ensures(stdev, (values, n), r),
    ensures
        r is None <==> n < 2 || n > values@.len(),
        r matches Some(d) ==> {
            let last = values@.subrange(values@.len() - n, values@.len() as int);
            let t = added(last);
            let square = last.fold_left(
                0,
                |sum: int, x: Decimal| sum + (n * x@ - t) * (n * x@ - t),
            );
            let cube = n * (n * n);
            &&& d@ >= 0
            &&& (d@ * d@) * cube <= square < ((d@ + 1) * (d@ + 1)) * cube
        },
{
    if let Some(d) = r {
        let last = tail(values@, n as int);
        total_is_added(last);
        squares_agree(last, n as int, total(last));
        let m = n as int;
        let cube = m * (m * m);
        assert(cube > 0) by (nonlinear_arith)
            requires
                cube == m * (m * m),
                m >= 2,
        ;
        root_bounds(squares(last, m, total(last)), cube, d@);
    }
}

/// Squares, added up either way.
proof fn squares_agree(s: Seq<Decimal>, n: int, t: int)
    ensures
        squares(s, n, t) == s.fold_left(
            0,
            |sum: int, x: Decimal| sum + (n * x@ - t) * (n * x@ - t),
        ),
    decreases s.len(),
{
    if s.len() > 0 {
        squares_agree(s.drop_last(), n, t);
    }
}

/// The slope is that of the least-squares line through the last `n` samples, in
/// percent of their mean per sample, to the nearest millionth; there is none
/// where the mean is zero.
pub proof fn slope_is_least_squares(values: &[Decimal], n: usize, r: Option<Decimal>)
    requires
        call_ensures(slope_pct, (values, n), r),
    ensures
        ({
            let last = values@.subrange(values@.len() - n, values@.len() as int);
            let t = added(last);
            let arms = Seq::new(n as nat, |i: int| (2 * i - (n - 1)) * last[i]@);
            let base = (n * n - 1) * t;
            &&& r is None <==> n < 2 || n > values@.len() || t == 0
            &&& r matches Some(d) ==> {
                let gap = 2 * (d@ * base - 600_000_000 * sum_of(arms));
                (base > 0 ==> -base <= gap <= base) && (base < 0 ==> base <= gap <= -base)
            }
        }),
{
    let last = tail(values@, n as int);
    if 2 <= n <= values@.len() {
        total_is_added(last);
    }
    if let Some(d) = r {
        let m = n as int;
        let arms = Seq::new(n as nat, |i: int| (2 * i - (n - 1)) * last[i]@);
        moments_agree(last, arms, m);
        let t = total(last);
        let base = (m * m - 1) * t;
        assert(base != 0) by (nonlinear_arith)
            requires
                base == (m * m - 1) * t,
                m >= 2,
                t != 0,
        ;
        let top = 600 * SCALE * moment(last, m);
        let x = d@;
        assert(base * x == x * base && (-base) * x == -(x * base)) by (nonlinear_arith);
        assert(n * n == m * m);
        if base > 0 {
            nearest_error(top, base);
        } else {
            nearest_error(-top, -base);
        }
    }
}

/// Moments, added up either way.
proof fn moments_agree(s: Seq<Decimal>, arms: Seq<int>, n: int)
    requires
        arms.len() == s.len(),
        forall|i: int| 0 <= i < s.len() ==> (#[trigger] arms[i]) == (2 * i - (n - 1)) * s[i]@,
    ensures
        moment(s, n) == sum_of(arms),
    decreases s.len(),
{
    if s.len() > 0 {
        let rest = arms.drop_last();
        assert forall|i: int| 0 <= i < rest.len() implies (#[trigger] rest[i]) == (2 * i - (n - 1))
            * s.drop_last()[i]@ by {
            assert(rest[i] == arms[i]);
        }
        moments_agree(s.drop_last(), rest, n);
        assert(arms[arms.len() - 1] == (2 * (s.len() - 1) - (n - 1)) * s[s.len() - 1]@);
    }
}

/// The relative strength over a single window is the share of the rises in all
/// moves.
pub proof fn rsi_of_one_window(
    values: &[Decimal],
    n: usize,
    d: Decimal,
    rises: Seq<Decimal>,
    falls: Seq<Decimal>,
)
    requires
        call_ensures(rsi, (values, n), Some(d)),
        values@.len() == n + 1,
        rises.len() == n,
        falls.len() == n,
        forall|i: int|
            0 <= i < n ==> (#[trigger] rises[i])@ - falls[i]@ == values@[i + 1]@ - values@[i]@,
        forall|i: int|
            0 <= i < n ==> (#[trigger] rises[i])@ >= 0 && falls[i]@ >= 0 && (rises[i]@ == 0
                || falls[i]@ == 0),
    ensures
        ({
            let g = added(rises);
            let l = added(falls);
            &&& g + l > 0 ==> -(g + l) <= 2 * ((g + l) * d@ - 100_000_000 * g) <= g + l
            &&& g + l == 0 ==> d@ == 50_000_000
        }),
{
    let up = gains(values@);
    let down = losses(values@);
    assert forall|i: int| 0 <= i < n implies rises[i]@ == up[i] && falls[i]@ == down[i] by {
        assert(rises[i]@ - falls[i]@ == values@[i + 1]@ - values@[i]@);
        assert(rises[i]@ >= 0 && falls[i]@ >= 0);
    }
    assert(amounts(rises) =~= up);
    assert(amounts(falls) =~= down);
    smoothed_seed(rises, n as int);
    smoothed_seed(falls, n as int);
    total_is_added(rises);
    total_is_added(falls);
    let g = added(rises);
    let l = added(falls);
    smoothed_bounds(up, n as int, 0);
    smoothed_bounds(down, n as int, 0);
    assert(100 * SCALE * g == 100_000_000 * g) by (nonlinear_arith)
        requires
            SCALE == 1_000_000,
    ;
    if l > 0 {
        nearest_error(100_000_000 * g, g + l);
    } else if g > 0 {
        assert((g + 0) * 100_000_000 == 100_000_000 * g) by (nonlinear_arith);
    }
}

/// Whether bars are too few to be read: fewer than asked for, or than one of the
/// averages needs.
pub open spec fn too_few(n: int, cfg: StrategyConfig) -> bool {
    ||| n < cfg.min_bars_for_signal
    ||| cfg.ema_fast == 0 || cfg.ema_fast > n
    ||| cfg.ema_medium == 0 || cfg.ema_medium > n
    ||| cfg.ema_slow == 0 || cfg.ema_slow > n
    ||| cfg.atr_period == 0 || cfg.atr_period >= n
}

/// A regime is read exactly when there are bars enough. Until then nothing is
/// said but the spot, which is the close of the newest bar at all times.
pub proof fn cold_bars_are_not_read(bars: &[Candle], cfg: &StrategyConfig, r: RegimeReading)
    requires
        call_ensures(classify, (bars, cfg), r),
    ensures
        r.regime is Unknown <==> too_few(bars@.len() as int, *cfg),
        bars@.len() > 0 ==> r.spot == bars@.last().close,
        bars@.len() == 0 ==> r.spot@ == 0,
        r.regime is Unknown ==> {
            &&& r.ema_fast@ == 0 && r.ema_medium@ == 0 && r.ema_slow@ == 0
            &&& r.ribbon_direction == 0 && r.ribbon_spread_pct@ == 0
            &&& r.atr@ == 0 && r.atr_percentile@ == 0
            &&& r.vwap@ == 0 && r.vwap_z@ == 0
            &&& r.rsi@ == 50_000_000
        },
{
}

/// The readings of warm bars are what the indicators return for the same bars
/// and for their closes, and the regime is what is decided from them.
pub proof fn reading_holds_the_indicators(
    bars: &[Candle],
    closes: &[Decimal],
    cfg: &StrategyConfig,
    r: RegimeReading,
    k: Decimal,
)
    requires
        call_ensures(classify, (bars, cfg), r),
        !(r.regime is Unknown),
        closes@.len() == bars@.len(),
        forall|i: int| 0 <= i < bars@.len() ==> closes@[i] == (#[trigger] bars@[i]).close,
    ensures
        forall|e: Option<Decimal>| #[trigger]
            call_ensures(ema, (closes, cfg.ema_fast), e) ==> e == Some(r.ema_fast),
        forall|e: Option<Decimal>| #[trigger]
            call_ensures(ema, (closes, cfg.ema_medium), e) ==> e == Some(r.ema_medium),
        forall|e: Option<Decimal>| #[trigger]
            call_ensures(ema, (closes, cfg.ema_slow), e) ==> e == Some(r.ema_slow),
        forall|a: Option<Decimal>| #[trigger]
            call_ensures(atr, (bars, cfg.atr_period), a) ==> a == Some(r.atr),
        forall|v: Option<Vwap>| #[trigger]
            call_ensures(vwap_bands, (bars, k), v) ==> v is Some && v->0.vwap == r.vwap,
        forall|s: Option<Decimal>| #[trigger]
            call_ensures(rsi, (closes, cfg.rsi_period), s) ==> match s {
                Some(d) => r.rsi == d,
                None => r.rsi@ == 50_000_000,
            },
        ({
            let rib = Ribbon { fast: r.ema_fast, medium: r.ema_medium, slow: r.ema_slow };
            &&& forall|d: i8| #[trigger]
                call_ensures(Ribbon::direction, (&rib,), d) ==> d == r.ribbon_direction
            &&& forall|p: Decimal| #[trigger]
                call_ensures(Ribbon::spread_pct, (&rib,), p) ==> p == r.ribbon_spread_pct
        }),
        forall|d: (MarketRegime, String)| #[trigger]
            call_ensures(
                decide,
                (r.ribbon_direction, r.ribbon_spread_pct, r.atr_percentile, r.vwap_z),
                d,
            ) ==> d.0 == r.regime && d.1@ == r.rationale@,
{
    assert(closes@ =~= crate::strategy::regime::closes(bars@));
}

/// Warm bars on a rising, separated ribbon within two standard deviations of
/// VWAP are read as a trend up, and on a falling one as a trend down, at every
/// volatility; nothing else is.
pub proof fn trends_are_read_from_the_averages(
    bars: &[Candle],
    cfg: &StrategyConfig,
    r: RegimeReading,
)
    requires
        call_ensures(classify, (bars, cfg), r),
        !too_few(bars@.len() as int, *cfg),
    ensures
        ({
            let wide = r.ribbon_spread_pct@ >= 50_000 || r.ribbon_spread_pct@ <= -50_000;
            let near = -2_000_000 < r.vwap_z@ < 2_000_000;
            &&& r.regime is TrendingUp <==> r.ema_fast@ > r.ema_medium@ && r.ema_medium@
                > r.ema_slow@ && wide && near
            &&& r.regime is TrendingDown <==> r.ema_fast@ < r.ema_medium@ && r.ema_medium@
                < r.ema_slow@ && wide && near
        }),
{
}

/// The distance from VWAP is that of the newest close from the weighed mean of
/// the typical prices, in their standard deviations, with its sign and cut
/// toward zero; there is none where all prices are alike.
pub proof fn distance_is_in_deviations(bars: &[Candle], cfg: &StrategyConfig, r: RegimeReading)
    requires
        call_ensures(classify, (bars, cfg), r),
        !(r.regime is Unknown),
    ensures
        ({
            let w = say_of_all(bars@);
            let gap = 3 * w * bars@.last().close@ - prices_of_all(bars@);
            let spread = squares_of_all(bars@);
            let size = if r.vwap_z@ < 0 {
                -r.vwap_z@
            } else {
                r.vwap_z@
            };
            let square = 1_000_000_000_000 * (w * (gap * gap));
            &&& spread == 0 ==> r.vwap_z@ == 0
            &&& spread != 0 ==> (size * size) * spread <= square < ((size + 1) * (size + 1))
                * spread
            &&& r.vwap_z@ > 0 ==> gap > 0
            &&& r.vwap_z@ < 0 ==> gap < 0
        }),
{
    bar_sums_agree(bars@);
    spread_multiple(bars@);
    let w = bar_weights(bars@);
    let gap = 3 * w * bars@.last().close@ - bar_prices(bars@);
    if bar_spread(bars@) != 0 {
        assert(SCALE * SCALE == 1_000_000_000_000);
        root_bounds(
            (SCALE * SCALE) * (w * (gap * gap)),
            bar_spread(bars@),
            magnitude(r.vwap_z@),
        );
    }
}

/// The ATR percentile is the share of the earlier windows of `atr_period + 1`
/// bars whose average true range lies below that of all bars, in percent, cut to
/// a millionth; a half where there is no earlier window.
pub proof fn percentile_counts_calmer_windows(
    bars: &[Candle],
    cfg: &StrategyConfig,
    r: RegimeReading,
    ranges: Seq<Decimal>,
)
    requires
        call_ensures(classify, (bars, cfg), r),
        !(r.regime is Unknown),
        ranges.len() + 1 == bars@.len(),
        forall|i: int|
            0 <= i < ranges.len() ==> call_ensures(
                Candle::true_range,
                (&bars@[i + 1], Some(bars@[i].close)),
                #[trigger] ranges[i],
            ),
    ensures
        ({
            let n = cfg.atr_period as int;
            let windows = bars@.len() - n - 1;
            let sizes = Seq::new(ranges.len(), |i: int| ranges[i]@);
            let calmer = Seq::new(windows as nat, |k: int| k).filter(
                |k: int| real_smoothed(sizes.subrange(k, k + n), n) < real_smoothed(sizes, n),
            ).len();
            &&& windows == 0 ==> r.atr_percentile@ == 50_000_000
            &&& windows > 0 ==> r.atr_percentile@ * windows <= 100_000_000 * calmer < (
            r.atr_percentile@ + 1) * windows
        }),
{
    let n = cfg.atr_period as int;
    let windows = bars@.len() - n - 1;
    if windows > 0 {
        assert(true_ranges(bars@) =~= ranges);
        windows_agree(bars@, ranges, n, windows as nat);
        let calmer = crate::strategy::regime::calmer_windows(bars@, n, windows as nat);
        share_bounds(calmer as int, windows, r.atr_percentile@);
    }
}

/// The windows that were calmer, counted either way.
proof fn windows_agree(bars: Seq<Candle>, ranges: Seq<Decimal>, n: int, windows: nat)
    requires
        n > 0,
        ranges == true_ranges(bars),
        windows + n + 1 <= bars.len(),
    ensures
        ({
            let sizes = Seq::new(ranges.len(), |i: int| ranges[i]@);
            crate::strategy::regime::calmer_windows(bars, n, windows) == Seq::new(
                windows,
                |k: int| k,
            ).filter(
                |k: int| real_smoothed(sizes.subrange(k, k + n), n) < real_smoothed(sizes, n),
            ).len()
        }),
    decreases windows,
{
    reveal(Seq::filter);
    let sizes = Seq::new(ranges.len(), |i: int| ranges[i]@);
    let calm = |k: int| real_smoothed(sizes.subrange(k, k + n), n) < real_smoothed(sizes, n);
    let all = Seq::new(windows, |k: int| k);
    if windows > 0 {
        let last = windows - 1;
        windows_agree(bars, ranges, n, last as nat);
        assert(all.drop_last() =~= Seq::new(last as nat, |k: int| k));
        calmer_is_exact(bars, n, last);
        assert(amounts(true_ranges(bars)) =~= sizes);
        assert(amounts(true_ranges(bars.subrange(last, last + n + 1))) =~= sizes.subrange(
            last,
            last + n,
        ));
        assert(calm(last) == crate::strategy::regime::was_calmer(bars, n, last));
    }
}

} // verus!
