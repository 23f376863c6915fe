//! Market regime classification.
//!
//! Directional option buying only works in some market states. A trending
//! market rewards it; a tight range grinds long premium to nothing. So before
//! any directional opinion is formed, the engine classifies what kind of market
//! this is and lets the regime veto or damp the trade.
//!
//! Three readings decide, all taken from minute bars of the underlying index:
//!
//! - the EMA ribbon: is there a persistent direction?
//! - the ATR percentile: is volatility expanding?
//! - the distance from VWAP in standard deviations: is price extended?

use crate::decimal::{divide_toward_zero, is_floor_root, magnitude, threshold_is_exact};
use crate::decimal::{Decimal, SCALE};
use crate::natural::Natural;
use crate::strategy::candles::{Candle, PRICE_LIMIT};
use crate::strategy::config::StrategyConfig;
use crate::strategy::indicators::{self, Ribbon, Weighed};
use crate::strategy::indicators::{
    amounts, bar_prices, bar_spread, bar_weights, bounded_bars_fit, bounded_distance_fits,
    distance_fits, ema_bounds, ema_micros, is_distance, percent_of, prices_weigh, ranges_fit,
    smoothed, smoothed_scale, spread_multiple, strength_of, total_volume, true_ranges, vwap_micros,
    weight_sum_value, wilder_micros,
};
use crate::text::{amount0_text, amount2_text, nat_text, signed_amount1_text, signed_int_text};
use crate::text::{push_amount0, push_amount2, push_count, push_signed_amount1, push_signed_int};
use vstd::prelude::*;
use vstd::string::*;

verus! {

/// The market state the engine believes it is operating in.
#[derive(Debug, Clone, Copy, PartialEq, Eq, Structural)]
pub enum MarketRegime {
    /// Stacked EMAs: the regime directional option buying is designed for.
    TrendingUp,
    TrendingDown,
    /// Price oscillating inside VWAP bands with a flat ribbon. Long premium
    /// bleeds here; the engine stands down.
    Rangebound,
    /// Stretched well beyond the VWAP bands: a snap-back is more likely than
    /// continuation, so a breakout entry is refused.
    MeanReverting,
    /// Volatility expanding sharply without a settled direction. Tradeable
    /// only on a decisive break, never on anticipation.
    HighVolatility,
    /// Not enough data to say. Always treated as "do not trade".
    Unknown,
}

impl MarketRegime {
    /// Whether the regime permits opening a new directional long-option trade.
    pub fn allows_entry(&self) -> (r: bool)
        ensures
            r == (self is TrendingUp || self is TrendingDown || self is HighVolatility),
    {
        matches!(self, MarketRegime::TrendingUp | MarketRegime::TrendingDown | MarketRegime::HighVolatility)
    }

    /// The bias of the regime.
    pub open spec fn spec_bias(self) -> int {
        match self {
            MarketRegime::TrendingUp => 1,
            MarketRegime::TrendingDown => -1,
            _ => 0,
        }
    }

    /// Directional bias the regime itself implies: `+1` up, `-1` down, `0` none.
    pub fn bias(&self) -> (b: i8)
        ensures
            b == self.spec_bias(),
    {
        match self {
            MarketRegime::TrendingUp => 1,
            MarketRegime::TrendingDown => -1,
            _ => 0,
        }
    }

    /// The name of the regime.
    pub open spec fn name(self) -> Seq<char> {
        match self {
            MarketRegime::TrendingUp => "TRENDING_UP"@,
            MarketRegime::TrendingDown => "TRENDING_DOWN"@,
            MarketRegime::Rangebound => "RANGEBOUND"@,
            MarketRegime::MeanReverting => "MEAN_REVERTING"@,
            MarketRegime::HighVolatility => "HIGH_VOLATILITY"@,
            MarketRegime::Unknown => "UNKNOWN"@,
        }
    }

    pub fn as_str(&self) -> (s: &'static str)
        ensures
            s@ == self.name(),
    {
        match self {
            MarketRegime::TrendingUp => "TRENDING_UP",
            MarketRegime::TrendingDown => "TRENDING_DOWN",
            MarketRegime::Rangebound => "RANGEBOUND",
            MarketRegime::MeanReverting => "MEAN_REVERTING",
            MarketRegime::HighVolatility => "HIGH_VOLATILITY",
            MarketRegime::Unknown => "UNKNOWN",
        }
    }
}

/// A full regime reading, retained so the dashboard can show why the engine
/// classified the market the way it did.
#[derive(Debug, Clone)]
pub struct RegimeReading {
    pub regime: MarketRegime,
    pub spot: Decimal,
    pub ema_fast: Decimal,
    pub ema_medium: Decimal,
    pub ema_slow: Decimal,
    /// `+1` bullish stack, `-1` bearish, `0` tangled.
    pub ribbon_direction: i8,
    /// Ribbon separation as a percent of the slow EMA.
    pub ribbon_spread_pct: Decimal,
    pub atr: Decimal,
    /// Where current ATR sits in the session's own ATR history (0 to 100).
    pub atr_percentile: Decimal,
    pub vwap: Decimal,
    /// Signed distance from VWAP in sigma units.
    pub vwap_z: Decimal,
    pub rsi: Decimal,
    /// Human-readable justification, shown in the debate log.
    pub rationale: String,
}

/// Ribbon separation (percent of slow EMA, in millionths) below which the stack
/// is considered flat regardless of ordering.
pub const FLAT_RIBBON_SPREAD_PCT: i128 = 50_000;

/// Distance from VWAP (in sigma, in millionths) from which price counts as
/// stretched.
pub const STRETCHED_Z: i128 = 2_000_000;

/// ATR percentile (in millionths) from which volatility counts as expanding.
pub const VOL_EXPANSION_PCTL: i128 = 80_000_000;

/// The neutral percentile and the neutral RSI, in millionths.
pub const NEUTRAL: i128 = 50_000_000;

/// The closes of some bars.
pub open spec fn closes(bars: Seq<Candle>) -> Seq<Decimal> {
    bars.map_values(|c: Candle| c.close)
}

/// The close of the newest bar, zero when there is none.
pub open spec fn last_close(bars: Seq<Candle>) -> int {
    if bars.len() == 0 {
        0
    } else {
        bars.last().close@
    }
}

/// Why no regime can be read yet, if that is so.
pub open spec fn cold_reason(bars: Seq<Candle>, cfg: StrategyConfig) -> Option<Seq<char>> {
    let n = bars.len();
    if n < cfg.min_bars_for_signal {
        Some(
            "warming up — "@ + nat_text(n as int) + " of "@ + nat_text(
                cfg.min_bars_for_signal as int,
            ) + " bars"@,
        )
    } else if !(0 < cfg.ema_fast <= n && 0 < cfg.ema_medium <= n && 0 < cfg.ema_slow <= n) {
        Some("EMA ribbon not warm"@)
    } else if !(0 < cfg.atr_period < n) {
        Some("ATR not warm"@)
    } else {
        None
    }
}

/// Whether the ATR of the `period + 1` bars from `k` on lies below that of all
/// bars, both taken exactly.
pub open spec fn was_calmer(bars: Seq<Candle>, period: int, k: int) -> bool {
    let then = true_ranges(bars.subrange(k, k + period + 1));
    let now = true_ranges(bars);
    smoothed(amounts(then), period) * smoothed_scale(now.len(), period) < smoothed(
        amounts(now),
        period,
    ) * smoothed_scale(then.len(), period)
}

/// How many of the first `windows` windows were calmer than the bars are now.
pub open spec fn calmer_windows(bars: Seq<Candle>, period: int, windows: nat) -> nat
    decreases windows,
{
    if windows == 0 {
        0
    } else {
        calmer_windows(bars, period, (windows - 1) as nat) + if was_calmer(
            bars,
            period,
            windows - 1,
        ) {
            1nat
        } else {
            0nat
        }
    }
}

/// The percentage of the windows of `period + 1` bars, ending before the newest
/// bar, whose ATR lies below the current one; 50 when there is none.
pub open spec fn atr_rank(bars: Seq<Candle>, period: int) -> int {
    let windows = bars.len() - (period + 1);
    if windows <= 0 {
        NEUTRAL as int
    } else {
        percent_of(calmer_windows(bars, period, windows as nat) as int, windows)
    }
}

/// The RSI, 50 when it is not warm.
pub open spec fn rsi_or_neutral(s: Seq<Decimal>, period: int) -> int {
    if 0 < period < s.len() {
        strength_of(s, period)
    } else {
        NEUTRAL as int
    }
}

/// Whether the ribbon shows a trend: stacked, and not flat.
pub open spec fn trending(dir: int, spread: int) -> bool {
    dir != 0 && magnitude(spread) >= FLAT_RIBBON_SPREAD_PCT
}

/// Whether price is stretched from VWAP.
pub open spec fn stretched(z: int) -> bool {
    magnitude(z) >= STRETCHED_Z
}

/// The regime of four readings.
pub open spec fn regime_of(dir: int, spread: int, pctl: int, z: int) -> MarketRegime {
    if trending(dir, spread) {
        // A stacked, separated ribbon is a trend, unless price has already run
        // far beyond VWAP: chasing it would buy the exhaustion.
        if stretched(z) {
            MarketRegime::MeanReverting
        } else if dir > 0 {
            MarketRegime::TrendingUp
        } else {
            MarketRegime::TrendingDown
        }
    } else if pctl >= VOL_EXPANSION_PCTL {
        MarketRegime::HighVolatility
    } else if stretched(z) {
        MarketRegime::MeanReverting
    } else {
        MarketRegime::Rangebound
    }
}

/// The justification of the regime of four readings.
pub open spec fn rationale_of(dir: int, spread: int, pctl: int, z: int) -> Seq<char> {
    let s = magnitude(spread);
    if trending(dir, spread) {
        if stretched(z) {
            "ribbon stacked ("@ + signed_int_text(dir) + ") but price is "@ + signed_amount1_text(z)
                + "σ from VWAP — extended, entry would be chasing"@
        } else if dir > 0 {
            "EMAs stacked bullish, spread "@ + amount2_text(s) + "%, ATR pctl "@ + amount0_text(
                pctl,
            ) + ", "@ + signed_amount1_text(z) + "σ from VWAP"@
        } else {
            "EMAs stacked bearish, spread "@ + amount2_text(s) + "%, ATR pctl "@ + amount0_text(
                pctl,
            ) + ", "@ + signed_amount1_text(z) + "σ from VWAP"@
        }
    } else if pctl >= VOL_EXPANSION_PCTL {
        "ATR at "@ + amount0_text(pctl)
            + "th percentile with an undecided ribbon — volatile but directionless"@
    } else if stretched(z) {
        "flat ribbon and "@ + signed_amount1_text(z)
            + "σ from VWAP — snap-back more likely than continuation"@
    } else {
        "flat ribbon (spread "@ + amount2_text(s) + "%), ATR pctl "@ + amount0_text(pctl) + ", "@
            + signed_amount1_text(z) + "σ — long premium decays here"@
    }
}

/// A size without its sign.
fn size_of(d: Decimal) -> (s: Decimal)
    requires
        d@ > i128::MIN,
    ensures
        s@ == magnitude(d@),
{
    if d.micros < 0 {
        Decimal { micros: -d.micros }
    } else {
        d
    }
}

/// Decides the regime from the direction and the separation of the ribbon, the
/// ATR percentile and the distance from VWAP, and says why.
pub fn decide(dir: i8, spread: Decimal, pctl: Decimal, z: Decimal) -> (r: (MarketRegime, String))
    requires
        spread@ > i128::MIN,
        z@ > i128::MIN,
    ensures
        r.0 == regime_of(dir as int, spread@, pctl@, z@),
        r.1@ == rationale_of(dir as int, spread@, pctl@, z@),
{
    let size: Decimal = size_of(spread);
    let stacked: bool = dir != 0 && size.micros >= FLAT_RIBBON_SPREAD_PCT;
    let far: bool = size_of(z).micros >= STRETCHED_Z;
    if stacked {
        if far {
            let mut why: String = "ribbon stacked (".to_owned();
            push_signed_int(&mut why, dir as i128);
            why.append(") but price is ");
            push_signed_amount1(&mut why, z);
            why.append("σ from VWAP — extended, entry would be chasing");
            return (MarketRegime::MeanReverting, why);
        }
        let (regime, mut why): (MarketRegime, String) = if dir > 0 {
            (MarketRegime::TrendingUp, "EMAs stacked bullish, spread ".to_owned())
        } else {
            (MarketRegime::TrendingDown, "EMAs stacked bearish, spread ".to_owned())
        };
        push_amount2(&mut why, size);
        why.append("%, ATR pctl ");
        push_amount0(&mut why, pctl);
        why.append(", ");
        push_signed_amount1(&mut why, z);
        why.append("σ from VWAP");
        (regime, why)
    } else if pctl.micros >= VOL_EXPANSION_PCTL {
        let mut why: String = "ATR at ".to_owned();
        push_amount0(&mut why, pctl);
        why.append("th percentile with an undecided ribbon — volatile but directionless");
        (MarketRegime::HighVolatility, why)
    } else if far {
        let mut why: String = "flat ribbon and ".to_owned();
        push_signed_amount1(&mut why, z);
        why.append("σ from VWAP — snap-back more likely than continuation");
        (MarketRegime::MeanReverting, why)
    } else {
        let mut why: String = "flat ribbon (spread ".to_owned();
        push_amount2(&mut why, size);
        why.append("%), ATR pctl ");
        push_amount0(&mut why, pctl);
        why.append(", ");
        push_signed_amount1(&mut why, z);
        why.append("σ — long premium decays here");
        (MarketRegime::Rangebound, why)
    }
}

/// The reading of bars that are not warm: nothing is known but the spot.
pub open spec fn is_cold_reading(bars: Seq<Candle>, why: Seq<char>, r: RegimeReading) -> bool {
    &&& r.regime is Unknown
    &&& r.spot@ == last_close(bars)
    &&& r.ema_fast@ == 0
    &&& r.ema_medium@ == 0
    &&& r.ema_slow@ == 0
    &&& r.ribbon_direction == 0
    &&& r.ribbon_spread_pct@ == 0
    &&& r.atr@ == 0
    &&& r.atr_percentile@ == 0
    &&& r.vwap@ == 0
    &&& r.vwap_z@ == 0
    &&& r.rsi@ == NEUTRAL
    &&& r.rationale@ == why
}

/// The reading of warm bars: every indicator, and the regime they decide.
pub open spec fn is_warm_reading(
    bars: Seq<Candle>,
    cfg: StrategyConfig,
    r: RegimeReading,
) -> bool {
    let prices = closes(bars);
    let rib = Ribbon { fast: r.ema_fast, medium: r.ema_medium, slow: r.ema_slow };
    &&& r.spot@ == last_close(bars)
    &&& r.ema_fast@ == ema_micros(prices, cfg.ema_fast as int)
    &&& r.ema_medium@ == ema_micros(prices, cfg.ema_medium as int)
    &&& r.ema_slow@ == ema_micros(prices, cfg.ema_slow as int)
    &&& r.ribbon_direction == rib.stack()
    &&& r.ribbon_spread_pct@ == percent_of(r.ema_fast@ - r.ema_slow@, r.ema_slow@)
    &&& r.atr@ == wilder_micros(true_ranges(bars), cfg.atr_period as int)
    &&& r.atr_percentile@ == atr_rank(bars, cfg.atr_period as int)
    &&& r.vwap@ == vwap_micros(bars)
    &&& is_distance(bars, r.spot@, r.vwap_z@)
    &&& r.rsi@ == rsi_or_neutral(prices, cfg.rsi_period as int)
    &&& r.regime == regime_of(
        r.ribbon_direction as int,
        r.ribbon_spread_pct@,
        r.atr_percentile@,
        r.vwap_z@,
    )
    &&& r.rationale@ == rationale_of(
        r.ribbon_direction as int,
        r.ribbon_spread_pct@,
        r.atr_percentile@,
        r.vwap_z@,
    )
}

/// The reading of bars that are not warm.
fn unknown(bars: &[Candle], why: String) -> (r: RegimeReading)
    ensures
        is_cold_reading(bars@, why@, r),
{
    let zero: Decimal = Decimal { micros: 0 };
    let n: usize = bars.len();
    RegimeReading {
        regime: MarketRegime::Unknown,
        spot: if n > 0 {
            bars[n - 1].close
        } else {
            zero
        },
        ema_fast: zero,
        ema_medium: zero,
        ema_slow: zero,
        ribbon_direction: 0,
        ribbon_spread_pct: zero,
        atr: zero,
        atr_percentile: zero,
        vwap: zero,
        vwap_z: zero,
        rsi: Decimal { micros: NEUTRAL },
        rationale: why,
    }
}

/// The percentile of the current ATR in its own history, so that high
/// volatility is judged against the instrument's recent behaviour rather than
/// an absolute threshold.
fn rank_atr(bars: &[Candle], period: usize) -> (p: Decimal)
    requires
        0 < period < bars@.len(),
        ranges_fit(bars@),
    ensures
        p@ == atr_rank(bars@, period as int),
{
    let n: usize = bars.len();
    let windows: usize = n - period - 1;
    if windows == 0 {
        return Decimal { micros: NEUTRAL };
    }
    let ranges: Vec<Decimal> = indicators::ranges_of(bars);
    let (now, scale): (Natural, Natural) = indicators::smooth_all(ranges.as_slice(), period);
    let mut calmer: usize = 0;
    let mut k: usize = 0;
    while k < windows
        invariant
            n == bars@.len(),
            0 < period < n,
            windows == n - period - 1,
            k <= windows,
            calmer <= k,
            ranges@ == true_ranges(bars@),
            forall|i: int| 0 <= i < ranges@.len() ==> (#[trigger] ranges@[i])@ >= 0,
            now@ == smoothed(amounts(true_ranges(bars@)), period as int),
            scale@ == smoothed_scale(true_ranges(bars@).len(), period as int),
            calmer == calmer_windows(bars@, period as int, k as nat),
        decreases windows - k,
    {
        let window: &[Decimal] = vstd::slice::slice_subrange(ranges.as_slice(), k, k + period);
        proof {
            assert(window@ =~= true_ranges(bars@.subrange(k as int, k + period + 1)));
            assert forall|i: int| 0 <= i < window@.len() implies (#[trigger] window@[i])@ >= 0 by {
                assert(window@[i] == ranges@[i + k]);
            }
        }
        let (then, then_scale): (Natural, Natural) = indicators::smooth_all(window, period);
        if !now.multiplied(&then_scale).at_most(&then.multiplied(&scale)) {
            calmer += 1;
        }
        k += 1;
    }
    assert(100 * SCALE * calmer == 100_000_000 * calmer) by (nonlinear_arith)
        requires
            SCALE == 1_000_000,
    ;
    Decimal { micros: divide_toward_zero(100_000_000 * calmer as i128, windows as i128) }
}

/// The ribbon of some closes.
pub open spec fn ribbon_of(prices: Seq<Decimal>, cfg: StrategyConfig) -> Ribbon {
    Ribbon {
        fast: Decimal { micros: ema_micros(prices, cfg.ema_fast as int) as i128 },
        medium: Decimal { micros: ema_micros(prices, cfg.ema_medium as int) as i128 },
        slow: Decimal { micros: ema_micros(prices, cfg.ema_slow as int) as i128 },
    }
}

/// Whether the readings of warm bars can be formed.
pub open spec fn reading_fits(bars: Seq<Candle>, cfg: StrategyConfig) -> bool {
    let prices = closes(bars);
    &&& ribbon_of(prices, cfg).slow@ != 0 ==> ribbon_of(prices, cfg).separation_fits()
    &&& ranges_fit(bars)
    &&& prices_weigh(bars)
    &&& distance_fits(bars, last_close(bars))
}

/// Classify the current regime from the spot series.
///
/// The reading is [`MarketRegime::Unknown`] whenever any required indicator is
/// still cold; the caller treats that as "do not trade", so a partial warm-up
/// can never be mistaken for a real reading.
pub fn classify(bars: &[Candle], cfg: &StrategyConfig) -> (r: RegimeReading)
    requires
        cold_reason(bars@, *cfg) is None ==> reading_fits(bars@, *cfg),
    ensures
        match cold_reason(bars@, *cfg) {
            Some(why) => is_cold_reading(bars@, why, r),
            None => is_warm_reading(bars@, *cfg, r),
        },
{
    let n: usize = bars.len();
    if n < cfg.min_bars_for_signal {
        let mut why: String = "warming up — ".to_owned();
        push_count(&mut why, n);
        why.append(" of ");
        push_count(&mut why, cfg.min_bars_for_signal);
        why.append(" bars");
        return unknown(bars, why);
    }
    if !(is_warm(cfg.ema_fast, n) && is_warm(cfg.ema_medium, n) && is_warm(cfg.ema_slow, n)) {
        return unknown(bars, "EMA ribbon not warm".to_owned());
    }
    if cfg.atr_period == 0 || cfg.atr_period >= n {
        return unknown(bars, "ATR not warm".to_owned());
    }
    read_warm(bars, cfg)
}

/// Whether an average over `period` samples is defined for `n` of them.
fn is_warm(period: usize, n: usize) -> (r: bool)
    ensures
        r == (0 < period <= n),
{
    0 < period && period <= n
}

/// The reading of warm bars.
fn read_warm(bars: &[Candle], cfg: &StrategyConfig) -> (r: RegimeReading)
    requires
        cold_reason(bars@, *cfg) is None,
        reading_fits(bars@, *cfg),
    ensures
        is_warm_reading(bars@, *cfg, r),
{
    let n: usize = bars.len();
    let mut prices: Vec<Decimal> = Vec::new();
    let mut i: usize = 0;
    while i < n
        invariant
            n == bars@.len(),
            i <= n,
            prices@ =~= closes(bars@).take(i as int),
        decreases n - i,
    {
        prices.push(bars[i].close);
        i += 1;
    }
    assert(prices@ =~= closes(bars@));
    let ribbon: Option<Ribbon> = indicators::ribbon(
        prices.as_slice(),
        cfg.ema_fast,
        cfg.ema_medium,
        cfg.ema_slow,
    );
    let rib: Ribbon = ribbon.unwrap();
    let atr_now: Decimal = indicators::atr(bars, cfg.atr_period).unwrap();
    let sums: Weighed = Weighed::of(bars);
    let vwap: Decimal = sums.vwap(Ghost(bars@));
    let rsi_now: Decimal = match indicators::rsi(prices.as_slice(), cfg.rsi_period) {
        Some(r) => r,
        None => Decimal { micros: NEUTRAL },
    };
    let spot: Decimal = prices[n - 1];
    let pctl: Decimal = rank_atr(bars, cfg.atr_period);

    // A perfectly flat session has no dispersion to measure against, so the
    // distance is 0 rather than infinite.
    let z: Decimal = sums.distance(spot, Ghost(bars@));
    assert(rib == ribbon_of(prices@, *cfg));
    let dir: i8 = rib.direction();
    let spread: Decimal = rib.spread_pct();
    let (regime, rationale): (MarketRegime, String) = decide(dir, spread, pctl, z);
    RegimeReading {
        regime,
        spot,
        ema_fast: rib.fast,
        ema_medium: rib.medium,
        ema_slow: rib.slow,
        ribbon_direction: dir,
        ribbon_spread_pct: spread,
        atr: atr_now,
        atr_percentile: pctl,
        vwap,
        vwap_z: z,
        rsi: rsi_now,
        rationale,
    }
}

/// Every reading of bars at ordinary prices, with up to fifty trillion in
/// weight, can be formed.
pub proof fn ordinary_bars_read(bars: Seq<Candle>, cfg: StrategyConfig)
    requires
        cold_reason(bars, cfg) is None,
        forall|i: int| 0 <= i < bars.len() ==> (#[trigger] bars[i]).lies_within(
            PRICE_LIMIT as int,
        ),
        bars.len() <= 50_000_000_000_000,
        total_volume(bars) <= 50_000_000_000_000,
    ensures
        reading_fits(bars, cfg),
{
    let prices = closes(bars);
    let limit = PRICE_LIMIT as int;
    assert forall|i: int| 0 <= i < prices.len() implies -limit <= (#[trigger] prices[i])@
        <= limit by {
        assert(bars[i].lies_within(limit));
    }
    ema_bounds(prices, cfg.ema_fast as int, -limit, limit);
    ema_bounds(prices, cfg.ema_slow as int, -limit, limit);
    assert forall|i: int| 0 < i < bars.len() implies (#[trigger] bars[i]).true_range_micros(
        Some(bars[i - 1].close),
    ) <= i128::MAX by {
        assert(bars[i].lies_within(limit) && bars[i - 1].lies_within(limit));
    }
    let weights = bar_weights(bars);
    weight_sum_value(bars, total_volume(bars) > 0);
    assert(weights * (3 * 1_000_000_000_000) <= i128::MAX) by (nonlinear_arith)
        requires
            0 <= weights <= 50_000_000_000_000,
    ;
    bounded_bars_fit(bars, limit);
    assert(bars[bars.len() - 1].lies_within(limit));
    bounded_distance_fits(bars, last_close(bars), limit);
}

/// No rounding carries a reading across a threshold: the ribbon counts as
/// separated exactly when the separation reaches its share of the slow average,
/// and volatility as expanding exactly when that share of the windows lies
/// below.
pub proof fn thresholds_are_exact(dir: int, part: int, whole: int, below: nat, windows: nat)
    requires
        whole != 0,
        windows > 0,
    ensures
        trending(dir, percent_of(part, whole)) <==> dir != 0 && 100 * SCALE * magnitude(part)
            >= FLAT_RIBBON_SPREAD_PCT * magnitude(whole),
        percent_of(below as int, windows as int) >= VOL_EXPANSION_PCTL <==> 100 * SCALE * below
            >= VOL_EXPANSION_PCTL * windows,
{
    assert(magnitude(100 * SCALE * part) == 100 * SCALE * magnitude(part)) by (nonlinear_arith)
        requires
            SCALE == 1_000_000,
    ;
    threshold_is_exact(100 * SCALE * part, whole, FLAT_RIBBON_SPREAD_PCT as int);
    assert(100 * SCALE * below >= 0) by (nonlinear_arith)
        requires
            SCALE == 1_000_000,
    ;
    threshold_is_exact(100 * SCALE * below, windows as int, VOL_EXPANSION_PCTL as int);
    vstd::arithmetic::div_mod::lemma_div_pos_is_pos(100 * SCALE * below, windows as int);
}

/// Price counts as stretched exactly when its distance from the mean reaches
/// that many standard deviations, however small the dispersion is: with `d`
/// the distance times three weights, exactly when the square of the one reaches
/// the square of the other.
pub proof fn stretch_is_exact(bars: Seq<Candle>, spot: int, z: int)
    requires
        bars.len() > 0,
        is_distance(bars, spot, z),
    ensures
        ({
            let w = bar_weights(bars);
            let d = 3 * w * spot - bar_prices(bars);
            stretched(z) <==> bar_spread(bars) > 0 && (SCALE * SCALE) * (w * (d * d)) >= (
            STRETCHED_Z * STRETCHED_Z) * bar_spread(bars)
        }),
{
    let w = bar_weights(bars);
    let d = 3 * w * spot - bar_prices(bars);
    let top = (SCALE * SCALE) * (w * (d * d));
    let spread = bar_spread(bars);
    spread_multiple(bars);
    if spread != 0 {
        root_reaches(top, spread, magnitude(z), STRETCHED_Z as int);
    }
}

/// The root of a quotient, rounded down, reaches an integer exactly when the
/// quotient reaches its square.
proof fn root_reaches(top: int, spread: int, root: int, threshold: int)
    requires
        spread > 0,
        threshold >= 0,
        is_floor_root(top / spread, root),
    ensures
        root >= threshold <==> top >= (threshold * threshold) * spread,
{
    let q = top / spread;
    let square = threshold * threshold;
    vstd::arithmetic::div_mod::lemma_fundamental_div_mod(top, spread);
    vstd::arithmetic::div_mod::lemma_mod_bound(top, spread);
    let rest = top % spread;
    assert(q >= square <==> top >= square * spread) by (nonlinear_arith)
        requires
            top == spread * q + rest,
            0 <= rest < spread,
    ;
    if root >= threshold {
        assert(root * root >= square) by (nonlinear_arith)
            requires
                root >= threshold,
                threshold >= 0,
                square == threshold * threshold,
        ;
    } else {
        assert((root + 1) * (root + 1) <= square) by (nonlinear_arith)
            requires
                0 <= root,
                root + 1 <= threshold,
                square == threshold * threshold,
        ;
    }
}

/// The regime never contradicts the ribbon: a trend up needs a bullish stack,
/// a trend down a bearish one, and the bias of a regime is the direction of the
/// ribbon or nothing.
pub proof fn regime_follows_ribbon(dir: int, spread: int, pctl: int, z: int)
    requires
        -1 <= dir <= 1,
    ensures
        regime_of(dir, spread, pctl, z) is TrendingUp ==> dir == 1,
        regime_of(dir, spread, pctl, z) is TrendingDown ==> dir == -1,
        regime_of(dir, spread, pctl, z).spec_bias() == dir || regime_of(
            dir,
            spread,
            pctl,
            z,
        ).spec_bias() == 0,
{
}

/// A trend that price has stretched from VWAP is never chased: no trending
/// regime is stretched.
pub proof fn stretched_price_is_not_chased(dir: int, spread: int, pctl: int, z: int)
    requires
        stretched(z),
    ensures
        !(regime_of(dir, spread, pctl, z) is TrendingUp),
        !(regime_of(dir, spread, pctl, z) is TrendingDown),
{
}

/// A flat ribbon without expanding volatility refuses entry.
pub proof fn flat_market_refuses_entry(dir: int, spread: int, pctl: int, z: int)
    requires
        magnitude(spread) < FLAT_RIBBON_SPREAD_PCT,
        pctl < VOL_EXPANSION_PCTL,
    ensures
        regime_of(dir, spread, pctl, z) is MeanReverting || regime_of(dir, spread, pctl, z)
            is Rangebound,
{
}

/// Warm bars are never read as unknown.
pub proof fn warm_reading_is_known(dir: int, spread: int, pctl: int, z: int)
    ensures
        !(regime_of(dir, spread, pctl, z) is Unknown),
{
}

/// Every reading carries a rationale.
pub proof fn every_rationale_says_something(
    bars: Seq<Candle>,
    cfg: StrategyConfig,
    r: RegimeReading,
)
    requires
        match cold_reason(bars, cfg) {
            Some(why) => is_cold_reading(bars, why, r),
            None => is_warm_reading(bars, cfg, r),
        },
    ensures
        r.rationale@.len() > 0,
{
    reveal_strlit("warming up — ");
    reveal_strlit("EMA ribbon not warm");
    reveal_strlit("ATR not warm");
    reveal_strlit("ribbon stacked (");
    reveal_strlit("EMAs stacked bullish, spread ");
    reveal_strlit("EMAs stacked bearish, spread ");
    reveal_strlit("ATR at ");
    reveal_strlit("flat ribbon and ");
    reveal_strlit("flat ribbon (spread ");
}

/// Which readings give which regime. A stacked ribbon at least a twentieth of a
/// percent wide is a trend, whatever the volatility, unless price lies two
/// standard deviations or more from VWAP; volatility counts only without one.
pub proof fn regimes_told_apart(
    dir: i8,
    spread: Decimal,
    pctl: Decimal,
    z: Decimal,
    r: (MarketRegime, String),
)
    requires
        call_ensures(decide, (dir, spread, pctl, z), r),
    ensures
        ({
            let wide = spread@ >= 50_000 || spread@ <= -50_000;
            let far = z@ >= 2_000_000 || z@ <= -2_000_000;
            let expanding = pctl@ >= 80_000_000;
            &&& r.0 is TrendingUp <==> dir > 0 && wide && !far
            &&& r.0 is TrendingDown <==> dir < 0 && wide && !far
            &&& r.0 is HighVolatility <==> (dir == 0 || !wide) && expanding
            &&& r.0 is MeanReverting <==> far && ((dir != 0 && wide) || !expanding)
            &&& r.0 is Rangebound <==> (dir == 0 || !wide) && !expanding && !far
        }),
{
}

/// Volatility neither makes nor ends a trend: with a stacked, separated ribbon
/// the regime is the same at every percentile, and a trend at any percentile
/// stays one at every other.
pub proof fn volatility_decides_no_trend(
    dir: i8,
    spread: Decimal,
    z: Decimal,
    pctl: Decimal,
    other: Decimal,
    r: (MarketRegime, String),
    q: (MarketRegime, String),
)
    requires
        call_ensures(decide, (dir, spread, pctl, z), r),
        call_ensures(decide, (dir, spread, other, z), q),
    ensures
        dir != 0 && (spread@ >= 50_000 || spread@ <= -50_000) ==> r.0 == q.0,
        r.0 is TrendingUp || r.0 is TrendingDown ==> q.0 == r.0,
{
}

/// A falling market is read as the mirror image of a rising one.
pub proof fn mirrored_readings_mirror_the_regime(
    dir: i8,
    back: i8,
    spread: Decimal,
    narrow: Decimal,
    pctl: Decimal,
    z: Decimal,
    away: Decimal,
    r: (MarketRegime, String),
    q: (MarketRegime, String),
)
    requires
        call_ensures(decide, (dir, spread, pctl, z), r),
        call_ensures(decide, (back, narrow, pctl, away), q),
        back == -dir,
        narrow@ == -spread@,
        away@ == -z@,
    ensures
        r.0 is TrendingUp <==> q.0 is TrendingDown,
        r.0 is TrendingDown <==> q.0 is TrendingUp,
        !(r.0 is TrendingUp) && !(r.0 is TrendingDown) ==> r.0 == q.0,
{
}

/// What is said of a regime: its own phrase, with the readings that decided it.
pub proof fn rationale_shows_the_readings(
    dir: i8,
    spread: Decimal,
    pctl: Decimal,
    z: Decimal,
    r: (MarketRegime, String),
)
    requires
        call_ensures(decide, (dir, spread, pctl, z), r),
    ensures
        ({
            let size = if spread@ < 0 {
                -spread@
            } else {
                spread@
            };
            let away = signed_amount1_text(z@) + "σ from VWAP"@;
            let trend = amount2_text(size) + "%, ATR pctl "@ + amount0_text(pctl@) + ", "@ + away;
            &&& r.0 is TrendingUp ==> r.1@ =~= "EMAs stacked bullish, spread "@ + trend
            &&& r.0 is TrendingDown ==> r.1@ =~= "EMAs stacked bearish, spread "@ + trend
            &&& r.0 is HighVolatility ==> r.1@ =~= "ATR at "@ + amount0_text(pctl@)
                + "th percentile with an undecided ribbon — volatile but directionless"@
            &&& r.0 is Rangebound ==> r.1@ =~= "flat ribbon (spread "@ + amount2_text(size)
                + "%), ATR pctl "@ + amount0_text(pctl@) + ", "@ + signed_amount1_text(z@)
                + "σ — long premium decays here"@
            &&& r.0 is MeanReverting && dir != 0 && size >= 50_000 ==> r.1@ =~= "ribbon stacked ("@
                + signed_int_text(dir as int) + ") but price is "@ + away
                + " — extended, entry would be chasing"@
            &&& r.0 is MeanReverting && !(dir != 0 && size >= 50_000) ==> r.1@
                =~= "flat ribbon and "@ + away + " — snap-back more likely than continuation"@
        }),
{
    reveal_strlit("σ from VWAP");
    reveal_strlit("σ from VWAP — extended, entry would be chasing");
    reveal_strlit(" — extended, entry would be chasing");
    reveal_strlit("σ from VWAP — snap-back more likely than continuation");
    reveal_strlit(" — snap-back more likely than continuation");
    assert("σ from VWAP — extended, entry would be chasing"@ =~= "σ from VWAP"@
        + " — extended, entry would be chasing"@);
    assert("σ from VWAP — snap-back more likely than continuation"@ =~= "σ from VWAP"@
        + " — snap-back more likely than continuation"@);
}

/// Entry is allowed exactly where the market moves: in either trend, and under
/// expanding volatility. The bias is the trend's sign, and no other regime has
/// one.
pub proof fn regimes_that_trade(m: MarketRegime, allowed: bool, b: i8)
    requires
        call_ensures(MarketRegime::allows_entry, (&m,), allowed),
        call_ensures(MarketRegime::bias, (&m,), b),
    ensures
        b == 1 <==> m is TrendingUp,
        b == -1 <==> m is TrendingDown,
        -1 <= b <= 1,
        b != 0 ==> allowed,
        m is HighVolatility ==> allowed,
        m is Rangebound || m is MeanReverting || m is Unknown ==> !allowed,
{
}

/// Each regime has its own name.
pub proof fn regimes_are_named(m: MarketRegime, name: &'static str)
    requires
        call_ensures(MarketRegime::as_str, (&m,), name),
    ensures
        m is TrendingUp ==> name@ == "TRENDING_UP"@,
        m is TrendingDown ==> name@ == "TRENDING_DOWN"@,
        m is Rangebound ==> name@ == "RANGEBOUND"@,
        m is MeanReverting ==> name@ == "MEAN_REVERTING"@,
        m is HighVolatility ==> name@ == "HIGH_VOLATILITY"@,
        m is Unknown ==> name@ == "UNKNOWN"@,
{
}

} // verus!
