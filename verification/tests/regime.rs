use trading_engine::decimal::Decimal;
use trading_engine::strategy::regime::{classify, decide};
use trading_engine::strategy::{Candle, MarketRegime};
use trading_engine::StrategyConfig;

fn d(x: f64) -> Decimal {
    Decimal { micros: (x * 1_000_000.0).round() as i128 }
}

fn cfg() -> StrategyConfig {
    // Short periods keep the synthetic series in these tests small.
    StrategyConfig { min_bars_for_signal: 30, ema_fast: 3, ema_medium: 6, ema_slow: 12, atr_period: 5, rsi_period: 5, ..Default::default() }
}

/// Build bars from a close series, giving each a small symmetric range.
fn series(closes: &[f64]) -> Vec<Candle> {
    closes.iter().enumerate().map(|(i, &c)| Candle {
        minute: i as i64,
        open: d(c), high: d(c + 1.0), low: d(c - 1.0), close: d(c),
        volume: 100, ticks: 10,
    }).collect()
}

#[test]
fn cold_series_is_unknown_and_blocks_entry() {
    let r = classify(&series(&[100.0; 5]), &cfg());
    assert_eq!(r.regime, MarketRegime::Unknown);
    assert!(!r.regime.allows_entry(), "an unwarmed engine must not trade");
    assert!(r.rationale.contains("warming up"), "got: {}", r.rationale);
}

#[test]
fn steady_uptrend_classifies_as_trending_up() {
    // Gentle, persistent rise: ribbon stacks without price running far from VWAP.
    let closes: Vec<f64> = (0..60).map(|i| 20_000.0 + i as f64 * 3.0).collect();
    let r = classify(&series(&closes), &cfg());
    assert_eq!(r.ribbon_direction, 1, "EMAs should stack bullish");
    assert!(
        matches!(r.regime, MarketRegime::TrendingUp | MarketRegime::MeanReverting),
        "expected a directional read, got {:?} ({})", r.regime, r.rationale
    );
}

#[test]
fn steady_downtrend_has_bearish_stack_and_negative_bias() {
    let closes: Vec<f64> = (0..60).map(|i| 20_000.0 - i as f64 * 3.0).collect();
    let r = classify(&series(&closes), &cfg());
    assert_eq!(r.ribbon_direction, -1);
    if r.regime == MarketRegime::TrendingDown {
        assert_eq!(r.regime.bias(), -1);
    }
}

#[test]
fn flat_market_is_rangebound_and_refuses_entry() {
    // Tiny oscillation around a constant — the classic theta trap.
    let closes: Vec<f64> = (0..60).map(|i| 20_000.0 + if i % 2 == 0 { 0.5 } else { -0.5 }).collect();
    let r = classify(&series(&closes), &cfg());
    assert!(
        !r.regime.allows_entry(),
        "a flat chop must not permit a long-premium entry, got {:?} ({})", r.regime, r.rationale
    );
}

#[test]
fn regime_gating_matches_intent() {
    assert!(MarketRegime::TrendingUp.allows_entry());
    assert!(MarketRegime::TrendingDown.allows_entry());
    assert!(MarketRegime::HighVolatility.allows_entry());
    assert!(!MarketRegime::Rangebound.allows_entry(), "range = theta bleed");
    assert!(!MarketRegime::MeanReverting.allows_entry(), "extended = chasing");
    assert!(!MarketRegime::Unknown.allows_entry(), "unknown = flat, by policy");
}

#[test]
fn every_reading_carries_a_rationale() {
    let closes: Vec<f64> = (0..60).map(|i| 20_000.0 + (i as f64 * 0.7).sin() * 20.0).collect();
    let r = classify(&series(&closes), &cfg());
    assert!(!r.rationale.is_empty(), "the dashboard needs a reason for every classification");
}

#[test]
fn a_cold_reading_counts_the_bars_and_knows_the_spot() {
    let r = classify(&series(&[100.0; 5]), &cfg());
    assert_eq!(r.rationale, "warming up — 5 of 30 bars");
    assert_eq!(r.spot, d(100.0));
    assert_eq!(r.rsi, d(50.0));
    assert_eq!(r.ribbon_direction, 0);
    assert_eq!(classify(&[], &cfg()).spot, d(0.0));
}

#[test]
fn each_cold_indicator_is_named() {
    let mut c = cfg();
    c.min_bars_for_signal = 0;
    assert_eq!(classify(&series(&[100.0; 5]), &c).rationale, "EMA ribbon not warm");
    c.ema_slow = 4;
    c.ema_medium = 3;
    assert_eq!(classify(&series(&[100.0; 5]), &c).rationale, "ATR not warm");
}

#[test]
fn an_uptrend_reads_its_indicators() {
    let closes: Vec<f64> = (0..60).map(|i| 20_000.0 + i as f64 * 3.0).collect();
    let r = classify(&series(&closes), &cfg());
    assert_eq!(r.regime, MarketRegime::TrendingUp);
    assert_eq!(r.regime.bias(), 1);
    assert_eq!(r.spot, d(20_177.0));
    assert_eq!(r.rsi, d(100.0));
    assert_eq!(r.vwap, d(20_088.5));
    assert_eq!(r.atr, d(4.0), "each bar reaches four points above the last close");
}

#[test]
fn regimes_are_decided_by_ribbon_volatility_and_stretch() {
    assert_eq!(decide(1, d(0.2), d(10.0), d(1.0)).0, MarketRegime::TrendingUp);
    assert_eq!(decide(-1, d(0.2), d(10.0), d(-1.0)).0, MarketRegime::TrendingDown);
    assert_eq!(decide(1, d(0.2), d(90.0), d(2.0)).0, MarketRegime::MeanReverting);
    assert_eq!(decide(1, d(0.049), d(80.0), d(3.0)).0, MarketRegime::HighVolatility);
    assert_eq!(decide(0, d(0.2), d(79.9), d(-2.0)).0, MarketRegime::MeanReverting);
    assert_eq!(decide(0, d(0.2), d(79.9), d(1.9)).0, MarketRegime::Rangebound);
    assert_eq!(decide(1, d(0.05), d(0.0), d(0.0)).0, MarketRegime::TrendingUp);
}

#[test]
fn rationales_read_exactly() {
    assert_eq!(
        decide(1, d(0.2), d(90.0), d(2.04)).1,
        "ribbon stacked (+1) but price is +2.0σ from VWAP — extended, entry would be chasing"
    );
    assert_eq!(
        decide(1, d(0.2), d(10.0), d(1.26)).1,
        "EMAs stacked bullish, spread 0.20%, ATR pctl 10, +1.3σ from VWAP"
    );
    assert_eq!(
        decide(-1, d(0.2), d(10.0), d(-1.26)).1,
        "EMAs stacked bearish, spread 0.20%, ATR pctl 10, -1.3σ from VWAP"
    );
    assert_eq!(
        decide(0, d(0.2), d(85.6), d(0.0)).1,
        "ATR at 86th percentile with an undecided ribbon — volatile but directionless"
    );
    assert_eq!(
        decide(0, d(0.0), d(5.0), d(-2.5)).1,
        "flat ribbon and -2.5σ from VWAP — snap-back more likely than continuation"
    );
    assert_eq!(
        decide(0, d(0.01), d(5.0), d(0.0)).1,
        "flat ribbon (spread 0.01%), ATR pctl 5, +0.0σ — long premium decays here"
    );
}

#[test]
fn regimes_have_names() {
    assert_eq!(MarketRegime::TrendingUp.as_str(), "TRENDING_UP");
    assert_eq!(MarketRegime::TrendingDown.as_str(), "TRENDING_DOWN");
    assert_eq!(MarketRegime::Rangebound.as_str(), "RANGEBOUND");
    assert_eq!(MarketRegime::MeanReverting.as_str(), "MEAN_REVERTING");
    assert_eq!(MarketRegime::HighVolatility.as_str(), "HIGH_VOLATILITY");
    assert_eq!(MarketRegime::Unknown.as_str(), "UNKNOWN");
}

#[test]
fn a_cold_series_is_read_at_any_price() {
    let mut bars = series(&[100.0; 2]);
    bars[1].close = Decimal { micros: i128::MAX };
    bars[1].high = Decimal { micros: i128::MIN };
    let r = classify(&bars, &cfg());
    assert_eq!(r.regime, MarketRegime::Unknown);
    assert_eq!(r.spot, Decimal { micros: i128::MAX });
    assert_eq!(r.rationale, "warming up — 2 of 30 bars");
}

#[test]
fn large_prices_are_classified() {
    let closes: Vec<f64> = (0..60).map(|i| 20_000_000.0 + i as f64 * 3_000.0).collect();
    let r = classify(&series(&closes), &StrategyConfig { vwap_band_sigma: Decimal { micros: i128::MAX }, ..cfg() });
    assert_eq!(r.regime, MarketRegime::TrendingUp);
    assert_eq!(r.vwap, d(20_088_500.0));
}

#[test]
fn a_stretch_is_seen_however_small_the_dispersion() {
    let mut closes = vec![100.0; 60];
    closes[59] = 100.000001;
    let r = classify(&series(&closes), &cfg());
    // The root of 59, cut.
    assert_eq!(r.vwap_z, Decimal { micros: 7_681_145 });
    assert_eq!(r.regime, MarketRegime::MeanReverting);
    closes[59] = 99.999999;
    assert_eq!(classify(&series(&closes), &cfg()).vwap_z, Decimal { micros: -7_681_145 });
}

#[test]
fn volatility_is_ranked_without_rounding() {
    let mut bars: Vec<Candle> = series(&[100.0; 60]);
    for b in bars.iter_mut() {
        b.high = b.close;
        b.low = b.close;
    }
    assert_eq!(classify(&bars, &cfg()).atr_percentile, d(0.0));
    // A fifth of a millionth over a history of none.
    bars[59].high = d(100.000001);
    let r = classify(&bars, &cfg());
    assert_eq!((r.atr, r.atr_percentile), (d(0.0), d(100.0)));
    assert_eq!(r.regime, MarketRegime::HighVolatility);
}

#[test]
fn a_flat_session_has_no_distance() {
    let r = classify(&series(&[100.0; 60]), &cfg());
    assert_eq!((r.vwap, r.vwap_z), (d(100.0), d(0.0)));
}
