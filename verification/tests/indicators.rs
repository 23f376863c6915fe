use trading_engine::decimal::Decimal;
use trading_engine::strategy::indicators::{
    atr, ema, opening_range, percentile_rank, ribbon, rsi, slope_pct, sma, stdev, vwap_bands, Ribbon,
};
use trading_engine::strategy::Candle;

fn d(x: f64) -> Decimal {
    Decimal { micros: (x * 1_000_000.0).round() as i128 }
}

fn f(x: Decimal) -> f64 {
    x.micros as f64 / 1_000_000.0
}

fn ds(values: &[f64]) -> Vec<Decimal> {
    values.iter().map(|v| d(*v)).collect()
}

fn bar(h: f64, l: f64, c: f64, v: u64) -> Candle {
    Candle { minute: 0, open: d(c), high: d(h), low: d(l), close: d(c), volume: v, ticks: 1 }
}

#[test]
fn indicators_are_none_before_warm_up() {
    let short = ds(&[1.0, 2.0, 3.0]);
    assert_eq!(ema(&short, 10), None, "EMA must not fabricate a value while cold");
    assert_eq!(rsi(&short, 14), None);
    assert_eq!(sma(&short, 10), None);
    assert_eq!(atr(&[bar(1.0, 0.5, 1.0, 0)], 14), None);
    assert_eq!(stdev(&short, 10), None);
}

#[test]
fn ema_of_a_constant_series_is_that_constant() {
    let v = vec![d(50.0); 40];
    let e = f(ema(&v, 9).expect("warm"));
    assert!((e - 50.0).abs() < 1e-9, "got {e}");
}

/// On a steady ramp an average seeded with the mean trails the newest value by
/// exactly as much as the mean does, so there it can only be said not to fall
/// behind; on a rise that gathers pace it leads.
#[test]
fn ema_tracks_faster_than_sma_on_a_ramp() {
    let v: Vec<Decimal> = (1..=40).map(|i| d(i as f64)).collect();
    let e = f(ema(&v, 9).unwrap());
    let s = f(sma(&v, 9).unwrap());
    assert!(e >= s, "EMA {e} should not trail SMA {s} on a rising series");
    assert!(e < 40.0, "EMA must stay below the newest value");

    let rise: Vec<Decimal> = (1..=40).map(|i| d((i * i) as f64)).collect();
    let e = f(ema(&rise, 9).unwrap());
    let s = f(sma(&rise, 9).unwrap());
    assert!(e > s, "EMA {e} should lead SMA {s} on a rise that gathers pace");
    assert!(e < 1600.0, "EMA must stay below the newest value");
}

#[test]
fn ema_and_sma_agree_on_a_unit_ramp() {
    let v: Vec<Decimal> = (1..=40).map(|i| d(i as f64)).collect();
    assert_eq!(ema(&v, 9), Some(d(36.0)));
    assert_eq!(sma(&v, 9), Some(d(36.0)));
}

#[test]
fn rsi_saturates_on_a_pure_uptrend_and_bottoms_on_a_downtrend() {
    let up: Vec<Decimal> = (1..=30).map(|i| d(i as f64)).collect();
    assert_eq!(rsi(&up, 14), Some(d(100.0)));

    let down: Vec<Decimal> = (1..=30).rev().map(|i| d(i as f64)).collect();
    let r = f(rsi(&down, 14).unwrap());
    assert!(r < 1.0, "pure downtrend should pin RSI near 0, got {r}");
}

#[test]
fn rsi_of_a_flat_series_is_neutral() {
    let flat = vec![d(100.0); 30];
    assert_eq!(rsi(&flat, 14), Some(d(50.0)), "no movement is neither overbought nor oversold");
}

#[test]
fn atr_of_constant_range_bars_equals_that_range() {
    // Every bar spans exactly 10 points and closes mid-range, with no gaps.
    let bars: Vec<Candle> = (0..30)
        .map(|i| Candle { minute: i, open: d(100.0), high: d(105.0), low: d(95.0), close: d(100.0), volume: 0, ticks: 1 })
        .collect();
    let a = f(atr(&bars, 14).expect("warm"));
    assert!((a - 10.0).abs() < 1e-9, "expected ATR 10, got {a}");
}

#[test]
fn atr_counts_a_gap_larger_than_the_bar_range() {
    let mut bars = vec![Candle { minute: 0, open: d(100.0), high: d(100.0), low: d(100.0), close: d(100.0), volume: 0, ticks: 1 }];
    // Gap far above the prior close; true range must exceed the 2-pt body.
    bars.push(Candle { minute: 1, open: d(150.0), high: d(151.0), low: d(149.0), close: d(150.0), volume: 0, ticks: 1 });
    let tr = bars[1].true_range(Some(bars[0].close));
    assert_eq!(tr, d(51.0), "true range must span the gap, not just the bar");
}

#[test]
fn vwap_weights_toward_the_heavy_volume_bar() {
    let bars = vec![bar(100.0, 100.0, 100.0, 10), bar(200.0, 200.0, 200.0, 990)];
    let v = vwap_bands(&bars, d(2.0)).unwrap();
    assert!(f(v.vwap) > 198.0, "VWAP {} should sit near the heavy bar", f(v.vwap));
    assert!(f(v.upper) > f(v.vwap) && f(v.lower) < f(v.vwap));
}

#[test]
fn vwap_falls_back_to_unweighted_mean_when_feed_has_no_volume() {
    // Index feeds report zero volume; VWAP must still be usable.
    let bars = vec![bar(100.0, 100.0, 100.0, 0), bar(200.0, 200.0, 200.0, 0)];
    let v = vwap_bands(&bars, d(1.0)).expect("must not be None just because volume is absent");
    assert!((f(v.vwap) - 150.0).abs() < 1e-9, "got {}", f(v.vwap));
}

#[test]
fn ribbon_direction_detects_stacking() {
    assert_eq!(Ribbon { fast: d(3.0), medium: d(2.0), slow: d(1.0) }.direction(), 1);
    assert_eq!(Ribbon { fast: d(1.0), medium: d(2.0), slow: d(3.0) }.direction(), -1);
    assert_eq!(Ribbon { fast: d(2.0), medium: d(1.0), slow: d(3.0) }.direction(), 0, "interleaved is undecided");
}

#[test]
fn slope_is_positive_on_a_ramp_and_zero_on_a_flat() {
    let ramp: Vec<Decimal> = (1..=20).map(|i| d(100.0 + i as f64)).collect();
    assert!(f(slope_pct(&ramp, 10).unwrap()) > 0.0);

    let flat = vec![d(100.0); 20];
    assert!(f(slope_pct(&flat, 10).unwrap()).abs() < 1e-9);
}

#[test]
fn percentile_rank_places_value_in_history() {
    let h: Vec<Decimal> = (1..=100).map(|i| d(i as f64)).collect();
    let p = f(percentile_rank(&h, d(50.5)).unwrap());
    assert!((p - 50.0).abs() < 1.0, "got {p}");
    assert_eq!(percentile_rank(&h, d(0.0)), Some(d(0.0)));
    assert_eq!(percentile_rank(&h, d(1000.0)), Some(d(100.0)));
}

#[test]
fn opening_range_spans_the_first_bars_only() {
    let bars = vec![
        bar(110.0, 90.0, 100.0, 1),
        bar(120.0, 95.0, 115.0, 1),
        bar(500.0, 5.0, 300.0, 1), // outside the range window
    ];
    let (hi, lo) = opening_range(&bars, 2).unwrap();
    assert_eq!((hi, lo), (d(120.0), d(90.0)));
}

#[test]
fn averages_round_to_the_nearest_millionth() {
    let v = ds(&[1.0, 1.0, 2.0]);
    assert_eq!(sma(&v, 3), Some(Decimal { micros: 1_333_333 }));
    assert_eq!(ema(&v, 2), Some(Decimal { micros: 1_666_667 }));
    assert_eq!(sma(&v, 0), None);
    assert_eq!(sma(&v, 1), Some(d(2.0)));
}

#[test]
fn averages_stay_between_the_extremes() {
    let v = ds(&[5.0, 9.0, 7.0, 6.0, 8.5, 5.5]);
    for n in 1..=6 {
        for a in [sma(&v, n).unwrap(), ema(&v, n).unwrap()] {
            assert!(f(a) >= 5.0 && f(a) <= 9.0);
        }
    }
}

#[test]
fn atr_smooths_after_its_seed() {
    // True ranges 2, 2, 5 over two periods: seed 2, then (2 + 5) / 2.
    let bars = vec![
        bar(11.0, 9.0, 10.0, 0),
        bar(11.0, 9.0, 10.0, 0),
        bar(11.0, 9.0, 10.0, 0),
        bar(13.0, 8.0, 10.0, 0),
    ];
    assert_eq!(atr(&bars, 2), Some(d(3.5)));
    assert_eq!(atr(&bars, 0), None);
    assert_eq!(atr(&bars, 4), None);
}

#[test]
fn rsi_balances_gains_and_losses() {
    // Gains 1 + 2 and losses 1 over three changes: 100 - 100 / (1 + 3).
    assert_eq!(rsi(&ds(&[10.0, 11.0, 10.0, 12.0]), 3), Some(d(75.0)));
    assert_eq!(rsi(&ds(&[10.0, 9.0, 8.0]), 2), Some(d(0.0)));
    // The same shape in steps of one tick.
    assert_eq!(rsi(&ds(&[10.0, 10.05, 10.0, 10.1]), 3), Some(d(75.0)));
}

#[test]
fn vwap_bands_lie_at_k_sigma() {
    let bars = vec![bar(100.0, 100.0, 100.0, 1), bar(200.0, 200.0, 200.0, 1)];
    let v = vwap_bands(&bars, d(2.0)).unwrap();
    assert_eq!(v.vwap, d(150.0));
    assert_eq!(v.sigma, d(50.0));
    assert_eq!(v.upper, d(250.0));
    assert_eq!(v.lower, d(50.0));
    assert_eq!(vwap_bands(&[], d(2.0)), None);
}

#[test]
fn ribbon_is_none_until_the_slow_average_is_warm() {
    let v = ds(&[1.0, 2.0, 3.0, 4.0]);
    assert_eq!(ribbon(&v, 1, 2, 5), None);
    let r = ribbon(&v, 1, 2, 4).unwrap();
    assert_eq!((r.fast, r.slow), (d(4.0), d(2.5)));
    assert_eq!(r.spread_pct(), d(60.0));
    assert_eq!(Ribbon { fast: d(1.0), medium: d(1.0), slow: d(0.0) }.spread_pct(), d(0.0));
}

#[test]
fn stdev_is_the_population_deviation() {
    assert_eq!(stdev(&ds(&[9.0, 2.0, 4.0, 4.0, 4.0, 5.0, 5.0, 7.0, 9.0]), 8), Some(d(2.0)));
    assert_eq!(stdev(&ds(&[1.0]), 1), None);
}

#[test]
fn slope_is_a_percent_of_the_mean() {
    // One point a bar around a mean of 2.
    assert_eq!(slope_pct(&ds(&[1.0, 2.0, 3.0]), 3), Some(d(50.0)));
    assert_eq!(slope_pct(&ds(&[-1.0, 1.0]), 2), None, "no mean to compare with");
    assert_eq!(slope_pct(&ds(&[1.0, 2.0]), 1), None);
}

#[test]
fn percentile_of_an_empty_history_is_none() {
    assert_eq!(percentile_rank(&[], d(1.0)), None);
    assert_eq!(percentile_rank(&ds(&[1.0, 2.0, 2.0]), d(2.0)), Some(Decimal { micros: 33_333_333 }));
}

#[test]
fn opening_range_needs_its_bars() {
    assert_eq!(opening_range(&[bar(2.0, 1.0, 1.0, 0)], 2), None);
    assert_eq!(opening_range(&[bar(2.0, 1.0, 1.0, 0)], 0), None);
    assert_eq!(opening_range(&[bar(1.0, 1.0, 1.0, 0)], 1), Some((d(1.0), d(1.0))));
}

#[test]
fn large_prices_are_taken() {
    let v = ds(&[2_000_000.0, 2_000_001.0, 2_000_002.0]);
    assert_eq!(sma(&v, 3), Some(d(2_000_001.0)));
    assert_eq!(ema(&v, 3), Some(d(2_000_001.0)));
    assert_eq!(rsi(&v, 2), Some(d(100.0)));
    assert_eq!(rsi(&ds(&[1e9, 0.01, 1e9]), 2), Some(d(50.0)));
    assert_eq!(stdev(&ds(&[2e9, 2e9]), 2), Some(d(0.0)));
    assert_eq!(slope_pct(&ds(&[1e9, 3e9]), 2), Some(d(100.0)));
    let bars = vec![bar(3e9, 1e9, 2e9, 5), bar(3e9, 1e9, 2e9, 7)];
    assert_eq!(atr(&bars, 1), Some(d(2e9)));
    let flat = vwap_bands(&bars, d(2.0)).unwrap();
    assert_eq!((flat.vwap, flat.sigma, flat.upper), (d(2e9), d(0.0), d(2e9)));
}

#[test]
fn a_window_beyond_the_samples_is_none_however_large() {
    let v = ds(&[1.0, 2.0]);
    for n in [3, 200_000_000, usize::MAX] {
        assert_eq!(slope_pct(&v, n), None);
        assert_eq!(stdev(&v, n), None);
        assert_eq!(sma(&v, n), None);
        assert_eq!(ema(&v, n), None);
        assert_eq!(rsi(&v, n), None);
        assert_eq!(atr(&[bar(1.0, 1.0, 1.0, 0)], n), None);
    }
    let extreme = [Decimal { micros: i128::MIN }, Decimal { micros: i128::MAX }];
    assert_eq!(sma(&extreme, 3), None);
    assert_eq!(rsi(&extreme, 2), None);
}

#[test]
fn a_spread_just_below_a_threshold_stays_below_it() {
    let r = Ribbon { fast: d(10_004.99996), medium: d(10_002.0), slow: d(10_000.0) };
    assert_eq!(r.spread_pct(), Decimal { micros: 49_999 });
    let down = Ribbon { fast: d(9_995.00004), medium: d(9_998.0), slow: d(10_000.0) };
    assert_eq!(down.spread_pct(), Decimal { micros: -49_999 });
    let exact = Ribbon { fast: d(10_005.0), medium: d(10_002.0), slow: d(10_000.0) };
    assert_eq!(exact.spread_pct(), d(0.05));
}

#[test]
fn sigma_and_stdev_round_down() {
    // Variance 2/3.
    assert_eq!(stdev(&ds(&[1.0, 2.0, 3.0]), 3), Some(Decimal { micros: 816_496 }));
    let bars = vec![bar(1.0, 1.0, 1.0, 1), bar(2.0, 2.0, 2.0, 1), bar(3.0, 3.0, 3.0, 1)];
    assert_eq!(vwap_bands(&bars, d(0.0)).unwrap().sigma, Decimal { micros: 816_496 });
    let skipped = vec![bar(1.0, 1.0, 1.0, 1), bar(9.0, 9.0, 9.0, 0), bar(3.0, 3.0, 3.0, 1)];
    let v = vwap_bands(&skipped, d(0.0)).unwrap();
    assert_eq!((v.vwap, v.sigma), (d(2.0), d(1.0)), "a bar without volume carries no weight");
}

#[test]
fn a_flat_tail_keeps_the_relative_strength() {
    let mut v = vec![d(100.000000), d(100.000002)];
    v.extend(vec![d(100.000001); 23]);
    assert_eq!(rsi(&v, 2), Some(Decimal { micros: 66_666_667 }));
    let moving = ds(&[10.0, 11.0, 10.0, 12.0]);
    let mut longer = moving.clone();
    longer.extend(vec![d(12.0); 400]);
    assert_eq!(rsi(&longer, 3), rsi(&moving, 3));
}

#[test]
fn strength_and_averages_take_any_amounts() {
    let least = Decimal { micros: i128::MIN };
    let most = Decimal { micros: i128::MAX };
    assert_eq!(rsi(&[least, most, least], 2), Some(d(50.0)));
    assert_eq!(rsi(&[least, most], 1), Some(d(100.0)));
    assert_eq!(ema(&[least; 4], 2), Some(least));
    assert_eq!(ema(&[most; 4], 2), Some(most));
    assert_eq!(ema(&[Decimal { micros: -i128::MAX }, most], 2), Some(d(0.0)));
}

#[test]
fn averages_are_rounded_once() {
    let micros = |v: &[i128]| -> Vec<Decimal> { v.iter().map(|&micros| Decimal { micros }).collect() };
    // 0.5, then 0.3 of a millionth.
    assert_eq!(ema(&micros(&[1, 1, 0, 0]), 4), Some(Decimal { micros: 1 }));
    assert_eq!(ema(&micros(&[1, 1, 0, 0, 0]), 4), Some(Decimal { micros: 0 }));
    assert_eq!(ema(&micros(&[-1, -1, 0, 0]), 4), Some(Decimal { micros: -1 }));
    // A true range of two millionths, then a flat tail: the average fades.
    let mut bars = vec![bar(100.0, 100.0, 100.0, 0), bar(100.000002, 100.0, 100.0, 0)];
    bars.extend(vec![bar(100.0, 100.0, 100.0, 0); 4]);
    assert_eq!(atr(&bars[..3], 2), Some(Decimal { micros: 1 }));
    assert_eq!(atr(&bars, 2), Some(Decimal { micros: 0 }));
    // Typical prices of two thirds of a millionth and of nothing.
    let thirds = vec![bar(0.000002, 0.0, 0.0, 1), bar(0.0, 0.0, 0.0, 1)];
    assert_eq!(vwap_bands(&thirds, d(0.0)).unwrap().vwap, d(0.0));
}

#[test]
fn a_percentile_is_cut_toward_zero() {
    let h = ds(&[1.0, 2.0, 3.0]);
    assert_eq!(percentile_rank(&h, d(2.5)), Some(Decimal { micros: 66_666_666 }));
}
