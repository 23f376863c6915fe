use trading_engine::decimal::Decimal;
use trading_engine::strategy::{Candle, CandleSeries};

const M: i64 = 60_000;

fn d(x: f64) -> Decimal {
    Decimal { micros: (x * 1_000_000.0).round() as i128 }
}

/// A reading of the feed: only a finite number is a price.
fn price(x: f64) -> Option<Decimal> {
    if x.is_finite() { Some(d(x)) } else { None }
}

fn bar(minute: i64, close: f64) -> Candle {
    Candle { minute, open: d(1.0), high: d(1.0), low: d(1.0), close: d(close), volume: 0, ticks: 1 }
}

#[test]
fn ticks_fold_into_one_bar_then_roll() {
    let mut s = CandleSeries::new("k", 100);
    assert_eq!(s.push_tick(price(100.0), None, 0), None, "first tick opens a bar, closes nothing");
    s.push_tick(price(105.0), None, 10_000);
    s.push_tick(price(95.0), None, 20_000);
    s.push_tick(price(102.0), None, 30_000);

    assert_eq!(s.len(), 0, "bar is still in progress");
    let w = s.working().expect("working bar");
    assert_eq!((w.open, w.high, w.low, w.close), (d(100.0), d(105.0), d(95.0), d(102.0)));
    assert_eq!(w.ticks, 4);

    // Crossing into the next minute closes the first bar.
    let closed = s.push_tick(price(103.0), None, M).expect("bar should close");
    assert_eq!(closed.close, d(102.0));
    assert_eq!(closed.minute, 0);
    assert_eq!(s.len(), 1);
}

#[test]
fn bar_volume_is_the_delta_of_cumulative_volume() {
    let mut s = CandleSeries::new("k", 100);
    // First reading establishes the baseline; it must contribute 0, not 1000.
    s.push_tick(price(100.0), Some(1000), 0);
    s.push_tick(price(101.0), Some(1250), 10_000);
    assert_eq!(s.working().unwrap().volume, 250, "baseline must not be counted as volume");

    let closed = s.push_tick(price(102.0), Some(1400), M).unwrap();
    assert_eq!(closed.volume, 250);
    assert_eq!(s.working().unwrap().volume, 150, "new bar takes the next delta");
}

#[test]
fn cumulative_volume_reset_does_not_produce_negative_or_giant_volume() {
    let mut s = CandleSeries::new("k", 100);
    s.push_tick(price(100.0), Some(900_000), 0);
    // Session rollover: counter restarts far below the previous reading.
    s.push_tick(price(100.0), Some(500), 10_000);
    assert_eq!(s.working().unwrap().volume, 0, "a counter reset must clamp to zero");
    // And the new baseline is adopted, so the next delta is sane.
    s.push_tick(price(100.0), Some(800), 20_000);
    assert_eq!(s.working().unwrap().volume, 300);
}

#[test]
fn out_of_order_tick_cannot_rewrite_a_closed_bar() {
    let mut s = CandleSeries::new("k", 100);
    s.push_tick(price(100.0), None, M);           // opens minute 1
    s.push_tick(price(200.0), None, 0);           // stale frame from minute 0
    let w = s.working().unwrap();
    assert_eq!(w.minute, 1);
    assert_eq!(w.high, d(100.0), "stale tick must not extend the current bar");
}

#[test]
fn capacity_evicts_oldest_bars() {
    let mut s = CandleSeries::new("k", 3);
    for i in 0..10 {
        s.push_tick(price(100.0 + i as f64), None, i * M);
    }
    assert_eq!(s.len(), 3);
    assert_eq!(s.closed().front().unwrap().minute, 6);
}

#[test]
fn invalid_prices_are_ignored() {
    let mut s = CandleSeries::new("k", 10);
    s.push_tick(price(0.0), None, 0);
    s.push_tick(price(-5.0), None, 0);
    s.push_tick(price(f64::NAN), None, 0);
    assert!(s.working().is_none(), "no bar should be opened from junk prices");
}

#[test]
fn true_range_uses_previous_close() {
    let c = Candle { minute: 0, open: d(100.0), high: d(110.0), low: d(105.0), close: d(108.0), volume: 0, ticks: 1 };
    // Gap up: the distance from the previous close exceeds the 5-point bar range.
    assert_eq!(c.true_range(Some(d(90.0))), d(20.0));
    assert_eq!(c.true_range(None), d(5.0));
}

#[test]
fn seeded_bars_respect_capacity_and_stay_closed() {
    let mut s = CandleSeries::new("k", 2);
    s.seed((0..5).map(|i| bar(i, i as f64)).collect());
    assert_eq!(s.len(), 2);
    assert_eq!(s.closed().front().unwrap().minute, 3);
    assert!(s.working().is_none(), "reloaded bars must not resume as a working bar");
}

#[test]
fn typical_price_is_the_mean_of_high_low_and_close() {
    let c = Candle { minute: 0, open: d(1.0), high: d(10.0), low: d(4.0), close: d(6.0), volume: 0, ticks: 1 };
    assert_eq!(c.typical(), Decimal { micros: 6_666_667 });
}

#[test]
fn a_small_capacity_still_keeps_two_bars() {
    let mut s = CandleSeries::new("k", 0);
    s.seed((0..5).map(|i| bar(i, 1.0)).collect());
    assert_eq!(s.len(), 2);
    assert_eq!(s.key, "k");
}

#[test]
fn last_price_prefers_the_working_bar() {
    let mut s = CandleSeries::new("k", 10);
    assert_eq!(s.last_price(), None);
    assert!(s.is_empty());
    s.seed(vec![bar(0, 7.0), bar(1, 8.0)]);
    assert_eq!(s.last_price(), Some(d(8.0)));
    assert_eq!(s.closes(), vec![d(7.0), d(8.0)]);
    s.push_tick(price(9.0), None, 5 * M);
    assert_eq!(s.last_price(), Some(d(9.0)));
    assert!(!s.is_empty());
}

#[test]
fn session_bars_belong_to_the_newest_day() {
    let mut s = CandleSeries::new("k", 10);
    assert!(s.session_bars().is_empty());
    s.seed(vec![bar(1438, 1.0), bar(1439, 2.0), bar(1440, 3.0), bar(1441, 4.0)]);
    let minutes: Vec<i64> = s.session_bars().iter().map(|c| c.minute).collect();
    assert_eq!(minutes, vec![1440, 1441]);
    s.push_tick(price(9.0), None, 1442 * M);
    let minutes: Vec<i64> = s.session_bars().iter().map(|c| c.minute).collect();
    assert_eq!(minutes, vec![1440, 1441, 1442]);
}

#[test]
fn minutes_before_the_epoch_round_down() {
    let mut s = CandleSeries::new("k", 10);
    s.push_tick(price(9.0), None, -1);
    assert_eq!(s.working().unwrap().minute, -1);
}

#[test]
fn bars_stay_in_order_and_well_shaped() {
    let mut s = CandleSeries::new("k", 50);
    for i in 0..200i64 {
        s.push_tick(price(100.0 + ((i * 37) % 11) as f64), Some(i as u64), (i * 17_000) % 1_900_000);
    }
    let bars: Vec<Candle> = s.closed().iter().cloned().collect();
    for w in bars.windows(2) {
        assert!(w[0].minute < w[1].minute);
    }
    for b in &bars {
        assert!(b.low.micros <= b.open.micros && b.open.micros <= b.high.micros);
        assert!(b.low.micros <= b.close.micros && b.close.micros <= b.high.micros);
    }
}

#[test]
fn true_range_spans_the_previous_close_and_the_bar() {
    let c = Candle { minute: 0, open: Decimal { micros: i128::MAX }, high: d(3e9), low: d(1e9), close: d(2e9), volume: 0, ticks: 1 };
    assert_eq!(c.true_range(None), d(2e9));
    assert_eq!(c.true_range(Some(d(2e9))), d(2e9));
    assert_eq!(c.true_range(Some(d(5e9))), d(4e9));
    assert_eq!(c.true_range(Some(d(0.0))), d(3e9));
    assert_eq!(c.typical(), d(2e9));
}
