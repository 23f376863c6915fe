use chrono::{Datelike, NaiveDate};
use trading_engine::date::Date;
use trading_engine::decimal::Decimal;
use trading_engine::strategy::config::IndexSpec;
use trading_engine::strategy::market::{MarketTick, ScripRecord, TickStore};
use trading_engine::strategy::strikes::{check_quote, resolve_strike_scale, select_expiry, select_strike};
use trading_engine::StrategyConfig;

fn d(x: f64) -> Decimal {
    Decimal { micros: (x * 1_000_000.0).round() as i128 }
}

fn date(y: i32, m: u32, day: u32) -> Date {
    Date::from_day(NaiveDate::from_ymd_opt(y, m, day).unwrap().num_days_from_ce()).unwrap()
}

fn rec(strike: f64, opt: &str, exp: Date, token: &str) -> ScripRecord {
    ScripRecord {
        instrument_token: token.to_string(),
        trading_symbol: format!("NIFTY{}{}", strike as i64, opt),
        symbol_name: "NIFTY".to_string(),
        exchange_segment_code: "nse_fo".to_string(),
        strike_price: d(strike),
        option_type: opt.to_string(),
        expiry_date: exp,
        lot_size: 75,
        tick_size: d(0.05),
    }
}

fn spec() -> IndexSpec {
    IndexSpec { symbol: "NIFTY".into(), spot_key: "nse_cm|Nifty 50".into(), strike_step: d(50.0) }
}

/// A chain around 24000 spot, 9 strikes each side, all CE and PE.
fn chain(exp: Date, scale: f64) -> Vec<ScripRecord> {
    let mut v = Vec::new();
    for i in -9..=9 {
        let k = 24_000.0 + i as f64 * 50.0;
        v.push(rec(k * scale, "CE", exp, &format!("CE{i}")));
        v.push(rec(k * scale, "PE", exp, &format!("PE{i}")));
    }
    v
}

/// A two-sided quote with this bid, ask and open interest.
fn quote(bid: f64, ask: f64, oi: f64, at: i64) -> MarketTick {
    let mid = (bid + ask) / 2.0;
    MarketTick {
        mid: Some(d(mid)),
        open_interest: Some(d(oi)),
        spread_pct: Some(d((ask - bid) / mid * 100.0)),
        received_ms: at,
    }
}

fn quoted(recs: &[ScripRecord], bid: f64, ask: f64, oi: f64) -> TickStore {
    let mut store = TickStore::new();
    for r in recs {
        let key = format!("{}|{}", r.exchange_segment_code, r.instrument_token);
        store.insert(key, quote(bid, ask, oi, 1_000));
    }
    store
}

/// Quote every contract as liquid unless overridden.
fn liquid_ticks(recs: &[ScripRecord]) -> TickStore {
    quoted(recs, 119.5, 120.5, 200000.0)
}

fn today() -> Date { date(2026, 8, 25) }
fn thursday() -> Date { date(2026, 8, 27) }

#[test]
fn picks_preferred_otm_call_for_a_bullish_view() {
    let recs = chain(thursday(), 1.0);
    let refs: Vec<&ScripRecord> = recs.iter().collect();
    let ticks = liquid_ticks(&recs);
    let cfg = StrategyConfig::default();

    let sel = select_strike(&refs, d(24_000.0), 1, &spec(), &ticks, &cfg, today(), (10, 0), 1_000);
    let c = sel.chosen.expect("a liquid chain must yield a strike");
    assert_eq!(c.option_type, "CE", "a bullish view buys calls, never puts");
    assert_eq!(c.otm_steps, cfg.preferred_otm_steps);
    assert_eq!(c.strike, d(24_050.0), "1 step OTM above 24000 spot");
}

#[test]
fn bearish_view_buys_a_put_below_spot() {
    let recs = chain(thursday(), 1.0);
    let refs: Vec<&ScripRecord> = recs.iter().collect();
    let ticks = liquid_ticks(&recs);
    let cfg = StrategyConfig::default();

    let c = select_strike(&refs, d(24_000.0), -1, &spec(), &ticks, &cfg, today(), (10, 0), 1_000)
        .chosen.expect("chain is liquid");
    assert_eq!(c.option_type, "PE");
    assert_eq!(c.strike, d(23_950.0), "1 step OTM below spot for a put");
    assert_eq!(c.otm_steps, 1);
}

#[test]
fn hundred_times_scaled_strikes_are_normalised() {
    // Kotak stores some segments' strikes ×100.
    let recs = chain(thursday(), 100.0);
    let refs: Vec<&ScripRecord> = recs.iter().collect();
    let ticks = liquid_ticks(&recs);

    let c = select_strike(&refs, d(24_000.0), 1, &spec(), &ticks, &StrategyConfig::default(), today(), (10, 0), 1_000)
        .chosen.expect("scaling must not prevent selection");
    assert_eq!(c.strike, d(24_050.0), "expected a normalised 24050 strike");
}

#[test]
fn a_wide_spread_contract_is_rejected_with_a_reason() {
    let recs = chain(thursday(), 1.0);
    let refs: Vec<&ScripRecord> = recs.iter().collect();
    let mut ticks = liquid_ticks(&recs);
    // Blow out the spread on the otherwise-preferred strike (1 step OTM CE).
    let key = "nse_fo|CE1";
    ticks.insert(key.to_string(), quote(100.0, 140.0, 200000.0, 1_000));

    let sel = select_strike(&refs, d(24_000.0), 1, &spec(), &ticks, &StrategyConfig::default(), today(), (10, 0), 1_000);
    let c = sel.chosen.expect("other strikes remain tradeable");
    assert_ne!(c.instrument_token, "CE1", "the wide-spread strike must not be chosen");

    let wide = sel.considered.iter().find(|c| c.instrument_token == "CE1").unwrap();
    assert!(wide.rejected.as_ref().unwrap().contains("spread"), "got {:?}", wide.rejected);
}

#[test]
fn illiquid_chain_yields_no_trade_not_a_bad_trade() {
    let recs = chain(thursday(), 1.0);
    let refs: Vec<&ScripRecord> = recs.iter().collect();
    // Quoted, but nobody is positioned there.
    let ticks = quoted(&recs, 119.5, 120.5, 10.0);
    let sel = select_strike(&refs, d(24_000.0), 1, &spec(), &ticks, &StrategyConfig::default(), today(), (10, 0), 1_000);
    assert!(sel.chosen.is_none(), "thin OI must produce no trade");
    assert!(sel.reason.contains("liquidity gates"), "got {}", sel.reason);
}

#[test]
fn stale_quotes_are_never_tradeable() {
    let recs = chain(thursday(), 1.0);
    let refs: Vec<&ScripRecord> = recs.iter().collect();
    let ticks = liquid_ticks(&recs);   // all stamped at t=1000
    let cfg = StrategyConfig::default();

    // Evaluate far in the future: every quote is now stale.
    let sel = select_strike(&refs, d(24_000.0), 1, &spec(), &ticks, &cfg, today(), (10, 0), 1_000 + cfg.max_tick_age_ms + 1);
    assert!(sel.chosen.is_none(), "a frozen feed must not produce a trade");
    assert!(
        sel.considered.iter().all(|c| c.rejected.is_some()),
        "every candidate should be rejected as stale"
    );
}

#[test]
fn premium_outside_the_band_is_rejected() {
    let recs = chain(thursday(), 1.0);
    let refs: Vec<&ScripRecord> = recs.iter().collect();
    // ₹2 lottery tickets: liquid, but pure decay.
    let ticks = quoted(&recs, 1.95, 2.05, 500000.0);
    let sel = select_strike(&refs, d(24_000.0), 1, &spec(), &ticks, &StrategyConfig::default(), today(), (10, 0), 1_000);
    assert!(sel.chosen.is_none());
    assert!(
        sel.considered.iter().any(|c| c.rejected.as_ref().is_some_and(|r| r.contains("below"))),
        "cheap premium should be rejected explicitly"
    );
}

#[test]
fn no_direction_selects_nothing() {
    let recs = chain(thursday(), 1.0);
    let refs: Vec<&ScripRecord> = recs.iter().collect();
    let sel = select_strike(&refs, d(24_000.0), 0, &spec(), &liquid_ticks(&recs), &StrategyConfig::default(), today(), (10, 0), 1_000);
    assert!(sel.chosen.is_none(), "a neutral view must not produce a contract");
    assert_eq!(sel.reason, "no directional view — nothing to select");
}

#[test]
fn expiry_day_cutoff_skips_today_and_rolls_forward() {
    let recs = [chain(today(), 1.0), chain(thursday(), 1.0)].concat();
    let refs: Vec<&ScripRecord> = recs.iter().collect();
    let cfg = StrategyConfig::default();

    // Before the cutoff, today's expiry is fair game.
    let before = select_expiry(&refs, today(), (10, 0), &cfg);
    assert_eq!(before, Some(today()));

    // After it, the engine rolls to the next expiry rather than buying decay.
    let after = select_expiry(&refs, today(), (14, 30), &cfg);
    assert_eq!(after, Some(thursday()), "past the cutoff we must roll forward, not trade today's expiry");
}

#[test]
fn no_expiry_at_all_when_only_todays_is_listed_and_cutoff_passed() {
    let recs = chain(today(), 1.0);
    let refs: Vec<&ScripRecord> = recs.iter().collect();
    assert_eq!(
        select_expiry(&refs, today(), (14, 30), &StrategyConfig::default()),
        None,
        "no contract is the right answer, not a decaying one"
    );
}

#[test]
fn the_choice_is_described_exactly() {
    let recs = chain(thursday(), 1.0);
    let refs: Vec<&ScripRecord> = recs.iter().collect();
    let sel = select_strike(&refs, d(24_000.0), 1, &spec(), &liquid_ticks(&recs), &StrategyConfig::default(), today(), (10, 0), 1_000);
    assert_eq!(
        sel.reason,
        "NIFTY 24050 CE — 1 steps OTM, premium ₹120.00, OI 200000, spread 0.83%"
    );
    assert_eq!(sel.considered.len(), 11, "five steps each side, and the money");
    let c = sel.chosen.unwrap();
    assert_eq!(c.ws_key, "nse_fo|CE1");
    assert_eq!(c.trading_symbol, "NIFTY24050CE");
    assert_eq!(c.exchange_segment, "nse_fo");
    assert_eq!(c.expiry, thursday());
    assert_eq!(c.lot_size, 75);
    assert_eq!(c.score, Decimal { micros: 833_333 });
}

#[test]
fn a_selection_without_spot_or_expiry_says_so() {
    let recs = chain(thursday(), 1.0);
    let refs: Vec<&ScripRecord> = recs.iter().collect();
    let cfg = StrategyConfig::default();
    let ticks = TickStore::new();
    let sel = select_strike(&refs, d(0.0), 1, &spec(), &ticks, &cfg, today(), (10, 0), 1_000);
    assert_eq!(sel.reason, "spot price unavailable");
    let sel = select_strike(&refs, d(24_000.0), 1, &spec(), &ticks, &cfg, date(2026, 9, 1), (10, 0), 1_000);
    assert_eq!(sel.reason, "no tradeable expiry (expiry-day cutoff passed or none listed)");
}

#[test]
fn an_empty_window_names_the_money_and_the_expiry() {
    let recs = chain(thursday(), 1.0);
    let refs: Vec<&ScripRecord> = recs.iter().collect();
    let sel = select_strike(&refs, d(30_020.0), 1, &spec(), &TickStore::new(), &StrategyConfig::default(), today(), (10, 0), 1_000);
    assert!(sel.considered.is_empty());
    assert_eq!(sel.reason, "no CE contracts listed near ATM 30000 for expiry 2026-08-27");
}

#[test]
fn unquoted_contracts_are_refused_with_a_sample() {
    let recs = chain(thursday(), 1.0);
    let refs: Vec<&ScripRecord> = recs.iter().collect();
    let sel = select_strike(&refs, d(24_000.0), -1, &spec(), &TickStore::new(), &StrategyConfig::default(), today(), (10, 0), 1_000);
    assert_eq!(
        sel.reason,
        "all 11 candidate strikes failed the liquidity gates (e.g. no live quote — contract not subscribed or never traded)"
    );
}

#[test]
fn gates_refuse_in_order() {
    let cfg = StrategyConfig::default();
    let good = quote(119.5, 120.5, 200000.0, 1_000);
    assert_eq!(check_quote(Some(good), &cfg, 1_000), None);
    assert_eq!(check_quote(Some(good), &cfg, 20_000).unwrap(), "quote is stale");
    assert_eq!(check_quote(Some(MarketTick { mid: None, ..good }), &cfg, 1_000).unwrap(), "no premium quoted");
    assert_eq!(
        check_quote(Some(MarketTick { mid: Some(d(19.994)), ..good }), &cfg, 1_000).unwrap(),
        "premium ₹19.99 below ₹20.00 floor — decays to zero too easily"
    );
    assert_eq!(
        check_quote(Some(MarketTick { mid: Some(d(400.5)), ..good }), &cfg, 1_000).unwrap(),
        "premium ₹400.50 above ₹400.00 cap — one lot would eat the budget"
    );
    assert_eq!(
        check_quote(Some(MarketTick { open_interest: None, ..good }), &cfg, 1_000).unwrap(),
        "open interest not reported"
    );
    assert_eq!(
        check_quote(Some(MarketTick { open_interest: Some(d(10.0)), ..good }), &cfg, 1_000).unwrap(),
        "open interest 10 below 50000 floor — too thin to exit cleanly"
    );
    assert_eq!(
        check_quote(Some(MarketTick { spread_pct: None, ..good }), &cfg, 1_000).unwrap(),
        "no two-sided quote — cannot measure spread"
    );
    assert_eq!(
        check_quote(Some(MarketTick { spread_pct: Some(d(2.5)), ..good }), &cfg, 1_000).unwrap(),
        "spread 2.50% exceeds 2.00% cap — round trip costs too much"
    );
}

#[test]
fn the_cheaper_round_trip_wins_between_equal_strikes() {
    let recs = vec![rec(24_050.0, "CE", thursday(), "A"), rec(24_050.0, "CE", thursday(), "B")];
    let refs: Vec<&ScripRecord> = recs.iter().collect();
    let mut ticks = TickStore::new();
    ticks.insert("nse_fo|A".to_string(), quote(119.0, 121.0, 200000.0, 1_000));
    ticks.insert("nse_fo|B".to_string(), quote(119.5, 120.5, 200000.0, 1_000));
    let sel = select_strike(&refs, d(24_000.0), 1, &spec(), &ticks, &StrategyConfig::default(), today(), (10, 0), 1_000);
    assert_eq!(sel.chosen.unwrap().instrument_token, "B");
}

#[test]
fn missing_steps_ticks_and_lots_fall_back() {
    let mut r = rec(24_050.0, "CE", thursday(), "A");
    r.lot_size = 0;
    r.tick_size = d(0.0);
    let recs = vec![r];
    let refs: Vec<&ScripRecord> = recs.iter().collect();
    let mut index = spec();
    index.strike_step = d(0.0);
    let sel = select_strike(&refs, d(24_000.0), 1, &index, &TickStore::new(), &StrategyConfig::default(), today(), (10, 0), 1_000);
    let c = &sel.considered[0];
    assert_eq!((c.lot_size, c.tick_size, c.otm_steps), (1, d(0.05), 1));
}

#[test]
fn the_scale_brings_the_median_closest_to_spot() {
    for (scale, found) in [(1.0, 1), (100.0, 100), (1000.0, 1000)] {
        let recs = chain(thursday(), scale);
        let refs: Vec<&ScripRecord> = recs.iter().collect();
        assert_eq!(resolve_strike_scale(&refs, d(24_000.0)), found);
    }
    assert_eq!(resolve_strike_scale(&[], d(24_000.0)), 1);
}

#[test]
fn the_least_days_to_expiry_are_respected() {
    let recs = [chain(thursday(), 1.0), chain(date(2026, 9, 3), 1.0)].concat();
    let refs: Vec<&ScripRecord> = recs.iter().collect();
    let mut cfg = StrategyConfig::default();
    cfg.min_days_to_expiry = 3;
    assert_eq!(select_expiry(&refs, today(), (10, 0), &cfg), Some(date(2026, 9, 3)));
    cfg.min_days_to_expiry = 2;
    assert_eq!(select_expiry(&refs, today(), (10, 0), &cfg), Some(thursday()));
}

#[test]
fn a_later_quote_replaces_an_earlier_one() {
    let mut ticks = TickStore::new();
    assert_eq!(ticks.get("k"), None);
    ticks.insert("k".to_string(), quote(1.0, 2.0, 3.0, 1));
    ticks.insert("k".to_string(), quote(1.0, 2.0, 3.0, 9));
    assert_eq!(ticks.get("k").unwrap().received_ms, 9);
    assert_eq!(ticks.get("K"), None);
}

#[test]
fn steps_are_counted_within_32_bits() {
    let recs = vec![
        rec(27_000.0, "CE", thursday(), "A"), rec(27_000.0, "PE", thursday(), "B"), rec(21_000.0, "PE", thursday(), "C"),
    ];
    let refs: Vec<&ScripRecord> = recs.iter().collect();
    let mut index = spec();
    index.strike_step = d(0.000001);
    let cfg = StrategyConfig { strike_search_steps: i32::MAX, ..Default::default() };
    let calls = select_strike(&refs, d(24_000.0), 1, &index, &TickStore::new(), &cfg, today(), (10, 0), 1_000);
    assert_eq!(calls.considered.iter().map(|c| c.otm_steps).collect::<Vec<_>>(), vec![i32::MAX]);
    let puts = select_strike(&refs, d(24_000.0), -1, &index, &TickStore::new(), &cfg, today(), (10, 0), 1_000);
    assert_eq!(puts.considered.iter().map(|c| c.otm_steps).collect::<Vec<_>>(), vec![-i32::MAX]);
}
