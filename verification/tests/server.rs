use chrono::{Datelike, NaiveDate};
use trading_engine::date::{Date, LAST_DAY};
use trading_engine::decimal::Decimal;
use trading_engine::server::db::{
    candles_from_rows, config_in_force, config_to_save, current_session, decision_row, keep_rows,
    migration_failure, positions_json, prune_cutoff, readable_decisions, session_stamped, wallet_delta,
    CandleRow, KotakSessionRow, StoredConfig, TradeStep, TradingConfig, TradingConfigRow,
};
use trading_engine::server::routes::{
    after_save, after_validation, apply_config, config_reply, halt, resume, ConfigStep, HistoryQuery,
};
use trading_engine::strategy::agents::{RiskState, Stance};
use trading_engine::strategy::{Candle, MarketRegime};
use trading_engine::StrategyConfig;

fn d(x: f64) -> Decimal {
    Decimal { micros: (x * 1_000_000.0).round() as i128 }
}

fn row(minute: i64, ticks: i64) -> CandleRow {
    CandleRow { minute, open: d(1.0), high: d(3.0), low: d(0.5), close: d(2.0), volume: 7, ticks }
}

fn session(stamp: &str) -> KotakSessionRow {
    KotakSessionRow {
        access_token: "a".into(), auth_token: "b".into(), sid: "s".into(), base_url: "u".into(),
        updated_at: stamp.into(),
    }
}

fn stored_trading(lots: &str) -> TradingConfigRow {
    TradingConfigRow {
        max_trade_amount_inr: d(12_000.0), index_lots: 0, other_lots: 3, mode: "LIVE".into(),
        brokerage_per_order: d(20.0), target_1_exit_pct: d(40.0), target_2_exit_pct: d(90.0),
        entry_market_protection: d(4.0), dynamic_targeting: true, index_lots_by_symbol: lots.into(),
    }
}

#[test]
fn a_column_that_exists_is_no_failure() {
    assert_eq!(migration_failure("error: duplicate column name: mode"), None);
    assert_eq!(
        migration_failure("no such table"),
        Some("failed schema migration: no such table".to_string())
    );
}

#[test]
fn rows_become_bars_oldest_first() {
    let bars = candles_from_rows(&vec![row(3, 1), row(2, -4), row(1, i64::MAX)]);
    let seen: Vec<(i64, u32)> = bars.iter().map(|b| (b.minute, b.ticks)).collect();
    assert_eq!(seen, vec![(1, u32::MAX), (2, 0), (3, 1)]);
}

#[test]
fn a_stored_bar_comes_back() {
    let c = Candle { minute: 9, open: d(1.0), high: d(3.0), low: d(0.5), close: d(2.0), volume: 7, ticks: u32::MAX };
    assert_eq!(CandleRow::from_candle(&c).to_candle(), c);
}

#[test]
fn pruning_keeps_whole_days() {
    assert_eq!(prune_cutoff(86_400 * 10 + 59, 3), 7 * 1440);
    assert_eq!(prune_cutoff(120, 0), 2);
    assert_eq!(prune_cutoff(-61, 0), -1, "minutes are cut toward zero");
    assert_eq!(prune_cutoff(-59, 1), -1440);
}

#[test]
fn a_decision_is_logged_by_name() {
    let r = decision_row(
        "NIFTY", MarketRegime::TrendingUp, Stance::Bullish, d(71.5), true, false, "published", Some("{\"a\":1}".into()),
    );
    assert_eq!((r.regime, r.stance), ("TRENDING_UP", "BULLISH"));
    assert_eq!((r.actionable, r.published), (1, 0));
    assert_eq!(r.detail_json, "{\"a\":1}");
    assert_eq!((r.underlying.as_str(), r.outcome.as_str(), r.conviction), ("NIFTY", "published", d(71.5)));
    let blank = decision_row("NIFTY", MarketRegime::Unknown, Stance::Neutral, d(0.0), false, true, "", None);
    assert_eq!((blank.actionable, blank.published, blank.detail_json.as_str()), (0, 1, "{}"));
}

#[test]
fn unreadable_decisions_are_left_out() {
    let rows: Vec<String> = ["{\"a\": 1}", "{oops", "[2]", ""].iter().map(|s| s.to_string()).collect();
    assert_eq!(readable_decisions(&rows), vec!["{\"a\": 1}".to_string(), "[2]".to_string()]);
    assert_eq!(keep_rows(&rows, &vec![false, true, false, false]), vec!["{oops".to_string()]);
}

#[test]
fn an_unsound_configuration_falls_back_to_disabled_defaults() {
    let mut config = StrategyConfig::default();
    assert!(!config.enabled);
    config.enabled = true;
    let sound = StoredConfig::Parsed { config, validation: Ok(()) };
    assert!(config_in_force(&sound).enabled);
    let unsound = StoredConfig::Parsed { config, validation: Err("bad".into()) };
    assert!(!config_in_force(&unsound).enabled);
    assert!(!config_in_force(&StoredConfig::Unparsed).enabled);
    assert!(!config_in_force(&StoredConfig::Absent).enabled);
}

#[test]
fn only_a_valid_configuration_is_saved() {
    assert_eq!(config_to_save(Ok(()), Ok("{}".into())), Ok("{}".to_string()));
    assert_eq!(config_to_save(Ok(()), Err("json".into())), Err("json".to_string()));
    assert_eq!(config_to_save(Err("bad".into()), Ok("{}".into())), Err("bad".to_string()));
}

#[test]
fn lots_are_read_by_symbol() {
    let c = TradingConfig::from_stored(Some(stored_trading("{\"NIFTY\": 2, \"BANKNIFTY\": 4}")));
    assert_eq!(c.index_lots_by_symbol, vec![("BANKNIFTY".to_string(), 4), ("NIFTY".to_string(), 2)]);
    assert_eq!((c.index_lots, c.other_lots), (1, 3), "never less than one lot");
    assert_eq!(c.mode, "LIVE");
    assert!(c.dynamic_targeting);
}

#[test]
fn unreadable_lots_count_as_none() {
    let c = TradingConfig::from_stored(Some(stored_trading("[1]")));
    assert!(c.index_lots_by_symbol.is_empty());
    assert_eq!(c.max_trade_amount_inr, d(12_000.0));
}

#[test]
fn no_stored_trading_configuration_means_paper_trading() {
    let c = TradingConfig::from_stored(None);
    assert_eq!(c.mode, "PAPER");
    assert_eq!(c.max_trade_amount_inr, d(10_000.0));
    assert_eq!(c.brokerage_per_order, d(20.0));
    assert_eq!((c.target_1_exit_pct, c.target_2_exit_pct), (d(50.0), d(100.0)));
    assert_eq!(c.entry_market_protection, d(5.0));
    assert_eq!((c.index_lots, c.other_lots, c.dynamic_targeting), (1, 1, false));
    assert!(c.index_lots_by_symbol.is_empty());
}

#[test]
fn missing_positions_are_an_empty_list() {
    assert_eq!(positions_json(None), "[]");
    assert_eq!(positions_json(Some("[1]".into())), "[1]");
}

#[test]
fn a_session_from_another_day_has_expired() {
    let today = Date::from_day(NaiveDate::from_ymd_opt(2026, 8, 5).unwrap().num_days_from_ce()).unwrap();
    let kept = current_session(Some(session("2026-08-05 09:00:00")), today);
    assert_eq!(kept.unwrap().access_token, "a");
    assert!(current_session(Some(session("2026-08-04 23:59:59")), today).is_none());
    assert!(current_session(Some(session("2026-08")), today).is_none());
    assert!(current_session(None, today).is_none());
    assert!(session_stamped(Some(session("x")), "").is_some());
}

#[test]
fn the_calendar_ends_where_chrono_ends() {
    assert_eq!(NaiveDate::MAX.num_days_from_ce(), LAST_DAY);
    assert_eq!(NaiveDate::MIN.num_days_from_ce(), trading_engine::date::FIRST_DAY);
    assert_eq!(Date::from_day(LAST_DAY + 1), None);
}

#[test]
fn buying_takes_from_the_wallet_and_selling_puts_back() {
    assert_eq!(wallet_delta("buy", d(10.0)), d(-10.0));
    assert_eq!(wallet_delta("BUY", d(10.0)), d(-10.0));
    assert_eq!(wallet_delta("SELL", d(10.0)), d(10.0));
    assert_eq!(wallet_delta("BUYS", d(10.0)), d(10.0));
}

#[test]
fn a_trade_is_written_in_four_steps_or_rolled_back() {
    let mut step = TradeStep::Begin;
    let mut seen = vec![step];
    while step != TradeStep::Done {
        step = step.next(true);
        seen.push(step);
    }
    assert_eq!(
        seen,
        vec![TradeStep::Begin, TradeStep::Insert, TradeStep::UpdateWallet, TradeStep::Commit, TradeStep::Done]
    );
    assert_eq!(TradeStep::Begin.next(false), TradeStep::Done);
    assert_eq!(TradeStep::Insert.next(false), TradeStep::Rollback);
    assert_eq!(TradeStep::UpdateWallet.next(false), TradeStep::Rollback);
    assert_eq!(TradeStep::Commit.next(false), TradeStep::Done);
    assert_eq!(TradeStep::Rollback.next(false), TradeStep::Done);
}

#[test]
fn the_history_limit_is_clamped() {
    for (asked, got) in [(None, 50), (Some(0), 1), (Some(-9), 1), (Some(7), 7), (Some(501), 500)] {
        assert_eq!(HistoryQuery { limit: asked }.effective_limit(), got);
    }
}

#[test]
fn a_configuration_is_validated_then_stored_then_applied() {
    assert!(matches!(after_validation(Ok(())), ConfigStep::Save));
    assert!(matches!(after_save(Ok(())), ConfigStep::Apply));
    match after_validation(Err("bad".into())) {
        ConfigStep::Refuse { status, message } => assert_eq!((status, message.as_str()), (400, "bad")),
        other => panic!("unexpected {other:?}"),
    }
    match after_save(Err("disk".into())) {
        ConfigStep::Refuse { status, message } => assert_eq!((status, message.as_str()), (500, "disk")),
        other => panic!("unexpected {other:?}"),
    }
}

#[test]
fn applying_a_configuration_reports_a_toggle() {
    let mut running = StrategyConfig::default();
    let mut new = running;
    assert!(!apply_config(&mut running, new));
    new.enabled = true;
    assert!(apply_config(&mut running, new));
    assert!(running.enabled);
    assert!(config_reply(&running).ok && config_reply(&running).enabled);
}

#[test]
fn halting_and_resuming_touch_only_the_halt() {
    let mut risk = RiskState { realised_pnl: d(-7.0), consecutive_losses: 2, ..Default::default() };
    assert!(halt(&mut risk).halted);
    assert_eq!(risk.halted_reason.as_deref(), Some("halted manually from the dashboard"));
    let r = resume(&mut risk);
    assert_eq!((r.ok, r.halted, r.realised_pnl, r.consecutive_losses), (true, false, d(-7.0), 2));
    assert_eq!(risk.halted_reason, None);
}

#[test]
fn a_configuration_runs_only_once_it_is_stored() {
    let old = StrategyConfig::default();
    let new = StrategyConfig { enabled: true, ..old };
    let cases: [(Result<(), String>, Result<(), String>, bool, bool); 3] = [
        (Err("bad".into()), Ok(()), false, false),
        (Ok(()), Err("disk".into()), false, false),
        (Ok(()), Ok(()), true, true),
    ];
    for (validation, saving, is_stored, is_running) in cases {
        let (mut stored, mut running) = (None, old);
        if matches!(after_validation(validation), ConfigStep::Save) {
            if saving.is_ok() {
                stored = Some(new.enabled);
            }
            if matches!(after_save(saving), ConfigStep::Apply) {
                apply_config(&mut running, new);
            }
        }
        assert_eq!((stored.is_some(), running.enabled), (is_stored, is_running));
    }
}
