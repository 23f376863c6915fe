use trading_engine::decimal::Decimal;
use trading_engine::strategy::agents::risk::{MonitoredPosition, TradeState};
use trading_engine::strategy::agents::{RiskDecision, RiskManager, RiskState};
use trading_engine::StrategyConfig;

fn d(x: f64) -> Decimal {
    Decimal { micros: (x * 1_000_000.0).round() as i128 }
}

fn cfg() -> StrategyConfig {
    StrategyConfig::default()
}

fn state() -> RiskState {
    RiskState { session_date: "2026-08-25".into(), ..Default::default() }
}

fn position(instrument: &str, st: TradeState) -> MonitoredPosition {
    MonitoredPosition { instrument_name: instrument.into(), state: st }
}

/// Standard approval case: liquid ATM-ish option, nothing open, mid-session.
fn approve_with(open: &[MonitoredPosition], st: &RiskState) -> RiskDecision {
    RiskManager::evaluate("NIFTY", d(120.0), 75, open, st, &cfg(), d(15_000.0), (11, 0))
}

#[test]
fn approves_a_clean_setup_and_sizes_within_the_cap() {
    let dec = approve_with(&[], &state());
    match dec {
        RiskDecision::Approved { lots, .. } => {
            // 120 x 75 = 9,000 per lot; the 15,000 cap allows exactly 1.
            assert_eq!(lots, 1);
        }
        RiskDecision::Rejected { reason } => panic!("should approve: {reason}"),
    }
}

#[test]
fn daily_loss_limit_halts_new_entries() {
    let mut s = state();
    s.realised_pnl = Decimal { micros: -cfg().max_daily_loss_inr.micros };
    let dec = approve_with(&[], &s);
    assert!(!dec.is_approved());
    assert!(dec.reason().contains("daily loss limit"), "got {}", dec.reason());
}

#[test]
fn consecutive_losses_halt_new_entries() {
    let mut s = state();
    s.consecutive_losses = cfg().max_consecutive_losses;
    let dec = approve_with(&[], &s);
    assert!(!dec.is_approved());
    assert!(dec.reason().contains("consecutive losses"));
}

#[test]
fn position_limit_counts_every_source_not_just_algo_positions() {
    let open: Vec<MonitoredPosition> = ["NIFTY", "BANKNIFTY", "FINNIFTY"]
        .iter().map(|i| position(i, TradeState::Active)).collect();
    let dec = RiskManager::evaluate("SENSEX", d(120.0), 75, &open, &state(), &cfg(), d(15_000.0), (11, 0));
    assert!(!dec.is_approved(), "Telegram positions must count toward the shared budget");
    assert!(dec.reason().contains("across all sources"), "got {}", dec.reason());
}

#[test]
fn closed_positions_do_not_consume_the_budget() {
    let open: Vec<MonitoredPosition> = ["NIFTY", "BANKNIFTY", "FINNIFTY"]
        .iter().map(|i| position(i, TradeState::Closed)).collect();
    let dec = RiskManager::evaluate("SENSEX", d(120.0), 75, &open, &state(), &cfg(), d(15_000.0), (11, 0));
    assert!(dec.is_approved(), "closed positions hold no exposure: {}", dec.reason());
}

#[test]
fn refuses_a_second_position_on_the_same_underlying() {
    let open = vec![position("NIFTY", TradeState::Active)];
    let dec = approve_with(&open, &state());
    assert!(!dec.is_approved());
    assert!(dec.reason().contains("already holding"));
}

#[test]
fn same_underlying_check_is_case_insensitive() {
    let open = vec![position("nifty", TradeState::Active)];
    let dec = approve_with(&open, &state());
    assert!(!dec.is_approved(), "casing must not defeat the duplicate check");
}

#[test]
fn time_cutoff_blocks_late_entries() {
    let c = cfg();
    let dec = RiskManager::evaluate("NIFTY", d(120.0), 75, &[], &state(), &c, d(15_000.0), (c.no_entry_hour, c.no_entry_minute));
    assert!(!dec.is_approved());
    assert!(dec.reason().contains("entry cutoff"));
}

#[test]
fn refuses_when_one_lot_exceeds_the_per_trade_cap() {
    // 900 x 75 = 67,500 against a 15,000 cap.
    let dec = RiskManager::evaluate("NIFTY", d(900.0), 75, &[], &state(), &cfg(), d(15_000.0), (11, 0));
    assert!(!dec.is_approved());
    assert!(dec.reason().contains("above the"), "got {}", dec.reason());
}

#[test]
fn refuses_to_size_against_a_missing_premium() {
    let dec = RiskManager::evaluate("NIFTY", d(0.0), 75, &[], &state(), &cfg(), d(15_000.0), (11, 0));
    assert!(!dec.is_approved(), "no premium means no sizing, not a default size");
}

#[test]
fn an_explicit_halt_overrides_everything() {
    let mut s = state();
    s.halted_reason = Some("manual kill switch".into());
    let dec = approve_with(&[], &s);
    assert!(!dec.is_approved());
    assert!(dec.reason().contains("manual kill switch"));
}

#[test]
fn session_rollover_clears_yesterdays_state() {
    let mut s = RiskState {
        session_date: "2026-08-24".into(),
        realised_pnl: d(-9_000.0),
        entries_today: 4,
        consecutive_losses: 3,
        halted_reason: Some("yesterday's halt".into()),
    };
    s.roll_session("2026-08-25");
    assert_eq!(s.realised_pnl, d(0.0));
    assert_eq!(s.entries_today, 0);
    assert_eq!(s.consecutive_losses, 0);
    assert!(s.halted_reason.is_none(), "a new session must start clean");
    assert_eq!(s.session_date, "2026-08-25");
}

#[test]
fn same_session_roll_is_a_no_op() {
    let mut s = state();
    s.realised_pnl = d(-1_200.0);
    s.entries_today = 2;
    s.roll_session("2026-08-25");
    assert_eq!(s.realised_pnl, d(-1_200.0), "same-day roll must not wipe live state");
    assert_eq!(s.entries_today, 2);
}

#[test]
fn record_close_tracks_streaks_and_resets_on_a_win() {
    let mut s = state();
    s.record_close(d(-500.0));
    s.record_close(d(-300.0));
    assert_eq!(s.consecutive_losses, 2);
    assert_eq!(s.realised_pnl, d(-800.0));

    s.record_close(d(1_000.0));
    assert_eq!(s.consecutive_losses, 0, "a win breaks the streak");
    assert_eq!(s.realised_pnl, d(200.0));
}

#[test]
fn refusals_read_exactly() {
    let c = cfg();
    let mut s = state();
    s.realised_pnl = Decimal { micros: -c.max_daily_loss_inr.micros };
    assert_eq!(
        approve_with(&[], &s).reason(),
        "daily loss limit reached (realised ₹-5000 against a ₹5000 cap)"
    );

    let mut s = state();
    s.entries_today = 4;
    assert_eq!(approve_with(&[], &s).reason(), "already took 4 of 4 permitted entries today");

    let mut s = state();
    s.consecutive_losses = 3;
    assert_eq!(approve_with(&[], &s).reason(), "3 consecutive losses — standing down for the session");

    let open: Vec<MonitoredPosition> = ["A", "B", "C"].iter().map(|i| position(i, TradeState::Active)).collect();
    assert_eq!(
        approve_with(&open, &state()).reason(),
        "3 positions already open across all sources (limit 3)"
    );
    assert_eq!(
        approve_with(&[position("Nifty", TradeState::Active)], &state()).reason(),
        "already holding a NIFTY position"
    );

    let late = RiskManager::evaluate("NIFTY", d(120.0), 75, &[], &state(), &c, d(15_000.0), (15, 0));
    assert_eq!(late.reason(), "past the 14:45 IST entry cutoff");
    let dear = RiskManager::evaluate("NIFTY", d(900.0), 75, &[], &state(), &c, d(15_000.0), (11, 0));
    assert_eq!(dear.reason(), "one lot costs ₹67500, above the ₹15000 per-trade cap");
    let blank = RiskManager::evaluate("NIFTY", d(10.0), 0, &[], &state(), &c, d(15_000.0), (11, 0));
    assert_eq!(blank.reason(), "cannot size a position without a valid premium and lot size");
}

#[test]
fn approvals_read_exactly() {
    let dec = RiskManager::evaluate(
        "NIFTY", d(33.335), 75, &[position("SENSEX", TradeState::Active)], &state(), &cfg(), d(15_000.0), (9, 5),
    );
    assert_eq!(
        dec.reason(),
        "5 lot(s) × 75 × ₹33.34 = ₹12501, within the ₹15000 cap; 1 of 3 positions open, 0 of 4 entries used"
    );
    match dec {
        RiskDecision::Approved { lots, .. } => assert_eq!(lots, 5),
        RiskDecision::Rejected { reason } => panic!("should approve: {reason}"),
    }
}

#[test]
fn a_cap_of_exactly_one_lot_is_enough() {
    let dec = RiskManager::evaluate("NIFTY", d(200.0), 75, &[], &state(), &cfg(), d(15_000.0), (11, 0));
    assert!(dec.is_approved(), "got {}", dec.reason());
}

#[test]
fn lots_stop_at_the_largest_count() {
    let dec = RiskManager::evaluate(
        "NIFTY", Decimal { micros: 1 }, 1, &[], &state(), &cfg(), d(15_000.0), (11, 0),
    );
    match dec {
        RiskDecision::Approved { lots, .. } => assert_eq!(lots, i32::MAX),
        RiskDecision::Rejected { reason } => panic!("should approve: {reason}"),
    }
}

#[test]
fn a_second_position_is_allowed_when_the_rule_is_off() {
    let mut c = cfg();
    c.one_position_per_underlying = false;
    let open = vec![position("NIFTY", TradeState::Active)];
    let dec = RiskManager::evaluate("NIFTY", d(120.0), 75, &open, &state(), &c, d(15_000.0), (11, 0));
    assert!(dec.is_approved());
}

#[test]
fn resuming_does_not_reset_a_tripped_breaker() {
    let mut s = state();
    s.consecutive_losses = 3;
    s.halt_manually();
    assert_eq!(
        approve_with(&[], &s).reason(),
        "engine halted for the session: halted manually from the dashboard"
    );
    s.resume();
    assert!(!approve_with(&[], &s).is_approved());
    assert_eq!(s.consecutive_losses, 3);
}

#[test]
fn a_break_even_trade_ends_the_streak() {
    let mut s = state();
    s.record_close(d(-1.0));
    s.record_close(d(0.0));
    assert_eq!(s.consecutive_losses, 0);
}

#[test]
fn closed_positions_change_nothing_wherever_they_stand() {
    let live = vec![position("SENSEX", TradeState::Active), position("FINNIFTY", TradeState::Active)];
    let mixed = vec![
        position("NIFTY", TradeState::Closed),
        position("SENSEX", TradeState::Active),
        position("BANKNIFTY", TradeState::Closed),
        position("FINNIFTY", TradeState::Active),
        position("nifty", TradeState::Closed),
    ];
    let a = approve_with(&live, &state());
    let b = approve_with(&mixed, &state());
    assert!(a.is_approved());
    assert_eq!(a.reason(), b.reason());
}
