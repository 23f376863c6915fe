//! Strategy configuration.

use crate::decimal::Decimal;
use vstd::prelude::*;

verus! {

/// One index the engine trades.
#[derive(Debug, Clone)]
pub struct IndexSpec {
    /// Name of the index, such as `"NIFTY"`.
    pub symbol: String,
    /// Feed key of the spot price.
    pub spot_key: String,
    /// Distance between neighbouring strikes.
    pub strike_step: Decimal,
}

/// Thresholds of the strategy.
#[derive(Debug, Clone, Copy, PartialEq, Eq, Structural)]
pub struct StrategyConfig {
    /// Whether the engine publishes signals at all.
    pub enabled: bool,
    /// Closed bars needed before a regime is read.
    pub min_bars_for_signal: usize,
    pub ema_fast: usize,
    pub ema_medium: usize,
    pub ema_slow: usize,
    pub atr_period: usize,
    pub rsi_period: usize,
    /// Width of the VWAP bands, in standard deviations.
    pub vwap_band_sigma: Decimal,
    /// Time of day from which a contract expiring today is no longer opened.
    pub expiry_day_no_entry_hour: u32,
    pub expiry_day_no_entry_minute: u32,
    /// Fewest days to expiry of a contract that is opened.
    pub min_days_to_expiry: i64,
    /// Strikes considered on either side of the money.
    pub strike_search_steps: i32,
    /// Steps out of the money that are preferred.
    pub preferred_otm_steps: i32,
    /// Age from which a quote is no longer trusted.
    pub max_tick_age_ms: i64,
    pub min_premium: Decimal,
    pub max_premium: Decimal,
    pub min_open_interest: Decimal,
    /// Widest spread that is paid, in percent.
    pub max_spread_pct: Decimal,
    /// Time of day from which nothing is opened.
    pub no_entry_hour: u32,
    pub no_entry_minute: u32,
    /// Realised loss at which the session ends.
    pub max_daily_loss_inr: Decimal,
    /// Losing trades in a row at which the session ends.
    pub max_consecutive_losses: usize,
    pub max_algo_entries_per_day: usize,
    /// Open positions allowed, counted over every source.
    pub max_open_positions: usize,
    /// Whether an index may carry one position only.
    pub one_position_per_underlying: bool,
}

/// Whether a time of day has reached a limit.
pub open spec fn reached(now: (u32, u32), hour: u32, minute: u32) -> bool {
    now.0 > hour || (now.0 == hour && now.1 >= minute)
}

/// Whether a time of day has reached a limit.
pub fn has_reached(now: (u32, u32), hour: u32, minute: u32) -> (r: bool)
    ensures
        r == reached(now, hour, minute),
{
    now.0 > hour || (now.0 == hour && now.1 >= minute)
}

impl StrategyConfig {
    /// The configuration used when none is stored. It is disabled.
    pub open spec fn standard() -> StrategyConfig {
        StrategyConfig {
            enabled: false,
            min_bars_for_signal: 60,
            ema_fast: 9,
            ema_medium: 21,
            ema_slow: 50,
            atr_period: 14,
            rsi_period: 14,
            vwap_band_sigma: Decimal { micros: 2_000_000 },
            expiry_day_no_entry_hour: 13,
            expiry_day_no_entry_minute: 30,
            min_days_to_expiry: 0,
            strike_search_steps: 5,
            preferred_otm_steps: 1,
            max_tick_age_ms: 10_000,
            min_premium: Decimal { micros: 20_000_000 },
            max_premium: Decimal { micros: 400_000_000 },
            min_open_interest: Decimal { micros: 50_000_000_000 },
            max_spread_pct: Decimal { micros: 2_000_000 },
            no_entry_hour: 14,
            no_entry_minute: 45,
            max_daily_loss_inr: Decimal { micros: 5_000_000_000 },
            max_consecutive_losses: 3,
            max_algo_entries_per_day: 4,
            max_open_positions: 3,
            one_position_per_underlying: true,
        }
    }
}

impl Default for StrategyConfig {
    fn default() -> (c: StrategyConfig)
        ensures
            c == StrategyConfig::standard(),
    {
        StrategyConfig {
            enabled: false,
            min_bars_for_signal: 60,
            ema_fast: 9,
            ema_medium: 21,
            ema_slow: 50,
            atr_period: 14,
            rsi_period: 14,
            vwap_band_sigma: Decimal { micros: 2_000_000 },
            expiry_day_no_entry_hour: 13,
            expiry_day_no_entry_minute: 30,
            min_days_to_expiry: 0,
            strike_search_steps: 5,
            preferred_otm_steps: 1,
            max_tick_age_ms: 10_000,
            min_premium: Decimal { micros: 20_000_000 },
            max_premium: Decimal { micros: 400_000_000 },
            min_open_interest: Decimal { micros: 50_000_000_000 },
            max_spread_pct: Decimal { micros: 2_000_000 },
            no_entry_hour: 14,
            no_entry_minute: 45,
            max_daily_loss_inr: Decimal { micros: 5_000_000_000 },
            max_consecutive_losses: 3,
            max_algo_entries_per_day: 4,
            max_open_positions: 3,
            one_position_per_underlying: true,
        }
    }
}

/// A time of day has reached a limit exactly when it is no earlier, in minutes
/// since midnight.
pub proof fn reached_is_no_earlier(now: (u32, u32), hour: u32, minute: u32, r: bool)
    requires
        call_ensures(has_reached, (now, hour, minute), r),
        now.1 < 60,
        minute < 60,
    ensures
        r <==> 60 * now.0 + now.1 >= 60 * hour + minute,
{
}

/// No time in an earlier hour has reached the limit, and every time in a later
/// hour has, whatever the minutes; within the hour the minutes decide.
pub proof fn hours_come_before_minutes(now: (u32, u32), hour: u32, minute: u32, r: bool)
    requires
        call_ensures(has_reached, (now, hour, minute), r),
    ensures
        now.0 < hour ==> !r,
        now.0 > hour ==> r,
        now.0 == hour ==> (r <==> now.1 >= minute),
{
}

/// A limit that was reached stays reached for the rest of the day.
pub proof fn reached_stays_reached(
    now: (u32, u32),
    later: (u32, u32),
    hour: u32,
    minute: u32,
    r: bool,
    after: bool,
)
    requires
        call_ensures(has_reached, (now, hour, minute), r),
        call_ensures(has_reached, (later, hour, minute), after),
        now.0 < later.0 || (now.0 == later.0 && now.1 <= later.1),
    ensures
        r ==> after,
{
}

} // verus!
