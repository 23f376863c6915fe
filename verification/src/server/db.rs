//! Decisions around the database: schema migrations, rows and bars, stored
//! configuration, broker sessions, and the writing of trades.

use crate::date::{date_stamp_text, stamp_date, Date};
use crate::decimal::{divide_toward_zero, threshold_is_exact, toward_zero, Decimal};
use crate::strategy::agents::Stance;
use crate::strategy::candles::Candle;
use crate::strategy::config::StrategyConfig;
use crate::strategy::regime::MarketRegime;
use crate::text::{alike_in_lower_case, lower};
use crate::text::{contains, eq_ignore_case, has_text, same_ignoring_case, stands_at, starts_with};
use vstd::prelude::*;
use vstd::string::*;

verus! {

/// What a failed schema migration means: nothing when the column is already
/// there, else the failure to stop with.
pub fn migration_failure(error: &str) -> (failure: Option<String>)
    ensures
        failure is None <==> has_text(error@, "duplicate column name"@),
        failure matches Some(f) ==> f@ == "failed schema migration: "@ + error@,
{
    if contains(error, "duplicate column name") {
        return None;
    }
    let mut failure: String = "failed schema migration: ".to_owned();
    failure.append(error);
    Some(failure)
}

/// One stored bar.
#[derive(Debug, Clone, Copy, PartialEq, Eq, Structural)]
pub struct CandleRow {
    pub minute: i64,
    pub open: Decimal,
    pub high: Decimal,
    pub low: Decimal,
    pub close: Decimal,
    pub volume: u64,
    pub ticks: i64,
}

impl CandleRow {
    /// The row that stores a bar.
    pub open spec fn storing(c: Candle) -> CandleRow {
        CandleRow {
            minute: c.minute,
            open: c.open,
            high: c.high,
            low: c.low,
            close: c.close,
            volume: c.volume,
            ticks: c.ticks as i64,
        }
    }

    /// The bar that a row stores. A tick count outside its range is moved to
    /// the nearest end of it.
    pub open spec fn stored(self) -> Candle {
        Candle {
            minute: self.minute,
            open: self.open,
            high: self.high,
            low: self.low,
            close: self.close,
            volume: self.volume,
            ticks: if self.ticks < 0 {
                0
            } else if self.ticks > u32::MAX {
                u32::MAX
            } else {
                self.ticks as u32
            },
        }
    }

    /// The row that stores a bar.
    pub fn from_candle(c: &Candle) -> (row: CandleRow)
        ensures
            row == CandleRow::storing(*c),
    {
        CandleRow {
            minute: c.minute,
            open: c.open,
            high: c.high,
            low: c.low,
            close: c.close,
            volume: c.volume,
            ticks: c.ticks as i64,
        }
    }

    /// The bar that a row stores.
    pub fn to_candle(&self) -> (c: Candle)
        ensures
            c == self.stored(),
    {
        Candle {
            minute: self.minute,
            open: self.open,
            high: self.high,
            low: self.low,
            close: self.close,
            volume: self.volume,
            ticks: if self.ticks < 0 {
                0
            } else if self.ticks > u32::MAX as i64 {
                u32::MAX
            } else {
                self.ticks as u32
            },
        }
    }
}

/// A stored bar is read back unchanged.
pub proof fn stored_bar_reads_back(c: Candle)
    ensures
        CandleRow::storing(c).stored() == c,
{
}

/// The bars of rows that were read newest first, oldest first.
pub fn candles_from_rows(rows: &Vec<CandleRow>) -> (bars: Vec<Candle>)
    ensures
        bars@ == rows@.reverse().map_values(|r: CandleRow| r.stored()),
{
    let n: usize = rows.len();
    let mut bars: Vec<Candle> = Vec::new();
    let mut i: usize = 0;
    while i < n
        invariant
            n == rows@.len(),
            i <= n,
            bars@ =~= rows@.reverse().map_values(|r: CandleRow| r.stored()).take(i as int),
        decreases n - i,
    {
        bars.push(rows[n - 1 - i].to_candle());
        i += 1;
    }
    bars
}

/// The whole minutes in some seconds, cut toward zero.
pub open spec fn whole_minutes(secs: int) -> int {
    toward_zero(secs, 60)
}

/// The first minute that is kept when bars older than `keep_days` are dropped.
pub open spec fn cutoff_minute(now_secs: int, keep_days: int) -> int {
    whole_minutes(now_secs) - keep_days * 1440
}

/// The first minute that is kept when bars older than `keep_days` are dropped.
/// `now_secs` is the time in seconds since the Unix epoch.
pub fn prune_cutoff(now_secs: i64, keep_days: i64) -> (minute: i64)
    requires
        i64::MIN <= keep_days * 1440 <= i64::MAX,
        i64::MIN <= cutoff_minute(now_secs as int, keep_days as int) <= i64::MAX,
    ensures
        minute == cutoff_minute(now_secs as int, keep_days as int),
{
    let kept: i128 = keep_days as i128 * 1440;
    proof {
        threshold_is_exact(now_secs as int, 60, 1);
    }
    (divide_toward_zero(now_secs as i128, 60) - kept) as i64
}

/// Whether a bar survives pruning.
pub open spec fn survives(minute: int, now_secs: int, keep_days: int) -> bool {
    minute >= cutoff_minute(now_secs, keep_days)
}

/// Keeping more days never drops a bar that fewer days kept, and the bar of the
/// current minute survives as long as any time is kept at all.
pub proof fn longer_keeping_keeps_more(minute: int, now_secs: int, days: int, more: int)
    requires
        0 <= days <= more,
    ensures
        survives(minute, now_secs, days) ==> survives(minute, now_secs, more),
        survives(whole_minutes(now_secs), now_secs, days),
{
}

/// One row of the decision log.
#[derive(Debug, Clone)]
pub struct DecisionRow {
    pub underlying: String,
    pub regime: &'static str,
    pub stance: &'static str,
    pub conviction: Decimal,
    pub actionable: i32,
    pub published: i32,
    pub outcome: String,
    pub detail_json: String,
}

/// The row that logs a decision. `detail` is the decision as JSON, `None` when
/// it could not be written.
pub fn decision_row(
    underlying: &str,
    regime: MarketRegime,
    stance: Stance,
    conviction: Decimal,
    actionable: bool,
    published: bool,
    outcome: &str,
    detail: Option<String>,
) -> (row: DecisionRow)
    ensures
        row.underlying@ == underlying@,
        row.regime@ == regime.name(),
        row.stance@ == stance.name(),
        row.conviction == conviction,
        row.actionable == if actionable {
            1int
        } else {
            0
        },
        row.published == if published {
            1int
        } else {
            0
        },
        row.outcome@ == outcome@,
        row.detail_json@ == match detail {
            Some(d) => d@,
            None => "{}"@,
        },
{
    DecisionRow {
        underlying: underlying.to_owned(),
        regime: regime.as_str(),
        stance: stance.as_str(),
        conviction,
        actionable: if actionable {
            1
        } else {
            0
        },
        published: if published {
            1
        } else {
            0
        },
        outcome: outcome.to_owned(),
        detail_json: match detail {
            Some(d) => d,
            None => "{}".to_owned(),
        },
    }
}

/// Whether `serde_json` reads a text as one JSON value.
pub uninterp spec fn json_reads(text: Seq<char>) -> bool;

/// Calls `serde_json::from_str` for a JSON value of any kind, and says whether
/// it succeeded: that depends on the text alone. Which texts it reads is not
/// stated.
#[verifier::external_body]
pub(crate) fn reads_as_json(text: &str) -> (r: bool)
    ensures
        r == json_reads(text@),
{
    serde_json::from_str::<serde_json::Value>(text).is_ok()
}

/// The texts at the places where `keep` holds, in order.
pub open spec fn kept(rows: Seq<String>, keep: Seq<bool>) -> Seq<Seq<char>>
    decreases rows.len(),
{
    if rows.len() == 0 {
        Seq::empty()
    } else {
        let rest = kept(rows.drop_last(), keep);
        if keep[rows.len() - 1] {
            rest.push(rows.last()@)
        } else {
            rest
        }
    }
}

/// Keeps the rows at the places where `keep` holds, in order.
pub fn keep_rows(rows: &Vec<String>, keep: &Vec<bool>) -> (out: Vec<String>)
    requires
        keep@.len() == rows@.len(),
    ensures
        out@.map_values(|s: String| s@) == kept(rows@, keep@),
{
    let mut out: Vec<String> = Vec::new();
    let mut i: usize = 0;
    assert(out@.map_values(|s: String| s@) =~= Seq::<Seq<char>>::empty());
    while i < rows.len()
        invariant
            i <= rows@.len(),
            keep@.len() == rows@.len(),
            out@.map_values(|s: String| s@) == kept(rows@.take(i as int), keep@),
        decreases rows@.len() - i,
    {
        let ghost before = out@;
        assert(rows@.take(i + 1).drop_last() =~= rows@.take(i as int));
        if keep[i] {
            out.push(rows[i].clone());
            assert(out@.map_values(|s: String| s@) =~= before.map_values(|s: String| s@).push(
                rows@[i as int]@,
            ));
        }
        i += 1;
    }
    assert(rows@.take(i as int) =~= rows@);
    out
}

/// The logged decisions that are readable JSON, in the order they were read;
/// unreadable rows are left out.
pub fn readable_decisions(rows: &Vec<String>) -> (out: Vec<String>)
    ensures
        out@.map_values(|s: String| s@) == kept(
            rows@,
            rows@.map_values(|s: String| json_reads(s@)),
        ),
{
    let mut keep: Vec<bool> = Vec::new();
    let mut i: usize = 0;
    while i < rows.len()
        invariant
            i <= rows@.len(),
            keep@ =~= rows@.take(i as int).map_values(|s: String| json_reads(s@)),
        decreases rows@.len() - i,
    {
        keep.push(reads_as_json(rows[i].as_str()));
        i += 1;
    }
    assert(rows@.take(i as int) =~= rows@);
    keep_rows(rows, &keep)
}

/// The strategy configuration found in the database.
#[derive(Debug)]
pub enum StoredConfig {
    /// None is stored.
    Absent,
    /// What is stored could not be parsed.
    Unparsed,
    /// What is stored was parsed, and validated with this outcome.
    Parsed { config: StrategyConfig, validation: Result<(), String> },
}

impl StoredConfig {
    /// The stored configuration, if it is sound.
    pub open spec fn sound(self) -> Option<StrategyConfig> {
        match self {
            StoredConfig::Parsed { config, validation } => if validation is Ok {
                Some(config)
            } else {
                None
            },
            _ => None,
        }
    }
}

/// The strategy configuration in force.
///
/// Falls back to the defaults when none is stored or the stored one is
/// invalid: the defaults are disabled and therefore safe, while a half-parsed
/// configuration is not.
pub fn config_in_force(stored: &StoredConfig) -> (cfg: StrategyConfig)
    ensures
        cfg == match stored.sound() {
            Some(config) => config,
            None => StrategyConfig::standard(),
        },
{
    match stored {
        StoredConfig::Parsed { config, validation } => match validation {
            Ok(_) => *config,
            Err(_) => StrategyConfig::default(),
        },
        _ => StrategyConfig::default(),
    }
}

/// An enabled configuration in force was stored and validated.
pub proof fn enabled_means_validated(stored: StoredConfig)
    ensures
        stored.sound() is None ==> !StrategyConfig::standard().enabled,
        stored.sound() is Some ==> (stored matches StoredConfig::Parsed { config, validation }
            && validation is Ok),
{
}

/// What is written when a configuration is saved: its JSON, unless validation
/// or serialisation failed. Validation is decisive.
pub fn config_to_save(
    validation: Result<(), String>,
    json: Result<String, String>,
) -> (r: Result<String, String>)
    ensures
        r == match validation {
            Err(e) => Err(e),
            Ok(_) => json,
        },
{
    match validation {
        Err(e) => Err(e),
        Ok(_) => json,
    }
}

/// The row that holds the trading configuration.
#[derive(Debug, Clone)]
pub struct TradingConfigRow {
    pub max_trade_amount_inr: Decimal,
    pub index_lots: i32,
    pub other_lots: i32,
    pub mode: String,
    pub brokerage_per_order: Decimal,
    pub target_1_exit_pct: Decimal,
    pub target_2_exit_pct: Decimal,
    pub entry_market_protection: Decimal,
    pub dynamic_targeting: bool,
    /// A JSON object from symbols to lots.
    pub index_lots_by_symbol: String,
}

/// The trading configuration of the account.
#[derive(Debug, Clone)]
pub struct TradingConfig {
    pub max_trade_amount_inr: Decimal,
    pub index_lots: i32,
    pub other_lots: i32,
    /// `"PAPER"` or `"LIVE"`.
    pub mode: String,
    pub brokerage_per_order: Decimal,
    pub target_1_exit_pct: Decimal,
    pub target_2_exit_pct: Decimal,
    pub entry_market_protection: Decimal,
    pub dynamic_targeting: bool,
    /// Lots by symbol, in the order of the symbols.
    pub index_lots_by_symbol: Vec<(String, i32)>,
}

/// Lots by symbol, as text.
pub open spec fn lots_view(lots: Seq<(String, i32)>) -> Seq<(Seq<char>, i32)> {
    lots.map_values(|p: (String, i32)| (p.0@, p.1))
}

/// The entries that `serde_json` reads from an object from symbols to lots, in
/// the order of the symbols; `None` when it reads no such object.
pub uninterp spec fn json_lots(text: Seq<char>) -> Option<Seq<(Seq<char>, i32)>>;

/// Calls `serde_json::from_str` for a map from text to whole numbers: the
/// entries depend on the text alone. Which texts hold which entries is not
/// stated.
#[verifier::external_body]
pub(crate) fn read_lots(text: &str) -> (lots: Option<Vec<(String, i32)>>)
    ensures
        match lots {
            Some(v) => json_lots(text@) == Some(lots_view(v@)),
            None => json_lots(text@) is None,
        },
{
    let map: Result<std::collections::BTreeMap<String, i32>, serde_json::Error> =
        serde_json::from_str(text);
    map.ok().map(|m| m.into_iter().collect())
}

/// At least one lot.
pub open spec fn at_least_one(lots: i32) -> i32 {
    if lots < 1 {
        1
    } else {
        lots
    }
}

impl TradingConfig {
    /// Whether this is the configuration of a row whose lots by symbol were
    /// read as `lots`.
    pub open spec fn is_of(
        self,
        row: TradingConfigRow,
        lots: Option<Seq<(Seq<char>, i32)>>,
    ) -> bool {
        &&& self.max_trade_amount_inr == row.max_trade_amount_inr
        &&& self.index_lots == at_least_one(row.index_lots)
        &&& self.other_lots == at_least_one(row.other_lots)
        &&& self.mode@ == row.mode@
        &&& self.brokerage_per_order == row.brokerage_per_order
        &&& self.target_1_exit_pct == row.target_1_exit_pct
        &&& self.target_2_exit_pct == row.target_2_exit_pct
        &&& self.entry_market_protection == row.entry_market_protection
        &&& self.dynamic_targeting == row.dynamic_targeting
        &&& lots_view(self.index_lots_by_symbol@) == match lots {
            Some(l) => l,
            None => Seq::empty(),
        }
    }

    /// Whether this is the configuration used when none is stored.
    pub open spec fn is_standard(self) -> bool {
        &&& self.max_trade_amount_inr@ == 10_000_000_000
        &&& self.index_lots == 1
        &&& self.other_lots == 1
        &&& self.mode@ == "PAPER"@
        &&& self.brokerage_per_order@ == 20_000_000
        &&& self.target_1_exit_pct@ == 50_000_000
        &&& self.target_2_exit_pct@ == 100_000_000
        &&& self.entry_market_protection@ == 5_000_000
        &&& !self.dynamic_targeting
        &&& self.index_lots_by_symbol@.len() == 0
    }

    /// The configuration used when none is stored: paper trading, one lot.
    pub fn standard() -> (c: TradingConfig)
        ensures
            c.is_standard(),
    {
        TradingConfig {
            max_trade_amount_inr: Decimal { micros: 10_000_000_000 },
            index_lots: 1,
            other_lots: 1,
            mode: "PAPER".to_owned(),
            brokerage_per_order: Decimal { micros: 20_000_000 },
            target_1_exit_pct: Decimal { micros: 50_000_000 },
            target_2_exit_pct: Decimal { micros: 100_000_000 },
            entry_market_protection: Decimal { micros: 5_000_000 },
            dynamic_targeting: false,
            index_lots_by_symbol: Vec::new(),
        }
    }

    /// The configuration of a row whose lots by symbol were read as `lots`:
    /// unreadable lots count as none, and no count of lots is below one.
    pub fn from_row(row: TradingConfigRow, lots: Option<Vec<(String, i32)>>) -> (c: TradingConfig)
        ensures
            c.is_of(
                row,
                match lots {
                    Some(v) => Some(lots_view(v@)),
                    None => None,
                },
            ),
    {
        let by_symbol: Vec<(String, i32)> = match lots {
            Some(v) => v,
            None => {
                let v: Vec<(String, i32)> = Vec::new();
                assert(lots_view(v@) =~= Seq::empty());
                v
            },
        };
        TradingConfig {
            max_trade_amount_inr: row.max_trade_amount_inr,
            index_lots: if row.index_lots < 1 {
                1
            } else {
                row.index_lots
            },
            other_lots: if row.other_lots < 1 {
                1
            } else {
                row.other_lots
            },
            mode: row.mode,
            brokerage_per_order: row.brokerage_per_order,
            target_1_exit_pct: row.target_1_exit_pct,
            target_2_exit_pct: row.target_2_exit_pct,
            entry_market_protection: row.entry_market_protection,
            dynamic_targeting: row.dynamic_targeting,
            index_lots_by_symbol: by_symbol,
        }
    }

    /// The trading configuration of the row that was found, falling back to
    /// safe defaults when there is none.
    pub fn from_stored(row: Option<TradingConfigRow>) -> (c: TradingConfig)
        ensures
            match row {
                Some(r) => c.is_of(r, json_lots(r.index_lots_by_symbol@)),
                None => c.is_standard(),
            },
    {
        match row {
            Some(r) => {
                let lots: Option<Vec<(String, i32)>> = read_lots(r.index_lots_by_symbol.as_str());
                TradingConfig::from_row(r, lots)
            },
            None => TradingConfig::standard(),
        }
    }
}

/// Every configuration trades at least one lot.
pub proof fn at_least_one_lot(
    c: TradingConfig,
    row: TradingConfigRow,
    lots: Option<Seq<(Seq<char>, i32)>>,
)
    requires
        c.is_of(row, lots) || c.is_standard(),
    ensures
        c.index_lots >= 1,
        c.other_lots >= 1,
{
}

/// The stored positions as JSON: an empty list when there are none.
pub fn positions_json(stored: Option<String>) -> (json: String)
    ensures
        json@ == match stored {
            Some(s) => s@,
            None => "[]"@,
        },
{
    match stored {
        Some(s) => s,
        None => "[]".to_owned(),
    }
}

/// A stored broker session.
#[derive(Debug, Clone)]
pub struct KotakSessionRow {
    pub access_token: String,
    pub auth_token: String,
    pub sid: String,
    pub base_url: String,
    /// When it was stored, beginning with the date.
    pub updated_at: String,
}

/// The stored session, if its time stamp begins with `today`.
pub fn session_stamped(row: Option<KotakSessionRow>, today: &str) -> (r: Option<KotakSessionRow>)
    ensures
        r == match row {
            Some(s) => if stands_at(s.updated_at@, today@, 0) {
                Some(s)
            } else {
                None
            },
            None => None,
        },
{
    match row {
        Some(s) => {
            if starts_with(s.updated_at.as_str(), today) {
                Some(s)
            } else {
                None
            }
        },
        None => None,
    }
}

/// The stored session, if it is from today. A session from another day has
/// expired.
pub fn current_session(row: Option<KotakSessionRow>, today: Date) -> (r: Option<KotakSessionRow>)
    requires
        today.wf(),
    ensures
        r == match row {
            Some(s) => if stands_at(s.updated_at@, date_stamp_text(today@), 0) {
                Some(s)
            } else {
                None
            },
            None => None,
        },
{
    let stamp: String = stamp_date(today);
    session_stamped(row, stamp.as_str())
}

/// What a trade does to the wallet: a purchase takes its net value out, any
/// other action puts it in.
pub open spec fn wallet_change(action: Seq<char>, net_value: int) -> int {
    if same_ignoring_case(action, "BUY"@) {
        -net_value
    } else {
        net_value
    }
}

/// What a trade does to the wallet.
pub fn wallet_delta(action: &str, net_value: Decimal) -> (d: Decimal)
    requires
        net_value@ > i128::MIN,
    ensures
        d@ == wallet_change(action@, net_value@),
{
    if eq_ignore_case(action, "BUY") {
        Decimal { micros: -net_value.micros }
    } else {
        net_value
    }
}

/// Buying and selling at one net value leaves the wallet as it was.
pub proof fn round_trip_is_free(buy: Seq<char>, sell: Seq<char>, net_value: int)
    requires
        same_ignoring_case(buy, "BUY"@),
        !same_ignoring_case(sell, "BUY"@),
    ensures
        wallet_change(buy, net_value) + wallet_change(sell, net_value) == 0,
{
}

/// What the writer does next for one trade.
#[derive(Debug, Clone, Copy, PartialEq, Eq, Structural)]
pub enum TradeStep {
    /// Begin a transaction.
    Begin,
    /// Insert the trade.
    Insert,
    /// Add the wallet delta to the balance.
    UpdateWallet,
    /// Commit the transaction.
    Commit,
    /// Roll the transaction back.
    Rollback,
    /// Nothing: take the next message.
    Done,
}

impl TradeStep {
    /// The step after this one, given whether it succeeded.
    pub open spec fn following(self, ok: bool) -> TradeStep {
        match self {
            TradeStep::Begin => if ok {
                TradeStep::Insert
            } else {
                TradeStep::Done
            },
            TradeStep::Insert => if ok {
                TradeStep::UpdateWallet
            } else {
                TradeStep::Rollback
            },
            TradeStep::UpdateWallet => if ok {
                TradeStep::Commit
            } else {
                TradeStep::Rollback
            },
            TradeStep::Commit => TradeStep::Done,
            TradeStep::Rollback => TradeStep::Done,
            TradeStep::Done => TradeStep::Done,
        }
    }

    /// The step after this one, given whether it succeeded.
    pub fn next(self, ok: bool) -> (step: TradeStep)
        ensures
            step == self.following(ok),
    {
        match self {
            TradeStep::Begin => if ok {
                TradeStep::Insert
            } else {
                TradeStep::Done
            },
            TradeStep::Insert => if ok {
                TradeStep::UpdateWallet
            } else {
                TradeStep::Rollback
            },
            TradeStep::UpdateWallet => if ok {
                TradeStep::Commit
            } else {
                TradeStep::Rollback
            },
            TradeStep::Commit => TradeStep::Done,
            TradeStep::Rollback => TradeStep::Done,
            TradeStep::Done => TradeStep::Done,
        }
    }
}

/// What the database holds of one trade.
pub struct Ledger {
    /// Whether a transaction is open.
    pub open: bool,
    /// Trades inserted, and added to the balance, inside the transaction.
    pub pending: (int, int),
    /// Trades inserted, and added to the balance, for good.
    pub lasting: (int, int),
}

impl Ledger {
    /// Nothing open, nothing written.
    pub open spec fn untouched() -> Ledger {
        Ledger { open: false, pending: (0, 0), lasting: (0, 0) }
    }

    /// What one step does to the database when it succeeds or fails.
    pub open spec fn step(self, step: TradeStep, ok: bool, delta: int) -> Ledger {
        match step {
            TradeStep::Begin => Ledger { open: ok, pending: (0, 0), ..self },
            TradeStep::Insert => if ok {
                Ledger { pending: (self.pending.0 + 1, self.pending.1), ..self }
            } else {
                self
            },
            TradeStep::UpdateWallet => if ok {
                Ledger { pending: (self.pending.0, self.pending.1 + delta), ..self }
            } else {
                self
            },
            TradeStep::Commit => if ok {
                Ledger {
                    open: false,
                    pending: (0, 0),
                    lasting: (
                        self.lasting.0 + self.pending.0,
                        self.lasting.1 + self.pending.1,
                    ),
                }
            } else {
                Ledger { open: false, pending: (0, 0), ..self }
            },
            TradeStep::Rollback => Ledger { open: false, pending: (0, 0), ..self },
            TradeStep::Done => self,
        }
    }
}

/// The database and the next step after some steps with these outcomes.
pub open spec fn after_steps(outcomes: Seq<bool>, delta: int) -> (TradeStep, Ledger)
    decreases outcomes.len(),
{
    if outcomes.len() == 0 {
        (TradeStep::Begin, Ledger::untouched())
    } else {
        let (step, ledger) = after_steps(outcomes.drop_last(), delta);
        (step.following(outcomes.last()), ledger.step(step, outcomes.last(), delta))
    }
}

/// Whatever fails, a trade and its wallet change are written together or not
/// at all, and no step runs outside an open transaction.
pub proof fn trade_is_atomic(outcomes: Seq<bool>, delta: int)
    ensures
        ({
            let (step, ledger) = after_steps(outcomes, delta);
            &&& ledger.lasting == (0int, 0int) || ledger.lasting == (1int, delta)
            &&& step is Done || step is Begin ==> !ledger.open
            &&& step is Insert || step is UpdateWallet || step is Commit || step is Rollback
                ==> ledger.open && ledger.lasting == (0int, 0int)
            &&& step is Insert ==> ledger.pending == (0int, 0int)
            &&& step is UpdateWallet ==> ledger.pending == (1int, 0int)
            &&& step is Commit ==> ledger.pending == (1int, delta)
        }),
    decreases outcomes.len(),
{
    if outcomes.len() > 0 {
        trade_is_atomic(outcomes.drop_last(), delta);
    }
}

/// The writer is done with a trade after four steps. When all four succeed the
/// trade is written, and when any of them fails nothing is.
pub proof fn trade_finishes(outcomes: Seq<bool>, delta: int)
    requires
        outcomes.len() >= 4,
    ensures
        after_steps(outcomes, delta).0 is Done,
        after_steps(outcomes, delta).1.lasting == if outcomes[0] && outcomes[1] && outcomes[2]
            && outcomes[3] {
            (1int, delta)
        } else {
            (0int, 0int)
        },
    decreases outcomes.len(),
{
    if outcomes.len() > 4 {
        trade_finishes(outcomes.drop_last(), delta);
    } else {
        reveal_with_fuel(after_steps, 5);
    }
}

/// A failed migration stops the start exactly when the database does not say that
/// the column is already there; the failure then repeats what it said.
pub proof fn present_columns_are_no_failure(error: &str, failure: Option<String>)
    requires
        call_ensures(migration_failure, (error,), failure),
    ensures
        failure is None <==> exists|before: Seq<char>, after: Seq<char>|
            error@ == #[trigger] (before + "duplicate column name"@ + after),
        failure matches Some(f) ==> f@ == "failed schema migration: "@ + error@,
{
    let text = "duplicate column name"@;
    let n = text.len() as int;
    if failure is None {
        let at = choose|at: int| stands_at(error@, text, at);
        let before = error@.subrange(0, at);
        let after = error@.subrange(at + n, error@.len() as int);
        assert(error@ =~= before + error@.subrange(at, at + n) + after);
        assert(error@ == before + text + after);
    }
    if exists|before: Seq<char>, after: Seq<char>| error@ == #[trigger] (before + text + after) {
        let (before, after) = choose|before: Seq<char>, after: Seq<char>|
            error@ == #[trigger] (before + text + after);
        let at = before.len() as int;
        assert(error@.subrange(at, at + n) =~= text);
        assert(stands_at(error@, text, at));
    }
}

/// A row and the bar that it stores agree in every column; a count of ticks that
/// no bar can hold becomes the nearest that one can.
pub proof fn rows_and_bars_agree(c: Candle, row: CandleRow, stored: CandleRow, bar: Candle)
    requires
        call_ensures(CandleRow::from_candle, (&c,), row),
        call_ensures(CandleRow::to_candle, (&stored,), bar),
    ensures
        row.minute == c.minute && row.open == c.open && row.high == c.high && row.low == c.low
            && row.close == c.close && row.volume == c.volume && row.ticks == c.ticks,
        bar.minute == stored.minute && bar.open == stored.open && bar.high == stored.high
            && bar.low == stored.low && bar.close == stored.close && bar.volume == stored.volume,
        0 <= stored.ticks <= u32::MAX ==> bar.ticks == stored.ticks,
        stored.ticks < 0 ==> bar.ticks == 0,
        stored.ticks > u32::MAX ==> bar.ticks == u32::MAX,
{
}

/// Rows that were read newest first make bars that stand oldest first: the bar at
/// each place is that of the row at the same place from the end.
pub proof fn bars_stand_oldest_first(rows: &Vec<CandleRow>, bars: Vec<Candle>, i: int, bar: Candle)
    requires
        call_ensures(candles_from_rows, (rows,), bars),
        0 <= i < rows@.len(),
        call_ensures(CandleRow::to_candle, (&rows@[rows@.len() - 1 - i],), bar),
    ensures
        bars@.len() == rows@.len(),
        bars@[i] == bar,
{
}

/// Pruning keeps the bars of the last `keep_days` days: the cutoff lies that many
/// times 1440 minutes before the last whole minute.
pub proof fn cutoff_lies_days_back(now_secs: i64, keep_days: i64, minute: i64)
    requires
        call_ensures(prune_cutoff, (now_secs, keep_days), minute),
    ensures
        ({
            let now = minute + 1440 * keep_days;
            &&& now_secs >= 0 ==> 60 * now <= now_secs < 60 * (now + 1)
            &&& now_secs < 0 ==> 60 * (now - 1) < now_secs <= 60 * now
        }),
{
    let secs = now_secs as int;
    let size = if secs < 0 {
        -secs
    } else {
        secs
    };
    assert(crate::decimal::magnitude(60) == 60);
    assert(whole_minutes(secs) == if secs < 0 {
        -(size / 60)
    } else {
        size / 60
    });
}

/// A logged decision holds what was decided under the names of its regime and its
/// stance, with its flags as one or zero.
pub proof fn decisions_are_logged_as_made(
    underlying: &str,
    regime: MarketRegime,
    stance: Stance,
    conviction: Decimal,
    actionable: bool,
    published: bool,
    outcome: &str,
    detail: Option<String>,
    row: DecisionRow,
    regime_name: &'static str,
    stance_name: &'static str,
)
    requires
        call_ensures(
            decision_row,
            (underlying, regime, stance, conviction, actionable, published, outcome, detail),
            row,
        ),
        call_ensures(MarketRegime::as_str, (&regime,), regime_name),
        call_ensures(Stance::as_str, (&stance,), stance_name),
    ensures
        row.underlying@ == underlying@,
        row.regime@ == regime_name@,
        row.stance@ == stance_name@,
        row.conviction == conviction,
        row.actionable == 1 <==> actionable,
        row.actionable == 0 <==> !actionable,
        row.published == 1 <==> published,
        row.published == 0 <==> !published,
        row.outcome@ == outcome@,
        detail matches Some(d) ==> row.detail_json@ == d@,
        detail is None ==> row.detail_json@ == "{}"@,
{
}

/// What is kept, row by row: one more row joins the end exactly when it is to be
/// kept, and no row is ever reordered or altered.
pub proof fn rows_are_kept_in_order(
    rows: &Vec<String>,
    keep: &Vec<bool>,
    out: Vec<String>,
    more_rows: &Vec<String>,
    more_keep: &Vec<bool>,
    more_out: Vec<String>,
    row: String,
    kept_row: bool,
)
    requires
        call_ensures(keep_rows, (rows, keep), out),
        call_ensures(keep_rows, (more_rows, more_keep), more_out),
        keep@.len() == rows@.len(),
        more_rows@ == rows@.push(row),
        more_keep@ == keep@.push(kept_row),
    ensures
        rows@.len() == 0 ==> out@.len() == 0,
        kept_row ==> more_out@.len() == out@.len() + 1 && more_out@[out@.len() as int]@ == row@,
        !kept_row ==> more_out@.len() == out@.len(),
        forall|i: int| 0 <= i < out@.len() ==> (#[trigger] more_out@[i])@ == out@[i]@,
{
    let texts = out@.map_values(|s: String| s@);
    let more = more_out@.map_values(|s: String| s@);
    assert(more_rows@.drop_last() =~= rows@);
    kept_by_flags(rows@, keep@, more_keep@);
    assert(texts.len() == out@.len() && more.len() == more_out@.len());
    assert forall|i: int| 0 <= i < out@.len() implies (#[trigger] more_out@[i])@ == out@[i]@ by {
        assert(more[i] == more_out@[i]@ && texts[i] == out@[i]@);
        assert(more[i] == texts[i]);
    }
    if kept_row {
        assert(more[out@.len() as int] == row@);
    }
}

/// What is kept depends on the flags of the rows alone.
proof fn kept_by_flags(rows: Seq<String>, keep: Seq<bool>, more: Seq<bool>)
    requires
        keep.len() >= rows.len(),
        more.len() >= rows.len(),
        forall|i: int| 0 <= i < rows.len() ==> keep[i] == #[trigger] more[i],
    ensures
        kept(rows, keep) == kept(rows, more),
    decreases rows.len(),
{
    if rows.len() > 0 {
        kept_by_flags(rows.drop_last(), keep, more);
        assert(keep[rows.len() - 1] == more[rows.len() - 1]);
    }
}

/// The readable decisions are the rows whose texts are readable JSON, kept as
/// they are.
pub proof fn readable_rows_are_kept(
    rows: &Vec<String>,
    keep: &Vec<bool>,
    out: Vec<String>,
    kept_out: Vec<String>,
)
    requires
        call_ensures(readable_decisions, (rows,), out),
        call_ensures(keep_rows, (rows, keep), kept_out),
        keep@.len() == rows@.len(),
        forall|i: int| 0 <= i < rows@.len() ==> (#[trigger] keep@[i]) == json_reads(rows@[i]@),
    ensures
        out@.len() == kept_out@.len(),
        forall|i: int| 0 <= i < out@.len() ==> (#[trigger] out@[i])@ == kept_out@[i]@,
{
    let flags = rows@.map_values(|s: String| json_reads(s@));
    assert(keep@ =~= flags);
    let texts = out@.map_values(|s: String| s@);
    let others = kept_out@.map_values(|s: String| s@);
    assert(texts.len() == out@.len() && others.len() == kept_out@.len());
    assert forall|i: int| 0 <= i < out@.len() implies (#[trigger] out@[i])@
        == kept_out@[i]@ by {
        assert(texts[i] == out@[i]@ && others[i] == kept_out@[i]@);
    }
}

/// The configuration in force is the stored one exactly when that was parsed and
/// found valid; in every other case it is a disabled one, and always the same.
pub proof fn unsound_configurations_are_disabled(
    stored: StoredConfig,
    cfg: StrategyConfig,
    default: StrategyConfig,
)
    requires
        call_ensures(config_in_force, (&stored,), cfg),
        call_ensures(<StrategyConfig as Default>::default, (), default),
    ensures
        stored matches StoredConfig::Parsed { config, validation } && validation is Ok ==> cfg
            == stored->config,
        !(stored matches StoredConfig::Parsed { config, validation } && validation is Ok) ==> cfg
            == default,
        !default.enabled,
{
}

/// A configuration that fails validation is not saved, and one that passes is
/// saved as it was written.
pub proof fn invalid_configurations_are_not_saved(
    validation: Result<(), String>,
    json: Result<String, String>,
    r: Result<String, String>,
)
    requires
        call_ensures(config_to_save, (validation, json), r),
    ensures
        validation is Err ==> r is Err && r->Err_0 == validation->Err_0,
        validation is Ok ==> r == json,
{
}

/// A trading configuration holds the columns of its row; no count of lots is
/// below one, a count of at least one is kept, and unreadable lots by symbol are
/// none.
pub proof fn trading_configuration_of_a_row(
    row: TradingConfigRow,
    lots: Option<Vec<(String, i32)>>,
    c: TradingConfig,
)
    requires
        call_ensures(TradingConfig::from_row, (row, lots), c),
    ensures
        c.max_trade_amount_inr == row.max_trade_amount_inr,
        c.index_lots >= 1 && c.index_lots >= row.index_lots,
        c.index_lots == 1 || c.index_lots == row.index_lots,
        c.other_lots >= 1 && c.other_lots >= row.other_lots,
        c.other_lots == 1 || c.other_lots == row.other_lots,
        c.mode@ == row.mode@,
        c.brokerage_per_order == row.brokerage_per_order,
        c.target_1_exit_pct == row.target_1_exit_pct,
        c.target_2_exit_pct == row.target_2_exit_pct,
        c.entry_market_protection == row.entry_market_protection,
        c.dynamic_targeting == row.dynamic_targeting,
        lots is None ==> c.index_lots_by_symbol@.len() == 0,
        lots matches Some(v) ==> c.index_lots_by_symbol@.len() == v@.len() && forall|i: int|
            0 <= i < v@.len() ==> (#[trigger] c.index_lots_by_symbol@[i]).0@ == v@[i].0@
                && c.index_lots_by_symbol@[i].1 == v@[i].1,
{
    let mine = lots_view(c.index_lots_by_symbol@);
    assert(mine.len() == c.index_lots_by_symbol@.len());
    if lots is Some {
        let v = lots->0;
        let theirs = lots_view(v@);
        assert(theirs.len() == v@.len());
        assert forall|i: int| 0 <= i < v@.len() implies (
        #[trigger] c.index_lots_by_symbol@[i]).0@ == v@[i].0@ && c.index_lots_by_symbol@[i].1
            == v@[i].1 by {
            assert(mine[i] == (c.index_lots_by_symbol@[i].0@, c.index_lots_by_symbol@[i].1));
            assert(theirs[i] == (v@[i].0@, v@[i].1));
        }
    }
}

/// What is stored is what its row says, with the lots by symbol that are read
/// from the row's text; without a row the account trades on paper, one lot at a
/// time, with ten thousand rupees a trade.
pub proof fn stored_trading_configuration(row: Option<TradingConfigRow>, c: TradingConfig)
    requires
        call_ensures(TradingConfig::from_stored, (row,), c),
    ensures
        row matches Some(r) ==> {
            &&& c.max_trade_amount_inr == r.max_trade_amount_inr
            &&& c.index_lots >= 1 && c.index_lots >= r.index_lots
            &&& c.index_lots == 1 || c.index_lots == r.index_lots
            &&& c.other_lots >= 1 && c.other_lots >= r.other_lots
            &&& c.other_lots == 1 || c.other_lots == r.other_lots
            &&& c.mode@ == r.mode@
            &&& c.brokerage_per_order == r.brokerage_per_order
            &&& c.target_1_exit_pct == r.target_1_exit_pct
            &&& c.target_2_exit_pct == r.target_2_exit_pct
            &&& c.entry_market_protection == r.entry_market_protection
            &&& c.dynamic_targeting == r.dynamic_targeting
            &&& json_lots(r.index_lots_by_symbol@) is None ==> c.index_lots_by_symbol@.len() == 0
            &&& json_lots(r.index_lots_by_symbol@) matches Some(l) ==> c.index_lots_by_symbol@.len()
                == l.len() && forall|i: int|
                0 <= i < l.len() ==> (#[trigger] c.index_lots_by_symbol@[i]).0@ == l[i].0
                    && c.index_lots_by_symbol@[i].1 == l[i].1
        },
        row is None ==> {
            &&& c.max_trade_amount_inr@ == 10_000_000_000
            &&& c.index_lots == 1 && c.other_lots == 1
            &&& c.mode@ == "PAPER"@
            &&& c.brokerage_per_order@ == 20_000_000
            &&& c.target_1_exit_pct@ == 50_000_000
            &&& c.target_2_exit_pct@ == 100_000_000
            &&& c.entry_market_protection@ == 5_000_000
            &&& !c.dynamic_targeting
            &&& c.index_lots_by_symbol@.len() == 0
        },
{
    let mine = lots_view(c.index_lots_by_symbol@);
    assert(mine.len() == c.index_lots_by_symbol@.len());
    if let Some(r) = row {
        if let Some(l) = json_lots(r.index_lots_by_symbol@) {
            assert forall|i: int| 0 <= i < l.len() implies (
            #[trigger] c.index_lots_by_symbol@[i]).0@ == l[i].0 && c.index_lots_by_symbol@[i].1
                == l[i].1 by {
                assert(mine[i] == (c.index_lots_by_symbol@[i].0@, c.index_lots_by_symbol@[i].1));
            }
        }
    }
}

/// Stored positions are handed on as they are; without any the list is empty.
pub proof fn positions_are_handed_on(stored: Option<String>, json: String)
    requires
        call_ensures(positions_json, (stored,), json),
    ensures
        stored matches Some(s) ==> json@ == s@,
        stored is None ==> json@ == "[]"@,
{
}

/// A stored session is handed on, unchanged, exactly when its stamp begins with
/// the date of the day.
pub proof fn sessions_of_today_are_current(
    row: Option<KotakSessionRow>,
    stamp: &str,
    today: Date,
    r: Option<KotakSessionRow>,
    q: Option<KotakSessionRow>,
)
    requires
        call_ensures(session_stamped, (row, stamp), r),
        call_ensures(current_session, (row, today), q),
    ensures
        r is Some <==> row is Some && exists|after: Seq<char>|
            row->0.updated_at@ == #[trigger] (stamp@ + after),
        r is Some ==> r == row,
        q is Some <==> row is Some && exists|after: Seq<char>|
            row->0.updated_at@ == #[trigger] (date_stamp_text(today.day as int) + after),
        q is Some ==> q == row,
{
    if let Some(s) = row {
        begins_with(s.updated_at@, stamp@);
        begins_with(s.updated_at@, date_stamp_text(today.day as int));
    }
}

/// A text stands at the start of another exactly when the other is it and
/// something more.
proof fn begins_with(text: Seq<char>, start: Seq<char>)
    ensures
        stands_at(text, start, 0) <==> exists|after: Seq<char>|
            text == #[trigger] (start + after),
{
    let n = start.len() as int;
    if stands_at(text, start, 0) {
        let after = text.subrange(n, text.len() as int);
        assert(text =~= text.subrange(0, n) + after);
        assert(text == start + after);
    }
    if exists|after: Seq<char>| text == #[trigger] (start + after) {
        let after = choose|after: Seq<char>| text == #[trigger] (start + after);
        assert(text.subrange(0, n) =~= start);
    }
}

/// A purchase, however it is spelled, takes its net value out of the wallet, and
/// anything else puts it in.
pub proof fn purchases_are_paid(action: &str, net_value: Decimal, d: Decimal)
    requires
        call_ensures(wallet_delta, (action, net_value), d),
    ensures
        ({
            let buys = {
                &&& action@.len() == 3
                &&& action@[0] == 'B' || action@[0] == 'b'
                &&& action@[1] == 'U' || action@[1] == 'u'
                &&& action@[2] == 'Y' || action@[2] == 'y'
            };
            &&& buys ==> d@ == -net_value@
            &&& !buys ==> d@ == net_value@
        }),
{
    reveal_strlit("BUY");
    let buy = "BUY"@;
    assert(buy.len() == 3 && buy[0] == 'B' && buy[1] == 'U' && buy[2] == 'Y');
    if action@.len() == 3 {
        alike_in_lower_case(action@[0], buy[0]);
        alike_in_lower_case(action@[1], buy[1]);
        alike_in_lower_case(action@[2], buy[2]);
        if same_ignoring_case(action@, buy) {
            assert(lower(action@[0]) == lower(buy[0]));
            assert(lower(action@[1]) == lower(buy[1]));
            assert(lower(action@[2]) == lower(buy[2]));
        }
    }
}

/// A trade that goes well is begun, inserted, added to the wallet and committed.
/// A failure before anything was begun or at the end leaves nothing to undo; a
/// failure in between is rolled back.
pub proof fn trades_run_in_order(step: TradeStep, ok: bool, next: TradeStep)
    requires
        call_ensures(TradeStep::next, (step, ok), next),
    ensures
        step is Begin && ok ==> next is Insert,
        step is Insert && ok ==> next is UpdateWallet,
        step is UpdateWallet && ok ==> next is Commit,
        step is Begin && !ok ==> next is Done,
        (step is Insert || step is UpdateWallet) && !ok ==> next is Rollback,
        step is Commit || step is Rollback || step is Done ==> next is Done,
{
}

} // verus!
