//! Risk manager: position sizing, circuit breakers and veto authority.
//!
//! This agent runs last and its refusal is final.
//!
//! # Shared budget
//!
//! Position limits count positions from every source, not just this engine's:
//! limits that only counted some would let two sources stack exposure on the
//! same index while each believed it was within budget.
//!
//! # Circuit breakers
//!
//! Each is independent and any one halts new entries: a halt, the time-of-day
//! cutoff, the realised loss, a run of losing trades, the number of entries,
//! and an open position on the same underlying.

use crate::decimal::Decimal;
use crate::strategy::config::{has_reached, reached, StrategyConfig};
use crate::text::{
    amount0_text, amount2_text, eq_ignore_case, int_text, nat_text, same, same_ignoring_case,
    two_digit_text,
};
use crate::text::{alike, alike_in_lower_case, lower};
use crate::text::{push_amount0, push_amount2, push_count, push_int, push_two_digits};
use vstd::arithmetic::div_mod::*;
use vstd::prelude::*;
use vstd::string::*;

verus! {

/// Where a position is in its life.
#[derive(Debug, Clone, Copy, PartialEq, Eq, Structural)]
pub enum TradeState {
    /// Any state before the position is closed.
    Active,
    /// Nothing is held any more.
    Closed,
}

/// A position of the account, from whatever source.
#[derive(Debug, Clone)]
pub struct MonitoredPosition {
    /// Underlying of the signal that opened it.
    pub instrument_name: String,
    pub state: TradeState,
}

pub struct RiskManager;

/// Mutable risk state, carried across the session.
#[derive(Debug, Clone)]
pub struct RiskState {
    /// Realised P&L from algo trades today (negative is a loss).
    pub realised_pnl: Decimal,
    /// Algo entries taken today.
    pub entries_today: usize,
    /// Consecutive losing algo trades.
    pub consecutive_losses: usize,
    /// Why the session is halted, if it is.
    pub halted_reason: Option<String>,
    /// The session date this state belongs to, as `YYYY-MM-DD`.
    pub session_date: String,
}

impl RiskState {
    /// The state at the start of a session.
    pub open spec fn fresh(self, date: Seq<char>) -> bool {
        &&& self.realised_pnl@ == 0
        &&& self.entries_today == 0
        &&& self.consecutive_losses == 0
        &&& self.halted_reason is None
        &&& self.session_date@ == date
    }

    /// Reset the state when the session date rolls over.
    ///
    /// Without this, a process left running across midnight would carry
    /// yesterday's losses and halt into a fresh session.
    pub fn roll_session(&mut self, today: &str)
        ensures
            old(self).session_date@ == today@ ==> *final(self) == *old(self),
            old(self).session_date@ != today@ ==> final(self).fresh(today@),
    {
        if !same(self.session_date.as_str(), today) {
            *self = RiskState {
                realised_pnl: Decimal { micros: 0 },
                entries_today: 0,
                consecutive_losses: 0,
                halted_reason: None,
                session_date: today.to_owned(),
            };
        }
    }

    /// Record a closed algo trade's realised P&L.
    pub fn record_close(&mut self, pnl: Decimal)
        requires
            i128::MIN <= old(self).realised_pnl@ + pnl@ <= i128::MAX,
            pnl@ < 0 ==> old(self).consecutive_losses < usize::MAX,
        ensures
            final(self).realised_pnl@ == old(self).realised_pnl@ + pnl@,
            final(self).consecutive_losses == if pnl@ < 0 {
                old(self).consecutive_losses + 1
            } else {
                0
            },
            final(self).entries_today == old(self).entries_today,
            final(self).halted_reason == old(self).halted_reason,
            final(self).session_date == old(self).session_date,
    {
        self.realised_pnl = Decimal { micros: self.realised_pnl.micros + pnl.micros };
        if pnl.micros < 0 {
            self.consecutive_losses = self.consecutive_losses + 1;
        } else {
            self.consecutive_losses = 0;
        }
    }

    /// Stop taking new entries for the session: the manual kill switch.
    pub fn halt_manually(&mut self)
        ensures
            final(self).halted_reason matches Some(why) && why@
                == "halted manually from the dashboard"@,
            final(self).realised_pnl == old(self).realised_pnl,
            final(self).entries_today == old(self).entries_today,
            final(self).consecutive_losses == old(self).consecutive_losses,
            final(self).session_date == old(self).session_date,
    {
        self.halted_reason = Some("halted manually from the dashboard".to_owned());
    }

    /// Clear a halt, and nothing else: the loss counters stay as they are, so
    /// resuming cannot reset a breaker that tripped on real losses.
    pub fn resume(&mut self)
        ensures
            final(self).halted_reason is None,
            final(self).realised_pnl == old(self).realised_pnl,
            final(self).entries_today == old(self).entries_today,
            final(self).consecutive_losses == old(self).consecutive_losses,
            final(self).session_date == old(self).session_date,
    {
        self.halted_reason = None;
    }
}

impl Default for RiskState {
    fn default() -> (s: RiskState)
        ensures
            s.fresh(Seq::empty()),
    {
        RiskState {
            realised_pnl: Decimal { micros: 0 },
            entries_today: 0,
            consecutive_losses: 0,
            halted_reason: None,
            session_date: String::new(),
        }
    }
}

/// What the risk manager decided.
#[derive(Debug, Clone)]
pub enum RiskDecision {
    /// Cleared to trade this many lots.
    Approved { lots: i32, rationale: String },
    /// Refused, with the reason to surface on the dashboard.
    Rejected { reason: String },
}

/// What a decision says.
pub enum DecisionView {
    Approved { lots: int, rationale: Seq<char> },
    Rejected { reason: Seq<char> },
}

impl View for RiskDecision {
    type V = DecisionView;

    open spec fn view(&self) -> DecisionView {
        match self {
            RiskDecision::Approved { lots, rationale } => DecisionView::Approved {
                lots: *lots as int,
                rationale: rationale@,
            },
            RiskDecision::Rejected { reason } => DecisionView::Rejected { reason: reason@ },
        }
    }
}

impl RiskDecision {
    pub fn is_approved(&self) -> (r: bool)
        ensures
            r == (self@ is Approved),
    {
        match self {
            RiskDecision::Approved { .. } => true,
            RiskDecision::Rejected { .. } => false,
        }
    }

    pub fn reason(&self) -> (s: &str)
        ensures
            s@ == match self@ {
                DecisionView::Approved { rationale, .. } => rationale,
                DecisionView::Rejected { reason } => reason,
            },
    {
        match self {
            RiskDecision::Approved { rationale, .. } => rationale.as_str(),
            RiskDecision::Rejected { reason } => reason.as_str(),
        }
    }
}

/// A proposed entry, and everything that decides on it.
pub struct Proposal {
    pub underlying: Seq<char>,
    /// Price of the option per unit, in millionths.
    pub premium: int,
    /// Units in one lot.
    pub lot_size: int,
    pub open_positions: Seq<MonitoredPosition>,
    pub state: RiskState,
    pub cfg: StrategyConfig,
    /// Cap on one trade, in millionths.
    pub cap: int,
    pub now_hm: (u32, u32),
}

/// Whether a position still counts.
pub open spec fn is_live(p: MonitoredPosition) -> bool {
    !(p.state is Closed)
}

/// How many positions still count.
pub open spec fn live_count(positions: Seq<MonitoredPosition>) -> nat
    decreases positions.len(),
{
    if positions.len() == 0 {
        0
    } else {
        live_count(positions.drop_last()) + if is_live(positions.last()) {
            1nat
        } else {
            0nat
        }
    }
}

/// Whether a position still held is on `underlying`.
pub open spec fn holds(positions: Seq<MonitoredPosition>, underlying: Seq<char>) -> bool {
    exists|i: int|
        0 <= i < positions.len() && is_live(#[trigger] positions[i]) && same_ignoring_case(
            positions[i].instrument_name@,
            underlying,
        )
}

impl Proposal {
    /// What one lot costs.
    pub open spec fn lot_cost(self) -> int {
        self.premium * self.lot_size
    }

    /// The lots that the cap covers.
    pub open spec fn lots(self) -> int {
        let n = self.cap / self.lot_cost();
        if n > i32::MAX {
            i32::MAX as int
        } else {
            n
        }
    }

    /// The refusal of the circuit breakers, the cheapest first.
    pub open spec fn breaker(self) -> Option<Seq<char>> {
        let cfg = self.cfg;
        let state = self.state;
        if state.halted_reason is Some {
            Some("engine halted for the session: "@ + state.halted_reason->0@)
        } else if reached(self.now_hm, cfg.no_entry_hour, cfg.no_entry_minute) {
            Some(
                "past the "@ + two_digit_text(cfg.no_entry_hour as int) + ":"@ + two_digit_text(
                    cfg.no_entry_minute as int,
                ) + " IST entry cutoff"@,
            )
        } else if state.realised_pnl@ <= -cfg.max_daily_loss_inr@ {
            Some(
                "daily loss limit reached (realised ₹"@ + amount0_text(state.realised_pnl@)
                    + " against a ₹"@ + amount0_text(cfg.max_daily_loss_inr@) + " cap)"@,
            )
        } else if state.consecutive_losses >= cfg.max_consecutive_losses {
            Some(
                nat_text(state.consecutive_losses as int)
                    + " consecutive losses — standing down for the session"@,
            )
        } else if state.entries_today >= cfg.max_algo_entries_per_day {
            Some(
                "already took "@ + nat_text(state.entries_today as int) + " of "@ + nat_text(
                    cfg.max_algo_entries_per_day as int,
                ) + " permitted entries today"@,
            )
        } else {
            None
        }
    }

    /// The refusal of the exposure limits, counting every source.
    pub open spec fn exposure(self) -> Option<Seq<char>> {
        let live = live_count(self.open_positions);
        if live >= self.cfg.max_open_positions {
            Some(
                nat_text(live as int) + " positions already open across all sources (limit "@
                    + nat_text(self.cfg.max_open_positions as int) + ")"@,
            )
        } else if self.cfg.one_position_per_underlying && holds(
            self.open_positions,
            self.underlying,
        ) {
            Some("already holding a "@ + self.underlying + " position"@)
        } else {
            None
        }
    }

    /// The refusal of the sizing.
    pub open spec fn sizing(self) -> Option<Seq<char>> {
        if self.premium <= 0 || self.lot_size <= 0 {
            Some("cannot size a position without a valid premium and lot size"@)
        } else if self.lot_cost() > self.cap {
            Some(
                "one lot costs ₹"@ + amount0_text(self.lot_cost()) + ", above the ₹"@
                    + amount0_text(self.cap) + " per-trade cap"@,
            )
        } else {
            None
        }
    }

    /// What is said of an approval.
    pub open spec fn approval(self) -> Seq<char> {
        int_text(self.lots()) + " lot(s) × "@ + int_text(self.lot_size) + " × ₹"@ + amount2_text(
            self.premium,
        ) + " = ₹"@ + amount0_text(self.lots() * self.lot_cost()) + ", within the ₹"@
            + amount0_text(self.cap) + " cap; "@ + nat_text(live_count(self.open_positions) as int)
            + " of "@ + nat_text(self.cfg.max_open_positions as int) + " positions open, "@
            + nat_text(self.state.entries_today as int) + " of "@ + nat_text(
            self.cfg.max_algo_entries_per_day as int,
        ) + " entries used"@
    }

    /// The decision: the first refusal, or an approval.
    pub open spec fn decision(self) -> DecisionView {
        if self.breaker() is Some {
            DecisionView::Rejected { reason: self.breaker()->0 }
        } else if self.exposure() is Some {
            DecisionView::Rejected { reason: self.exposure()->0 }
        } else if self.sizing() is Some {
            DecisionView::Rejected { reason: self.sizing()->0 }
        } else {
            DecisionView::Approved { lots: self.lots(), rationale: self.approval() }
        }
    }
}

/// Counts the positions that are still held.
fn count_live(positions: &[MonitoredPosition]) -> (n: usize)
    ensures
        n == live_count(positions@),
{
    let mut n: usize = 0;
    let mut i: usize = 0;
    while i < positions.len()
        invariant
            i <= positions@.len(),
            n <= i,
            n == live_count(positions@.take(i as int)),
        decreases positions@.len() - i,
    {
        assert(positions@.take(i + 1).drop_last() =~= positions@.take(i as int));
        if positions[i].state != TradeState::Closed {
            n += 1;
        }
        i += 1;
    }
    assert(positions@.take(i as int) =~= positions@);
    n
}

/// Whether a position still held is on `underlying`.
fn is_holding(positions: &[MonitoredPosition], underlying: &str) -> (r: bool)
    ensures
        r == holds(positions@, underlying@),
{
    let mut i: usize = 0;
    while i < positions.len()
        invariant
            i <= positions@.len(),
            forall|k: int|
                0 <= k < i ==> !(is_live(#[trigger] positions@[k]) && same_ignoring_case(
                    positions@[k].instrument_name@,
                    underlying@,
                )),
        decreases positions@.len() - i,
    {
        if positions[i].state != TradeState::Closed && eq_ignore_case(
            positions[i].instrument_name.as_str(),
            underlying,
        ) {
            assert(is_live(positions@[i as int]));
            return true;
        }
        i += 1;
    }
    false
}

impl RiskManager {
    /// Evaluate a proposed entry.
    ///
    /// `open_positions` must hold the positions of all sources. `premium` is
    /// the option's current price per unit, `lot_size` the contract multiplier.
    pub fn evaluate(
        underlying: &str,
        premium: Decimal,
        lot_size: i32,
        open_positions: &[MonitoredPosition],
        state: &RiskState,
        cfg: &StrategyConfig,
        max_trade_amount_inr: Decimal,
        now_hm: (u32, u32),
    ) -> (d: RiskDecision)
        requires
            premium@ > 0 && lot_size > 0 ==> premium@ * lot_size <= i128::MAX,
        ensures
            d@ == (Proposal {
                underlying: underlying@,
                premium: premium@,
                lot_size: lot_size as int,
                open_positions: open_positions@,
                state: *state,
                cfg: *cfg,
                cap: max_trade_amount_inr@,
                now_hm,
            }).decision(),
    {
        // Circuit breakers, cheapest and most decisive first.
        if let Some(why) = &state.halted_reason {
            let mut reason: String = "engine halted for the session: ".to_owned();
            reason.append(why.as_str());
            return RiskDecision::Rejected { reason };
        }
        if has_reached(now_hm, cfg.no_entry_hour, cfg.no_entry_minute) {
            let mut reason: String = "past the ".to_owned();
            push_two_digits(&mut reason, cfg.no_entry_hour as u128);
            reason.append(":");
            push_two_digits(&mut reason, cfg.no_entry_minute as u128);
            reason.append(" IST entry cutoff");
            return RiskDecision::Rejected { reason };
        }
        let loss_cap: i128 = cfg.max_daily_loss_inr.micros;
        if loss_cap == i128::MIN || state.realised_pnl.micros <= -loss_cap {
            let mut reason: String = "daily loss limit reached (realised ₹".to_owned();
            push_amount0(&mut reason, state.realised_pnl);
            reason.append(" against a ₹");
            push_amount0(&mut reason, cfg.max_daily_loss_inr);
            reason.append(" cap)");
            return RiskDecision::Rejected { reason };
        }
        if state.consecutive_losses >= cfg.max_consecutive_losses {
            let mut reason: String = String::new();
            push_count(&mut reason, state.consecutive_losses);
            assert(reason@ =~= nat_text(state.consecutive_losses as int));
            reason.append(" consecutive losses — standing down for the session");
            return RiskDecision::Rejected { reason };
        }
        if state.entries_today >= cfg.max_algo_entries_per_day {
            let mut reason: String = "already took ".to_owned();
            push_count(&mut reason, state.entries_today);
            reason.append(" of ");
            push_count(&mut reason, cfg.max_algo_entries_per_day);
            reason.append(" permitted entries today");
            return RiskDecision::Rejected { reason };
        }

        // Exposure limits, counting every source.
        let live: usize = count_live(open_positions);
        if live >= cfg.max_open_positions {
            let mut reason: String = String::new();
            push_count(&mut reason, live);
            assert(reason@ =~= nat_text(live as int));
            reason.append(" positions already open across all sources (limit ");
            push_count(&mut reason, cfg.max_open_positions);
            reason.append(")");
            return RiskDecision::Rejected { reason };
        }
        if cfg.one_position_per_underlying && is_holding(open_positions, underlying) {
            let mut reason: String = "already holding a ".to_owned();
            reason.append(underlying);
            reason.append(" position");
            return RiskDecision::Rejected { reason };
        }

        // Sizing.
        if premium.micros <= 0 || lot_size <= 0 {
            return RiskDecision::Rejected {
                reason: "cannot size a position without a valid premium and lot size".to_owned(),
            };
        }
        assert(premium@ * lot_size > 0) by (nonlinear_arith)
            requires
                premium@ > 0,
                lot_size > 0,
        ;
        let lot_cost: i128 = premium.micros * lot_size as i128;
        let cap: i128 = max_trade_amount_inr.micros;
        if lot_cost > cap {
            let mut reason: String = "one lot costs ₹".to_owned();
            push_amount0(&mut reason, Decimal { micros: lot_cost });
            reason.append(", above the ₹");
            push_amount0(&mut reason, max_trade_amount_inr);
            reason.append(" per-trade cap");
            return RiskDecision::Rejected { reason };
        }
        let covered: i128 = cap / lot_cost;
        let lots: i32 = if covered > i32::MAX as i128 {
            i32::MAX
        } else {
            proof {
                lemma_div_pos_is_pos(cap as int, lot_cost as int);
            }
            covered as i32
        };
        proof {
            lemma_fundamental_div_mod(cap as int, lot_cost as int);
            lemma_mod_bound(cap as int, lot_cost as int);
            lemma_div_pos_is_pos(cap as int, lot_cost as int);
            assert(0 <= lots * lot_cost <= cap) by (nonlinear_arith)
                requires
                    0 <= lots <= covered,
                    lot_cost > 0,
                    lot_cost * covered <= cap,
            ;
        }
        let spent: i128 = lots as i128 * lot_cost;
        let mut rationale: String = String::new();
        push_int(&mut rationale, lots as i128);
        assert(rationale@ =~= int_text(lots as int));
        rationale.append(" lot(s) × ");
        push_int(&mut rationale, lot_size as i128);
        rationale.append(" × ₹");
        push_amount2(&mut rationale, premium);
        rationale.append(" = ₹");
        push_amount0(&mut rationale, Decimal { micros: spent });
        rationale.append(", within the ₹");
        push_amount0(&mut rationale, max_trade_amount_inr);
        rationale.append(" cap; ");
        push_count(&mut rationale, live);
        rationale.append(" of ");
        push_count(&mut rationale, cfg.max_open_positions);
        rationale.append(" positions open, ");
        push_count(&mut rationale, state.entries_today);
        rationale.append(" of ");
        push_count(&mut rationale, cfg.max_algo_entries_per_day);
        rationale.append(" entries used");
        RiskDecision::Approved { lots, rationale }
    }
}

/// An approval is for at least one lot, never costs more than the cap, and one
/// lot more would, unless the count of lots has run out.
pub proof fn approval_fits_the_cap(p: Proposal)
    requires
        p.decision() is Approved,
    ensures
        p.decision()->lots >= 1,
        p.decision()->lots * p.lot_cost() <= p.cap,
        p.decision()->lots == i32::MAX || (p.decision()->lots + 1) * p.lot_cost() > p.cap,
{
    let cost = p.lot_cost();
    assert(cost > 0) by (nonlinear_arith)
        requires
            cost == p.premium * p.lot_size,
            p.premium > 0,
            p.lot_size > 0,
    ;
    let n = p.cap / cost;
    lemma_fundamental_div_mod(p.cap, cost);
    lemma_mod_bound(p.cap, cost);
    assert(n >= 1) by (nonlinear_arith)
        requires
            cost <= p.cap,
            p.cap == cost * n + p.cap % cost,
            p.cap % cost < cost,
            cost > 0,
    ;
    let lots = p.lots();
    assert(lots * cost <= p.cap) by (nonlinear_arith)
        requires
            0 <= lots <= n,
            cost > 0,
            cost * n <= p.cap,
    ;
    assert((n + 1) * cost > p.cap) by (nonlinear_arith)
        requires
            p.cap == cost * n + p.cap % cost,
            p.cap % cost < cost,
    ;
}

/// An entry is approved exactly when no breaker has tripped, the exposure
/// limits have room, and one lot is affordable.
pub proof fn approval_conditions(p: Proposal)
    ensures
        p.decision() is Approved <==> {
            &&& p.state.halted_reason is None
            &&& !reached(p.now_hm, p.cfg.no_entry_hour, p.cfg.no_entry_minute)
            &&& p.state.realised_pnl@ > -p.cfg.max_daily_loss_inr@
            &&& p.state.consecutive_losses < p.cfg.max_consecutive_losses
            &&& p.state.entries_today < p.cfg.max_algo_entries_per_day
            &&& live_count(p.open_positions) < p.cfg.max_open_positions
            &&& p.cfg.one_position_per_underlying ==> !holds(p.open_positions, p.underlying)
            &&& p.premium > 0
            &&& p.lot_size > 0
            &&& p.lot_cost() <= p.cap
        },
{
}

/// A halt refuses every entry, whatever else holds.
pub proof fn halt_overrides_everything(p: Proposal)
    requires
        p.state.halted_reason is Some,
    ensures
        p.decision() == (DecisionView::Rejected {
            reason: "engine halted for the session: "@ + p.state.halted_reason->0@,
        }),
{
}

/// Resuming clears no breaker that tripped on losses or entries: what it
/// refused before for them, it refuses after a halt was cleared.
pub proof fn resume_keeps_tripped_breakers(p: Proposal, resumed: RiskState)
    requires
        resumed.halted_reason is None,
        resumed.realised_pnl == p.state.realised_pnl,
        resumed.entries_today == p.state.entries_today,
        resumed.consecutive_losses == p.state.consecutive_losses,
        resumed.session_date == p.state.session_date,
        p.state.realised_pnl@ <= -p.cfg.max_daily_loss_inr@ || p.state.consecutive_losses
            >= p.cfg.max_consecutive_losses || p.state.entries_today
            >= p.cfg.max_algo_entries_per_day,
    ensures
        (Proposal { state: resumed, ..p }).decision() is Rejected,
{
}

/// Dropping the closed positions keeps every one that still counts.
proof fn live_positions_stay(positions: Seq<MonitoredPosition>, underlying: Seq<char>)
    ensures
        ({
            let live = positions.filter(|q: MonitoredPosition| is_live(q));
            &&& live_count(live) == live_count(positions)
            &&& holds(live, underlying) == holds(positions, underlying)
        }),
    decreases positions.len(),
{
    reveal(Seq::filter);
    let counts = |q: MonitoredPosition| is_live(q);
    let live = positions.filter(counts);
    if positions.len() > 0 {
        let rest = positions.drop_last();
        let last = positions.last();
        let before = rest.filter(counts);
        live_positions_stay(rest, underlying);
        if is_live(last) {
            assert(live == before.push(last));
            assert(live.drop_last() =~= before);
            holds_pushed(before, last, underlying);
        }
        assert(rest.push(last) =~= positions);
        holds_pushed(rest, last, underlying);
    }
}

/// One more position is held if it still counts and is on the underlying.
proof fn holds_pushed(
    positions: Seq<MonitoredPosition>,
    last: MonitoredPosition,
    underlying: Seq<char>,
)
    ensures
        holds(positions.push(last), underlying) == (holds(positions, underlying) || (is_live(last)
            && same_ignoring_case(last.instrument_name@, underlying))),
{
    let more = positions.push(last);
    assert(more[positions.len() as int] == last);
    if holds(positions, underlying) {
        let i = choose|i: int|
            0 <= i < positions.len() && is_live(#[trigger] positions[i]) && same_ignoring_case(
                positions[i].instrument_name@,
                underlying,
            );
        assert(is_live(more[i]));
    }
    if holds(more, underlying) {
        let i = choose|i: int|
            0 <= i < more.len() && is_live(#[trigger] more[i]) && same_ignoring_case(
                more[i].instrument_name@,
                underlying,
            );
        if i < positions.len() {
            assert(more[i] == positions[i]);
        }
    }
}

/// Closed positions use up no budget and clash with nothing, wherever they
/// stand: removing them all changes no decision.
pub proof fn closed_positions_are_free(p: Proposal)
    ensures
        (Proposal {
            open_positions: p.open_positions.filter(|q: MonitoredPosition| is_live(q)),
            ..p
        }).decision() == p.decision(),
{
    live_positions_stay(p.open_positions, p.underlying);
}

/// Every live position counts toward the budget, wherever it came from: at the
/// limit nothing is approved.
pub proof fn full_budget_refuses(p: Proposal)
    requires
        live_count(p.open_positions) >= p.cfg.max_open_positions,
    ensures
        p.decision() is Rejected,
{
}

/// The casing of the underlying decides nothing.
pub proof fn casing_decides_nothing(p: Proposal, other: Seq<char>)
    requires
        same_ignoring_case(p.underlying, other),
    ensures
        (Proposal { underlying: other, ..p }).decision() is Approved <==> p.decision() is Approved,
{
    let q = Proposal { underlying: other, ..p };
    let s = p.open_positions;
    if holds(s, p.underlying) {
        let i = choose|i: int|
            0 <= i < s.len() && is_live(#[trigger] s[i]) && same_ignoring_case(
                s[i].instrument_name@,
                p.underlying,
            );
        let name = s[i].instrument_name@;
        assert forall|k: int| 0 <= k < name.len() implies crate::text::lower(#[trigger] name[k])
            == crate::text::lower(other[k]) by {
            assert(crate::text::lower(p.underlying[k]) == crate::text::lower(other[k]));
        }
        assert(holds(s, other));
    }
    if holds(s, other) {
        let i = choose|i: int|
            0 <= i < s.len() && is_live(#[trigger] s[i]) && same_ignoring_case(
                s[i].instrument_name@,
                other,
            );
        let name = s[i].instrument_name@;
        assert forall|k: int| 0 <= k < name.len() implies crate::text::lower(#[trigger] name[k])
            == crate::text::lower(p.underlying[k]) by {
            assert(crate::text::lower(p.underlying[k]) == crate::text::lower(other[k]));
        }
        assert(holds(s, p.underlying));
    }
    approval_conditions(p);
    approval_conditions(q);
}

/// Whether an underlying is among those still held, but for the case of its
/// letters.
pub open spec fn clashes(positions: Seq<MonitoredPosition>, underlying: Seq<char>) -> bool {
    exists|i: int|
        {
            &&& 0 <= i < positions.len()
            &&& (#[trigger] positions[i]).state is Active
            &&& positions[i].instrument_name@.len() == underlying.len()
            &&& forall|k: int|
                0 <= k < underlying.len() ==> alike(
                    positions[i].instrument_name@[k],
                    #[trigger] underlying[k],
                )
        }
}

/// The positions still held are the ones that count.
proof fn live_are_active(positions: Seq<MonitoredPosition>)
    ensures
        live_count(positions) == positions.filter(
            |p: MonitoredPosition| p.state is Active,
        ).len(),
    decreases positions.len(),
{
    reveal(Seq::filter);
    if positions.len() > 0 {
        live_are_active(positions.drop_last());
    }
}

/// A clash is a position held on the same underlying.
proof fn clashes_are_held(positions: Seq<MonitoredPosition>, underlying: Seq<char>)
    ensures
        clashes(positions, underlying) == holds(positions, underlying),
{
    if holds(positions, underlying) {
        let i = choose|i: int|
            0 <= i < positions.len() && is_live(#[trigger] positions[i]) && same_ignoring_case(
                positions[i].instrument_name@,
                underlying,
            );
        let name = positions[i].instrument_name@;
        assert forall|k: int| 0 <= k < underlying.len() implies alike(
            name[k],
            #[trigger] underlying[k],
        ) by {
            assert(lower(name[k]) == lower(underlying[k]));
            alike_in_lower_case(name[k], underlying[k]);
        }
        assert(positions[i].state is Active);
    }
    if clashes(positions, underlying) {
        let i = choose|i: int|
            {
                &&& 0 <= i < positions.len()
                &&& (#[trigger] positions[i]).state is Active
                &&& positions[i].instrument_name@.len() == underlying.len()
                &&& forall|k: int|
                    0 <= k < underlying.len() ==> alike(
                        positions[i].instrument_name@[k],
                        #[trigger] underlying[k],
                    )
            };
        let name = positions[i].instrument_name@;
        assert forall|k: int| 0 <= k < name.len() implies lower(#[trigger] name[k]) == lower(
            underlying[k],
        ) by {
            assert(alike(name[k], underlying[k]));
            alike_in_lower_case(name[k], underlying[k]);
        }
        assert(is_live(positions[i]));
    }
}

/// An entry is approved exactly when the engine is not halted, the time of day is
/// before the cutoff, the losses and the entries of the day are below their
/// limits, fewer positions than allowed are held, none of them clashes, and one
/// lot is affordable.
pub proof fn entries_that_are_approved(
    underlying: &str,
    premium: Decimal,
    lot_size: i32,
    open: &[MonitoredPosition],
    state: &RiskState,
    cfg: &StrategyConfig,
    cap: Decimal,
    now_hm: (u32, u32),
    d: RiskDecision,
)
    requires
        call_ensures(
            RiskManager::evaluate,
            (underlying, premium, lot_size, open, state, cfg, cap, now_hm),
            d,
        ),
    ensures
        d is Approved <==> {
            &&& state.halted_reason is None
            &&& now_hm.0 < cfg.no_entry_hour || (now_hm.0 == cfg.no_entry_hour && now_hm.1
                < cfg.no_entry_minute)
            &&& state.realised_pnl@ + cfg.max_daily_loss_inr@ > 0
            &&& state.consecutive_losses < cfg.max_consecutive_losses
            &&& state.entries_today < cfg.max_algo_entries_per_day
            &&& open@.filter(|p: MonitoredPosition| p.state is Active).len()
                < cfg.max_open_positions
            &&& cfg.one_position_per_underlying ==> !clashes(open@, underlying@)
            &&& premium@ > 0
            &&& lot_size > 0
            &&& premium@ * lot_size <= cap@
        },
{
    live_are_active(open@);
    clashes_are_held(open@, underlying@);
}

/// An entry before the cutoff in minutes since midnight is not refused for the
/// time: what else holds decides as it does at any other such time.
pub proof fn times_before_the_cutoff_are_alike(
    underlying: &str,
    premium: Decimal,
    lot_size: i32,
    open: &[MonitoredPosition],
    state: &RiskState,
    cfg: &StrategyConfig,
    cap: Decimal,
    early: (u32, u32),
    late: (u32, u32),
    d: RiskDecision,
    e: RiskDecision,
)
    requires
        call_ensures(
            RiskManager::evaluate,
            (underlying, premium, lot_size, open, state, cfg, cap, early),
            d,
        ),
        call_ensures(
            RiskManager::evaluate,
            (underlying, premium, lot_size, open, state, cfg, cap, late),
            e,
        ),
        early.1 < 60,
        late.1 < 60,
        cfg.no_entry_minute < 60,
        60 * early.0 + early.1 < 60 * cfg.no_entry_hour + cfg.no_entry_minute,
    ensures
        60 * late.0 + late.1 < 60 * cfg.no_entry_hour + cfg.no_entry_minute ==> d@ == e@,
        60 * late.0 + late.1 >= 60 * cfg.no_entry_hour + cfg.no_entry_minute ==> e is Rejected,
{
}

/// An approval is for as many lots as the cap covers: at least one, and one more
/// would cost more than the cap, unless no more can be counted.
pub proof fn lots_fill_the_cap(
    underlying: &str,
    premium: Decimal,
    lot_size: i32,
    open: &[MonitoredPosition],
    state: &RiskState,
    cfg: &StrategyConfig,
    cap: Decimal,
    now_hm: (u32, u32),
    lots: i32,
    rationale: String,
)
    requires
        call_ensures(
            RiskManager::evaluate,
            (underlying, premium, lot_size, open, state, cfg, cap, now_hm),
            (RiskDecision::Approved { lots, rationale }),
        ),
    ensures
        lots >= 1,
        lots * (premium@ * lot_size) <= cap@,
        lots == i32::MAX || (lots + 1) * (premium@ * lot_size) > cap@,
{
    let p = Proposal {
        underlying: underlying@,
        premium: premium@,
        lot_size: lot_size as int,
        open_positions: open@,
        state: *state,
        cfg: *cfg,
        cap: cap@,
        now_hm,
    };
    let d = RiskDecision::Approved { lots, rationale };
    assert(d@ == p.decision());
    approval_fits_the_cap(p);
}

/// What is said of an approval: the lots, what one of them holds and costs, what
/// all of them cost, the cap, and how much of the budget is used.
pub proof fn approvals_show_their_sums(
    underlying: &str,
    premium: Decimal,
    lot_size: i32,
    open: &[MonitoredPosition],
    state: &RiskState,
    cfg: &StrategyConfig,
    cap: Decimal,
    now_hm: (u32, u32),
    lots: i32,
    rationale: String,
)
    requires
        call_ensures(
            RiskManager::evaluate,
            (underlying, premium, lot_size, open, state, cfg, cap, now_hm),
            (RiskDecision::Approved { lots, rationale }),
        ),
    ensures
        ({
            let held = open@.filter(|p: MonitoredPosition| p.state is Active).len();
            rationale@ == int_text(lots as int) + " lot(s) × "@ + int_text(lot_size as int)
                + " × ₹"@
                + amount2_text(premium@) + " = ₹"@ + amount0_text(lots * (premium@ * lot_size))
                + ", within the ₹"@ + amount0_text(cap@) + " cap; "@ + nat_text(held as int)
                + " of "@ + nat_text(cfg.max_open_positions as int) + " positions open, "@
                + nat_text(state.entries_today as int) + " of "@ + nat_text(
                cfg.max_algo_entries_per_day as int,
            ) + " entries used"@
        }),
{
    live_are_active(open@);
    let d = RiskDecision::Approved { lots, rationale };
    assert(d@ is Approved);
}

/// A refusal names the first thing that stands against the entry: a halt, the
/// time of day, the loss of the day, a run of losses, the entries taken, the
/// positions held, a clash, a size that cannot be computed, and the cost of a
/// lot, in this order.
pub proof fn first_refusal_is_named(
    underlying: &str,
    premium: Decimal,
    lot_size: i32,
    open: &[MonitoredPosition],
    state: &RiskState,
    cfg: &StrategyConfig,
    cap: Decimal,
    now_hm: (u32, u32),
    reason: String,
)
    requires
        call_ensures(
            RiskManager::evaluate,
            (underlying, premium, lot_size, open, state, cfg, cap, now_hm),
            (RiskDecision::Rejected { reason }),
        ),
    ensures
        ({
            let running = state.halted_reason is None;
            let in_time = running && (now_hm.0 < cfg.no_entry_hour || (now_hm.0
                == cfg.no_entry_hour && now_hm.1 < cfg.no_entry_minute));
            let solvent = in_time && state.realised_pnl@ + cfg.max_daily_loss_inr@ > 0;
            let steady = solvent && state.consecutive_losses < cfg.max_consecutive_losses;
            let fresh = steady && state.entries_today < cfg.max_algo_entries_per_day;
            let held = open@.filter(|p: MonitoredPosition| p.state is Active).len();
            let roomy = fresh && held < cfg.max_open_positions;
            let apart = roomy && !(cfg.one_position_per_underlying && clashes(open@, underlying@));
            let sized = apart && premium@ > 0 && lot_size > 0;
            &&& !running ==> reason@ == "engine halted for the session: "@
                + state.halted_reason->0@
            &&& running && !in_time ==> reason@ == "past the "@ + two_digit_text(
                cfg.no_entry_hour as int,
            ) + ":"@ + two_digit_text(cfg.no_entry_minute as int) + " IST entry cutoff"@
            &&& in_time && !solvent ==> reason@ == "daily loss limit reached (realised ₹"@
                + amount0_text(state.realised_pnl@) + " against a ₹"@ + amount0_text(
                cfg.max_daily_loss_inr@,
            ) + " cap)"@
            &&& solvent && !steady ==> reason@ == nat_text(state.consecutive_losses as int)
                + " consecutive losses — standing down for the session"@
            &&& steady && !fresh ==> reason@ == "already took "@ + nat_text(
                state.entries_today as int,
            ) + " of "@ + nat_text(cfg.max_algo_entries_per_day as int)
                + " permitted entries today"@
            &&& fresh && !roomy ==> reason@ == nat_text(held as int)
                + " positions already open across all sources (limit "@ + nat_text(
                cfg.max_open_positions as int,
            ) + ")"@
            &&& roomy && !apart ==> reason@ == "already holding a "@ + underlying@ + " position"@
            &&& apart && !sized ==> reason@
                == "cannot size a position without a valid premium and lot size"@
            &&& sized ==> premium@ * lot_size > cap@ && reason@ == "one lot costs ₹"@
                + amount0_text(premium@ * lot_size) + ", above the ₹"@ + amount0_text(cap@)
                + " per-trade cap"@
        }),
{
    live_are_active(open@);
    clashes_are_held(open@, underlying@);
    let d = RiskDecision::Rejected { reason };
    assert(d@ is Rejected);
}

/// A new session starts from nothing; within one session rolling changes
/// nothing.
pub proof fn sessions_start_afresh(today: &str)
    ensures
        forall|s: &mut RiskState| #[trigger]
            call_ensures(RiskState::roll_session, (s, today), ()) ==> {
                &&& (*s).session_date@ == today@ ==> *final(s) == *s
                &&& (*s).session_date@ != today@ ==> final(s).realised_pnl@ == 0
                    && final(s).entries_today == 0 && final(s).consecutive_losses == 0
                    && final(s).halted_reason is None
                &&& final(s).session_date@ == today@
            },
        forall|s: RiskState| #[trigger]
            call_ensures(<RiskState as Default>::default, (), s) ==> {
                &&& s.realised_pnl@ == 0
                &&& s.entries_today == 0
                &&& s.consecutive_losses == 0
                &&& s.halted_reason is None
                &&& s.session_date@.len() == 0
            },
{
}

/// A closed trade adds to the profit of the day just what it made. A loss
/// lengthens the run of losses by one, and anything else ends it; what was not
/// asked about stays.
pub proof fn closed_trades_are_booked(pnl: Decimal)
    ensures
        forall|s: &mut RiskState| #[trigger]
            call_ensures(RiskState::record_close, (s, pnl), ()) ==> {
                &&& final(s).realised_pnl@ - (*s).realised_pnl@ == pnl@
                &&& pnl@ < 0 ==> final(s).consecutive_losses == (*s).consecutive_losses + 1
                &&& pnl@ >= 0 ==> final(s).consecutive_losses == 0
                &&& final(s).entries_today == (*s).entries_today
                &&& final(s).halted_reason == (*s).halted_reason
                &&& final(s).session_date == (*s).session_date
            },
{
}

/// Halting and resuming set and clear the halt, and touch nothing else.
pub proof fn halts_are_set_and_cleared()
    ensures
        forall|s: &mut RiskState| #[trigger]
            call_ensures(RiskState::halt_manually, (s,), ()) ==> {
                &&& final(s).halted_reason is Some
                &&& final(s).halted_reason->0@ == "halted manually from the dashboard"@
                &&& final(s).realised_pnl == (*s).realised_pnl
                &&& final(s).entries_today == (*s).entries_today
                &&& final(s).consecutive_losses == (*s).consecutive_losses
                &&& final(s).session_date == (*s).session_date
            },
        forall|s: &mut RiskState| #[trigger]
            call_ensures(RiskState::resume, (s,), ()) ==> {
                &&& final(s).halted_reason is None
                &&& final(s).realised_pnl == (*s).realised_pnl
                &&& final(s).entries_today == (*s).entries_today
                &&& final(s).consecutive_losses == (*s).consecutive_losses
                &&& final(s).session_date == (*s).session_date
            },
{
}

/// A decision tells whether it is an approval, and what was said.
pub proof fn decisions_tell(d: RiskDecision, approved: bool, text: &str)
    requires
        call_ensures(RiskDecision::is_approved, (&d,), approved),
        call_ensures(RiskDecision::reason, (&d,), text),
    ensures
        approved <==> d is Approved,
        d matches RiskDecision::Approved { rationale, .. } ==> text@ == rationale@,
        d matches RiskDecision::Rejected { reason } ==> text@ == reason@,
{
}

} // verus!
