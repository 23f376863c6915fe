//! Strike selection, liquidity first.
//!
//! Moneyness is approximated by the distance from spot in strike steps. The
//! decisive filters are measured from the live feed: open interest, the spread,
//! the premium and the freshness of the quote. A contract that fails any of
//! them is rejected with a recorded reason.

use crate::date::Date;
use crate::date::{date_text, show_date, FIRST_DAY, LAST_DAY};
use crate::decimal::{divide_nearest, magnitude, nearest, nearest_error, Decimal};
use crate::strategy::config::{has_reached, reached, IndexSpec, StrategyConfig};
use crate::strategy::market::{listed, MarketTick, ScripRecord, ScripView, TickStore};
use crate::text::{amount0_text, amount2_text, int_text, nat_text};
use crate::text::{push_amount0, push_amount2, push_count, push_int, same};
use vstd::prelude::*;
use vstd::string::*;

verus! {

/// Bound on listed strikes, on spot and on the strike step, in millionths.
pub const STRIKE_LIMIT: i128 = 1_000_000_000_000_000_000_000_000_000_000;

/// Strike step used when an index has none, in millionths.
pub const FALLBACK_STEP: i128 = 50_000_000;

/// Tick size used when a contract has none, in millionths.
pub const FALLBACK_TICK: i128 = 50_000;

/// Weight of one step away from the preferred moneyness, in millionths.
pub const STEP_WEIGHT: i128 = 10_000_000;

/// How many of some amounts lie below `v`.
pub open spec fn below(s: Seq<i128>, v: int) -> int
    decreases s.len(),
{
    if s.len() == 0 {
        0
    } else {
        below(s.drop_last(), v) + if s.last() < v {
            1int
        } else {
            0int
        }
    }
}

/// Whether `m` is the upper median: among the amounts, with at most half of
/// them below it and more than half of them at or below it.
pub open spec fn is_median(s: Seq<i128>, m: int) -> bool {
    below(s, m) <= (s.len() as int) / 2 < below(s, m + 1)
}

/// The upper median of some amounts.
pub open spec fn median(s: Seq<i128>) -> int {
    choose|m: int| is_median(s, m)
}

/// The strikes above zero.
pub open spec fn positive_strikes(records: Seq<ScripView>) -> Seq<i128>
    decreases records.len(),
{
    if records.len() == 0 {
        Seq::empty()
    } else {
        let rest = positive_strikes(records.drop_last());
        if records.last().strike_price > 0 {
            rest.push(records.last().strike_price as i128)
        } else {
            rest
        }
    }
}

/// Whether dividing by `a` lands `strike` strictly closer to `spot` than
/// dividing by `b` does.
pub open spec fn closer(strike: int, spot: int, a: int, b: int) -> bool {
    magnitude(strike - a * spot) * b < magnitude(strike - b * spot) * a
}

/// The first of the divisors 1, 100 and 1000 that lands `strike` closest to
/// `spot`.
pub open spec fn best_scale(strike: int, spot: int) -> int {
    let first = if closer(strike, spot, 100, 1) {
        100
    } else {
        1int
    };
    if closer(strike, spot, 1000, first) {
        1000
    } else {
        first
    }
}

/// The factor at which a chain lists its strikes.
pub open spec fn chain_scale(records: Seq<ScripView>, spot: int) -> int {
    let strikes = positive_strikes(records);
    if spot <= 0 || strikes.len() == 0 {
        1
    } else {
        best_scale(median(strikes), spot)
    }
}

/// No other divisor lands the strike closer to spot.
pub proof fn best_scale_is_closest(strike: int, spot: int)
    ensures
        !closer(strike, spot, 1, best_scale(strike, spot)),
        !closer(strike, spot, 100, best_scale(strike, spot)),
        !closer(strike, spot, 1000, best_scale(strike, spot)),
{
}

/// Counting below a higher bound counts no less.
proof fn below_monotone(s: Seq<i128>, v: int, w: int)
    requires
        v <= w,
    ensures
        0 <= below(s, v) <= below(s, w) <= s.len(),
    decreases s.len(),
{
    if s.len() > 0 {
        below_monotone(s.drop_last(), v, w);
    }
}

/// There is one median.
pub proof fn median_unique(s: Seq<i128>, m: int)
    requires
        is_median(s, m),
    ensures
        median(s) == m,
{
    let n = median(s);
    assert(is_median(s, n));
    if m < n {
        below_monotone(s, m + 1, n);
    } else if n < m {
        below_monotone(s, n + 1, m);
    }
}

/// Inserting an amount counts it.
proof fn below_insert(s: Seq<i128>, i: int, x: i128, v: int)
    requires
        0 <= i <= s.len(),
    ensures
        below(s.insert(i, x), v) == below(s, v) + if x < v {
            1int
        } else {
            0int
        },
    decreases s.len(),
{
    let t = s.insert(i, x);
    if i == s.len() {
        assert(t.drop_last() =~= s);
    } else {
        assert(t.drop_last() =~= s.drop_last().insert(i, x));
        assert(t.last() == s.last());
        below_insert(s.drop_last(), i, x, v);
    }
}

/// In ascending order the places before `k` hold what lies below `s[k]`.
proof fn sorted_counts(s: Seq<i128>, k: int)
    requires
        0 <= k < s.len(),
        forall|i: int, j: int| 0 <= i <= j < s.len() ==> s[i] <= s[j],
    ensures
        below(s, s[k] as int) <= k,
        below(s, s[k] + 1) > k,
    decreases s.len(),
{
    let rest = s.drop_last();
    if k == s.len() - 1 {
        below_monotone(rest, s[k] as int, s[k] + 1);
        all_below(s, s[k] + 1);
    } else {
        assert(rest[k] == s[k]);
        assert forall|i: int, j: int| 0 <= i <= j < rest.len() implies rest[i] <= rest[j] by {
            assert(rest[i] == s[i] && rest[j] == s[j]);
        }
        sorted_counts(rest, k);
        assert(s[k] <= s[s.len() - 1]);
    }
}

/// When every amount lies below a bound, all are counted.
proof fn all_below(s: Seq<i128>, v: int)
    requires
        forall|i: int| 0 <= i < s.len() ==> (#[trigger] s[i]) < v,
    ensures
        below(s, v) == s.len(),
    decreases s.len(),
{
    if s.len() > 0 {
        assert forall|i: int| 0 <= i < s.drop_last().len() implies (
        #[trigger] s.drop_last()[i]) < v by {
            assert(s.drop_last()[i] == s[i]);
        }
        all_below(s.drop_last(), v);
        assert(s.last() == s[s.len() - 1]);
    }
}

/// Inserts an amount where it keeps the ascending order.
fn insert_sorted(sorted: &mut Vec<i128>, x: i128)
    requires
        forall|i: int, j: int| 0 <= i <= j < old(sorted)@.len() ==> old(sorted)@[i] <= old(sorted)@[j],
    ensures
        forall|i: int, j: int|
            0 <= i <= j < final(sorted)@.len() ==> final(sorted)@[i] <= final(sorted)@[j],
        final(sorted)@.len() == old(sorted)@.len() + 1,
        forall|v: int|
            below(final(sorted)@, v) == #[trigger] below(old(sorted)@, v) + if x < v {
                1int
            } else {
                0int
            },
        forall|k: int|
            0 <= k < final(sorted)@.len() ==> (#[trigger] final(sorted)@[k]) == x || old(
                sorted,
            )@.contains(final(sorted)@[k]),
{
    let mut lo: usize = 0;
    let mut hi: usize = sorted.len();
    while lo < hi
        invariant
            lo <= hi <= sorted@.len(),
            sorted@ == old(sorted)@,
            forall|i: int, j: int| 0 <= i <= j < sorted@.len() ==> sorted@[i] <= sorted@[j],
            forall|i: int| 0 <= i < lo ==> (#[trigger] sorted@[i]) <= x,
            forall|i: int| hi <= i < sorted@.len() ==> x < (#[trigger] sorted@[i]),
        decreases hi - lo,
    {
        let mid: usize = lo + (hi - lo) / 2;
        if sorted[mid] <= x {
            lo = mid + 1;
        } else {
            hi = mid;
        }
    }
    sorted.insert(lo, x);
    proof {
        assert forall|v: int| below(sorted@, v) == #[trigger] below(old(sorted)@, v) + if x < v {
            1int
        } else {
            0int
        } by {
            below_insert(old(sorted)@, lo as int, x, v);
        }
        assert forall|k: int| 0 <= k < sorted@.len() implies (#[trigger] sorted@[k]) == x || old(
            sorted,
        )@.contains(sorted@[k]) by {
            if k < lo {
                assert(sorted@[k] == old(sorted)@[k]);
            } else if k > lo {
                assert(sorted@[k] == old(sorted)@[k - 1]);
            }
        }
    }
}

/// Whether dividing by `a` lands `strike` strictly closer to `spot` than
/// dividing by `b` does.
fn is_closer(strike: i128, spot: i128, a: i128, b: i128) -> (r: bool)
    requires
        -STRIKE_LIMIT <= strike <= STRIKE_LIMIT,
        -STRIKE_LIMIT <= spot <= STRIKE_LIMIT,
        a == 1 || a == 100 || a == 1000,
        b == 1 || b == 100 || b == 1000,
    ensures
        r == closer(strike as int, spot as int, a as int, b as int),
{
    let da: i128 = strike - a * spot;
    let db: i128 = strike - b * spot;
    let da: i128 = if da < 0 {
        -da
    } else {
        da
    };
    let db: i128 = if db < 0 {
        -db
    } else {
        db
    };
    da * b < db * a
}

/// Some segments list strikes at a multiple of the true strike.
///
/// Guessing per row is fragile, so the factor is resolved once for the whole
/// chain: whichever divisor lands the chain's median strike closest to spot
/// wins. A chain is internally consistent, so one factor is right for all of
/// its rows, and the median is immune to a few outliers at the far wings.
pub fn resolve_strike_scale(records: &[&ScripRecord], spot: Decimal) -> (scale: i128)
    requires
        -STRIKE_LIMIT <= spot@ <= STRIKE_LIMIT,
        strikes_fit(listed(records@)),
    ensures
        scale == chain_scale(listed(records@), spot@),
        scale == 1 || scale == 100 || scale == 1000,
{
    if spot.micros <= 0 {
        return 1;
    }
    let ghost all = listed(records@);
    let mut sorted: Vec<i128> = Vec::new();
    let mut i: usize = 0;
    while i < records.len()
        invariant
            i <= records@.len(),
            all == listed(records@),
            strikes_fit(all),
            forall|a: int, b: int| 0 <= a <= b < sorted@.len() ==> sorted@[a] <= sorted@[b],
            forall|a: int| 0 <= a < sorted@.len() ==> 0 < (#[trigger] sorted@[a]) <= STRIKE_LIMIT,
            sorted@.len() == positive_strikes(all.take(i as int)).len(),
            forall|v: int|
                #[trigger] below(sorted@, v) == below(positive_strikes(all.take(i as int)), v),
        decreases records@.len() - i,
    {
        let ghost before = sorted@;
        let ghost seen = positive_strikes(all.take(i as int));
        let ghost next = positive_strikes(all.take(i + 1));
        proof {
            assert(all.take(i + 1).drop_last() =~= all.take(i as int));
            assert(all.take(i + 1).last() == all[i as int]);
            assert(all[i as int] == records@[i as int]@);
            assert(-STRIKE_LIMIT <= all[i as int].strike_price <= STRIKE_LIMIT);
        }
        let strike: i128 = records[i].strike_price.micros;
        if strike > 0 {
            insert_sorted(&mut sorted, strike);
            proof {
                assert(next == seen.push(strike));
                assert forall|v: int| #[trigger] below(sorted@, v) == below(next, v) by {
                    assert(next.drop_last() =~= seen);
                    assert(below(before, v) == below(seen, v));
                }
                assert forall|a: int| 0 <= a < sorted@.len() implies 0 < (#[trigger] sorted@[a])
                    <= STRIKE_LIMIT by {
                    if sorted@[a] != strike {
                        let b = choose|b: int| 0 <= b < before.len() && before[b] == sorted@[a];
                        assert(0 < before[b] <= STRIKE_LIMIT);
                    }
                }
            }
        }
        i += 1;
    }
    assert(all.take(i as int) =~= all);
    if sorted.len() == 0 {
        return 1;
    }
    let middle: usize = sorted.len() / 2;
    let median_strike: i128 = sorted[middle];
    proof {
        let strikes = positive_strikes(all);
        sorted_counts(sorted@, middle as int);
        assert(below(sorted@, median_strike as int) == below(strikes, median_strike as int));
        assert(below(sorted@, median_strike + 1) == below(strikes, median_strike + 1));
        median_unique(strikes, median_strike as int);
    }
    let first: i128 = if is_closer(median_strike, spot.micros, 100, 1) {
        100
    } else {
        1
    };
    if is_closer(median_strike, spot.micros, 1000, first) {
        1000
    } else {
        first
    }
}

/// Whether every listed strike lies within [`STRIKE_LIMIT`].
pub open spec fn strikes_fit(records: Seq<ScripView>) -> bool {
    forall|i: int|
        0 <= i < records.len() ==> -STRIKE_LIMIT <= (#[trigger] records[i]).strike_price
            <= STRIKE_LIMIT
}

/// Whether a contract expiring on day `d` may be opened.
pub open spec fn expiry_open(d: int, today: int, now_hm: (u32, u32), cfg: StrategyConfig) -> bool {
    &&& d >= today
    &&& !(d == today && reached(
        now_hm,
        cfg.expiry_day_no_entry_hour,
        cfg.expiry_day_no_entry_minute,
    ))
    &&& d - today >= cfg.min_days_to_expiry
}

/// Whether no listed expiry may be opened.
pub open spec fn none_open(
    records: Seq<ScripView>,
    today: int,
    now_hm: (u32, u32),
    cfg: StrategyConfig,
) -> bool {
    forall|i: int|
        0 <= i < records.len() ==> !expiry_open(
            (#[trigger] records[i]).expiry_date,
            today,
            now_hm,
            cfg,
        )
}

/// Whether `d` is the nearest listed expiry that may be opened.
pub open spec fn is_nearest_expiry(
    records: Seq<ScripView>,
    today: int,
    now_hm: (u32, u32),
    cfg: StrategyConfig,
    d: int,
) -> bool {
    &&& expiry_open(d, today, now_hm, cfg)
    &&& exists|i: int| 0 <= i < records.len() && (#[trigger] records[i]).expiry_date == d
    &&& forall|i: int|
        0 <= i < records.len() && expiry_open(
            (#[trigger] records[i]).expiry_date,
            today,
            now_hm,
            cfg,
        ) ==> d <= records[i].expiry_date
}

/// Pick the expiry to trade: the nearest one not already past.
///
/// `None` when no listed expiry may be opened, as when the only one is today
/// and the expiry-day cutoff has passed: at that point a long option is pure
/// decay into settlement.
pub fn select_expiry(
    records: &[&ScripRecord],
    today: Date,
    now_hm: (u32, u32),
    cfg: &StrategyConfig,
) -> (expiry: Option<Date>)
    ensures
        match expiry {
            Some(d) => is_nearest_expiry(listed(records@), today@, now_hm, *cfg, d@),
            None => forall|i: int|
                0 <= i < records@.len() ==> !expiry_open(
                    (#[trigger] records@[i]).expiry_date@,
                    today@,
                    now_hm,
                    *cfg,
                ),
        },
        expiry is None ==> none_open(listed(records@), today@, now_hm, *cfg),
{
    let past_cutoff: bool = has_reached(
        now_hm,
        cfg.expiry_day_no_entry_hour,
        cfg.expiry_day_no_entry_minute,
    );
    let mut nearest_day: Option<Date> = None;
    let mut i: usize = 0;
    while i < records.len()
        invariant
            i <= records@.len(),
            past_cutoff == reached(
                now_hm,
                cfg.expiry_day_no_entry_hour,
                cfg.expiry_day_no_entry_minute,
            ),
            match nearest_day {
                Some(d) => is_nearest_expiry(
                    listed(records@).take(i as int),
                    today@,
                    now_hm,
                    *cfg,
                    d@,
                ),
                None => forall|k: int|
                    0 <= k < i ==> !expiry_open(
                        (#[trigger] records@[k]).expiry_date@,
                        today@,
                        now_hm,
                        *cfg,
                    ),
            },
        decreases records@.len() - i,
    {
        let ghost seen = listed(records@).take(i as int);
        let ghost next = listed(records@).take(i + 1);
        let d: Date = records[i].expiry_date;
        let ghost before = nearest_day;
        let open: bool = d.day >= today.day && !(d.day == today.day && past_cutoff) && d.days_since(
            today,
        ) >= cfg.min_days_to_expiry;
        if open {
            match nearest_day {
                Some(best) => {
                    if d.day < best.day {
                        nearest_day = Some(d);
                    }
                },
                None => {
                    nearest_day = Some(d);
                },
            }
        }
        proof {
            assert(next[i as int].expiry_date == d@);
            assert forall|k: int| 0 <= k < i implies #[trigger] next[k] == seen[k] && next[k]
                == records@[k]@ by {}
            if let Some(best) = before {
                let w = choose|w: int|
                    0 <= w < seen.len() && (#[trigger] seen[w]).expiry_date == best@;
                assert(next[w].expiry_date == best@);
            }
            if let Some(best) = nearest_day {
                assert forall|k: int|
                    0 <= k < next.len() && expiry_open(
                        (#[trigger] next[k]).expiry_date,
                        today@,
                        now_hm,
                        *cfg,
                    ) implies best@ <= next[k].expiry_date by {
                    if k < i {
                        assert(next[k] == seen[k]);
                        assert(records@[k]@ == seen[k]);
                        assert(records@[k].expiry_date@ == seen[k].expiry_date);
                    }
                }
            }
        }
        i += 1;
    }
    assert(listed(records@).take(i as int) =~= listed(records@));
    assert(nearest_day is None ==> none_open(listed(records@), today@, now_hm, *cfg)) by {
        assert forall|k: int| 0 <= k < records@.len() implies (
        #[trigger] listed(records@)[k]).expiry_date == records@[k].expiry_date@ by {}
    }
    nearest_day
}

/// A contract considered for selection, with everything measured about it.
#[derive(Debug)]
pub struct StrikeCandidate {
    pub trading_symbol: String,
    pub instrument_token: String,
    pub exchange_segment: String,
    /// Strike, normalised out of the listing's scaling.
    pub strike: Decimal,
    pub option_type: String,
    pub expiry: Date,
    pub lot_size: i32,
    pub tick_size: Decimal,
    /// Feed key for this contract.
    pub ws_key: String,
    /// Steps from at-the-money; positive is out of the money.
    pub otm_steps: i32,
    pub premium: Option<Decimal>,
    pub open_interest: Option<Decimal>,
    pub spread_pct: Option<Decimal>,
    /// `None` when accepted; otherwise why it was rejected.
    pub rejected: Option<String>,
    /// Lower is better. Only meaningful for accepted candidates.
    pub score: Decimal,
}

/// What is known of a candidate.
#[verifier::ext_equal]
pub struct CandidateView {
    pub trading_symbol: Seq<char>,
    pub instrument_token: Seq<char>,
    pub exchange_segment: Seq<char>,
    pub strike: int,
    pub option_type: Seq<char>,
    pub expiry: int,
    pub lot_size: int,
    pub tick_size: int,
    pub ws_key: Seq<char>,
    pub otm_steps: int,
    pub premium: Option<Decimal>,
    pub open_interest: Option<Decimal>,
    pub spread_pct: Option<Decimal>,
    pub rejected: Option<Seq<char>>,
    pub score: int,
}

/// The text inside an option.
pub open spec fn text_of(t: Option<String>) -> Option<Seq<char>> {
    match t {
        Some(s) => Some(s@),
        None => None,
    }
}

impl View for StrikeCandidate {
    type V = CandidateView;

    open spec fn view(&self) -> CandidateView {
        CandidateView {
            trading_symbol: self.trading_symbol@,
            instrument_token: self.instrument_token@,
            exchange_segment: self.exchange_segment@,
            strike: self.strike@,
            option_type: self.option_type@,
            expiry: self.expiry@,
            lot_size: self.lot_size as int,
            tick_size: self.tick_size@,
            ws_key: self.ws_key@,
            otm_steps: self.otm_steps as int,
            premium: self.premium,
            open_interest: self.open_interest,
            spread_pct: self.spread_pct,
            rejected: text_of(self.rejected),
            score: self.score@,
        }
    }
}

impl Clone for StrikeCandidate {
    fn clone(&self) -> (c: Self)
        ensures
            c@ == self@,
    {
        StrikeCandidate {
            trading_symbol: self.trading_symbol.clone(),
            instrument_token: self.instrument_token.clone(),
            exchange_segment: self.exchange_segment.clone(),
            strike: self.strike,
            option_type: self.option_type.clone(),
            expiry: self.expiry,
            lot_size: self.lot_size,
            tick_size: self.tick_size,
            ws_key: self.ws_key.clone(),
            otm_steps: self.otm_steps,
            premium: self.premium,
            open_interest: self.open_interest,
            spread_pct: self.spread_pct,
            rejected: match &self.rejected {
                Some(r) => Some(r.clone()),
                None => None,
            },
            score: self.score,
        }
    }
}

/// Outcome of a selection pass.
#[derive(Debug)]
pub struct StrikeSelection {
    pub chosen: Option<StrikeCandidate>,
    /// Everything considered, accepted and rejected, for the dashboard.
    pub considered: Vec<StrikeCandidate>,
    pub reason: String,
}

impl StrikeSelection {
    /// What is known of everything considered.
    pub open spec fn candidates(self) -> Seq<CandidateView> {
        self.considered@.map_values(|c: StrikeCandidate| c@)
    }
}

/// What one selection pass looks for.
pub struct Search {
    /// `"CE"` or `"PE"`.
    pub option_type: Seq<char>,
    /// Whether calls are looked for.
    pub calls: bool,
    pub expiry: int,
    /// Factor at which the chain lists its strikes.
    pub scale: int,
    pub step: int,
    /// The strike on the ladder nearest spot.
    pub atm: int,
    pub ticks: Map<Seq<char>, MarketTick>,
    pub cfg: StrategyConfig,
    pub now_ms: int,
}

/// The strike step of an index.
pub open spec fn step_of(listed_step: int) -> int {
    if listed_step > 0 {
        listed_step
    } else {
        FALLBACK_STEP as int
    }
}

/// The feed key of a contract.
pub open spec fn feed_key(rec: ScripView) -> Seq<char> {
    rec.exchange_segment_code + "|"@ + rec.instrument_token
}

/// Why a quote is not tradeable, if that is so. Every gate errs toward
/// rejection on missing data.
pub open spec fn gate(tick: Option<MarketTick>, cfg: StrategyConfig, now_ms: int) -> Option<
    Seq<char>,
> {
    match tick {
        None => Some("no live quote — contract not subscribed or never traded"@),
        Some(t) => if t.stale(now_ms, cfg.max_tick_age_ms as int) {
            Some("quote is stale"@)
        } else {
            match t.mid {
                None => Some("no premium quoted"@),
                Some(p) => if p@ < cfg.min_premium@ {
                    Some(
                        "premium ₹"@ + amount2_text(p@) + " below ₹"@ + amount2_text(
                            cfg.min_premium@,
                        ) + " floor — decays to zero too easily"@,
                    )
                } else if p@ > cfg.max_premium@ {
                    Some(
                        "premium ₹"@ + amount2_text(p@) + " above ₹"@ + amount2_text(
                            cfg.max_premium@,
                        ) + " cap — one lot would eat the budget"@,
                    )
                } else {
                    match t.open_interest {
                        None => Some("open interest not reported"@),
                        Some(oi) => if oi@ < cfg.min_open_interest@ {
                            Some(
                                "open interest "@ + amount0_text(oi@) + " below "@ + amount0_text(
                                    cfg.min_open_interest@,
                                ) + " floor — too thin to exit cleanly"@,
                            )
                        } else {
                            match t.spread_pct {
                                None => Some("no two-sided quote — cannot measure spread"@),
                                Some(s) => if s@ > cfg.max_spread_pct@ {
                                    Some(
                                        "spread "@ + amount2_text(s@) + "% exceeds "@
                                            + amount2_text(cfg.max_spread_pct@)
                                            + "% cap — round trip costs too much"@,
                                    )
                                } else {
                                    None
                                },
                            }
                        },
                    }
                },
            }
        },
    }
}

/// Distance from the preferred moneyness dominates, with the spread as the
/// tie-breaker.
pub open spec fn score_of(otm_steps: int, preferred: int, spread: int) -> int {
    magnitude(otm_steps - preferred) * STEP_WEIGHT + spread
}

/// A count of steps, held within 32 bits.
pub open spec fn counted(steps: int) -> int {
    if steps < i32::MIN {
        i32::MIN as int
    } else if steps > i32::MAX {
        i32::MAX as int
    } else {
        steps
    }
}

/// A count of steps, held within 32 bits.
fn count_steps(steps: i128) -> (n: i128)
    ensures
        n == counted(steps as int),
{
    if steps < -0x8000_0000 {
        -0x8000_0000
    } else if steps > 0x7fff_ffff {
        0x7fff_ffff
    } else {
        steps
    }
}

impl Search {
    /// The true strike of a contract.
    pub open spec fn strike(self, rec: ScripView) -> int {
        nearest(rec.strike_price, self.scale)
    }

    /// Steps out of the money for the side being bought: a call is out of the
    /// money above spot, a put below.
    pub open spec fn otm(self, rec: ScripView) -> int {
        let steps = counted(nearest(self.strike(rec) - self.atm, self.step));
        if self.calls {
            steps
        } else {
            -steps
        }
    }

    /// Whether a contract is looked at.
    pub open spec fn covers(self, rec: ScripView) -> bool {
        &&& rec.option_type == self.option_type
        &&& rec.expiry_date == self.expiry
        &&& self.strike(rec) > 0
        &&& -self.cfg.strike_search_steps <= self.otm(rec) <= self.cfg.strike_search_steps
    }

    /// The live quote of a contract.
    pub open spec fn quote(self, rec: ScripView) -> Option<MarketTick> {
        if self.ticks.contains_key(feed_key(rec)) {
            Some(self.ticks[feed_key(rec)])
        } else {
            None
        }
    }

    /// What is found about a contract.
    pub open spec fn candidate(self, rec: ScripView) -> CandidateView {
        let tick = self.quote(rec);
        let rejected = gate(tick, self.cfg, self.now_ms);
        CandidateView {
            trading_symbol: rec.trading_symbol,
            instrument_token: rec.instrument_token,
            exchange_segment: rec.exchange_segment_code,
            strike: self.strike(rec),
            option_type: rec.option_type,
            expiry: rec.expiry_date,
            lot_size: if rec.lot_size < 1 {
                1
            } else {
                rec.lot_size
            },
            tick_size: if rec.tick_size > 0 {
                rec.tick_size
            } else {
                FALLBACK_TICK as int
            },
            ws_key: feed_key(rec),
            otm_steps: self.otm(rec),
            premium: match tick {
                Some(t) => t.mid,
                None => None,
            },
            open_interest: match tick {
                Some(t) => t.open_interest,
                None => None,
            },
            spread_pct: match tick {
                Some(t) => t.spread_pct,
                None => None,
            },
            rejected,
            score: if rejected is Some {
                i128::MAX as int
            } else {
                score_of(
                    self.otm(rec),
                    self.cfg.preferred_otm_steps as int,
                    tick->0.spread_pct->0@,
                )
            },
        }
    }

    /// Everything looked at, in the order of the listing.
    pub open spec fn considered(self, records: Seq<ScripView>) -> Seq<CandidateView>
        decreases records.len(),
    {
        if records.len() == 0 {
            Seq::empty()
        } else {
            let rest = self.considered(records.drop_last());
            if self.covers(records.last()) {
                rest.push(self.candidate(records.last()))
            } else {
                rest
            }
        }
    }
}

/// Whether the candidate at `i` is chosen: accepted, with the lowest score, and
/// the first to reach it.
pub open spec fn is_choice(cands: Seq<CandidateView>, i: int) -> bool {
    &&& 0 <= i < cands.len()
    &&& cands[i].rejected is None
    &&& forall|j: int|
        0 <= j < cands.len() && (#[trigger] cands[j]).rejected is None ==> cands[i].score
            <= cands[j].score && (j < i ==> cands[i].score < cands[j].score)
}

/// An amount, zero when there is none.
pub open spec fn or_zero(d: Option<Decimal>) -> int {
    match d {
        Some(x) => x@,
        None => 0,
    }
}

/// What is said of the chosen contract.
pub open spec fn choice_text(symbol: Seq<char>, c: CandidateView) -> Seq<char> {
    symbol + " "@ + amount0_text(c.strike) + " "@ + c.option_type + " — "@ + int_text(c.otm_steps)
        + " steps OTM, premium ₹"@ + amount2_text(or_zero(c.premium)) + ", OI "@ + amount0_text(
        or_zero(c.open_interest),
    ) + ", spread "@ + amount2_text(or_zero(c.spread_pct)) + "%"@
}

/// The outcome of a search over a chain.
pub open spec fn is_outcome(
    search: Search,
    records: Seq<ScripView>,
    symbol: Seq<char>,
    sel: StrikeSelection,
) -> bool {
    let cands = search.considered(records);
    &&& sel.candidates() == cands
    &&& match sel.chosen {
        Some(c) => exists|i: int|
            #[trigger] is_choice(cands, i) && c@ == cands[i] && sel.reason@ == choice_text(
                symbol,
                cands[i],
            ),
        None => {
            &&& forall|i: int| 0 <= i < cands.len() ==> (#[trigger] cands[i]).rejected is Some
            &&& sel.reason@ == if cands.len() == 0 {
                "no "@ + search.option_type + " contracts listed near ATM "@ + amount0_text(
                    search.atm,
                ) + " for expiry "@ + date_text(search.expiry)
            } else {
                "all "@ + nat_text(cands.len() as int)
                    + " candidate strikes failed the liquidity gates (e.g. "@ + cands[0].rejected->0
                    + ")"@
            }
        },
    }
}

/// Whether a selection found nothing to consider, for a reason.
pub open spec fn is_nothing(sel: StrikeSelection, reason: Seq<char>) -> bool {
    &&& sel.chosen is None
    &&& sel.considered@.len() == 0
    &&& sel.reason@ == reason
}

/// The search for one direction, once the expiry is known.
pub open spec fn search_for(
    records: Seq<ScripView>,
    spot: int,
    calls: bool,
    strike_step: int,
    ticks: Map<Seq<char>, MarketTick>,
    cfg: StrategyConfig,
    expiry: int,
    now_ms: int,
) -> Search {
    let step = step_of(strike_step);
    Search {
        option_type: if calls {
            "CE"@
        } else {
            "PE"@
        },
        calls,
        expiry,
        scale: chain_scale(records, spot),
        step,
        atm: nearest(spot, step) * step,
        ticks,
        cfg,
        now_ms,
    }
}

/// Why a quote is not tradeable, if that is so.
pub fn check_quote(tick: Option<MarketTick>, cfg: &StrategyConfig, now_ms: i64) -> (r: Option<
    String,
>)
    ensures
        text_of(r) == gate(tick, *cfg, now_ms as int),
{
    let t: MarketTick = match tick {
        Some(t) => t,
        None => {
            return Some("no live quote — contract not subscribed or never traded".to_owned());
        },
    };
    if t.is_stale(now_ms, cfg.max_tick_age_ms) {
        return Some("quote is stale".to_owned());
    }
    let p: Decimal = match t.mid {
        Some(p) => p,
        None => {
            return Some("no premium quoted".to_owned());
        },
    };
    if p.micros < cfg.min_premium.micros {
        let mut why: String = "premium ₹".to_owned();
        push_amount2(&mut why, p);
        why.append(" below ₹");
        push_amount2(&mut why, cfg.min_premium);
        why.append(" floor — decays to zero too easily");
        return Some(why);
    }
    if p.micros > cfg.max_premium.micros {
        let mut why: String = "premium ₹".to_owned();
        push_amount2(&mut why, p);
        why.append(" above ₹");
        push_amount2(&mut why, cfg.max_premium);
        why.append(" cap — one lot would eat the budget");
        return Some(why);
    }
    let oi: Decimal = match t.open_interest {
        Some(oi) => oi,
        None => {
            return Some("open interest not reported".to_owned());
        },
    };
    if oi.micros < cfg.min_open_interest.micros {
        let mut why: String = "open interest ".to_owned();
        push_amount0(&mut why, oi);
        why.append(" below ");
        push_amount0(&mut why, cfg.min_open_interest);
        why.append(" floor — too thin to exit cleanly");
        return Some(why);
    }
    let s: Decimal = match t.spread_pct {
        Some(s) => s,
        None => {
            return Some("no two-sided quote — cannot measure spread".to_owned());
        },
    };
    if s.micros > cfg.max_spread_pct.micros {
        let mut why: String = "spread ".to_owned();
        push_amount2(&mut why, s);
        why.append("% exceeds ");
        push_amount2(&mut why, cfg.max_spread_pct);
        why.append("% cap — round trip costs too much");
        return Some(why);
    }
    None
}

/// A quotient is no larger than its numerator.
proof fn nearest_shrinks(a: int, b: int, size: int)
    requires
        b > 0,
        size >= 0,
        -size <= a <= size,
    ensures
        -size <= nearest(a, b) <= size,
{
    assert(b * (-size) <= a <= b * size) by (nonlinear_arith)
        requires
            b >= 1,
            size >= 0,
            -size <= a <= size,
    ;
    crate::decimal::nearest_between(a, b, -size, size);
}

/// Measures one contract of the searched kind. `None` when its strike is not
/// positive or lies outside the search window.
fn measure(
    rec: &ScripRecord,
    calls: bool,
    scale: i128,
    step: i128,
    atm: i128,
    ticks: &TickStore,
    cfg: &StrategyConfig,
    now_ms: i64,
    Ghost(search): Ghost<Search>,
) -> (c: Option<StrikeCandidate>)
    requires
        ticks.wf(),
        -STRIKE_LIMIT <= rec.strike_price@ <= STRIKE_LIMIT,
        0 < scale <= 1000,
        0 < step <= STRIKE_LIMIT,
        -2 * STRIKE_LIMIT <= atm <= 2 * STRIKE_LIMIT,
        cfg.max_spread_pct@ <= STRIKE_LIMIT,
        search.calls == calls,
        search.scale == scale,
        search.step == step,
        search.atm == atm,
        search.ticks == ticks@,
        search.cfg == *cfg,
        search.now_ms == now_ms,
        search.option_type == rec@.option_type,
        search.expiry == rec@.expiry_date,
    ensures
        match c {
            Some(cand) => search.covers(rec@) && cand@ == search.candidate(rec@),
            None => !search.covers(rec@),
        },
{
    proof {
        nearest_shrinks(rec.strike_price@, scale as int, STRIKE_LIMIT as int);
    }
    let strike: i128 = divide_nearest(rec.strike_price.micros, scale);
    if strike <= 0 {
        return None;
    }
    proof {
        nearest_shrinks(strike - atm, step as int, 3 * STRIKE_LIMIT);
    }
    let steps: i128 = count_steps(divide_nearest(strike - atm, step));
    let otm: i128 = if calls {
        steps
    } else {
        -steps
    };
    let window: i128 = cfg.strike_search_steps as i128;
    if otm < -window || otm > window {
        return None;
    }
    let mut ws_key: String = rec.exchange_segment_code.clone();
    ws_key.append("|");
    ws_key.append(rec.instrument_token.as_str());
    let tick: Option<MarketTick> = ticks.get(ws_key.as_str());
    let rejected: Option<String> = check_quote(tick, cfg, now_ms);
    let (premium, open_interest, spread_pct): (Option<Decimal>, Option<Decimal>, Option<Decimal>) =
        match tick {
        Some(t) => (t.mid, t.open_interest, t.spread_pct),
        None => (None, None, None),
    };
    let score: i128 = match &rejected {
        Some(_) => i128::MAX,
        None => {
            let away: i128 = otm - cfg.preferred_otm_steps as i128;
            let away: i128 = if away < 0 {
                -away
            } else {
                away
            };
            let spread: i128 = match spread_pct {
                Some(s) => s.micros,
                None => {
                    assert(false);
                    0
                },
            };
            away * STEP_WEIGHT + spread
        },
    };
    Some(
        StrikeCandidate {
            trading_symbol: rec.trading_symbol.clone(),
            instrument_token: rec.instrument_token.clone(),
            exchange_segment: rec.exchange_segment_code.clone(),
            strike: Decimal { micros: strike },
            option_type: rec.option_type.clone(),
            expiry: rec.expiry_date,
            lot_size: if rec.lot_size < 1 {
                1
            } else {
                rec.lot_size
            },
            tick_size: if rec.tick_size.micros > 0 {
                rec.tick_size
            } else {
                Decimal { micros: FALLBACK_TICK }
            },
            ws_key,
            otm_steps: otm as i32,
            premium,
            open_interest,
            spread_pct,
            rejected,
            score: Decimal { micros: score },
        },
    )
}

/// The first accepted candidate with the lowest score.
fn choose_best(considered: &Vec<StrikeCandidate>) -> (best: Option<usize>)
    ensures
        ({
            let cands = considered@.map_values(|c: StrikeCandidate| c@);
            match best {
                Some(i) => is_choice(cands, i as int),
                None => forall|i: int|
                    0 <= i < cands.len() ==> (#[trigger] cands[i]).rejected is Some,
            }
        }),
{
    let ghost cands = considered@.map_values(|c: StrikeCandidate| c@);
    let mut best: Option<usize> = None;
    let mut i: usize = 0;
    while i < considered.len()
        invariant
            i <= considered@.len(),
            cands == considered@.map_values(|c: StrikeCandidate| c@),
            match best {
                Some(b) => is_choice(cands.take(i as int), b as int),
                None => forall|k: int| 0 <= k < i ==> (#[trigger] cands[k]).rejected is Some,
            },
        decreases considered@.len() - i,
    {
        let ghost seen = cands.take(i as int);
        let ghost next = cands.take(i + 1);
        let ghost before = best;
        let accepted: bool = considered[i].rejected.is_none();
        if accepted {
            match best {
                Some(b) => {
                    if considered[i].score.micros < considered[b].score.micros {
                        best = Some(i);
                    }
                },
                None => {
                    best = Some(i);
                },
            }
        }
        proof {
            assert(next[i as int] == cands[i as int] && cands[i as int] == considered@[i as int]@);
            assert forall|k: int| 0 <= k < i implies #[trigger] next[k] == seen[k] && next[k]
                == cands[k] by {}
            if let Some(b) = before {
                assert(considered@[b as int]@ == next[b as int]);
            }
            if let Some(b) = best {
                assert forall|j: int|
                    0 <= j < next.len() && (#[trigger] next[j]).rejected is None implies next[b as int].score
                    <= next[j].score && (j < b ==> next[b as int].score < next[j].score) by {
                    if j < i {
                        assert(next[j] == seen[j]);
                        if before is None {
                            assert(cands[j].rejected is Some);
                        }
                    }
                }
            }
        }
        i += 1;
    }
    assert(cands.take(i as int) =~= cands);
    best
}

/// Says what was chosen.
fn describe(symbol: &str, c: &StrikeCandidate) -> (text: String)
    ensures
        text@ == choice_text(symbol@, c@),
{
    let zero: Decimal = Decimal { micros: 0 };
    let mut text: String = symbol.to_owned();
    text.append(" ");
    push_amount0(&mut text, c.strike);
    text.append(" ");
    text.append(c.option_type.as_str());
    text.append(" — ");
    push_int(&mut text, c.otm_steps as i128);
    text.append(" steps OTM, premium ₹");
    push_amount2(&mut text, c.premium.unwrap_or(zero));
    text.append(", OI ");
    push_amount0(&mut text, c.open_interest.unwrap_or(zero));
    text.append(", spread ");
    push_amount2(&mut text, c.spread_pct.unwrap_or(zero));
    text.append("%");
    text
}

/// A selection that considered nothing.
fn nothing(reason: &str) -> (sel: StrikeSelection)
    ensures
        is_nothing(sel, reason@),
{
    StrikeSelection { chosen: None, considered: Vec::new(), reason: reason.to_owned() }
}

/// Select the best contract for a directional view.
///
/// `direction` is `+1` for a bullish view (buy a call) or `-1` for a bearish
/// one (buy a put); no other value trades. Options are only ever bought: no
/// path returns a contract to sell.
pub fn select_strike(
    records: &[&ScripRecord],
    spot: Decimal,
    direction: i8,
    index: &IndexSpec,
    ticks: &TickStore,
    cfg: &StrategyConfig,
    today: Date,
    now_hm: (u32, u32),
    now_ms: i64,
) -> (sel: StrikeSelection)
    requires
        ticks.wf(),
        strikes_fit(listed(records@)),
        expiries_wf(listed(records@)),
        -STRIKE_LIMIT <= spot@ <= STRIKE_LIMIT,
        index.strike_step@ <= STRIKE_LIMIT,
        cfg.max_spread_pct@ <= STRIKE_LIMIT,
    ensures
        direction != 1 && direction != -1 ==> is_nothing(
            sel,
            "no directional view — nothing to select"@,
        ),
        (direction == 1 || direction == -1) && spot@ <= 0 ==> is_nothing(
            sel,
            "spot price unavailable"@,
        ),
        (direction == 1 || direction == -1) && spot@ > 0 && (forall|i: int|
            0 <= i < records@.len() ==> !expiry_open(
                (#[trigger] records@[i]).expiry_date@,
                today@,
                now_hm,
                *cfg,
            )) ==> is_nothing(
            sel,
            "no tradeable expiry (expiry-day cutoff passed or none listed)"@,
        ),
        forall|expiry: int|
            (direction == 1 || direction == -1) && spot@ > 0 && #[trigger] is_nearest_expiry(
                listed(records@),
                today@,
                now_hm,
                *cfg,
                expiry,
            ) ==> is_outcome(
                search_for(
                    listed(records@),
                    spot@,
                    direction == 1,
                    index.strike_step@,
                    ticks@,
                    *cfg,
                    expiry,
                    now_ms as int,
                ),
                listed(records@),
                index.symbol@,
                sel,
            ),
{
    let calls: bool = direction == 1;
    if !calls && direction != -1 {
        return nothing("no directional view — nothing to select");
    }
    if spot.micros <= 0 {
        return nothing("spot price unavailable");
    }
    let ghost all = listed(records@);
    let expiry: Date = match select_expiry(records, today, now_hm, cfg) {
        Some(d) => d,
        None => {
            proof {
                assert forall|e: int| is_nearest_expiry(all, today@, now_hm, *cfg, e) implies false by {
                    let w = choose|w: int|
                        0 <= w < all.len() && (#[trigger] all[w]).expiry_date == e;
                    assert(all[w] == records@[w]@);
                    assert(records@[w].expiry_date@ == e);
                }
            }
            return nothing("no tradeable expiry (expiry-day cutoff passed or none listed)");
        },
    };
    proof {
        let w = choose|w: int| 0 <= w < all.len() && (#[trigger] all[w]).expiry_date == expiry@;
        assert(all[w] == records@[w]@ && records@[w].expiry_date@ == expiry@);
        assert(on_calendar(all[w].expiry_date));
        assert forall|e: int| is_nearest_expiry(all, today@, now_hm, *cfg, e) implies e == expiry@ by {
            let v = choose|v: int| 0 <= v < all.len() && (#[trigger] all[v]).expiry_date == e;
            assert(expiry@ <= all[v].expiry_date);
            assert(e <= all[w].expiry_date);
        }
    }
    let option_type: &str = if calls {
        "CE"
    } else {
        "PE"
    };
    let scale: i128 = resolve_strike_scale(records, spot);
    let step: i128 = if index.strike_step.micros > 0 {
        index.strike_step.micros
    } else {
        FALLBACK_STEP
    };
    proof {
        nearest_error(spot@, step as int);
        nearest_shrinks(spot@, step as int, STRIKE_LIMIT as int);
        assert(nearest(spot@, step as int) * step == step * nearest(spot@, step as int))
            by (nonlinear_arith);
    }
    let atm: i128 = divide_nearest(spot.micros, step) * step;
    let ghost search = search_for(
        all,
        spot@,
        calls,
        index.strike_step@,
        ticks@,
        *cfg,
        expiry@,
        now_ms as int,
    );
    let mut considered: Vec<StrikeCandidate> = Vec::new();
    let mut i: usize = 0;
    while i < records.len()
        invariant
            i <= records@.len(),
            all == listed(records@),
            ticks.wf(),
            strikes_fit(all),
            0 < scale <= 1000,
            0 < step <= STRIKE_LIMIT,
            -2 * STRIKE_LIMIT <= atm <= 2 * STRIKE_LIMIT,
            cfg.max_spread_pct@ <= STRIKE_LIMIT,
            search.calls == calls,
            search.scale == scale,
            search.step == step,
            search.atm == atm,
            search.ticks == ticks@,
            search.cfg == *cfg,
            search.now_ms == now_ms,
            search.option_type == option_type@,
            search.expiry == expiry@,
            considered@.map_values(|c: StrikeCandidate| c@) == search.considered(
                all.take(i as int),
            ),
        decreases records@.len() - i,
    {
        let rec: &ScripRecord = records[i];
        let ghost before = considered@;
        proof {
            assert(all.take(i + 1).drop_last() =~= all.take(i as int));
            assert(all.take(i + 1).last() == all[i as int]);
            assert(all[i as int] == rec@);
            assert(-STRIKE_LIMIT <= all[i as int].strike_price <= STRIKE_LIMIT);
        }
        if same(rec.option_type.as_str(), option_type) && rec.expiry_date.day == expiry.day {
            match measure(rec, calls, scale, step, atm, ticks, cfg, now_ms, Ghost(search)) {
                Some(c) => {
                    considered.push(c);
                    assert(considered@.map_values(|c: StrikeCandidate| c@) =~= before.map_values(
                        |c: StrikeCandidate| c@,
                    ).push(c@));
                },
                None => {},
            }
        }
        i += 1;
    }
    assert(all.take(i as int) =~= all);
    let ghost cands = considered@.map_values(|c: StrikeCandidate| c@);
    if considered.len() == 0 {
        let mut reason: String = "no ".to_owned();
        reason.append(option_type);
        reason.append(" contracts listed near ATM ");
        push_amount0(&mut reason, Decimal { micros: atm });
        reason.append(" for expiry ");
        let day: String = show_date(expiry);
        reason.append(day.as_str());
        return StrikeSelection { chosen: None, considered, reason };
    }
    match choose_best(&considered) {
        Some(b) => {
            let best: StrikeCandidate = considered[b].clone();
            let reason: String = describe(index.symbol.as_str(), &best);
            assert(best@ == cands[b as int]);
            assert(is_choice(cands, b as int));
            StrikeSelection { chosen: Some(best), considered, reason }
        },
        None => {
            let mut reason: String = "all ".to_owned();
            push_count(&mut reason, considered.len());
            reason.append(" candidate strikes failed the liquidity gates (e.g. ");
            assert(cands[0].rejected is Some && cands[0] == considered@[0]@);
            match &considered[0].rejected {
                Some(sample) => {
                    reason.append(sample.as_str());
                },
                None => {
                    assert(false);
                },
            }
            reason.append(")");
            StrikeSelection { chosen: None, considered, reason }
        },
    }
}

/// Whether every listed expiry is a date of the calendar.
pub open spec fn expiries_wf(records: Seq<ScripView>) -> bool {
    forall|i: int| 0 <= i < records.len() ==> on_calendar((#[trigger] records[i]).expiry_date)
}

/// Whether the calendar reaches a day.
pub open spec fn on_calendar(day: int) -> bool {
    FIRST_DAY <= day <= LAST_DAY
}

/// A quote is tradeable exactly when it is there, is fresh, and has a premium
/// inside the band, enough open interest and a spread under the cap.
pub proof fn tradeable_quotes(tick: Option<MarketTick>, cfg: StrategyConfig, now_ms: int)
    ensures
        gate(tick, cfg, now_ms) is None <==> {
            &&& tick matches Some(t)
            &&& !t.stale(now_ms, cfg.max_tick_age_ms as int)
            &&& t.mid matches Some(p)
            &&& cfg.min_premium@ <= p@ <= cfg.max_premium@
            &&& t.open_interest matches Some(oi)
            &&& cfg.min_open_interest@ <= oi@
            &&& t.spread_pct matches Some(s)
            &&& s@ <= cfg.max_spread_pct@
        },
{
}

/// Everything considered belongs to the search: the side being bought, the
/// expiry, a positive strike inside the window.
pub proof fn considered_belongs(search: Search, records: Seq<ScripView>, i: int)
    requires
        0 <= i < search.considered(records).len(),
    ensures
        exists|k: int|
            0 <= k < records.len() && search.covers(#[trigger] records[k])
                && search.considered(records)[i] == search.candidate(records[k]),
    decreases records.len(),
{
    let rest = records.drop_last();
    let last = records.len() - 1;
    assert(records[last] == records.last());
    if search.covers(records.last()) && i == search.considered(rest).len() {
        assert(search.covers(records[last]) && search.considered(records)[i] == search.candidate(
            records[last],
        ));
    } else {
        considered_belongs(search, rest, i);
        let k = choose|k: int|
            0 <= k < rest.len() && search.covers(#[trigger] rest[k]) && search.considered(rest)[i]
                == search.candidate(rest[k]);
        assert(rest[k] == records[k]);
        assert(search.covers(records[k]) && search.considered(records)[i] == search.candidate(
            records[k],
        ));
    }
}

/// A chosen contract is of the side and expiry searched for, has a positive
/// strike inside the window, and passed every gate: a stale quote, or one with
/// anything missing, is never traded.
pub proof fn choice_is_tradeable(
    search: Search,
    records: Seq<ScripView>,
    symbol: Seq<char>,
    sel: StrikeSelection,
)
    requires
        is_outcome(search, records, symbol, sel),
        sel.chosen is Some,
    ensures
        exists|k: int|
            0 <= k < records.len() && search.covers(#[trigger] records[k]) && sel.chosen->0@
                == search.candidate(records[k]) && gate(
                search.quote(records[k]),
                search.cfg,
                search.now_ms,
            ) is None,
        sel.chosen->0@.option_type == search.option_type,
        sel.chosen->0@.expiry == search.expiry,
        sel.chosen->0@.strike > 0,
        -search.cfg.strike_search_steps <= sel.chosen->0@.otm_steps
            <= search.cfg.strike_search_steps,
{
    let cands = search.considered(records);
    let i = choose|i: int|
        #[trigger] is_choice(cands, i) && sel.chosen->0@ == cands[i] && sel.reason@ == choice_text(
            symbol,
            cands[i],
        );
    considered_belongs(search, records, i);
    let k = choose|k: int|
        0 <= k < records.len() && search.covers(#[trigger] records[k]) && cands[i]
            == search.candidate(records[k]);
    assert(search.covers(records[k]));
}

/// A selection without a choice is the right answer exactly when nothing
/// considered is tradeable.
pub proof fn no_choice_means_nothing_tradeable(
    search: Search,
    records: Seq<ScripView>,
    symbol: Seq<char>,
    sel: StrikeSelection,
)
    requires
        is_outcome(search, records, symbol, sel),
    ensures
        sel.chosen is None <==> forall|i: int|
            0 <= i < sel.candidates().len() ==> (#[trigger] sel.candidates()[i]).rejected is Some,
{
    let cands = search.considered(records);
    if sel.chosen is Some {
        let i = choose|i: int|
            #[trigger] is_choice(cands, i) && sel.chosen->0@ == cands[i] && sel.reason@
                == choice_text(symbol, cands[i]);
        assert(sel.candidates()[i].rejected is None);
    }
}

/// A chain whose median strike lies within half of spot keeps its strikes; the
/// same chain listed a hundred or a thousand times higher is scaled back by
/// just that factor.
pub proof fn multiples_are_normalised(strike: int, spot: int)
    requires
        spot > 0,
        2 * magnitude(strike - spot) <= spot,
    ensures
        best_scale(strike, spot) == 1,
        best_scale(100 * strike, spot) == 100,
        best_scale(1000 * strike, spot) == 1000,
        nearest(100 * strike, 100) == strike,
        nearest(1000 * strike, 1000) == strike,
{
    crate::decimal::nearest_exact(strike, 100);
    crate::decimal::nearest_exact(strike, 1000);
}

/// Of two contracts with spreads under ten percent the one nearer the preferred
/// moneyness scores lower; at equal distance the narrower spread does.
pub proof fn moneyness_dominates(otm1: int, spread1: int, otm2: int, spread2: int, preferred: int)
    requires
        0 <= spread1 < STEP_WEIGHT,
        0 <= spread2 < STEP_WEIGHT,
    ensures
        magnitude(otm1 - preferred) < magnitude(otm2 - preferred) ==> score_of(
            otm1,
            preferred,
            spread1,
        ) < score_of(otm2, preferred, spread2),
        magnitude(otm1 - preferred) == magnitude(otm2 - preferred) ==> (spread1 < spread2
            <==> score_of(otm1, preferred, spread1) < score_of(otm2, preferred, spread2)),
{
}

/// Past the expiry-day cutoff the expiry picked lies after today.
pub proof fn cutoff_rolls_forward(
    records: Seq<ScripView>,
    today: int,
    now_hm: (u32, u32),
    cfg: StrategyConfig,
    d: int,
)
    requires
        is_nearest_expiry(records, today, now_hm, cfg, d),
        reached(now_hm, cfg.expiry_day_no_entry_hour, cfg.expiry_day_no_entry_minute),
    ensures
        d > today,
{
}

/// A quote passes exactly when it is there and no older than allowed, with a
/// premium inside the band, enough open interest and a spread within the cap,
/// all of them reported.
pub proof fn quotes_that_pass(
    tick: Option<MarketTick>,
    cfg: &StrategyConfig,
    now_ms: i64,
    r: Option<String>,
)
    requires
        call_ensures(check_quote, (tick, cfg, now_ms), r),
    ensures
        r is None <==> {
            &&& tick matches Some(t)
            &&& now_ms - t.received_ms <= cfg.max_tick_age_ms
            &&& t.mid matches Some(p)
            &&& cfg.min_premium@ <= p@ <= cfg.max_premium@
            &&& t.open_interest matches Some(oi)
            &&& oi@ >= cfg.min_open_interest@
            &&& t.spread_pct matches Some(s)
            &&& s@ <= cfg.max_spread_pct@
        },
{
}

/// A refused quote is told the first thing that stands against it: its absence,
/// its age, its premium, its open interest, its spread, in this order, and in
/// each what is missing before what is out of bounds.
pub proof fn first_gate_is_named(
    tick: Option<MarketTick>,
    cfg: &StrategyConfig,
    now_ms: i64,
    why: String,
)
    requires
        call_ensures(check_quote, (tick, cfg, now_ms), Some(why)),
    ensures
        tick is None ==> why@ == "no live quote — contract not subscribed or never traded"@,
        tick matches Some(t) ==> {
            let fresh = now_ms - t.received_ms <= cfg.max_tick_age_ms;
            let priced = fresh && t.mid is Some;
            let dear = priced && t.mid->0@ >= cfg.min_premium@;
            let fair = dear && t.mid->0@ <= cfg.max_premium@;
            let known = fair && t.open_interest is Some;
            let liquid = known && t.open_interest->0@ >= cfg.min_open_interest@;
            let sided = liquid && t.spread_pct is Some;
            &&& !fresh ==> why@ == "quote is stale"@
            &&& fresh && !priced ==> why@ == "no premium quoted"@
            &&& priced && !dear ==> why@ == "premium ₹"@ + amount2_text(t.mid->0@) + " below ₹"@
                + amount2_text(cfg.min_premium@) + " floor — decays to zero too easily"@
            &&& dear && !fair ==> why@ == "premium ₹"@ + amount2_text(t.mid->0@) + " above ₹"@
                + amount2_text(cfg.max_premium@) + " cap — one lot would eat the budget"@
            &&& fair && !known ==> why@ == "open interest not reported"@
            &&& known && !liquid ==> why@ == "open interest "@ + amount0_text(
                t.open_interest->0@,
            ) + " below "@ + amount0_text(cfg.min_open_interest@)
                + " floor — too thin to exit cleanly"@
            &&& liquid && !sided ==> why@ == "no two-sided quote — cannot measure spread"@
            &&& sided ==> why@ == "spread "@ + amount2_text(t.spread_pct->0@) + "% exceeds "@
                + amount2_text(cfg.max_spread_pct@) + "% cap — round trip costs too much"@
        },
{
}

/// A quote is stale exactly when it is older than allowed.
pub proof fn staleness_is_age(t: MarketTick, now_ms: i64, max_age_ms: i64, r: bool)
    requires
        call_ensures(MarketTick::is_stale, (&t, now_ms, max_age_ms), r),
    ensures
        r <==> now_ms - t.received_ms > max_age_ms,
{
}

/// Whether a contract may be opened at a time of a day: it has not expired, has
/// the days to run that are asked for, and does not expire today past the cutoff
/// of the expiry day.
pub open spec fn may_open(
    expiry: int,
    today: int,
    now_hm: (u32, u32),
    cfg: StrategyConfig,
) -> bool {
    &&& expiry >= today
    &&& expiry - today >= cfg.min_days_to_expiry
    &&& expiry == today ==> now_hm.0 < cfg.expiry_day_no_entry_hour || (now_hm.0
        == cfg.expiry_day_no_entry_hour && now_hm.1 < cfg.expiry_day_no_entry_minute)
}

/// The expiry picked is a listed one that may be opened, and no listed one that
/// may be is nearer; there is none exactly when none may be opened.
pub proof fn nearest_open_expiry_is_picked(
    records: &[&ScripRecord],
    today: Date,
    now_hm: (u32, u32),
    cfg: &StrategyConfig,
    r: Option<Date>,
)
    requires
        call_ensures(select_expiry, (records, today, now_hm, cfg), r),
    ensures
        r matches Some(d) ==> {
            &&& may_open(d.day as int, today.day as int, now_hm, *cfg)
            &&& exists|i: int|
                0 <= i < records@.len() && (#[trigger] records@[i]).expiry_date.day == d.day
            &&& forall|i: int|
                0 <= i < records@.len() && may_open(
                    (#[trigger] records@[i]).expiry_date.day as int,
                    today.day as int,
                    now_hm,
                    *cfg,
                ) ==> d.day <= records@[i].expiry_date.day
        },
        r is None ==> forall|i: int|
            0 <= i < records@.len() ==> !may_open(
                (#[trigger] records@[i]).expiry_date.day as int,
                today.day as int,
                now_hm,
                *cfg,
            ),
{
    let all = listed(records@);
    assert forall|i: int| 0 <= i < records@.len() implies #[trigger] all[i] == records@[i]@ by {}
    if let Some(d) = r {
        let w = choose|w: int| 0 <= w < all.len() && (#[trigger] all[w]).expiry_date == d@;
        assert(records@[w].expiry_date.day == d.day);
        assert forall|i: int|
            0 <= i < records@.len() && may_open(
                (#[trigger] records@[i]).expiry_date.day as int,
                today.day as int,
                now_hm,
                *cfg,
            ) implies d.day <= records@[i].expiry_date.day by {
            assert(all[i] == records@[i]@);
            assert(expiry_open(all[i].expiry_date, today@, now_hm, *cfg));
        }
    }
    if r is None {
        assert(none_open(all, today@, now_hm, *cfg));
        assert forall|i: int| 0 <= i < records@.len() implies !may_open(
            (#[trigger] records@[i]).expiry_date.day as int,
            today.day as int,
            now_hm,
            *cfg,
        ) by {
            assert(all[i] == records@[i]@);
            assert(!expiry_open(all[i].expiry_date, today@, now_hm, *cfg));
        }
    }
}

/// The listed strikes above zero, in the order of the listing.
pub open spec fn strikes_above_zero(records: Seq<ScripView>) -> Seq<int> {
    records.map_values(|r: ScripView| r.strike_price).filter(|k: int| k > 0)
}

/// The strikes above zero, collected either way.
proof fn positive_strikes_agree(records: Seq<ScripView>)
    requires
        strikes_fit(records),
    ensures
        positive_strikes(records).len() == strikes_above_zero(records).len(),
        forall|i: int|
            0 <= i < positive_strikes(records).len() ==> (#[trigger] positive_strikes(records)[i])
                == strikes_above_zero(records)[i],
    decreases records.len(),
{
    reveal(Seq::filter);
    let prices = records.map_values(|r: ScripView| r.strike_price);
    if records.len() > 0 {
        let rest = records.drop_last();
        assert forall|i: int| 0 <= i < rest.len() implies -STRIKE_LIMIT <= (
        #[trigger] rest[i]).strike_price <= STRIKE_LIMIT by {
            assert(rest[i] == records[i]);
        }
        positive_strikes_agree(rest);
        assert(prices.drop_last() =~= rest.map_values(|r: ScripView| r.strike_price));
        assert(-STRIKE_LIMIT <= records[records.len() - 1].strike_price <= STRIKE_LIMIT);
    }
}

/// Amounts below a bound, counted either way.
proof fn below_agrees(s: Seq<i128>, t: Seq<int>, v: int)
    requires
        s.len() == t.len(),
        forall|i: int| 0 <= i < s.len() ==> (#[trigger] s[i]) == t[i],
    ensures
        below(s, v) == t.filter(|k: int| k < v).len(),
    decreases s.len(),
{
    reveal(Seq::filter);
    if s.len() > 0 {
        assert forall|i: int| 0 <= i < s.len() - 1 implies (#[trigger] s.drop_last()[i])
            == t.drop_last()[i] by {
            assert(s[i] == t[i]);
        }
        below_agrees(s.drop_last(), t.drop_last(), v);
        assert(s[s.len() - 1] == t[t.len() - 1]);
    }
}

/// How far a strike divided by `scale` lies from spot, times the scale.
pub open spec fn missed_by(strike: int, spot: int, scale: int) -> int {
    if strike >= scale * spot {
        strike - scale * spot
    } else {
        scale * spot - strike
    }
}

/// The chain's factor is 1, 100 or 1000, whichever divides the median of the
/// strikes above zero to land closest to spot, and the smallest of those that
/// land equally close. The median has at most half of the strikes below it, and
/// more than half at or below it. Without a spot or a strike the factor is 1.
pub proof fn scale_lands_nearest_spot(
    records: &[&ScripRecord],
    spot: Decimal,
    scale: i128,
    median_strike: int,
)
    requires
        call_ensures(resolve_strike_scale, (records, spot), scale),
        strikes_fit(listed(records@)),
        ({
            let strikes = strikes_above_zero(listed(records@));
            strikes.len() > 0 ==> 2 * strikes.filter(|k: int| k < median_strike).len()
                <= strikes.len() < 2 * strikes.filter(|k: int| k < median_strike + 1).len()
        }),
    ensures
        scale == 1 || scale == 100 || scale == 1000,
        spot@ <= 0 || strikes_above_zero(listed(records@)).len() == 0 ==> scale == 1,
        spot@ > 0 && strikes_above_zero(listed(records@)).len() > 0 ==> forall|other: int|
            other == 1 || other == 100 || other == 1000 ==> {
                let this = missed_by(median_strike, spot@, scale as int) * other;
                let that = #[trigger] missed_by(median_strike, spot@, other) * scale;
                this <= that && (other < scale ==> this < that)
            },
{
    let all = listed(records@);
    let s = positive_strikes(all);
    let t = strikes_above_zero(all);
    positive_strikes_agree(all);
    if spot@ > 0 && t.len() > 0 {
        below_agrees(s, t, median_strike);
        below_agrees(s, t, median_strike + 1);
        median_unique(s, median_strike);
        let m = median_strike;
        assert(scale == best_scale(m, spot@));
        assert(missed_by(m, spot@, 1) == magnitude(m - 1 * spot@));
        assert(missed_by(m, spot@, 100) == magnitude(m - 100 * spot@));
        assert(missed_by(m, spot@, 1000) == magnitude(m - 1000 * spot@));
    }
}

/// How many steps out of the money a strike lies for the side being bought, to
/// the nearest step and held within 32 bits: above the money for a call, below it
/// for a put.
pub open spec fn steps_out(strike: int, atm: int, step: int, calls: bool) -> int {
    let away = nearest(strike - atm, step);
    let held = if away > 0x7fff_ffff {
        0x7fff_ffff
    } else if away < -0x8000_0000 {
        -0x8000_0000
    } else {
        away
    };
    if calls {
        held
    } else {
        -held
    }
}

/// Whether a listed contract is of a side and an expiry, with a true strike above
/// zero and within `reach` steps of the money.
pub open spec fn within_reach(
    rec: ScripView,
    calls: bool,
    expiry: int,
    scale: int,
    step: int,
    atm: int,
    reach: int,
) -> bool {
    let strike = nearest(rec.strike_price, scale);
    &&& rec.option_type == if calls {
        "CE"@
    } else {
        "PE"@
    }
    &&& rec.expiry_date == expiry
    &&& strike > 0
    &&& -reach <= steps_out(strike, atm, step, calls) <= reach
}

/// Contracts that are looked at, collected either way.
proof fn considered_agrees(search: Search, records: Seq<ScripView>)
    ensures
        ({
            let found = records.filter(|r: ScripView| search.covers(r));
            &&& search.considered(records).len() == found.len()
            &&& forall|i: int|
                0 <= i < found.len() ==> (#[trigger] search.considered(records)[i])
                    == search.candidate(found[i])
        }),
    decreases records.len(),
{
    reveal(Seq::filter);
    if records.len() > 0 {
        considered_agrees(search, records.drop_last());
    }
}

/// Predicates that agree select the same.
proof fn filter_agrees(
    s: Seq<ScripView>,
    p: spec_fn(ScripView) -> bool,
    q: spec_fn(ScripView) -> bool,
)
    requires
        forall|r: ScripView| #[trigger] p(r) == q(r),
    ensures
        s.filter(p) == s.filter(q),
    decreases s.len(),
{
    reveal(Seq::filter);
    if s.len() > 0 {
        filter_agrees(s.drop_last(), p, q);
    }
}

/// The search of a selection, once the expiry and the scale are known.
proof fn selection_search(
    records: &[&ScripRecord],
    spot: Decimal,
    direction: i8,
    index: &IndexSpec,
    ticks: &TickStore,
    cfg: &StrategyConfig,
    today: Date,
    now_hm: (u32, u32),
    now_ms: i64,
    sel: StrikeSelection,
    expiry: Date,
    scale: i128,
) -> (search: Search)
    requires
        call_ensures(
            select_strike,
            (records, spot, direction, index, ticks, cfg, today, now_hm, now_ms),
            sel,
        ),
        call_ensures(select_expiry, (records, today, now_hm, cfg), Some(expiry)),
        call_ensures(resolve_strike_scale, (records, spot), scale),
        direction == 1 || direction == -1,
        spot@ > 0,
    ensures
        is_outcome(search, listed(records@), index.symbol@, sel),
        search.calls == (direction == 1),
        search.option_type == if direction == 1 {
            "CE"@
        } else {
            "PE"@
        },
        search.expiry == expiry.day,
        search.scale == scale,
        search.step == if index.strike_step@ > 0 {
            index.strike_step@
        } else {
            50_000_000
        },
        search.atm == nearest(spot@, search.step) * search.step,
        search.ticks == ticks@,
        search.cfg == *cfg,
        search.now_ms == now_ms,
{
    assert(is_nearest_expiry(listed(records@), today@, now_hm, *cfg, expiry@));
    search_for(
        listed(records@),
        spot@,
        direction == 1,
        index.strike_step@,
        ticks@,
        *cfg,
        expiry@,
        now_ms as int,
    )
}

/// Everything considered by a selection: the listed contracts within reach of the
/// money, all of them and in the order of the listing. Calls are considered for a
/// view up and puts for a view down. The money is the strike of the ladder
/// nearest to spot.
pub proof fn contracts_within_reach_are_considered(
    records: &[&ScripRecord],
    spot: Decimal,
    direction: i8,
    index: &IndexSpec,
    ticks: &TickStore,
    cfg: &StrategyConfig,
    today: Date,
    now_hm: (u32, u32),
    now_ms: i64,
    sel: StrikeSelection,
    expiry: Date,
    scale: i128,
)
    requires
        call_ensures(
            select_strike,
            (records, spot, direction, index, ticks, cfg, today, now_hm, now_ms),
            sel,
        ),
        call_ensures(select_expiry, (records, today, now_hm, cfg), Some(expiry)),
        call_ensures(resolve_strike_scale, (records, spot), scale),
        direction == 1 || direction == -1,
        spot@ > 0,
    ensures
        ({
            let step = if index.strike_step@ > 0 {
                index.strike_step@
            } else {
                50_000_000
            };
            let atm = nearest(spot@, step) * step;
            let calls = direction == 1;
            let reach = cfg.strike_search_steps as int;
            let found = listed(records@).filter(
                |r: ScripView|
                    within_reach(r, calls, expiry.day as int, scale as int, step, atm, reach),
            );
            &&& sel.considered@.len() == found.len()
            &&& forall|i: int|
                0 <= i < found.len() ==> {
                    let c = #[trigger] sel.considered@[i];
                    let rec = found[i];
                    let key = rec.exchange_segment_code + "|"@ + rec.instrument_token;
                    let strike = nearest(rec.strike_price, scale as int);
                    &&& c.trading_symbol@ == rec.trading_symbol
                    &&& c.instrument_token@ == rec.instrument_token
                    &&& c.exchange_segment@ == rec.exchange_segment_code
                    &&& c.option_type@ == rec.option_type
                    &&& c.expiry.day == rec.expiry_date
                    &&& c.strike@ == strike
                    &&& c.otm_steps == steps_out(strike, atm, step, calls)
                    &&& c.lot_size >= 1 && c.lot_size >= rec.lot_size
                    &&& c.lot_size == 1 || c.lot_size == rec.lot_size
                    &&& rec.tick_size > 0 ==> c.tick_size@ == rec.tick_size
                    &&& rec.tick_size <= 0 ==> c.tick_size@ == 50_000
                    &&& c.ws_key@ == key
                    &&& !ticks@.contains_key(key) ==> c.premium is None && c.open_interest is None
                        && c.spread_pct is None
                    &&& ticks@.contains_key(key) ==> c.premium == ticks@[key].mid
                        && c.open_interest == ticks@[key].open_interest && c.spread_pct
                        == ticks@[key].spread_pct
                }
        }),
{
    let search = selection_search(
        records,
        spot,
        direction,
        index,
        ticks,
        cfg,
        today,
        now_hm,
        now_ms,
        sel,
        expiry,
        scale,
    );
    let all = listed(records@);
    let step = search.step;
    let atm = search.atm;
    let calls = direction == 1;
    let reach = cfg.strike_search_steps as int;
    filter_agrees(
        all,
        |r: ScripView| search.covers(r),
        |r: ScripView| within_reach(r, calls, expiry.day as int, scale as int, step, atm, reach),
    );
    considered_agrees(search, all);
    let cands = search.considered(all);
    let found = all.filter(|r: ScripView| search.covers(r));
    assert(sel.candidates() == cands);
    assert forall|i: int| 0 <= i < found.len() implies (#[trigger] sel.considered@[i])@
        == search.candidate(found[i]) by {
        assert(sel.candidates()[i] == sel.considered@[i]@);
        assert(cands[i] == search.candidate(found[i]));
    }
}

/// A contract considered is refused just when, and for the reason that, its
/// quote is.
pub proof fn candidates_are_refused_as_their_quotes(
    records: &[&ScripRecord],
    spot: Decimal,
    direction: i8,
    index: &IndexSpec,
    ticks: &TickStore,
    cfg: &StrategyConfig,
    today: Date,
    now_hm: (u32, u32),
    now_ms: i64,
    sel: StrikeSelection,
    expiry: Date,
    scale: i128,
    i: int,
    tick: Option<MarketTick>,
    why: Option<String>,
)
    requires
        call_ensures(
            select_strike,
            (records, spot, direction, index, ticks, cfg, today, now_hm, now_ms),
            sel,
        ),
        call_ensures(select_expiry, (records, today, now_hm, cfg), Some(expiry)),
        call_ensures(resolve_strike_scale, (records, spot), scale),
        direction == 1 || direction == -1,
        spot@ > 0,
        0 <= i < sel.considered@.len(),
        tick == if ticks@.contains_key(sel.considered@[i].ws_key@) {
            Some(ticks@[sel.considered@[i].ws_key@])
        } else {
            None
        },
        call_ensures(check_quote, (tick, cfg, now_ms), why),
    ensures
        match (sel.considered@[i].rejected, why) {
            (Some(a), Some(b)) => a@ == b@,
            (None, None) => true,
            _ => false,
        },
{
    let search = selection_search(
        records,
        spot,
        direction,
        index,
        ticks,
        cfg,
        today,
        now_hm,
        now_ms,
        sel,
        expiry,
        scale,
    );
    let all = listed(records@);
    considered_agrees(search, all);
    assert(sel.candidates()[i] == sel.considered@[i]@);
    let found = all.filter(|r: ScripView| search.covers(r));
    assert(search.considered(all)[i] == search.candidate(found[i]));
}

/// How a contract ranks: ten points for each step away from the preferred
/// moneyness, and its spread.
pub open spec fn rank(c: StrikeCandidate, preferred: int) -> int {
    let away = if c.otm_steps >= preferred {
        c.otm_steps - preferred
    } else {
        preferred - c.otm_steps
    };
    10_000_000 * away + c.spread_pct->0@
}

/// The contract chosen is one of those considered that passed; none of them ranks
/// lower, and none listed before it ranks as low. Nothing is chosen exactly when
/// none passed.
pub proof fn lowest_rank_is_chosen(
    records: &[&ScripRecord],
    spot: Decimal,
    direction: i8,
    index: &IndexSpec,
    ticks: &TickStore,
    cfg: &StrategyConfig,
    today: Date,
    now_hm: (u32, u32),
    now_ms: i64,
    sel: StrikeSelection,
    expiry: Date,
    scale: i128,
)
    requires
        call_ensures(
            select_strike,
            (records, spot, direction, index, ticks, cfg, today, now_hm, now_ms),
            sel,
        ),
        call_ensures(select_expiry, (records, today, now_hm, cfg), Some(expiry)),
        call_ensures(resolve_strike_scale, (records, spot), scale),
        direction == 1 || direction == -1,
        spot@ > 0,
    ensures
        sel.chosen is None <==> forall|j: int|
            0 <= j < sel.considered@.len() ==> (#[trigger] sel.considered@[j]).rejected is Some,
        sel.chosen matches Some(c) ==> exists|i: int|
            {
                let preferred = cfg.preferred_otm_steps as int;
                &&& 0 <= i < sel.considered@.len()
                &&& (#[trigger] sel.considered@[i])@ == c@
                &&& c.rejected is None
                &&& c.spread_pct is Some
                &&& c.score@ == rank(c, preferred)
                &&& forall|j: int|
                    0 <= j < sel.considered@.len() && (#[trigger] sel.considered@[j]).rejected
                        is None ==> rank(c, preferred) <= rank(sel.considered@[j], preferred) && (j
                        < i ==> rank(c, preferred) < rank(sel.considered@[j], preferred))
            },
{
    let search = selection_search(
        records,
        spot,
        direction,
        index,
        ticks,
        cfg,
        today,
        now_hm,
        now_ms,
        sel,
        expiry,
        scale,
    );
    let all = listed(records@);
    let preferred = cfg.preferred_otm_steps as int;
    considered_agrees(search, all);
    let cands = search.considered(all);
    let found = all.filter(|r: ScripView| search.covers(r));
    assert forall|j: int| 0 <= j < sel.considered@.len() implies (
    #[trigger] sel.considered@[j])@ == cands[j] && (sel.considered@[j].rejected is None
        ==> cands[j].score == rank(sel.considered@[j], preferred)
        && sel.considered@[j].spread_pct is Some) by {
        assert(sel.candidates()[j] == sel.considered@[j]@);
        assert(cands[j] == search.candidate(found[j]));
        if cands[j].rejected is None {
            tradeable_quotes(search.quote(found[j]), search.cfg, search.now_ms);
            let steps = cands[j].otm_steps;
            assert(magnitude(steps - preferred) * STEP_WEIGHT == 10_000_000 * magnitude(
                steps - preferred,
            ));
        }
    }
    if sel.chosen is Some {
        let c = sel.chosen->0;
        let i = choose|i: int|
            #[trigger] is_choice(cands, i) && c@ == cands[i] && sel.reason@ == choice_text(
                index.symbol@,
                cands[i],
            );
        assert(sel.considered@[i]@ == cands[i]);
        assert(c@.rejected is None);
        assert(c@.spread_pct == c.spread_pct && c@.otm_steps == c.otm_steps);
        assert(sel.considered@[i].rejected is None);
        assert forall|j: int|
            0 <= j < sel.considered@.len() && (#[trigger] sel.considered@[j]).rejected
                is None implies rank(c, preferred) <= rank(sel.considered@[j], preferred) && (j < i
            ==> rank(c, preferred) < rank(sel.considered@[j], preferred)) by {
            assert(cands[j].rejected is None);
        }
    } else {
        assert forall|j: int| 0 <= j < sel.considered@.len() implies (
        #[trigger] sel.considered@[j]).rejected is Some by {
            assert(cands[j].rejected is Some);
        }
    }
}

/// What is said of a selection: of the contract chosen, its strike, side,
/// moneyness, premium, open interest and spread; without one, how many were
/// refused and why the first was, or that none was within reach of the money.
pub proof fn selections_are_explained(
    records: &[&ScripRecord],
    spot: Decimal,
    direction: i8,
    index: &IndexSpec,
    ticks: &TickStore,
    cfg: &StrategyConfig,
    today: Date,
    now_hm: (u32, u32),
    now_ms: i64,
    sel: StrikeSelection,
    expiry: Date,
    scale: i128,
)
    requires
        call_ensures(
            select_strike,
            (records, spot, direction, index, ticks, cfg, today, now_hm, now_ms),
            sel,
        ),
        call_ensures(select_expiry, (records, today, now_hm, cfg), Some(expiry)),
        call_ensures(resolve_strike_scale, (records, spot), scale),
        direction == 1 || direction == -1,
        spot@ > 0,
    ensures
        sel.chosen matches Some(c) ==> c.premium is Some && c.open_interest is Some && c.spread_pct
            is Some && sel.reason@ == index.symbol@ + " "@ + amount0_text(c.strike@) + " "@
            + c.option_type@ + " — "@ + int_text(c.otm_steps as int) + " steps OTM, premium ₹"@
            + amount2_text(c.premium->0@) + ", OI "@ + amount0_text(c.open_interest->0@)
            + ", spread "@ + amount2_text(c.spread_pct->0@) + "%"@,
        sel.considered@.len() == 0 ==> sel.reason@ == "no "@ + (if direction == 1 {
            "CE"@
        } else {
            "PE"@
        }) + " contracts listed near ATM "@ + amount0_text(
            ({
                let step = if index.strike_step@ > 0 {
                    index.strike_step@
                } else {
                    50_000_000
                };
                nearest(spot@, step) * step
            }),
        ) + " for expiry "@ + date_text(expiry.day as int),
        sel.chosen is None && sel.considered@.len() > 0 ==> sel.considered@[0].rejected is Some
            && sel.reason@ == "all "@ + nat_text(sel.considered@.len() as int)
            + " candidate strikes failed the liquidity gates (e.g. "@
            + sel.considered@[0].rejected->0@ + ")"@,
{
    let search = selection_search(
        records,
        spot,
        direction,
        index,
        ticks,
        cfg,
        today,
        now_hm,
        now_ms,
        sel,
        expiry,
        scale,
    );
    let all = listed(records@);
    considered_agrees(search, all);
    let cands = search.considered(all);
    let found = all.filter(|r: ScripView| search.covers(r));
    assert(sel.candidates() == cands);
    assert(sel.candidates().len() == sel.considered@.len());
    if sel.chosen is Some {
        let c = sel.chosen->0;
        let i = choose|i: int|
            #[trigger] is_choice(cands, i) && c@ == cands[i] && sel.reason@ == choice_text(
                index.symbol@,
                cands[i],
            );
        assert(cands[i] == search.candidate(found[i]));
        tradeable_quotes(search.quote(found[i]), search.cfg, search.now_ms);
        assert(c@.premium == c.premium && c@.open_interest == c.open_interest);
    } else if cands.len() > 0 {
        assert(sel.candidates()[0] == sel.considered@[0]@);
        assert(cands[0].rejected is Some);
    }
}

/// Nothing is selected without a view, without a spot price, or without an expiry
/// that may be opened, and the first of these is named.
pub proof fn nothing_is_selected_blindly(
    records: &[&ScripRecord],
    spot: Decimal,
    direction: i8,
    index: &IndexSpec,
    ticks: &TickStore,
    cfg: &StrategyConfig,
    today: Date,
    now_hm: (u32, u32),
    now_ms: i64,
    sel: StrikeSelection,
)
    requires
        call_ensures(
            select_strike,
            (records, spot, direction, index, ticks, cfg, today, now_hm, now_ms),
            sel,
        ),
    ensures
        ({
            let view = direction == 1 || direction == -1;
            let closed = forall|i: int|
                0 <= i < records@.len() ==> !may_open(
                    (#[trigger] records@[i]).expiry_date.day as int,
                    today.day as int,
                    now_hm,
                    *cfg,
                );
            &&& !view || spot@ <= 0 || closed ==> sel.chosen is None && sel.considered@.len() == 0
            &&& !view ==> sel.reason@ == "no directional view — nothing to select"@
            &&& view && spot@ <= 0 ==> sel.reason@ == "spot price unavailable"@
            &&& view && spot@ > 0 && closed ==> sel.reason@
                == "no tradeable expiry (expiry-day cutoff passed or none listed)"@
        }),
{
    if forall|i: int|
        0 <= i < records@.len() ==> !may_open(
            (#[trigger] records@[i]).expiry_date.day as int,
            today.day as int,
            now_hm,
            *cfg,
        ) {
        assert forall|i: int| 0 <= i < records@.len() implies !expiry_open(
            (#[trigger] records@[i]).expiry_date@,
            today@,
            now_hm,
            *cfg,
        ) by {
            assert(!may_open(
                records@[i].expiry_date.day as int,
                today.day as int,
                now_hm,
                *cfg,
            ));
        }
    }
}

} // verus!
