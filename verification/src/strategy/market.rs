//! What the feed and the contract list supply: quotes and contracts.

use crate::date::Date;
use crate::decimal::Decimal;
use vstd::prelude::*;
use vstd::string::*;

verus! {

/// The latest quote of one contract.
#[derive(Debug, Clone, Copy, PartialEq, Eq, Structural)]
pub struct MarketTick {
    /// Middle of the quote, or the last trade.
    pub mid: Option<Decimal>,
    pub open_interest: Option<Decimal>,
    /// Spread of a two-sided quote, in percent.
    pub spread_pct: Option<Decimal>,
    /// Local receive time.
    pub received_ms: i64,
}

impl MarketTick {
    /// Whether the quote is older than `max_age_ms`.
    pub open spec fn stale(self, now_ms: int, max_age_ms: int) -> bool {
        now_ms - self.received_ms > max_age_ms
    }

    /// Whether the quote is older than `max_age_ms`.
    pub fn is_stale(&self, now_ms: i64, max_age_ms: i64) -> (r: bool)
        ensures
            r == self.stale(now_ms as int, max_age_ms as int),
    {
        now_ms as i128 - self.received_ms as i128 > max_age_ms as i128
    }
}

/// The latest quotes by feed key.
#[derive(Debug)]
pub struct TickStore {
    entries: Vec<(String, MarketTick)>,
}

/// Whether the quote of `key` stands at `i`.
pub open spec fn keyed(entries: Seq<(String, MarketTick)>, key: Seq<char>, i: int) -> bool {
    0 <= i < entries.len() && entries[i].0@ == key
}

impl View for TickStore {
    type V = Map<Seq<char>, MarketTick>;

    closed spec fn view(&self) -> Map<Seq<char>, MarketTick> {
        Map::new(
            |key: Seq<char>| exists|i: int| keyed(self.entries@, key, i),
            |key: Seq<char>| self.entries@[choose|i: int| keyed(self.entries@, key, i)].1,
        )
    }
}

impl TickStore {
    /// Every key stands once.
    pub closed spec fn wf(&self) -> bool {
        forall|i: int, j: int|
            0 <= i < j < self.entries@.len() ==> self.entries@[i].0@ != self.entries@[j].0@
    }

    /// A store without quotes.
    pub fn new() -> (s: TickStore)
        ensures
            s.wf(),
            s@ == Map::<Seq<char>, MarketTick>::empty(),
    {
        let s: TickStore = TickStore { entries: Vec::new() };
        assert(s@ =~= Map::<Seq<char>, MarketTick>::empty());
        s
    }

    /// Where the quote of `key` stands.
    fn position(&self, key: &str) -> (p: Option<usize>)
        ensures
            match p {
                Some(i) => keyed(self.entries@, key@, i as int),
                None => forall|i: int| !keyed(self.entries@, key@, i),
            },
    {
        let mut i: usize = 0;
        while i < self.entries.len()
            invariant
                i <= self.entries@.len(),
                forall|k: int| 0 <= k < i ==> !keyed(self.entries@, key@, k),
            decreases self.entries@.len() - i,
        {
            if crate::text::same(self.entries[i].0.as_str(), key) {
                return Some(i);
            }
            i += 1;
        }
        None
    }

    /// The quote of `key`.
    pub fn get(&self, key: &str) -> (t: Option<MarketTick>)
        requires
            self.wf(),
        ensures
            t == (if self@.contains_key(key@) {
                Some(self@[key@])
            } else {
                None
            }),
    {
        match self.position(key) {
            Some(i) => {
                proof {
                    let j = choose|j: int| keyed(self.entries@, key@, j);
                    assert(keyed(self.entries@, key@, i as int));
                    assert(i == j);
                }
                Some(self.entries[i].1)
            },
            None => None,
        }
    }

    /// Sets the quote of `key`.
    pub fn insert(&mut self, key: String, tick: MarketTick)
        requires
            old(self).wf(),
        ensures
            final(self).wf(),
            final(self)@ == old(self)@.insert(key@, tick),
    {
        let ghost text = key@;
        let ghost before = self.entries@;
        let found: Option<usize> = self.position(key.as_str());
        let ghost at: int = match found {
            Some(i) => i as int,
            None => before.len() as int,
        };
        match found {
            Some(i) => {
                self.entries.set(i, (key, tick));
            },
            None => {
                self.entries.push((key, tick));
            },
        }
        proof {
            let after = self.entries@;
            assert(after[at].0@ == text && after[at].1 == tick);
            assert forall|k: int| 0 <= k < before.len() && k != at implies #[trigger] after[k]
                == before[k] by {}
            assert forall|i: int, j: int| 0 <= i < j < after.len() implies after[i].0@
                != after[j].0@ by {
                if i != at && j != at {
                    assert(before[i].0@ != before[j].0@);
                } else if found is Some {
                    assert(before[i].0@ != before[j].0@);
                } else {
                    assert(!keyed(before, text, i));
                }
            }
            assert(self@ =~= old(self)@.insert(text, tick)) by {
                assert forall|k: Seq<char>| #[trigger] self@.contains_key(k) <==> old(
                    self,
                )@.insert(text, tick).contains_key(k) by {
                    if self@.contains_key(k) && k != text {
                        let i = choose|i: int| keyed(after, k, i);
                        assert(keyed(before, k, i));
                    }
                    if old(self)@.contains_key(k) && k != text {
                        let i = choose|i: int| keyed(before, k, i);
                        assert(keyed(after, k, i));
                    }
                    if k == text {
                        assert(keyed(after, text, at));
                    }
                }
                assert forall|k: Seq<char>| #[trigger] self@.contains_key(k) implies self@[k]
                    == old(self)@.insert(text, tick)[k] by {
                    let i = choose|i: int| keyed(after, k, i);
                    if k == text {
                        assert(keyed(after, text, at));
                        assert(i == at);
                    } else {
                        assert(keyed(before, k, i));
                        let j = choose|j: int| keyed(before, k, j);
                        assert(i == j);
                    }
                }
            }
        }
    }
}

/// One listed contract.
#[derive(Debug, Clone)]
pub struct ScripRecord {
    pub instrument_token: String,
    pub trading_symbol: String,
    pub symbol_name: String,
    pub exchange_segment_code: String,
    /// Strike as listed: some segments list it at a multiple.
    pub strike_price: Decimal,
    /// `"CE"` for a call, `"PE"` for a put.
    pub option_type: String,
    pub expiry_date: Date,
    pub lot_size: i32,
    pub tick_size: Decimal,
}

/// What a contract record says.
pub struct ScripView {
    pub instrument_token: Seq<char>,
    pub trading_symbol: Seq<char>,
    pub symbol_name: Seq<char>,
    pub exchange_segment_code: Seq<char>,
    pub strike_price: int,
    pub option_type: Seq<char>,
    pub expiry_date: int,
    pub lot_size: int,
    pub tick_size: int,
}

impl View for ScripRecord {
    type V = ScripView;

    open spec fn view(&self) -> ScripView {
        ScripView {
            instrument_token: self.instrument_token@,
            trading_symbol: self.trading_symbol@,
            symbol_name: self.symbol_name@,
            exchange_segment_code: self.exchange_segment_code@,
            strike_price: self.strike_price@,
            option_type: self.option_type@,
            expiry_date: self.expiry_date@,
            lot_size: self.lot_size as int,
            tick_size: self.tick_size@,
        }
    }
}

/// What some contract records say.
pub open spec fn listed(records: Seq<&ScripRecord>) -> Seq<ScripView> {
    records.map_values(|r: &ScripRecord| r@)
}

/// A store gives back the quote that was set last for a key, and for every other
/// key what it gave before.
pub proof fn quotes_are_given_back(
    key: String,
    tick: MarketTick,
    asked: &str,
    before: Option<MarketTick>,
    after: Option<MarketTick>,
)
    ensures
        forall|s: &mut TickStore| #![trigger call_ensures(TickStore::insert, (s, key, tick), ())]
            call_ensures(TickStore::insert, (s, key, tick), ()) && call_ensures(
                TickStore::get,
                (&*s, asked),
                before,
            ) && call_ensures(TickStore::get, (&*final(s), asked), after) ==> {
                &&& asked@ == key@ ==> after == Some(tick)
                &&& asked@ != key@ ==> after == before
            },
        forall|s: TickStore|
            #![trigger call_ensures(TickStore::new, (), s)]
            call_ensures(TickStore::new, (), s) && call_ensures(
                TickStore::get,
                (&s, asked),
                before,
            ) ==> before is None,
{
}

/// A listing says of each contract what its record says, in the order of the
/// records.
pub proof fn listings_say_what_records_say(records: Seq<&ScripRecord>, i: int)
    requires
        0 <= i < records.len(),
    ensures
        listed(records).len() == records.len(),
        ({
            let rec = *records[i];
            let said = listed(records)[i];
            &&& said.instrument_token == rec.instrument_token@
            &&& said.trading_symbol == rec.trading_symbol@
            &&& said.symbol_name == rec.symbol_name@
            &&& said.exchange_segment_code == rec.exchange_segment_code@
            &&& said.strike_price == rec.strike_price.micros
            &&& said.option_type == rec.option_type@
            &&& said.expiry_date == rec.expiry_date.day
            &&& said.lot_size == rec.lot_size
            &&& said.tick_size == rec.tick_size.micros
        }),
{
}

} // verus!
