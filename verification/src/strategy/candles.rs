//! Minute-bar aggregation from the live tick stream.
//!
//! # Volume handling
//!
//! The feed reports cumulative session volume. Bar volume is the difference
//! between consecutive readings, and it is zero where that difference cannot
//! be trusted: when the counter went down, and for the first reading, which
//! only sets the baseline. An inflated bar would read as a breakout, so
//! under-reporting is the safe side.

use crate::decimal::{divide_nearest, magnitude, nearest, Decimal};
use std::collections::VecDeque;
use vstd::prelude::*;

verus! {

/// A million units: no ordinary price lies beyond it.
pub const PRICE_LIMIT: i128 = 1_000_000_000_000;

/// Minutes in one day.
pub const DAY_MINUTES: i64 = 1440;

/// Milliseconds in one minute.
pub const MINUTE_MS: i64 = 60_000;

/// The larger of two integers.
pub open spec fn larger(a: int, b: int) -> int {
    if a >= b {
        a
    } else {
        b
    }
}

/// One closed (or in-progress) minute bar.
#[derive(Debug, Clone, Copy, PartialEq, Eq, Structural)]
pub struct Candle {
    /// Bar start, in whole minutes since the Unix epoch.
    pub minute: i64,
    pub open: Decimal,
    pub high: Decimal,
    pub low: Decimal,
    pub close: Decimal,
    /// Quantity traded within this bar; zero when the feed carries none.
    pub volume: u64,
    /// Number of ticks folded into the bar.
    pub ticks: u32,
}

impl Candle {
    /// Whether the high, the low and the close lie within `bound`.
    pub open spec fn lies_within(self, bound: int) -> bool {
        &&& -bound <= self.high@ <= bound
        &&& -bound <= self.low@ <= bound
        &&& -bound <= self.close@ <= bound
    }

    /// Whether the sum of the high, the low and the close can be formed.
    pub open spec fn sum_fits(self) -> bool {
        &&& i128::MIN <= self.high@ + self.low@ <= i128::MAX
        &&& i128::MIN < self.price_sum() <= i128::MAX
    }

    /// Whether the low and the high enclose the open and the close.
    pub open spec fn well_shaped(self) -> bool {
        &&& self.low@ <= self.open@ <= self.high@
        &&& self.low@ <= self.close@ <= self.high@
    }

    /// The bar that one price opens.
    pub open spec fn opened(minute: int, price: Decimal, volume: int) -> Candle {
        Candle {
            minute: minute as i64,
            open: price,
            high: price,
            low: price,
            close: price,
            volume: volume as u64,
            ticks: 1,
        }
    }

    /// The bar after one more price of the same minute.
    pub open spec fn folded(self, price: Decimal, volume: int) -> Candle {
        Candle {
            minute: self.minute,
            open: self.open,
            high: if price@ > self.high@ {
                price
            } else {
                self.high
            },
            low: if price@ < self.low@ {
                price
            } else {
                self.low
            },
            close: price,
            volume: (self.volume + volume) as u64,
            ticks: (self.ticks + 1) as u32,
        }
    }

    /// The high, the low and the close together: three typical prices.
    pub open spec fn price_sum(self) -> int {
        self.high@ + self.low@ + self.close@
    }

    /// `(high + low + close) / 3`.
    pub open spec fn typical_micros(self) -> int {
        nearest(self.price_sum(), 3)
    }

    /// The true range of the bar against the close before it.
    pub open spec fn true_range_micros(self, prev_close: Option<Decimal>) -> int {
        let own = self.high@ - self.low@;
        match prev_close {
            Some(pc) => larger(
                larger(own, magnitude(self.high@ - pc@)),
                magnitude(self.low@ - pc@),
            ),
            None => own,
        }
    }

    /// The high, the low and the close together.
    pub fn sum_of_prices(&self) -> (sum: i128)
        requires
            self.sum_fits(),
        ensures
            sum == self.price_sum(),
    {
        self.high.micros + self.low.micros + self.close.micros
    }

    /// Typical price `(H + L + C) / 3`, the standard VWAP input.
    pub fn typical(&self) -> (t: Decimal)
        requires
            self.sum_fits(),
        ensures
            t@ == self.typical_micros(),
    {
        Decimal { micros: divide_nearest(self.sum_of_prices(), 3) }
    }

    /// True range against the previous bar's close (Wilder). Falls back to the
    /// bar's own range when there is no previous close.
    pub fn true_range(&self, prev_close: Option<Decimal>) -> (r: Decimal)
        requires
            i128::MIN <= self.true_range_micros(prev_close) <= i128::MAX,
        ensures
            r@ == self.true_range_micros(prev_close),
    {
        match prev_close {
            Some(pc) => {
                let above: i128 = distance(self.high, pc);
                let below: i128 = distance(self.low, pc);
                let mut range: i128 = if above > below {
                    above
                } else {
                    below
                };
                if self.high.micros > self.low.micros {
                    let own: i128 = self.high.micros - self.low.micros;
                    if own > range {
                        range = own;
                    }
                }
                Decimal { micros: range }
            },
            None => Decimal { micros: self.high.micros - self.low.micros },
        }
    }
}

/// A true range spans the bar and the close before it: it is never less than
/// the bar's own range, and equals it when that close lies inside the bar.
pub proof fn true_range_spans(c: Candle, prev_close: Decimal)
    requires
        c.low@ <= c.high@,
    ensures
        c.true_range_micros(Some(prev_close)) == larger(c.high@, prev_close@) - (if c.low@
            <= prev_close@ {
            c.low@
        } else {
            prev_close@
        }),
        c.true_range_micros(Some(prev_close)) >= c.true_range_micros(None),
        c.low@ <= prev_close@ <= c.high@ ==> c.true_range_micros(Some(prev_close))
            == c.true_range_micros(None),
{
}

/// The distance between two prices.
fn distance(a: Decimal, b: Decimal) -> (d: i128)
    requires
        magnitude(a@ - b@) <= i128::MAX,
    ensures
        d == magnitude(a@ - b@),
{
    if a.micros >= b.micros {
        a.micros - b.micros
    } else {
        b.micros - a.micros
    }
}

/// What a series holds.
#[verifier::ext_equal]
pub struct SeriesView {
    /// The feed key.
    pub key: Seq<char>,
    /// Closed bars, oldest first.
    pub closed: Seq<Candle>,
    /// The bar in progress.
    pub working: Option<Candle>,
    /// The last cumulative volume reading.
    pub last_cum_volume: Option<u64>,
    /// How many closed bars are kept.
    pub capacity: nat,
}

/// The minute that a time in milliseconds belongs to.
pub open spec fn minute_of(epoch_ms: int) -> int {
    epoch_ms / (MINUTE_MS as int)
}

/// The day that a minute belongs to.
pub open spec fn day_of(minute: int) -> int {
    minute / (DAY_MINUTES as int)
}

/// Whether a reading is a price at all.
pub open spec fn usable(price: Option<Decimal>) -> bool {
    price matches Some(p) && p@ > 0
}

/// The volume that a reading adds to its bar.
pub open spec fn volume_delta(cum: Option<u64>, last: Option<u64>) -> int {
    match (cum, last) {
        (Some(cur), Some(prev)) => if cur >= prev {
            cur - prev
        } else {
            0
        },
        _ => 0,
    }
}

/// The newest `capacity` bars.
pub open spec fn newest(bars: Seq<Candle>, capacity: nat) -> Seq<Candle> {
    if bars.len() <= capacity {
        bars
    } else {
        bars.subrange(bars.len() - capacity, bars.len() as int)
    }
}

impl SeriesView {
    /// The bars, closed and in progress, oldest first.
    pub open spec fn bars(self) -> Seq<Candle> {
        match self.working {
            Some(w) => self.closed.push(w),
            None => self.closed,
        }
    }

    /// The bar that a tick closes.
    pub open spec fn closing(self, price: Option<Decimal>, epoch_ms: int) -> Option<Candle> {
        match self.working {
            Some(w) => if usable(price) && minute_of(epoch_ms) > w.minute {
                Some(w)
            } else {
                None
            },
            None => None,
        }
    }

    /// The series after one tick.
    pub open spec fn after_tick(
        self,
        price: Option<Decimal>,
        cum_volume: Option<u64>,
        epoch_ms: int,
    ) -> SeriesView {
        if !usable(price) {
            self
        } else {
            let p = price->0;
            let minute = minute_of(epoch_ms);
            let delta = volume_delta(cum_volume, self.last_cum_volume);
            let base = SeriesView {
                last_cum_volume: if cum_volume is Some {
                    cum_volume
                } else {
                    self.last_cum_volume
                },
                ..self
            };
            match self.working {
                Some(w) => if minute == w.minute {
                    SeriesView { working: Some(w.folded(p, delta)), ..base }
                } else if minute < w.minute {
                    base
                } else {
                    SeriesView {
                        closed: newest(self.closed.push(w), self.capacity),
                        working: Some(Candle::opened(minute, p, delta)),
                        ..base
                    }
                },
                None => SeriesView { working: Some(Candle::opened(minute, p, delta)), ..base },
            }
        }
    }

    /// Whether the counters of the bar in progress have room for a tick.
    pub open spec fn room_for(
        self,
        price: Option<Decimal>,
        cum_volume: Option<u64>,
        epoch_ms: int,
    ) -> bool {
        self.working matches Some(w) ==> usable(price) ==> minute_of(epoch_ms) == w.minute ==> {
            &&& w.ticks < u32::MAX
            &&& w.volume + volume_delta(cum_volume, self.last_cum_volume) <= u64::MAX
        }
    }

    /// Whether the bars stand in strictly ascending order of their minutes.
    pub open spec fn in_order(self) -> bool {
        forall|i: int, j: int|
            0 <= i < j < self.bars().len() ==> self.bars()[i].minute < self.bars()[j].minute
    }

    /// Whether every bar is well shaped.
    pub open spec fn well_shaped(self) -> bool {
        forall|i: int| 0 <= i < self.bars().len() ==> (#[trigger] self.bars()[i]).well_shaped()
    }

    /// The newest bar: the one in progress when there is one.
    pub open spec fn newest_bar(self) -> Option<Candle> {
        if self.bars().len() > 0 {
            Some(self.bars().last())
        } else {
            None
        }
    }

    /// The bars that share a UTC day with the newest one.
    pub open spec fn session(self) -> Seq<Candle> {
        match self.newest_bar() {
            Some(last) => self.bars().filter(
                |c: Candle| day_of(c.minute as int) == day_of(last.minute as int),
            ),
            None => Seq::empty(),
        }
    }
}

/// Rolling minute-bar history for a single instrument.
#[derive(Debug, Clone)]
pub struct CandleSeries {
    /// Feed key this series tracks, such as `"nse_cm|Nifty 50"`.
    pub key: String,
    closed: VecDeque<Candle>,
    working: Option<Candle>,
    /// Last cumulative volume reading, to difference against.
    last_cum_volume: Option<u64>,
    capacity: usize,
}

impl View for CandleSeries {
    type V = SeriesView;

    closed spec fn view(&self) -> SeriesView {
        SeriesView {
            key: self.key@,
            closed: self.closed@,
            working: self.working,
            last_cum_volume: self.last_cum_volume,
            capacity: self.capacity as nat,
        }
    }
}

impl CandleSeries {
    /// At least two bars are kept, and never more than the capacity.
    pub open spec fn wf(&self) -> bool {
        &&& self@.capacity >= 2
        &&& self@.closed.len() <= self@.capacity
    }

    /// An empty series that keeps `capacity` closed bars, at least two.
    pub fn new(key: &str, capacity: usize) -> (s: Self)
        ensures
            s.wf(),
            s@ == (SeriesView {
                key: key@,
                closed: Seq::empty(),
                working: None,
                last_cum_volume: None,
                capacity: larger(capacity as int, 2) as nat,
            }),
    {
        CandleSeries {
            key: key.to_owned(),
            closed: VecDeque::with_capacity(
                if capacity < 1024 {
                    capacity
                } else {
                    1024
                },
            ),
            working: None,
            last_cum_volume: None,
            capacity: if capacity < 2 {
                2
            } else {
                capacity
            },
        }
    }

    /// Drops the oldest closed bars beyond the capacity.
    fn evict(&mut self)
        ensures
            final(self)@ == (SeriesView {
                closed: newest(old(self)@.closed, old(self)@.capacity),
                ..old(self)@
            }),
    {
        while self.closed.len() > self.capacity
            invariant
                self.key == old(self).key,
                self.capacity == old(self).capacity,
                self.working == old(self).working,
                self.last_cum_volume == old(self).last_cum_volume,
                self.closed@.len() <= old(self).closed@.len(),
                self.closed@ =~= old(self).closed@.subrange(
                    old(self).closed@.len() - self.closed@.len(),
                    old(self).closed@.len() as int,
                ),
                self.closed@.len() >= self.capacity || self.closed@.len()
                    == old(self).closed@.len(),
            decreases self.closed@.len(),
        {
            let _ = self.closed.pop_front();
        }
    }

    /// Seed the series with bars loaded from the database.
    ///
    /// Input is assumed ascending by minute; the newest `capacity` bars are
    /// kept. They are closed bars: a reloaded bar is never resumed as the
    /// working bar, since its within-minute tick state is gone.
    pub fn seed(&mut self, bars: Vec<Candle>)
        ensures
            final(self)@ == (SeriesView {
                closed: newest(old(self)@.closed + bars@, old(self)@.capacity),
                ..old(self)@
            }),
            old(self).wf() ==> final(self).wf(),
    {
        let mut i: usize = 0;
        while i < bars.len()
            invariant
                i <= bars.len(),
                self.key == old(self).key,
                self.capacity == old(self).capacity,
                self.working == old(self).working,
                self.last_cum_volume == old(self).last_cum_volume,
                self.closed@ =~= old(self).closed@ + bars@.take(i as int),
            decreases bars.len() - i,
        {
            self.closed.push_back(bars[i]);
            i += 1;
        }
        assert(bars@.take(i as int) =~= bars@);
        self.evict();
    }

    /// Fold one tick into the series.
    ///
    /// `price` is `None` when the reading is not a finite number; `epoch_ms`
    /// is the local receive time; `cum_volume` is the feed's cumulative session
    /// volume, if it supplies one. Returns the bar that just closed, if this
    /// tick rolled the series into a new minute. A tick older than the working
    /// bar changes no bar.
    pub fn push_tick(
        &mut self,
        price: Option<Decimal>,
        cum_volume: Option<u64>,
        epoch_ms: i64,
    ) -> (done: Option<Candle>)
        requires
            old(self).wf(),
            old(self)@.room_for(price, cum_volume, epoch_ms as int),
        ensures
            final(self).wf(),
            final(self)@ == old(self)@.after_tick(price, cum_volume, epoch_ms as int),
            done == old(self)@.closing(price, epoch_ms as int),
    {
        let price: Decimal = match price {
            Some(p) => p,
            None => {
                return None;
            },
        };
        if price.micros <= 0 {
            return None;
        }
        let minute: i64 = match epoch_ms.checked_div_euclid(MINUTE_MS) {
            Some(m) => m,
            None => {
                assert(false);
                0
            },
        };
        let delta: u64 = match (cum_volume, self.last_cum_volume) {
            (Some(cur), Some(prev)) => if cur >= prev {
                cur - prev
            } else {
                0
            },
            _ => 0,
        };
        if cum_volume.is_some() {
            self.last_cum_volume = cum_volume;
        }
        let fresh: Candle = Candle {
            minute,
            open: price,
            high: price,
            low: price,
            close: price,
            volume: delta,
            ticks: 1,
        };
        match self.working {
            Some(w) => {
                if minute == w.minute {
                    self.working = Some(
                        Candle {
                            minute: w.minute,
                            open: w.open,
                            high: if price.micros > w.high.micros {
                                price
                            } else {
                                w.high
                            },
                            low: if price.micros < w.low.micros {
                                price
                            } else {
                                w.low
                            },
                            close: price,
                            volume: w.volume + delta,
                            ticks: w.ticks + 1,
                        },
                    );
                    None
                } else if minute < w.minute {
                    None
                } else {
                    self.working = Some(fresh);
                    self.closed.push_back(w);
                    self.evict();
                    Some(w)
                }
            },
            None => {
                self.working = Some(fresh);
                None
            },
        }
    }

    /// Closed bars, oldest first. The in-progress bar is not among them: it is
    /// not yet a valid indicator input.
    pub fn closed(&self) -> (bars: &VecDeque<Candle>)
        ensures
            bars@ == self@.closed,
    {
        &self.closed
    }

    /// The in-progress bar, if any.
    pub fn working(&self) -> (bar: Option<&Candle>)
        ensures
            match bar {
                Some(b) => self@.working == Some(*b),
                None => self@.working is None,
            },
    {
        match &self.working {
            Some(w) => Some(w),
            None => None,
        }
    }

    /// Number of closed bars available.
    pub fn len(&self) -> (n: usize)
        ensures
            n == self@.closed.len(),
    {
        self.closed.len()
    }

    pub fn is_empty(&self) -> (r: bool)
        ensures
            r == (self@.closed.len() == 0),
    {
        self.closed.len() == 0
    }

    /// Closing prices of all closed bars, oldest first.
    pub fn closes(&self) -> (prices: Vec<Decimal>)
        ensures
            prices@ == self@.closed.map_values(|c: Candle| c.close),
    {
        let mut prices: Vec<Decimal> = Vec::new();
        let mut i: usize = 0;
        while i < self.closed.len()
            invariant
                i <= self.closed@.len(),
                prices@ =~= self.closed@.take(i as int).map_values(|c: Candle| c.close),
            decreases self.closed@.len() - i,
        {
            prices.push(self.closed[i].close);
            i += 1;
        }
        assert(self.closed@.take(i as int) =~= self.closed@);
        prices
    }

    /// Most recent close, preferring the live working bar when one exists.
    pub fn last_price(&self) -> (price: Option<Decimal>)
        ensures
            price == (match self@.newest_bar() {
                Some(bar) => Some(bar.close),
                None => None,
            }),
    {
        match &self.working {
            Some(w) => Some(w.close),
            None => {
                let n: usize = self.closed.len();
                if n > 0 {
                    Some(self.closed[n - 1].close)
                } else {
                    None
                }
            },
        }
    }

    /// Bars belonging to the current session, identified by sharing a UTC day
    /// with the newest bar, so that a reloaded multi-day history does not bleed
    /// into today's levels. A trading day in India never straddles a UTC date
    /// boundary.
    pub fn session_bars(&self) -> (bars: Vec<&Candle>)
        ensures
            bars@.len() == self@.session().len(),
            forall|i: int| 0 <= i < bars@.len() ==> *(#[trigger] bars@[i]) == self@.session()[i],
    {
        let mut bars: Vec<&Candle> = Vec::new();
        let n: usize = self.closed.len();
        let last: i64 = match &self.working {
            Some(w) => w.minute,
            None => {
                if n == 0 {
                    return bars;
                }
                self.closed[n - 1].minute
            },
        };
        let day: i64 = day_number(last);
        let ghost same_day = |c: Candle| day_of(c.minute as int) == day_of(last as int);
        let ghost all = self@.bars();
        let mut i: usize = 0;
        while i < n
            invariant
                n == self.closed@.len(),
                i <= n,
                day == day_of(last as int),
                all == self@.bars(),
                all.len() >= n,
                forall|k: int| 0 <= k < n ==> all[k] == self.closed@[k],
                same_day == (|c: Candle| day_of(c.minute as int) == day_of(last as int)),
                bars@.len() == all.take(i as int).filter(same_day).len(),
                forall|k: int|
                    0 <= k < bars@.len() ==> *(#[trigger] bars@[k]) == all.take(i as int).filter(
                        same_day,
                    )[k],
            decreases n - i,
        {
            proof {
                reveal(Seq::filter);
                assert(all.take(i + 1).drop_last() =~= all.take(i as int));
            }
            if day_number(self.closed[i].minute) == day {
                bars.push(&self.closed[i]);
            }
            i += 1;
        }
        if let Some(w) = &self.working {
            proof {
                reveal(Seq::filter);
                assert(all.take(n + 1).drop_last() =~= all.take(n as int));
                assert(all.take(n + 1) =~= all);
            }
            bars.push(w);
        } else {
            assert(all.take(n as int) =~= all);
        }
        bars
    }
}

/// The day that a minute belongs to.
fn day_number(minute: i64) -> (d: i64)
    ensures
        d == day_of(minute as int),
{
    match minute.checked_div_euclid(DAY_MINUTES) {
        Some(d) => d,
        None => {
            assert(false);
            0
        },
    }
}

/// A tick keeps the bars in strictly ascending order, provided that a bar it
/// opens comes after the closed ones, as it does whenever a bar is in progress.
pub proof fn tick_keeps_order(
    v: SeriesView,
    price: Option<Decimal>,
    cum_volume: Option<u64>,
    epoch_ms: i64,
)
    requires
        v.in_order(),
        v.working is Some || v.closed.len() == 0 || minute_of(epoch_ms as int)
            > v.closed.last().minute,
    ensures
        v.after_tick(price, cum_volume, epoch_ms as int).in_order(),
{
    let after = v.after_tick(price, cum_volume, epoch_ms as int);
    let old_bars = v.bars();
    if usable(price) {
        match v.working {
            Some(w) => {
                assert(old_bars[old_bars.len() - 1] == w);
                if minute_of(epoch_ms as int) == w.minute {
                    assert forall|i: int, j: int| 0 <= i < j < after.bars().len() implies
                        after.bars()[i].minute < after.bars()[j].minute by {
                        assert(old_bars[i].minute < old_bars[j].minute);
                    }
                } else if minute_of(epoch_ms as int) > w.minute {
                    let skip = old_bars.len() - after.closed.len();
                    assert forall|i: int, j: int| 0 <= i < j < after.bars().len() implies
                        after.bars()[i].minute < after.bars()[j].minute by {
                        assert(after.bars()[i] == old_bars[i + skip]);
                        assert(old_bars[i + skip].minute <= w.minute);
                        if j < after.closed.len() {
                            assert(after.bars()[j] == old_bars[j + skip]);
                        }
                    }
                }
            },
            None => {
                assert forall|i: int, j: int| 0 <= i < j < after.bars().len() implies
                    after.bars()[i].minute < after.bars()[j].minute by {
                    assert(after.bars()[i] == old_bars[i]);
                    if j < v.closed.len() {
                        assert(after.bars()[j] == old_bars[j]);
                    } else {
                        assert(old_bars[i].minute <= v.closed.last().minute);
                    }
                }
            },
        }
    }
}

/// A tick keeps every bar well shaped: the low and the high enclose the open
/// and the close.
pub proof fn tick_keeps_shape(
    v: SeriesView,
    price: Option<Decimal>,
    cum_volume: Option<u64>,
    epoch_ms: i64,
)
    requires
        v.well_shaped(),
    ensures
        v.after_tick(price, cum_volume, epoch_ms as int).well_shaped(),
{
    let after = v.after_tick(price, cum_volume, epoch_ms as int);
    assert forall|i: int| 0 <= i < after.bars().len() implies (
    #[trigger] after.bars()[i]).well_shaped() by {
        if v.working is Some {
            assert(v.bars()[v.bars().len() - 1].well_shaped());
        }
        if i < after.closed.len() {
            if after.closed == v.closed {
                assert(v.bars()[i].well_shaped());
            } else {
                let skip = v.bars().len() - after.closed.len();
                assert(after.closed[i] == v.bars()[i + skip]);
            }
        }
    }
}

/// A tick never rewrites a bar that has closed: the closed bars stay as they
/// are, or the bar in progress joins them and the oldest may leave.
pub proof fn tick_rewrites_no_closed_bar(
    v: SeriesView,
    price: Option<Decimal>,
    cum_volume: Option<u64>,
    epoch_ms: i64,
)
    ensures
        ({
            let after = v.after_tick(price, cum_volume, epoch_ms as int);
            ||| after.closed == v.closed
            ||| after.closed == newest(v.bars(), v.capacity)
        }),
{
}

/// A tick older than the bar in progress changes no bar at all.
pub proof fn stale_tick_changes_no_bar(
    v: SeriesView,
    price: Option<Decimal>,
    cum_volume: Option<u64>,
    epoch_ms: i64,
)
    requires
        v.working matches Some(w) && minute_of(epoch_ms as int) < w.minute,
    ensures
        v.after_tick(price, cum_volume, epoch_ms as int).bars() == v.bars(),
        v.closing(price, epoch_ms as int) is None,
{
}

/// Within one minute the volumes of two readings of a rising counter add up to
/// the rise of the counter.
pub proof fn volume_adds_up(
    v: SeriesView,
    first: Decimal,
    second: Decimal,
    baseline: u64,
    mid: u64,
    last: u64,
    first_ms: i64,
    second_ms: i64,
)
    requires
        first@ > 0,
        second@ > 0,
        baseline <= mid <= last,
        v.last_cum_volume == Some(baseline),
        v.working matches Some(w) && minute_of(first_ms as int) == w.minute && minute_of(
            second_ms as int,
        ) == w.minute && w.volume + (last - baseline) <= u64::MAX,
    ensures
        ({
            let after = v.after_tick(Some(first), Some(mid), first_ms as int).after_tick(
                Some(second),
                Some(last),
                second_ms as int,
            );
            after.working matches Some(a) && a.volume == v.working->0.volume + (last - baseline)
        }),
{
}

/// The first reading of the counter, and one that went down, add no volume but
/// set the baseline for the next.
pub proof fn untrusted_reading_adds_no_volume(
    v: SeriesView,
    price: Decimal,
    reading: u64,
    epoch_ms: i64,
)
    requires
        price@ > 0,
        v.last_cum_volume matches Some(prev) ==> reading < prev,
        v.working matches Some(w) && minute_of(epoch_ms as int) == w.minute,
    ensures
        ({
            let after = v.after_tick(Some(price), Some(reading), epoch_ms as int);
            &&& after.working matches Some(a) && a.volume == v.working->0.volume
            &&& after.last_cum_volume == Some(reading)
        }),
{
}

/// The session consists of exactly the bars that share the newest bar's day.
pub proof fn session_is_the_newest_day(v: SeriesView)
    requires
        v.bars().len() > 0,
    ensures
        forall|c: Candle|
            #![trigger v.session().contains(c)]
            v.session().contains(c) <==> v.bars().contains(c) && day_of(c.minute as int) == day_of(
                v.bars().last().minute as int,
            ),
        v.session().contains(v.bars().last()),
{
    broadcast use vstd::seq_lib::group_filter_ensures;

    let last = v.bars().last();
    let same_day = |c: Candle| day_of(c.minute as int) == day_of(last.minute as int);
    assert forall|c: Candle| #![trigger v.session().contains(c)] v.session().contains(c) <==> v.bars().contains(
        c,
    ) && day_of(c.minute as int) == day_of(last.minute as int) by {
        if v.session().contains(c) {
            let k = choose|k: int| 0 <= k < v.session().len() && v.session()[k] == c;
            v.bars().lemma_filter_contains_rev(same_day, c);
            assert(same_day(c));
        }
        if v.bars().contains(c) && same_day(c) {
            let k = choose|k: int| 0 <= k < v.bars().len() && v.bars()[k] == c;
            assert(same_day(v.bars()[k]));
        }
    }
    assert(v.bars()[v.bars().len() - 1] == last);
    assert(same_day(last));
}

/// Every time in milliseconds lies within the minute that it belongs to.
pub proof fn minute_bounds(epoch_ms: int)
    ensures
        60_000 * minute_of(epoch_ms) <= epoch_ms < 60_000 * (minute_of(epoch_ms) + 1),
{
}

/// A tick belongs to the minute that contains it: unless the bar in progress is
/// of a later minute, the bar in progress after the tick is of the minute that
/// holds its time, and closes at its price.
pub proof fn tick_belongs_to_its_minute(
    price: Decimal,
    cum_volume: Option<u64>,
    epoch_ms: i64,
    done: Option<Candle>,
)
    requires
        price@ > 0,
    ensures
        forall|s: &mut CandleSeries| #[trigger]
            call_ensures(CandleSeries::push_tick, (s, Some(price), cum_volume, epoch_ms), done)
                && ((*s)@.working matches Some(w) ==> 60_000 * w.minute <= epoch_ms) ==> {
                &&& final(s)@.working matches Some(bar)
                &&& 60_000 * bar.minute <= epoch_ms < 60_000 * (bar.minute + 1)
                &&& bar.close == price
            },
{
    minute_bounds(epoch_ms as int);
}

/// A tick within the minute of the bar in progress closes nothing. It extends
/// the bar: the open stays, the high and the low stretch to the price just as
/// far as they must, the price is the close, and one more tick is counted.
pub proof fn tick_extends_its_bar(
    price: Decimal,
    cum_volume: Option<u64>,
    epoch_ms: i64,
    done: Option<Candle>,
)
    requires
        price@ > 0,
    ensures
        forall|s: &mut CandleSeries| #[trigger]
            call_ensures(CandleSeries::push_tick, (s, Some(price), cum_volume, epoch_ms), done)
                && ((*s)@.working matches Some(w) && 60_000 * w.minute <= epoch_ms < 60_000 * (
            w.minute + 1) && w.ticks < u32::MAX) ==> {
                let w = (*s)@.working->0;
                &&& done is None
                &&& final(s)@.closed == (*s)@.closed
                &&& final(s)@.working matches Some(bar)
                &&& bar.minute == w.minute
                &&& bar.open == w.open
                &&& bar.high@ >= w.high@ && bar.high@ >= price@
                &&& bar.high == w.high || bar.high == price
                &&& bar.low@ <= w.low@ && bar.low@ <= price@
                &&& bar.low == w.low || bar.low == price
                &&& bar.close == price
                &&& bar.ticks == w.ticks + 1
            },
{
    minute_bounds(epoch_ms as int);
}

/// A tick after the minute of the bar in progress closes that bar, which joins
/// the closed ones and is handed back; the oldest leave only where the capacity
/// is exceeded. The new bar holds this one tick.
pub proof fn tick_closes_an_ended_minute(
    price: Decimal,
    cum_volume: Option<u64>,
    epoch_ms: i64,
    done: Option<Candle>,
)
    requires
        price@ > 0,
    ensures
        forall|s: &mut CandleSeries| #[trigger]
            call_ensures(CandleSeries::push_tick, (s, Some(price), cum_volume, epoch_ms), done)
                && (*s)@.closed.len() <= (*s)@.capacity && (*s)@.capacity > 0 && ((
            *s)@.working matches Some(w) && epoch_ms >= 60_000 * (w.minute + 1)) ==> {
                let w = (*s)@.working->0;
                let was = (*s)@.closed;
                let now = final(s)@.closed;
                &&& done == Some(w)
                &&& now.len() > 0 && now.last() == w
                &&& was.len() < (*s)@.capacity ==> now == was.push(w)
                &&& was.len() == (*s)@.capacity ==> now == was.push(w).skip(1)
                &&& final(s)@.working matches Some(bar)
                &&& bar.open == price && bar.high == price && bar.low == price
                &&& bar.ticks == 1
            },
{
    minute_bounds(epoch_ms as int);
    assert forall|s: &mut CandleSeries| #[trigger]
        call_ensures(CandleSeries::push_tick, (s, Some(price), cum_volume, epoch_ms), done) && (
        *s)@.closed.len() <= (*s)@.capacity && (*s)@.capacity > 0 && ((
        *s)@.working matches Some(w) && epoch_ms >= 60_000 * (w.minute + 1)) implies ({
        let w = (*s)@.working->0;
        let was = (*s)@.closed;
        let now = final(s)@.closed;
        &&& done == Some(w)
        &&& now.len() > 0 && now.last() == w
        &&& was.len() < (*s)@.capacity ==> now == was.push(w)
        &&& was.len() == (*s)@.capacity ==> now == was.push(w).skip(1)
        &&& final(s)@.working matches Some(bar)
        &&& bar.open == price && bar.high == price && bar.low == price
        &&& bar.ticks == 1
    }) by {
        let w = (*s)@.working->0;
        let was = (*s)@.closed;
        if was.len() == (*s)@.capacity {
            assert(final(s)@.closed =~= was.push(w).skip(1));
        }
    }
}

/// The first tick of a series opens a bar and closes nothing.
pub proof fn first_tick_opens_a_bar(
    price: Decimal,
    cum_volume: Option<u64>,
    epoch_ms: i64,
    done: Option<Candle>,
)
    requires
        price@ > 0,
    ensures
        forall|s: &mut CandleSeries| #[trigger]
            call_ensures(CandleSeries::push_tick, (s, Some(price), cum_volume, epoch_ms), done) && (
            *s)@.working is None ==> {
                &&& done is None
                &&& final(s)@.closed == (*s)@.closed
                &&& final(s)@.working matches Some(bar)
                &&& bar.open == price && bar.high == price && bar.low == price
                &&& bar.ticks == 1
            },
{
}

/// What is no price, or no positive one, leaves the series as it was; so does a
/// tick from before the bar in progress, but for the volume reading.
pub proof fn ticks_that_change_no_bar(
    price: Option<Decimal>,
    cum_volume: Option<u64>,
    epoch_ms: i64,
    done: Option<Candle>,
)
    ensures
        forall|s: &mut CandleSeries| #[trigger]
            call_ensures(CandleSeries::push_tick, (s, price, cum_volume, epoch_ms), done) ==> {
                &&& (price matches Some(p) ==> p@ <= 0) ==> done is None && final(s)@ == (*s)@
                &&& ((*s)@.working matches Some(w) && epoch_ms < 60_000 * w.minute) ==> done is None
                    && final(s)@.closed == (*s)@.closed && final(s)@.working == (*s)@.working
                &&& final(s)@.key == (*s)@.key
                &&& final(s)@.capacity == (*s)@.capacity
            },
{
    minute_bounds(epoch_ms as int);
}

/// A bar gains just what the counter rose by since the last reading, and nothing
/// without two readings to compare or when the counter fell. Every reading that
/// comes with a price is the one that the next is compared with.
pub proof fn volume_is_the_rise_of_the_counter(
    price: Decimal,
    cum_volume: Option<u64>,
    epoch_ms: i64,
    done: Option<Candle>,
)
    requires
        price@ > 0,
    ensures
        forall|s: &mut CandleSeries| #[trigger]
            call_ensures(CandleSeries::push_tick, (s, Some(price), cum_volume, epoch_ms), done)
                ==> {
                let rise: int = if cum_volume is Some && (*s)@.last_cum_volume is Some
                    && cum_volume->0 > (*s)@.last_cum_volume->0 {
                    cum_volume->0 - (*s)@.last_cum_volume->0
                } else {
                    0
                };
                let held: int = match (*s)@.working {
                    Some(w) => if epoch_ms < 60_000 * (w.minute + 1) {
                        w.volume as int
                    } else {
                        0
                    },
                    None => 0,
                };
                &&& cum_volume is Some ==> final(s)@.last_cum_volume == cum_volume
                &&& cum_volume is None ==> final(s)@.last_cum_volume == (*s)@.last_cum_volume
                &&& ((*s)@.working matches Some(w) ==> 60_000 * w.minute <= epoch_ms) && held + rise
                    <= u64::MAX ==> (final(s)@.working matches Some(bar) && bar.volume == held
                    + rise)
            },
{
    minute_bounds(epoch_ms as int);
}

/// A series keeps as many closed bars as it was asked to, but at least two, and
/// starts with none.
pub proof fn new_series_is_empty(key: &str, capacity: usize, s: CandleSeries)
    requires
        call_ensures(CandleSeries::new, (key, capacity), s),
    ensures
        s@.key == key@,
        s@.closed.len() == 0,
        s@.working is None,
        s@.last_cum_volume is None,
        s@.capacity >= 2,
        s@.capacity >= capacity,
        capacity >= 2 ==> s@.capacity == capacity,
        capacity < 2 ==> s@.capacity == 2,
{
}

/// Seeding appends the bars and drops the oldest beyond the capacity; no bar
/// among the newest is lost or moved, and the bar in progress stays.
pub proof fn seeding_keeps_the_newest(bars: Vec<Candle>)
    ensures
        forall|s: &mut CandleSeries| #[trigger]
            call_ensures(CandleSeries::seed, (s, bars), ()) ==> {
                let all = (*s)@.closed + bars@;
                let now = final(s)@.closed;
                &&& now.len() <= all.len()
                &&& all.len() <= (*s)@.capacity ==> now == all
                &&& all.len() > (*s)@.capacity ==> now.len() == (*s)@.capacity
                &&& forall|i: int|
                    0 <= i < now.len() ==> now[i] == #[trigger] all[all.len() - now.len() + i]
                &&& final(s)@.working == (*s)@.working
                &&& final(s)@.last_cum_volume == (*s)@.last_cum_volume
                &&& final(s)@.key == (*s)@.key
                &&& final(s)@.capacity == (*s)@.capacity
            },
{
}

/// Predicates that agree select the same.
proof fn filter_agrees(s: Seq<Candle>, p: spec_fn(Candle) -> bool, q: spec_fn(Candle) -> bool)
    requires
        forall|c: Candle| #[trigger] p(c) == q(c),
    ensures
        s.filter(p) == s.filter(q),
    decreases s.len(),
{
    reveal(Seq::filter);
    if s.len() > 0 {
        filter_agrees(s.drop_last(), p, q);
    }
}

/// The session holds the bars of the UTC day of the newest bar, in order and all
/// of them: with `day` the number of that day, the bars from its first minute up
/// to its last.
pub proof fn session_is_one_day(series: CandleSeries, bars: Vec<&Candle>, day: int)
    requires
        call_ensures(CandleSeries::session_bars, (&series,), bars),
        ({
            let newest = if series@.working is Some {
                series@.working->0.minute
            } else {
                series@.closed.last().minute
            };
            1440 * day <= newest < 1440 * (day + 1)
        }),
    ensures
        ({
            let all = if series@.working is Some {
                series@.closed.push(series@.working->0)
            } else {
                series@.closed
            };
            let today = all.filter(|c: Candle| 1440 * day <= c.minute < 1440 * (day + 1));
            &&& bars@.len() == today.len()
            &&& forall|i: int| 0 <= i < today.len() ==> *(#[trigger] bars@[i]) == today[i]
        }),
{
    let v = series@;
    if v.bars().len() > 0 {
        let last = v.bars().last();
        filter_agrees(
            v.bars(),
            |c: Candle| day_of(c.minute as int) == day_of(last.minute as int),
            |c: Candle| 1440 * day <= c.minute < 1440 * (day + 1),
        );
    } else {
        reveal(Seq::filter);
        assert(v.closed =~= Seq::empty());
    }
}

/// The last price is the close of the bar in progress, else that of the newest
/// closed bar; and the closes are those of the closed bars alone.
pub proof fn prices_of_a_series(series: CandleSeries, last: Option<Decimal>, prices: Vec<Decimal>)
    requires
        call_ensures(CandleSeries::last_price, (&series,), last),
        call_ensures(CandleSeries::closes, (&series,), prices),
    ensures
        series@.working matches Some(w) ==> last == Some(w.close),
        series@.working is None && series@.closed.len() > 0 ==> last == Some(
            series@.closed.last().close,
        ),
        series@.working is None && series@.closed.len() == 0 ==> last is None,
        prices@.len() == series@.closed.len(),
        forall|i: int| 0 <= i < prices@.len() ==> prices@[i] == (#[trigger] series@.closed[i]).close,
{
}

/// What a series counts is its closed bars; the bar in progress is no part of
/// them.
pub proof fn length_counts_closed_bars(series: CandleSeries, n: usize, empty: bool)
    requires
        call_ensures(CandleSeries::len, (&series,), n),
        call_ensures(CandleSeries::is_empty, (&series,), empty),
    ensures
        n == series@.closed.len(),
        empty <==> n == 0,
{
}

/// A typical price is the mean of the high, the low and the close, to the
/// nearest millionth.
pub proof fn typical_is_the_mean(c: Candle, t: Decimal)
    requires
        call_ensures(Candle::typical, (&c,), t),
    ensures
        -1 <= 3 * t@ - (c.high@ + c.low@ + c.close@) <= 1,
{
    crate::decimal::nearest_error(c.high@ + c.low@ + c.close@, 3);
}

/// A true range is the largest of three: the bar's own range, and how far its
/// high and its low lie from the close before it, on either side.
pub proof fn true_range_is_the_largest(c: Candle, prev: Decimal, r: Decimal, own: Decimal)
    requires
        call_ensures(Candle::true_range, (&c, Some(prev)), r),
        call_ensures(Candle::true_range, (&c, None), own),
    ensures
        own@ == c.high@ - c.low@,
        r@ >= own@,
        -r@ <= c.high@ - prev@ <= r@,
        -r@ <= c.low@ - prev@ <= r@,
        r@ == own@ || r@ == c.high@ - prev@ || r@ == prev@ - c.high@ || r@ == c.low@ - prev@ || r@
            == prev@ - c.low@,
{
}

/// The closed bars and the bar in progress are handed out as they are.
pub proof fn bars_are_handed_out(
    series: CandleSeries,
    closed: &VecDeque<Candle>,
    working: Option<&Candle>,
)
    requires
        call_ensures(CandleSeries::closed, (&series,), closed),
        call_ensures(CandleSeries::working, (&series,), working),
    ensures
        closed@ == series@.closed,
        working is Some <==> series@.working is Some,
        working matches Some(w) ==> series@.working == Some(*w),
{
}

} // verus!
