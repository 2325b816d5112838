//! One-minute candles made from ticks.
use crate::binary64::Real;
use crate::feeder::catalog::{InstrumentCatalog, InstrumentDefinition, InstrumentType};
use crate::feeder::error::{FeedError, FeedFault};
use crate::feeder::event::{
    Candle, CandleFacts, InstrumentName, Price, PriceTick, Timeframe, UnixMillis,
};
use crate::order::{ascending, keys_of, map_of, take_to_set, text_lt, TextMap};
use crate::text::{decimal, decimal_of, views};
use chrono::{Datelike, TimeZone, Timelike};
use vstd::prelude::*;

verus! {

/// What `chrono` gives for the beginning of the minute that a moment falls in, at a place
/// whose clock is ahead of UTC: nothing where the moment is out of its range, and nothing
/// within where that minute has no beginning of its own there.
pub uninterp spec fn chrono_minute_start(millis: i64, offset_seconds: i32) -> Option<Option<i64>>;

/// The last moment of the year 9999, in milliseconds.
pub const LAST_MILLIS: u64 = 253_402_300_799_999;

/// Asks `chrono` for the beginning of the local minute that a moment falls in: through
/// `DateTime::from_timestamp_millis`, `with_timezone` of a `FixedOffset`, and
/// `TimeZone::with_ymd_and_hms` with the second set to zero. The contract says that the
/// beginning, where there is one, lies less than a minute back and on a full minute of the
/// local clock, and that there is one for every moment from 1970 to the end of the year
/// 9999. How far beyond that the range of `chrono` goes is left to its name.
#[verifier::external_body]
fn local_minute_start(millis: i64, offset_seconds: i32) -> (r: Option<Option<i64>>)
    requires
        0 <= offset_seconds < 86_400,
    ensures
        r == chrono_minute_start(millis, offset_seconds),
        r matches Some(Some(start)) ==> start <= millis < start + 60_000 && (start + offset_seconds
            * 1_000) % 60_000 == 0,
        0 <= millis <= LAST_MILLIS ==> r is Some && r->0 is Some,
{
    let utc = chrono::DateTime::from_timestamp_millis(millis)?;
    let zone = chrono::FixedOffset::east_opt(offset_seconds)?;
    let t = utc.with_timezone(&zone);
    let start = zone.with_ymd_and_hms(t.year(), t.month(), t.day(), t.hour(), t.minute(), 0);
    Some(start.single().map(|start| start.timestamp_millis()))
}

/// The beginning of the minute that a moment falls in, given what is known of it.
pub open spec fn minute_from(millis: u64, start: Option<Option<i64>>) -> Result<u64, FeedFault> {
    match start {
        None => Err(FeedFault::Parse("invalid unix millis "@ + decimal_of(millis as nat))),
        Some(None) => Err(FeedFault::Parse("failed to compute IST minute bucket"@)),
        Some(Some(start)) => Ok(start as u64),
    }
}

/// The beginning of the minute in Indian Standard Time that a moment falls in.
pub open spec fn minute_of(millis: u64) -> Result<u64, FeedFault> {
    minute_from(millis, chrono_minute_start(millis as i64, 19_800))
}

/// The end of the minute that begins at a moment. Moments that lie before 1970 are those at
/// the end of what a `u64` holds, and the minute before 1970 ends at zero.
pub open spec fn end_of(start: u64) -> u64 {
    if start + 60_000 > u64::MAX {
        (start + 60_000 - u64::MAX - 1) as u64
    } else {
        (start + 60_000) as u64
    }
}

/// The bounds of the minute in Indian Standard Time that a moment falls in.
pub fn one_minute_bucket_bounds_ist(unix_millis: u64) -> (r: Result<(u64, u64), FeedError>)
    ensures
        match r {
            Ok((start, end)) => {
                &&& minute_of(unix_millis) == Ok::<u64, FeedFault>(start)
                &&& end == end_of(start)
                &&& unix_millis <= i64::MAX ==> start == unix_millis - unix_millis % 60_000
            },
            Err(e) => minute_of(unix_millis) == Err::<u64, FeedFault>(e@),
        },
        unix_millis <= LAST_MILLIS ==> r is Ok,
{
    let start = local_minute_start(unix_millis as i64, 19_800);
    if unix_millis <= i64::MAX as u64 {
        if let Some(Some(first)) = start {
            assert(first % 60_000 == 0);
            assert(first >= 0);
        }
    }
    minute_bounds(unix_millis, start)
}

/// The bounds of the minute that a moment falls in, given what is known of its beginning.
pub fn minute_bounds(unix_millis: u64, start: Option<Option<i64>>) -> (r: Result<
    (u64, u64),
    FeedError,
>)
    ensures
        match r {
            Ok((first, end)) => minute_from(unix_millis, start) == Ok::<u64, FeedFault>(first)
                && end == end_of(first),
            Err(e) => minute_from(unix_millis, start) == Err::<u64, FeedFault>(e@),
        },
{
    match start {
        None => Err(
            FeedError::Parse(
                "invalid unix millis ".to_owned().concat(decimal(unix_millis).as_str()),
            ),
        ),
        Some(None) => Err(FeedError::Parse("failed to compute IST minute bucket".to_owned())),
        Some(Some(start)) => {
            let first: u64 = start as u64;
            Ok((first, first.wrapping_add(60_000)))
        },
    }
}

/// A candle whose minute is not over.
#[derive(Clone, Copy, Debug, PartialEq, Eq)]
pub struct InProgressCandle {
    pub start_time: u64,
    pub end_time: u64,
    pub open: Price,
    pub high: Price,
    pub low: Price,
    pub close: Price,
}

/// A candle that begins with a price.
pub open spec fn begun_of(start: u64, price: Price) -> InProgressCandle {
    InProgressCandle {
        start_time: start,
        end_time: end_of(start),
        open: price,
        high: price,
        low: price,
        close: price,
    }
}

/// A candle after one price more.
pub open spec fn moved_of(candle: InProgressCandle, price: Price) -> InProgressCandle {
    InProgressCandle {
        high: if price@.rank() > candle.high@.rank() {
            price
        } else {
            candle.high
        },
        low: if price@.rank() < candle.low@.rank() {
            price
        } else {
            candle.low
        },
        close: price,
        ..candle
    }
}

/// The candle that one in progress becomes. Ticks tell no volume, so it has none.
pub open spec fn finished_of(name: Seq<char>, candle: InProgressCandle) -> CandleFacts {
    CandleFacts {
        instrument_name: name,
        timeframe: Timeframe::OneMinute,
        start_time: candle.start_time,
        end_time: candle.end_time,
        open: candle.open@,
        high: candle.high@,
        low: candle.low@,
        close: candle.close@,
        price: candle.close@,
        volume: Real { bits: 0 },
    }
}

/// Whether a candle spans one full minute, and no price of it lies outside its low and
/// its high.
pub open spec fn is_sound(candle: InProgressCandle) -> bool {
    &&& candle.start_time % 60_000 == 0
    &&& candle.end_time == candle.start_time + 60_000
    &&& candle.low@.rank() <= candle.open@.rank() <= candle.high@.rank()
    &&& candle.low@.rank() <= candle.close@.rank() <= candle.high@.rank()
}

impl InProgressCandle {
    pub fn new(start_time: u64, price: Price) -> (r: InProgressCandle)
        ensures
            r == begun_of(start_time, price),
    {
        InProgressCandle {
            start_time,
            end_time: start_time.wrapping_add(60_000),
            open: price,
            high: price,
            low: price,
            close: price,
        }
    }

    pub fn apply_price(&mut self, price: Price)
        ensures
            *final(self) == moved_of(*old(self), price),
    {
        if price.above(self.high) {
            self.high = price;
        }
        if self.low.above(price) {
            self.low = price;
        }
        self.close = price;
    }

    pub fn to_candle(self, instrument_name: InstrumentName) -> (r: Candle)
        ensures
            r@ == finished_of(instrument_name@, self),
    {
        Candle::new(
            instrument_name,
            Timeframe::OneMinute,
            UnixMillis::new(self.start_time),
            UnixMillis::new(self.end_time),
            self.open,
            self.high,
            self.low,
            self.close,
            Real { bits: 0 },
        )
    }
}

/// The candles in progress, and until when candles have been delivered, by instrument.
pub struct CandleState {
    active: TextMap<InProgressCandle>,
    last_closed_end: TextMap<u64>,
}

/// What is known of the candles of all instruments.
pub struct CandleFactsState {
    pub active: Map<Seq<char>, InProgressCandle>,
    pub closed: Map<Seq<char>, u64>,
}

/// Until when candles of an instrument have been delivered.
pub open spec fn closed_until(state: CandleFactsState, name: Seq<char>) -> u64 {
    if state.closed.contains_key(name) {
        state.closed[name]
    } else {
        0
    }
}

/// What a price in the minute from `start` on does: a price of a minute that has been
/// delivered, or that lies before the one in progress, is passed over; the first price of
/// a later minute ends the one in progress.
pub open spec fn tick_step(
    state: CandleFactsState,
    name: Seq<char>,
    price: Price,
    start: u64,
) -> (CandleFactsState, Option<CandleFacts>) {
    if end_of(start) <= closed_until(state, name) {
        (state, None)
    } else if !state.active.contains_key(name) {
        (
            CandleFactsState {
                active: state.active.insert(name, begun_of(start, price)),
                closed: state.closed,
            },
            None,
        )
    } else {
        let candle = state.active[name];
        if start == candle.start_time {
            (
                CandleFactsState {
                    active: state.active.insert(name, moved_of(candle, price)),
                    closed: state.closed,
                },
                None,
            )
        } else if start < candle.start_time {
            (state, None)
        } else {
            (
                CandleFactsState {
                    active: state.active.insert(name, begun_of(start, price)),
                    closed: state.closed.insert(name, candle.end_time),
                },
                Some(finished_of(name, candle)),
            )
        }
    }
}

/// Whether all candles in progress are sound, and none begins before the end of those
/// that have been delivered.
pub open spec fn is_sound_state(state: CandleFactsState) -> bool {
    &&& forall|k: Seq<char>| #[trigger] state.active.contains_key(k) ==> is_sound(state.active[k])
    &&& forall|k: Seq<char>| #[trigger] state.closed.contains_key(k) ==> state.closed[k] % 60_000 == 0
    &&& forall|k: Seq<char>|
        #![trigger state.active.contains_key(k)]
        #![trigger state.closed.contains_key(k)]
        state.active.contains_key(k) && state.closed.contains_key(k) ==> state.closed[k]
            <= state.active[k].start_time
}

/// The instruments whose minute is over at a moment.
pub open spec fn due_of(active: Map<Seq<char>, InProgressCandle>, now_millis: u64) -> Set<
    Seq<char>,
> {
    Set::new(|k: Seq<char>| active.contains_key(k) && active[k].end_time <= now_millis)
}

/// The state after the minutes of some instruments have been ended.
pub open spec fn ended_of(state: CandleFactsState, due: Set<Seq<char>>) -> CandleFactsState {
    CandleFactsState {
        active: state.active.remove_keys(due),
        closed: state.closed.union_prefer_right(
            Map::new(|k: Seq<char>| due.contains(k), |k: Seq<char>| state.active[k].end_time),
        ),
    }
}

/// The names of the candles of a list.
pub open spec fn candle_names(list: Seq<Candle>) -> Seq<Seq<char>> {
    Seq::new(list.len(), |i: int| list[i].instrument_name@)
}

impl View for CandleState {
    type V = CandleFactsState;

    closed spec fn view(&self) -> CandleFactsState {
        CandleFactsState { active: self.active@, closed: self.last_closed_end@ }
    }
}

impl CandleState {
    pub fn new() -> (r: CandleState)
        ensures
            r@.active == Map::<Seq<char>, InProgressCandle>::empty(),
            r@.closed == Map::<Seq<char>, u64>::empty(),
            is_sound_state(r@),
    {
        CandleState { active: TextMap::new(), last_closed_end: TextMap::new() }
    }

    /// Takes in a tick of an instrument; gives the candle of the minute before, where the
    /// tick ends it.
    pub fn aggregate_tick(&mut self, instrument_name: InstrumentName, tick: &PriceTick) -> (r:
        Result<Option<Candle>, FeedError>)
        ensures
            is_sound_state(old(self)@) && tick.time@ <= i64::MAX ==> is_sound_state(final(self)@),
            match r {
                Ok(candle) => minute_of(tick.time@) matches Ok(start) && {
                    let (state, delivered) = tick_step(
                        old(self)@,
                        instrument_name@,
                        tick.price,
                        start,
                    );
                    &&& final(self)@ == state
                    &&& delivered == (match candle {
                        Some(c) => Some(c@),
                        None => None,
                    })
                },
                Err(e) => minute_of(tick.time@) == Err::<u64, FeedFault>(e@) && final(self)@ == old(self)@,
            },
            tick.time@ <= LAST_MILLIS ==> r is Ok,
    {
        let (bucket_start, bucket_end) = match one_minute_bucket_bounds_ist(tick.time.as_u64()) {
            Ok(bounds) => bounds,
            Err(e) => return Err(e),
        };
        proof {
            if is_sound_state(self@) && tick.time@ <= i64::MAX {
                delivered_once(self@, instrument_name@, tick.price, bucket_start);
            }
        }
        let already_closed_until: u64 = match self.last_closed_end.get(instrument_name.as_str()) {
            Some(end) => *end,
            None => 0,
        };
        if bucket_end <= already_closed_until {
            return Ok(None);
        }
        let existing: Option<InProgressCandle> = match self.active.get(instrument_name.as_str()) {
            Some(candle) => Some(*candle),
            None => None,
        };
        match existing {
            None => {
                self.active.insert(
                    instrument_name.to_text(),
                    InProgressCandle::new(bucket_start, tick.price),
                );
                Ok(None)
            },
            Some(candle) => {
                if bucket_start == candle.start_time {
                    let mut moved = candle;
                    moved.apply_price(tick.price);
                    self.active.insert(instrument_name.to_text(), moved);
                    Ok(None)
                } else if bucket_start < candle.start_time {
                    Ok(None)
                } else {
                    self.active.insert(
                        instrument_name.to_text(),
                        InProgressCandle::new(bucket_start, tick.price),
                    );
                    self.last_closed_end.insert(instrument_name.to_text(), candle.end_time);
                    Ok(Some(candle.to_candle(instrument_name)))
                }
            },
        }
    }

    /// Ends the minutes that are over at a moment; gives their candles in the order of
    /// the names of their instruments.
    pub fn flush_due_before(&mut self, now_millis: u64) -> (r: Vec<Candle>)
        ensures
            is_sound_state(old(self)@) ==> is_sound_state(final(self)@),
            ascending(candle_names(r@)),
            candle_names(r@).to_set() == due_of(old(self)@.active, now_millis),
            forall|i: int|
                0 <= i < r@.len() ==> (#[trigger] r@[i])@ == finished_of(
                    r@[i].instrument_name@,
                    old(self)@.active[r@[i].instrument_name@],
                ),
            final(self)@ == ended_of(old(self)@, due_of(old(self)@.active, now_millis)),
    {
        let ghost before = self@;
        let ghost due = due_of(before.active, now_millis);
        let names = self.due_names(now_millis);
        let ghost list = views(names@);
        let mut completed: Vec<Candle> = Vec::new();
        let mut i: usize = 0;
        let ghost none = list.take(0).to_set();
        assert(none =~= Set::<Seq<char>>::empty());
        assert(ended_of(before, none).active =~= before.active);
        assert(ended_of(before, none).closed =~= before.closed);
        assert(candle_names(completed@) =~= list.take(0));
        while i < names.len()
            invariant
                i <= names@.len(),
                list == views(names@),
                ascending(list),
                list.to_set() == due,
                due == due_of(before.active, now_millis),
                self.active@ == ended_of(before, list.take(i as int).to_set()).active,
                self.last_closed_end@ == ended_of(before, list.take(i as int).to_set()).closed,
                candle_names(completed@) == list.take(i as int),
                forall|j: int|
                    0 <= j < completed@.len() ==> (#[trigger] completed@[j])@ == finished_of(
                        completed@[j].instrument_name@,
                        before.active[completed@[j].instrument_name@],
                    ),
            decreases names@.len() - i,
        {
            let ghost x = list[i as int];
            let ghost done = list.take(i as int).to_set();
            assert(names@[i as int]@ == x);
            proof {
                take_to_set(list, i as int);
                crate::order::ascending_is_distinct(list);
                assert(list.to_set().contains(x));
                if done.contains(x) {
                    let t = list.take(i as int);
                    let k = t.index_of(x);
                    assert(list[k] == x);
                }
            }
            let candle: InProgressCandle = match self.active.get(names[i].as_str()) {
                Some(candle) => *candle,
                None => {
                    assert(false);
                    return completed;
                },
            };
            let _gone = self.active.remove(names[i].as_str());
            self.last_closed_end.insert(names[i].clone(), candle.end_time);
            let ghost earlier = candle_names(completed@);
            completed.push(candle.to_candle(InstrumentName::new(names[i].as_str())));
            proof {
                let grown = done.insert(x);
                assert(ended_of(before, grown).active =~= self.active@);
                assert(ended_of(before, grown).closed =~= self.last_closed_end@);
                assert(completed@.last()@.instrument_name == x);
                assert(candle_names(completed@) =~= earlier.push(x));
                assert(list.take(i + 1) =~= list.take(i as int).push(x));
            }
            i += 1;
        }
        assert(list.take(list.len() as int) =~= list);
        completed
    }

    /// The instruments whose minute is over at a moment, in the order of their names.
    fn due_names(&self, now_millis: u64) -> (r: Vec<String>)
        ensures
            ascending(views(r@)),
            views(r@).to_set() == due_of(self@.active, now_millis),
    {
        let n: usize = self.active.len();
        let ghost entries = self.active.entries();
        let ghost keys = keys_of(entries);
        let mut out: Vec<String> = Vec::new();
        let mut i: usize = 0;
        assert(views(out@) =~= Seq::empty());
        while i < n
            invariant
                entries == self.active.entries(),
                keys == keys_of(entries),
                ascending(keys),
                n == entries.len(),
                i <= n,
                ascending(views(out@)),
                forall|k: int|
                    0 <= k < out@.len() ==> exists|m: int|
                        0 <= m < i && keys[m] == #[trigger] views(out@)[k],
                forall|m: int|
                    0 <= m < i ==> (views(out@).contains(#[trigger] keys[m])
                        == (entries[m].1.end_time <= now_millis)),
                forall|m: int|
                    0 <= m < i ==> self.active@.contains_key((#[trigger] keys[m]))
                        && self.active@[keys[m]] == entries[m].1,
            decreases n - i,
        {
            let candle = self.active.value_at(i);
            let ghost x = keys[i as int];
            let ghost before = views(out@);
            proof {
                if before.contains(x) {
                    let k = before.index_of(x);
                    let m = choose|m: int| 0 <= m < i && keys[m] == views(out@)[k];
                    crate::order::ascending_is_distinct(keys);
                    assert(keys[m] == keys[i as int]);
                }
            }
            if candle.end_time <= now_millis {
                out.push(self.active.key_at(i).clone());
                proof {
                    let after = before.push(x);
                    assert(views(out@) =~= after);
                    assert forall|p: int, q: int| 0 <= p < q < after.len() implies text_lt(
                        #[trigger] after[p],
                        #[trigger] after[q],
                    ) by {
                        if q == before.len() {
                            let m = choose|m: int| 0 <= m < i && keys[m] == before[p];
                            assert(text_lt(keys[m], keys[i as int]));
                        }
                    }
                    assert forall|k: int| 0 <= k < out@.len() implies exists|m: int|
                        0 <= m < i + 1 && keys[m] == #[trigger] views(out@)[k] by {
                        if k < before.len() {
                            let m = choose|m: int| 0 <= m < i && keys[m] == before[k];
                            assert(keys[m] == views(out@)[k]);
                        } else {
                            assert(keys[i as int] == views(out@)[k]);
                        }
                    }
                    assert forall|m: int| 0 <= m < i + 1 implies (after.contains(
                        #[trigger] keys[m],
                    ) == (entries[m].1.end_time <= now_millis)) by {
                        if m < i {
                            if before.contains(keys[m]) {
                                let k = before.index_of(keys[m]);
                                assert(after[k] == keys[m]);
                            }
                            if after.contains(keys[m]) {
                                let k = after.index_of(keys[m]);
                                crate::order::ascending_is_distinct(keys);
                                if k < before.len() {
                                    assert(before[k] == keys[m]);
                                }
                            }
                        } else {
                            assert(after[before.len() as int] == x);
                        }
                    }
                }
            }
            i += 1;
        }
        proof {
            assert forall|k: Seq<char>| views(out@).to_set().contains(k) == due_of(
                self@.active,
                now_millis,
            ).contains(k) by {
                if views(out@).to_set().contains(k) {
                    let j = views(out@).index_of(k);
                    let m = choose|m: int| 0 <= m < n && keys[m] == views(out@)[j];
                    assert(views(out@).contains(keys[m]));
                }
                if due_of(self@.active, now_millis).contains(k) {
                    assert(map_of(entries).contains_key(k));
                    let m = choose|m: int| 0 <= m < entries.len() && (#[trigger] entries[m]).0 == k;
                    assert(keys[m] == k);
                }
            }
            assert(views(out@).to_set() =~= due_of(self@.active, now_millis));
        }
        out
    }
}

/// A candle that a tick delivers is sound, and ends after every one delivered before.
pub proof fn delivered_once(state: CandleFactsState, name: Seq<char>, price: Price, start: u64)
    requires
        is_sound_state(state),
        start % 60_000 == 0,
        start <= u64::MAX - 60_000,
    ensures
        ({
            let (next, delivered) = tick_step(state, name, price, start);
            &&& is_sound_state(next)
            &&& delivered matches Some(candle) ==> closed_until(state, name) < candle.end_time
                && closed_until(next, name) == candle.end_time && candle.low.rank()
                <= candle.high.rank()
            &&& delivered is None ==> next.closed == state.closed
        }),
{
}

/// After a minute has been ended, no tick of it changes anything.
pub proof fn late_ticks_change_nothing(
    state: CandleFactsState,
    due: Set<Seq<char>>,
    name: Seq<char>,
    price: Price,
    start: u64,
)
    requires
        is_sound_state(state),
        due.subset_of(state.active.dom()),
        due.contains(name),
        start <= state.active[name].start_time,
    ensures
        tick_step(ended_of(state, due), name, price, start) == (
            ended_of(state, due),
            None::<CandleFacts>,
        ),
{
}

/// The names under which the ticks of spot instruments come, with the names that those
/// instruments have in the catalog.
pub open spec fn canonical_of(list: Seq<InstrumentDefinition>) -> Map<Seq<char>, Seq<char>>
    decreases list.len(),
{
    if list.len() == 0 {
        Map::empty()
    } else {
        let rest = canonical_of(list.drop_last());
        let last = list.last();
        if last.instrument_type == InstrumentType::Spot && last.tradable {
            rest.insert(last.trading_symbol@, last.instrument_name@)
        } else {
            rest
        }
    }
}

/// Makes candles of the tradable spot instruments of a catalog.
pub struct HistoricalCandleService {
    raw_to_canonical: TextMap<InstrumentName>,
    state: CandleState,
}

impl HistoricalCandleService {
    /// The names under which ticks come, with those that candles are made under.
    pub closed spec fn names(&self) -> Map<Seq<char>, Seq<char>> {
        self.raw_to_canonical@.map_values(|n: InstrumentName| n@)
    }

    pub closed spec fn candles(&self) -> CandleFactsState {
        self.state@
    }

    pub fn new(catalog: &InstrumentCatalog) -> (r: HistoricalCandleService)
        ensures
            r.names() == canonical_of(catalog.list()),
            r.candles().active == Map::<Seq<char>, InProgressCandle>::empty(),
            r.candles().closed == Map::<Seq<char>, u64>::empty(),
            is_sound_state(r.candles()),
    {
        let all = catalog.instruments();
        let mut raw_to_canonical: TextMap<InstrumentName> = TextMap::new();
        let mut i: usize = 0;
        let ghost f = |n: InstrumentName| n@;
        assert(all@.take(0) =~= Seq::empty());
        assert(raw_to_canonical@.map_values(f) =~= Map::empty());
        while i < all.len()
            invariant
                i <= all@.len(),
                f == (|n: InstrumentName| n@),
                raw_to_canonical@.map_values(f) == canonical_of(all@.take(i as int)),
            decreases all@.len() - i,
        {
            assert(all@.take(i + 1).drop_last() =~= all@.take(i as int));
            let instrument = &all[i];
            let ghost before = raw_to_canonical@;
            if instrument.instrument_type == InstrumentType::Spot && instrument.tradable {
                raw_to_canonical.insert(
                    instrument.trading_symbol.clone(),
                    instrument.instrument_name.clone(),
                );
                assert(raw_to_canonical@.map_values(f) =~= before.map_values(f).insert(
                    instrument.trading_symbol@,
                    instrument.instrument_name@,
                ));
            }
            i += 1;
        }
        assert(all@.take(all@.len() as int) =~= all@);
        HistoricalCandleService { raw_to_canonical, state: CandleState::new() }
    }

    /// Takes in a tick; gives the candle that it completes. A tick of an instrument that
    /// no candles are made of is passed over.
    pub fn on_tick(&mut self, tick: &PriceTick) -> (r: Result<Option<Candle>, FeedError>)
        ensures
            is_sound_state(old(self).candles()) && tick.time@ <= i64::MAX ==> is_sound_state(
                final(self).candles(),
            ),
            final(self).names() == old(self).names(),
            if !old(self).names().contains_key(tick.instrument_name@) {
                r == Ok::<Option<Candle>, FeedError>(None) && final(self).candles() == old(self).candles()
            } else {
                match r {
                    Ok(candle) => minute_of(tick.time@) matches Ok(start) && {
                        let (state, delivered) = tick_step(
                            old(self).candles(),
                            old(self).names()[tick.instrument_name@],
                            tick.price,
                            start,
                        );
                        &&& final(self).candles() == state
                        &&& delivered == (match candle {
                            Some(c) => Some(c@),
                            None => None,
                        })
                    },
                    Err(e) => minute_of(tick.time@) == Err::<u64, FeedFault>(e@) && final(self).candles() == old(self).candles(),
                }
            },
            tick.time@ <= LAST_MILLIS ==> r is Ok,
    {
        let canonical_name = match self.raw_to_canonical.get(tick.instrument_name.as_str()) {
            Some(name) => name.clone(),
            None => return Ok(None),
        };
        self.state.aggregate_tick(canonical_name, tick)
    }

    /// Ends the minutes that are over at a moment; gives their candles.
    pub fn flush_due_before(&mut self, now_millis: u64) -> (r: Vec<Candle>)
        ensures
            is_sound_state(old(self).candles()) ==> is_sound_state(final(self).candles()),
            final(self).names() == old(self).names(),
            ascending(candle_names(r@)),
            candle_names(r@).to_set() == due_of(old(self).candles().active, now_millis),
            forall|i: int|
                0 <= i < r@.len() ==> (#[trigger] r@[i])@ == finished_of(
                    r@[i].instrument_name@,
                    old(self).candles().active[r@[i].instrument_name@],
                ),
            final(self).candles() == ended_of(
                old(self).candles(),
                due_of(old(self).candles().active, now_millis),
            ),
    {
        self.state.flush_due_before(now_millis)
    }
}

/// The state after prices of one minute of an instrument, one after another.
pub open spec fn after_prices(
    state: CandleFactsState,
    name: Seq<char>,
    prices: Seq<Price>,
    start: u64,
) -> CandleFactsState
    decreases prices.len(),
{
    if prices.len() == 0 {
        state
    } else {
        tick_step(
            after_prices(state, name, prices.drop_last(), start),
            name,
            prices.last(),
            start,
        ).0
    }
}

proof fn prices_make_a_candle(
    state: CandleFactsState,
    name: Seq<char>,
    prices: Seq<Price>,
    start: u64,
)
    requires
        prices.len() > 0,
        !state.active.contains_key(name),
        closed_until(state, name) <= start <= u64::MAX - 60_000,
    ensures
        ({
            let after = after_prices(state, name, prices, start);
            let candle = after.active[name];
            &&& after.closed == state.closed
            &&& after.active == state.active.insert(name, candle)
            &&& candle.start_time == start
            &&& candle.end_time == start + 60_000
            &&& candle.open == prices[0]
            &&& candle.close == prices[prices.len() - 1]
            &&& forall|i: int|
                0 <= i < prices.len() ==> candle.low@.rank() <= (#[trigger] prices[i])@.rank()
                    <= candle.high@.rank()
            &&& exists|i: int| 0 <= i < prices.len() && #[trigger] prices[i] == candle.high
            &&& exists|i: int| 0 <= i < prices.len() && #[trigger] prices[i] == candle.low
        }),
    decreases prices.len(),
{
    let d = prices.drop_last();
    let n = prices.len() - 1;
    let after = after_prices(state, name, prices, start);
    if d.len() == 0 {
        assert(after.active[name].high == prices[0] && after.active[name].low == prices[0]);
    } else {
        prices_make_a_candle(state, name, d, start);
        let was = after_prices(state, name, d, start).active[name];
        let now = after.active[name];
        assert(after.active =~= state.active.insert(name, now));
        assert forall|i: int| 0 <= i < prices.len() implies now.low@.rank() <= (
        #[trigger] prices[i])@.rank() <= now.high@.rank() by {
            if i < n {
                assert(d[i] == prices[i]);
            }
        }
        let h = choose|i: int| 0 <= i < d.len() && #[trigger] d[i] == was.high;
        let l = choose|i: int| 0 <= i < d.len() && #[trigger] d[i] == was.low;
        assert(prices[h] == was.high && prices[l] == was.low);
        assert(prices[n] == now.high || prices[h] == now.high);
        assert(prices[n] == now.low || prices[l] == now.low);
    }
}

/// The candle that the first price of a later minute delivers is what the prices of its minute
/// come to: it opens with the first of them and closes with the last, and its high and its low
/// are the greatest and the least of them. The later minute then begins with its own price.
pub proof fn delivered_candle_is_its_prices(
    state: CandleFactsState,
    name: Seq<char>,
    prices: Seq<Price>,
    start: u64,
    next: Price,
    later: u64,
)
    requires
        prices.len() > 0,
        !state.active.contains_key(name),
        closed_until(state, name) <= start < later <= u64::MAX - 60_000,
    ensures
        ({
            let (after, delivered) = tick_step(
                after_prices(state, name, prices, start),
                name,
                next,
                later,
            );
            &&& delivered matches Some(candle) && {
                &&& candle.instrument_name == name
                &&& candle.timeframe == Timeframe::OneMinute
                &&& candle.start_time == start
                &&& candle.end_time == start + 60_000
                &&& candle.open == prices[0]@
                &&& candle.close == prices[prices.len() - 1]@
                &&& candle.price == candle.close
                &&& candle.volume.bits == 0
                &&& forall|i: int|
                    0 <= i < prices.len() ==> candle.low.rank() <= (#[trigger] prices[i])@.rank()
                        <= candle.high.rank()
                &&& exists|i: int| 0 <= i < prices.len() && #[trigger] prices[i]@ == candle.high
                &&& exists|i: int| 0 <= i < prices.len() && #[trigger] prices[i]@ == candle.low
            }
            &&& closed_until(after, name) == start + 60_000
            &&& after.active.contains_key(name)
            &&& after.active[name].start_time == later
            &&& after.active[name].open == next
            &&& after.active[name].close == next
        }),
{
    prices_make_a_candle(state, name, prices, start);
    let candle = after_prices(state, name, prices, start).active[name];
    let h = choose|i: int| 0 <= i < prices.len() && #[trigger] prices[i] == candle.high;
    let l = choose|i: int| 0 <= i < prices.len() && #[trigger] prices[i] == candle.low;
    assert(prices[h]@ == candle.high@ && prices[l]@ == candle.low@);
}

/// A minute that is ended because it is over is delivered as what its prices come to, and the
/// instrument then has no candle in progress.
pub proof fn ended_candle_is_its_prices(
    state: CandleFactsState,
    name: Seq<char>,
    prices: Seq<Price>,
    start: u64,
    now_millis: u64,
)
    requires
        prices.len() > 0,
        !state.active.contains_key(name),
        closed_until(state, name) <= start <= u64::MAX - 60_000,
    ensures
        ({
            let before = after_prices(state, name, prices, start);
            let due = due_of(before.active, now_millis);
            let candle = finished_of(name, before.active[name]);
            &&& due.contains(name) <==> start + 60_000 <= now_millis
            &&& due.contains(name) ==> {
                &&& !ended_of(before, due).active.contains_key(name)
                &&& closed_until(ended_of(before, due), name) == start + 60_000
            }
            &&& candle.instrument_name == name
            &&& candle.start_time == start
            &&& candle.end_time == start + 60_000
            &&& candle.open == prices[0]@
            &&& candle.close == prices[prices.len() - 1]@
            &&& candle.price == candle.close
            &&& candle.volume.bits == 0
            &&& forall|i: int|
                0 <= i < prices.len() ==> candle.low.rank() <= (#[trigger] prices[i])@.rank()
                    <= candle.high.rank()
            &&& exists|i: int| 0 <= i < prices.len() && #[trigger] prices[i]@ == candle.high
            &&& exists|i: int| 0 <= i < prices.len() && #[trigger] prices[i]@ == candle.low
        }),
{
    prices_make_a_candle(state, name, prices, start);
    let candle = after_prices(state, name, prices, start).active[name];
    let h = choose|i: int| 0 <= i < prices.len() && #[trigger] prices[i] == candle.high;
    let l = choose|i: int| 0 <= i < prices.len() && #[trigger] prices[i] == candle.low;
    assert(prices[h]@ == candle.high@ && prices[l]@ == candle.low@);
}

/// A price of a minute before the one in progress changes nothing, and neither does one of a
/// minute that has been delivered. A price changes nothing of any other instrument.
pub proof fn prices_stay_with_their_minute(
    state: CandleFactsState,
    name: Seq<char>,
    price: Price,
    start: u64,
    other: Seq<char>,
)
    requires
        start <= u64::MAX - 60_000,
        other != name,
    ensures
        start + 60_000 <= closed_until(state, name) || (state.active.contains_key(name) && start
            < state.active[name].start_time) ==> tick_step(state, name, price, start) == (
            state,
            None::<CandleFacts>,
        ),
        ({
            let after = tick_step(state, name, price, start).0;
            &&& after.active.contains_key(other) <==> state.active.contains_key(other)
            &&& after.active[other] == state.active[other]
            &&& closed_until(after, other) == closed_until(state, other)
        }),
{
}

/// The names under which ticks come are those of the spot instruments that can be traded, and
/// stand for the names of these; of two with one name the later counts.
pub proof fn ticks_are_of_tradable_spots(list: Seq<InstrumentDefinition>, symbol: Seq<char>)
    ensures
        canonical_of(list).contains_key(symbol) <==> exists|i: int|
            0 <= i < list.len() && (#[trigger] list[i]).trading_symbol@ == symbol
                && list[i].instrument_type == InstrumentType::Spot && list[i].tradable,
        canonical_of(list).contains_key(symbol) ==> exists|i: int|
            {
                &&& 0 <= i < list.len()
                &&& (#[trigger] list[i]).trading_symbol@ == symbol
                &&& list[i].instrument_type == InstrumentType::Spot
                &&& list[i].tradable
                &&& canonical_of(list)[symbol] == list[i].instrument_name@
                &&& forall|k: int|
                    i < k < list.len() && (#[trigger] list[k]).trading_symbol@ == symbol
                        && list[k].tradable ==> list[k].instrument_type != InstrumentType::Spot
            },
    decreases list.len(),
{
    if list.len() > 0 {
        let d = list.drop_last();
        let n = list.len() - 1;
        ticks_are_of_tradable_spots(d, symbol);
        assert(list[n] == list.last());
        if canonical_of(d).contains_key(symbol) {
            let i = choose|i: int|
                {
                    &&& 0 <= i < d.len()
                    &&& (#[trigger] d[i]).trading_symbol@ == symbol
                    &&& d[i].instrument_type == InstrumentType::Spot
                    &&& d[i].tradable
                    &&& canonical_of(d)[symbol] == d[i].instrument_name@
                    &&& forall|k: int|
                        i < k < d.len() && (#[trigger] d[k]).trading_symbol@ == symbol
                            && d[k].tradable ==> d[k].instrument_type != InstrumentType::Spot
                };
            assert(list[i] == d[i]);
            assert forall|k: int|
                i < k < n && (#[trigger] list[k]).trading_symbol@ == symbol
                    && list[k].tradable implies list[k].instrument_type != InstrumentType::Spot by {
                assert(d[k] == list[k]);
            }
        }
        assert forall|i: int|
            0 <= i < n && (#[trigger] list[i]).trading_symbol@ == symbol
                && list[i].instrument_type == InstrumentType::Spot
                && list[i].tradable implies canonical_of(d).contains_key(symbol) by {
            assert(d[i] == list[i]);
        }
    }
}

} // verus!
