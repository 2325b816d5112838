//! Replaying recorded events, and keeping recorded candles complete.
use crate::calendar::{
    at_second, clock_of, next_at, next_at_is_first, next_at_ist_second, on_clock, parse_clock,
    IST_OFFSET_SECONDS,
};
use crate::feeder::catalog::{InstrumentCatalog, InstrumentDefinition, InstrumentType};
use crate::feeder::error::{outcome, FeedError, FeedFault};
use crate::feeder::event::{
    event_channel, event_instrument, event_price, Candle, FeedChannel, InstrumentName, PriceEvent,
    Timeframe,
};
use crate::feeder::{FeedSubscription, Feeder};
use crate::order::filter_push;
use crate::text::same;
use vstd::prelude::*;

verus! {

/// Delivers recorded events.
pub struct HistoricalReplayFeeder {
    events: Vec<PriceEvent>,
    next: usize,
    subscription: Option<FeedSubscription>,
}

/// Tells which events a subscription is for.
pub open spec fn wanted_by(subscription: FeedSubscription) -> spec_fn(PriceEvent) -> bool {
    |event: PriceEvent| subscription.is_for(event_instrument(event@), event_channel(event@))
}

impl HistoricalReplayFeeder {
    #[verifier::type_invariant]
    closed spec fn within(self) -> bool {
        self.next <= self.events@.len()
    }

    /// The events that have not been delivered or passed over yet.
    pub closed spec fn pending(&self) -> Seq<PriceEvent> {
        self.events@.skip(self.next as int)
    }

    pub closed spec fn subscribed(&self) -> Option<FeedSubscription> {
        self.subscription
    }

    pub fn new(events: Vec<PriceEvent>) -> (r: HistoricalReplayFeeder)
        ensures
            r.pending() == events@,
            r.subscribed() is None,
    {
        assert(events@.skip(0) =~= events@);
        HistoricalReplayFeeder { events, next: 0, subscription: None }
    }
}

/// Filtering a list is filtering its first value and then the others.
proof fn filter_first<A>(s: Seq<A>, f: spec_fn(A) -> bool)
    requires
        s.len() > 0,
    ensures
        s.filter(f) == if f(s[0]) {
            seq![s[0]] + s.skip(1).filter(f)
        } else {
            s.skip(1).filter(f)
        },
    decreases s.len(),
{
    reveal(Seq::filter);
    if s.len() == 1 {
        assert(s.drop_last() =~= Seq::empty());
        assert(s.skip(1) =~= Seq::empty());
        assert(s.filter(f) =~= if f(s[0]) {
            seq![s[0]] + s.skip(1).filter(f)
        } else {
            s.skip(1).filter(f)
        });
    } else {
        let d = s.drop_last();
        filter_first(d, f);
        assert(s.skip(1).drop_last() =~= d.skip(1));
        assert(s.skip(1).last() == s.last());
        assert(s.filter(f) =~= if f(s[0]) {
            seq![s[0]] + s.skip(1).filter(f)
        } else {
            s.skip(1).filter(f)
        });
    }
}

impl Feeder for HistoricalReplayFeeder {
    fn subscribe(&mut self, subscription: FeedSubscription) -> (r: Result<(), FeedError>)
        ensures
            r is Ok,
            final(self).subscribed() == Some(subscription),
            final(self).pending() == old(self).pending(),
    {
        proof {
            use_type_invariant(&*self);
        }
        self.subscription = Some(subscription);
        Ok(())
    }

    /// The next event that the subscription is for. Those before it are passed over.
    fn next_event(&mut self) -> (r: Result<Option<PriceEvent>, FeedError>)
        ensures
            final(self).subscribed() == old(self).subscribed(),
            match old(self).subscribed() {
                None => r matches Err(e) && e@ == FeedFault::NotSubscribed && final(self).pending()
                    == old(self).pending(),
                Some(subscription) => r matches Ok(delivered) && match delivered {
                    Some(event) => old(self).pending().filter(wanted_by(subscription)) == seq![event]
                        + final(self).pending().filter(wanted_by(subscription)) && exists|i: int|
                        0 <= i < old(self).pending().len() && #[trigger] old(self).pending()[i]
                            == event && final(self).pending() == old(self).pending().skip(i + 1),
                    None => old(self).pending().filter(wanted_by(subscription)) == Seq::<
                        PriceEvent,
                    >::empty() && final(self).pending() == Seq::<PriceEvent>::empty(),
                },
            },
    {
        proof {
            use_type_invariant(&*self);
        }
        let ghost start = self.pending();
        let ghost from = self.next as int;
        if self.subscription.is_none() {
            return Err(FeedError::NotSubscribed);
        }
        let ghost wanted = wanted_by(self.subscription->0);
        assert(self.events@.skip(from) =~= start);
        while self.next < self.events.len()
            invariant
                self.next <= self.events@.len(),
                0 <= from <= self.next,
                self.events@ == old(self).events@,
                self.subscription == old(self).subscription,
                self.subscription is Some,
                wanted == wanted_by(self.subscription->0),
                start == old(self).pending(),
                start == self.events@.skip(from),
                start.filter(wanted) == self.events@.skip(self.next as int).filter(wanted),
            decreases self.events@.len() - self.next,
        {
            let i: usize = self.next;
            let ghost rest = self.events@.skip(i as int);
            proof {
                filter_first(rest, wanted);
                assert(rest.skip(1) =~= self.events@.skip(i + 1));
                assert(rest[0] == self.events@[i as int]);
            }
            let fits = match &self.subscription {
                Some(subscription) => subscription.wants(
                    self.events[i].instrument_name(),
                    &self.events[i].channel(),
                ),
                None => false,
            };
            if fits {
                let event = self.events[i].clone();
                self.next = i + 1;
                proof {
                    assert(start[i - from] == event);
                    assert(start.skip(i - from + 1) =~= self.events@.skip(i + 1));
                }
                return Ok(Some(event));
            }
            self.next = i + 1;
        }
        proof {
            let rest = self.events@.skip(self.next as int);
            assert(rest =~= Seq::empty());
            reveal(Seq::filter);
            assert(rest.filter(wanted) =~= Seq::empty());
        }
        Ok(None)
    }
}

/// The milliseconds of a number of days.
pub fn days_to_millis(days: u32) -> (r: u64)
    ensures
        r == days * 86_400_000,
{
    days as u64 * 86_400_000
}

/// The milliseconds of a timeframe.
pub open spec fn millis_of(timeframe: Timeframe) -> nat {
    match timeframe {
        Timeframe::OneMinute => 60_000,
        Timeframe::ThreeMinute => 180_000,
        Timeframe::FiveMinute => 300_000,
        Timeframe::FifteenMinute => 900_000,
        Timeframe::ThirtyMinute => 1_800_000,
        Timeframe::SeventyFiveMinute => 4_500_000,
        Timeframe::OneHour => 3_600_000,
        Timeframe::FourHour => 14_400_000,
        Timeframe::OneDay => 86_400_000,
    }
}

pub fn timeframe_millis(timeframe: Timeframe) -> (r: u64)
    ensures
        r == millis_of(timeframe),
{
    match timeframe {
        Timeframe::OneMinute => 60_000,
        Timeframe::ThreeMinute => 180_000,
        Timeframe::FiveMinute => 300_000,
        Timeframe::FifteenMinute => 900_000,
        Timeframe::ThirtyMinute => 1_800_000,
        Timeframe::SeventyFiveMinute => 4_500_000,
        Timeframe::OneHour => 3_600_000,
        Timeframe::FourHour => 14_400_000,
        Timeframe::OneDay => 86_400_000,
    }
}

/// Which part of the history is kept, and from when on it is fetched.
#[derive(Clone, Copy, Debug, PartialEq, Eq, Structural)]
pub struct HistoryPlan {
    pub cutoff: u64,
    pub fetch_from: Option<u64>,
}

pub open spec fn cutoff_of(now: u64, days: u32) -> int {
    if now >= days * 86_400_000 {
        now - days * 86_400_000
    } else {
        0
    }
}

/// What is to be done so that the history of the last days is complete up to now: fetch
/// what follows the latest candle that is there, and drop what is older than those days.
/// Nothing where no days are to be kept.
pub fn recovery_plan(now: u64, lookback_days: u32, latest_end: Option<u64>) -> (r: Option<
    HistoryPlan,
>)
    ensures
        match r {
            None => lookback_days == 0,
            Some(plan) => {
                &&& lookback_days != 0
                &&& plan.cutoff == cutoff_of(now, lookback_days)
                &&& ({
                    let from = match latest_end {
                        Some(end) if end > plan.cutoff => end,
                        _ => plan.cutoff,
                    };
                    plan.fetch_from == if from < now {
                        Some(from)
                    } else {
                        None
                    }
                })
            },
        },
{
    if lookback_days == 0 {
        return None;
    }
    let cutoff: u64 = now.saturating_sub(days_to_millis(lookback_days));
    let from: u64 = match latest_end {
        Some(end) => if end > cutoff {
            end
        } else {
            cutoff
        },
        None => cutoff,
    };
    Some(
        HistoryPlan {
            cutoff,
            fetch_from: if from < now {
                Some(from)
            } else {
                None
            },
        },
    )
}

/// What is to be done so that the last days of the history agree with the source: fetch
/// the days to reconcile, as far as they are kept, and drop what is not kept. Nothing
/// where no days are to be kept.
pub fn maintenance_plan(now: u64, retention_days: u32, reconcile_days: u32) -> (r: Option<
    HistoryPlan,
>)
    ensures
        match r {
            None => retention_days == 0,
            Some(plan) => {
                &&& retention_days != 0
                &&& plan.cutoff == cutoff_of(now, retention_days)
                &&& ({
                    let from = if cutoff_of(now, reconcile_days) > plan.cutoff {
                        cutoff_of(now, reconcile_days)
                    } else {
                        plan.cutoff as int
                    };
                    match plan.fetch_from {
                        Some(start) => reconcile_days != 0 && from < now && start == from,
                        None => reconcile_days == 0 || from >= now,
                    }
                })
            },
        },
{
    if retention_days == 0 {
        return None;
    }
    let cutoff: u64 = now.saturating_sub(days_to_millis(retention_days));
    if reconcile_days == 0 {
        return Some(HistoryPlan { cutoff, fetch_from: None });
    }
    let reconcile: u64 = now.saturating_sub(days_to_millis(reconcile_days));
    let from: u64 = if reconcile > cutoff {
        reconcile
    } else {
        cutoff
    };
    Some(
        HistoryPlan {
            cutoff,
            fetch_from: if from < now {
                Some(from)
            } else {
                None
            },
        },
    )
}

/// A span of history that is being fetched, piece by piece.
pub struct CandleSync {
    name: InstrumentName,
    timeframe: Timeframe,
    cursor: u64,
    end: u64,
    chunk_millis: u64,
    written: usize,
}

/// Whether a candle is one that a fetch is for: of the instrument and timeframe, and
/// ending after the place that has been reached but not after the end.
pub open spec fn is_sought(
    candle: Candle,
    name: Seq<char>,
    timeframe: Timeframe,
    cursor: u64,
    end: u64,
) -> bool {
    &&& candle.instrument_name@ == name
    &&& candle.timeframe == timeframe
    &&& cursor < candle.end_time@ <= end
}

pub open spec fn sought(name: Seq<char>, timeframe: Timeframe, cursor: u64, end: u64) -> spec_fn(
    Candle,
) -> bool {
    |candle: Candle| is_sought(candle, name, timeframe, cursor, end)
}

/// The latest end among candles, or the given place where none ends after it.
pub open spec fn reached_of(candles: Seq<Candle>, cursor: u64) -> u64
    decreases candles.len(),
{
    if candles.len() == 0 {
        cursor
    } else {
        let rest = reached_of(candles.drop_last(), cursor);
        if candles.last().end_time@ > rest {
            candles.last().end_time@
        } else {
            rest
        }
    }
}

/// The least of two moments.
pub open spec fn earlier(a: int, b: int) -> int {
    if a <= b {
        a
    } else {
        b
    }
}

impl CandleSync {
    #[verifier::type_invariant]
    closed spec fn fits(self) -> bool {
        self.cursor < self.end ==> self.chunk_millis > 0
    }

    pub closed spec fn instrument(&self) -> Seq<char> {
        self.name@
    }

    pub closed spec fn span(&self) -> Timeframe {
        self.timeframe
    }

    /// How far the history has been fetched.
    pub closed spec fn cursor(&self) -> u64 {
        self.cursor
    }

    pub closed spec fn end(&self) -> u64 {
        self.end
    }

    /// How much is fetched at once.
    pub closed spec fn chunk(&self) -> u64 {
        self.chunk_millis
    }

    /// How many candles have been kept.
    pub closed spec fn kept(&self) -> usize {
        self.written
    }

    /// Begins to fetch the history from one moment to another; `chunk_candles` is how many
    /// candles the source gives at once.
    pub fn new(
        name: InstrumentName,
        timeframe: Timeframe,
        start: u64,
        end: u64,
        chunk_candles: u64,
    ) -> (r: Result<CandleSync, FeedError>)
        requires
            start < end ==> chunk_candles > 0,
        ensures
            match r {
                Ok(sync) => {
                    &&& start >= end || millis_of(timeframe) * chunk_candles <= u64::MAX
                    &&& sync.instrument() == name@
                    &&& sync.span() == timeframe
                    &&& sync.cursor() == start
                    &&& sync.end() == end
                    &&& start < end ==> sync.chunk() == millis_of(timeframe) * chunk_candles
                    &&& sync.kept() == 0
                },
                Err(e) => start < end && millis_of(timeframe) * chunk_candles > u64::MAX && e@
                    == FeedFault::Config("historical recovery chunk size overflow"@),
            },
    {
        if start >= end {
            return Ok(
                CandleSync { name, timeframe, cursor: start, end, chunk_millis: 0, written: 0 },
            );
        }
        let span: u64 = timeframe_millis(timeframe);
        assert(span * chunk_candles > 0) by (nonlinear_arith)
            requires
                span > 0,
                chunk_candles > 0,
        ;
        match span.checked_mul(chunk_candles) {
            Some(chunk_millis) => Ok(
                CandleSync { name, timeframe, cursor: start, end, chunk_millis, written: 0 },
            ),
            None => Err(
                FeedError::Config("historical recovery chunk size overflow".to_owned()),
            ),
        }
    }

    /// The bounds of the piece to fetch next, or none where the history is complete.
    pub fn next_request(&self) -> (r: Option<(u64, u64)>)
        ensures
            match r {
                Some((from, to)) => self.cursor() < self.end() && from == self.cursor() && to
                    == earlier(self.cursor() + self.chunk(), self.end() as int),
                None => self.cursor() >= self.end(),
            },
    {
        proof {
            use_type_invariant(self);
        }
        if self.cursor >= self.end {
            return None;
        }
        if self.chunk_millis <= self.end - self.cursor {
            Some((self.cursor, self.cursor + self.chunk_millis))
        } else {
            Some((self.cursor, self.end))
        }
    }

    /// Takes in what the source gave for the piece to fetch next, and gives the candles of
    /// it that are to be kept. The history is then complete up to the last of them, or up
    /// to the end of the piece where there is none.
    pub fn accept(&mut self, candles: &Vec<Candle>) -> (r: Vec<Candle>)
        requires
            old(self).cursor() < old(self).end(),
        ensures
            r@ == candles@.filter(
                sought(
                    old(self).instrument(),
                    old(self).span(),
                    old(self).cursor(),
                    old(self).end(),
                ),
            ),
            final(self).instrument() == old(self).instrument(),
            final(self).span() == old(self).span(),
            final(self).end() == old(self).end(),
            final(self).chunk() == old(self).chunk(),
            final(self).kept() == earlier(old(self).kept() + r@.len(), usize::MAX as int),
            final(self).cursor() == if reached_of(r@, old(self).cursor()) > old(self).cursor() {
                reached_of(r@, old(self).cursor()) as int
            } else {
                earlier(old(self).cursor() + old(self).chunk(), old(self).end() as int)
            },
            old(self).cursor() < final(self).cursor() <= final(self).end(),
    {
        proof {
            use_type_invariant(&*self);
        }
        let cursor: u64 = self.cursor;
        let end: u64 = self.end;
        let chunk_end: u64 = if self.chunk_millis <= end - cursor {
            cursor + self.chunk_millis
        } else {
            end
        };
        let ghost f = sought(self.name@, self.timeframe, cursor, end);
        let mut kept: Vec<Candle> = Vec::new();
        let mut advanced_to: u64 = cursor;
        let mut i: usize = 0;
        assert(candles@.take(0).filter(f) =~= Seq::empty()) by {
            reveal(Seq::filter);
        }
        while i < candles.len()
            invariant
                i <= candles@.len(),
                cursor == self.cursor,
                end == self.end,
                cursor < end,
                f == sought(self.name@, self.timeframe, cursor, end),
                kept@ == candles@.take(i as int).filter(f),
                kept@.len() <= i,
                advanced_to == reached_of(kept@, cursor),
                cursor <= advanced_to <= end,
            decreases candles@.len() - i,
        {
            let candle = &candles[i];
            proof {
                filter_push(candles@.take(i as int), candles@[i as int], f);
                assert(candles@.take(i + 1) =~= candles@.take(i as int).push(candles@[i as int]));
            }
            let candle_end: u64 = candle.end_time.as_u64();
            if same(candle.instrument_name.as_str(), self.name.as_str()) && candle.timeframe
                == self.timeframe && candle_end > cursor && candle_end <= end {
                let ghost before = kept@;
                kept.push(candle.clone());
                assert(kept@.drop_last() =~= before);
                if candle_end > advanced_to {
                    advanced_to = candle_end;
                }
            }
            i += 1;
        }
        assert(candles@.take(i as int) =~= candles@);
        let next: u64 = if advanced_to > cursor {
            advanced_to
        } else {
            chunk_end
        };
        let written: usize = self.written.saturating_add(kept.len());
        self.cursor = next;
        self.written = written;
        kept
    }
}

/// Tells which instruments history is kept of.
pub open spec fn keeps_history() -> spec_fn(InstrumentDefinition) -> bool {
    |i: InstrumentDefinition| i.instrument_type == InstrumentType::Spot && i.tradable
}

/// The instruments that history is kept of: the tradable spot instruments, in the order
/// of their names.
pub fn history_instruments(catalog: &InstrumentCatalog) -> (r: Vec<InstrumentDefinition>)
    ensures
        r@ == catalog.list().filter(keeps_history()),
{
    let all = catalog.instruments();
    let mut out: Vec<InstrumentDefinition> = Vec::new();
    let mut i: usize = 0;
    assert(all@.take(0).filter(keeps_history()) =~= Seq::empty()) by {
        reveal(Seq::filter);
    }
    while i < all.len()
        invariant
            i <= all@.len(),
            out@ == all@.take(i as int).filter(keeps_history()),
        decreases all@.len() - i,
    {
        proof {
            filter_push(all@.take(i as int), all@[i as int], keeps_history());
            assert(all@.take(i + 1) =~= all@.take(i as int).push(all@[i as int]));
        }
        if all[i].instrument_type == InstrumentType::Spot && all[i].tradable {
            out.push(all[i].clone());
        }
        i += 1;
    }
    assert(all@.take(i as int) =~= all@);
    out
}

/// The time of day at which history is maintained.
pub fn parse_ist_hh_mm(value: &str) -> (r: Result<u64, FeedError>)
    ensures
        outcome(r) == clock_of(
            value@,
            "historical_candles.maintenance_time_ist"@,
            u64::MAX as nat,
        ),
        r matches Ok(second) ==> second < 86_400,
{
    parse_clock(value, "historical_candles.maintenance_time_ist", u64::MAX)
}

/// When history is maintained next: the first moment after now at the given second of the
/// day in Indian Standard Time.
pub fn next_scheduled_utc_epoch(now_utc: u64, scheduled_second: u64) -> (r: u64)
    ensures
        r == next_at(now_utc, scheduled_second, false, 3),
        on_clock(now_utc, IST_OFFSET_SECONDS as int, scheduled_second as int) && scheduled_second
            < 86_400 ==> {
            let offset = IST_OFFSET_SECONDS as int;
            let second = scheduled_second as int;
            &&& now_utc < r
            &&& at_second(r as int, offset, second, false)
            &&& forall|u: int| now_utc < u < r ==> !at_second(u, offset, second, false)
        },
{
    proof {
        if on_clock(now_utc, IST_OFFSET_SECONDS as int, scheduled_second as int)
            && scheduled_second < 86_400 {
            next_at_is_first(now_utc, scheduled_second, false, 3);
        }
    }
    next_at_ist_second(now_utc, scheduled_second, false, 3)
}

/// How long to sleep before looking whether to stop.
pub fn sleep_slice(remaining: u64) -> (r: u64)
    ensures
        r == earlier(remaining as int, 30),
{
    if remaining <= 30 {
        remaining
    } else {
        30
    }
}

/// What is older than the days that are kept is dropped: from where history is kept to now there
/// are as many days, or all since 1970 where there were fewer.
pub proof fn history_is_kept_for_its_days(now: u64, days: u32)
    ensures
        0 <= cutoff_of(now, days) <= now,
        cutoff_of(now, days) == 0 || now - cutoff_of(now, days) == days * 86_400_000,
        now - cutoff_of(now, days) <= days * 86_400_000,
{
}

/// A fetch has reached the end of the last of the candles that it gave, and never goes back.
pub proof fn fetching_reaches_the_last_candle(candles: Seq<Candle>, cursor: u64)
    ensures
        cursor <= reached_of(candles, cursor),
        forall|i: int|
            0 <= i < candles.len() ==> (#[trigger] candles[i]).end_time@ <= reached_of(
                candles,
                cursor,
            ),
        reached_of(candles, cursor) == cursor || exists|i: int|
            0 <= i < candles.len() && (#[trigger] candles[i]).end_time@ == reached_of(
                candles,
                cursor,
            ),
    decreases candles.len(),
{
    if candles.len() > 0 {
        let d = candles.drop_last();
        let n = candles.len() - 1;
        fetching_reaches_the_last_candle(d, cursor);
        assert(candles[n] == candles.last());
        assert forall|i: int|
            #![trigger d[i]]
            #![trigger candles[i]]
            0 <= i < n implies d[i] == candles[i] by {}
        if reached_of(d, cursor) != cursor {
            let i = choose|i: int|
                0 <= i < d.len() && (#[trigger] d[i]).end_time@ == reached_of(d, cursor);
            assert(candles[i].end_time@ == reached_of(d, cursor));
        }
    }
}

/// The candles of a fetch that are kept are of its instrument and its timeframe, and end after
/// what had been reached but not after the end of what is fetched; of those that the source
/// gave, all such are kept.
pub proof fn kept_candles_are_sought(
    candles: Seq<Candle>,
    name: Seq<char>,
    timeframe: Timeframe,
    cursor: u64,
    end: u64,
    candle: Candle,
)
    ensures
        candles.filter(sought(name, timeframe, cursor, end)).contains(candle) <==> {
            &&& candles.contains(candle)
            &&& candle.instrument_name@ == name
            &&& candle.timeframe == timeframe
            &&& cursor < candle.end_time@
            &&& candle.end_time@ <= end
        },
    decreases candles.len(),
{
    let f = sought(name, timeframe, cursor, end);
    let all = candles.filter(f);
    if candles.len() > 0 {
        let d = candles.drop_last();
        let n = candles.len() - 1;
        kept_candles_are_sought(d, name, timeframe, cursor, end, candle);
        filter_push(d, candles.last(), f);
        assert(candles =~= d.push(candles.last()));
        let before = d.filter(f);
        if before.contains(candle) {
            let k = choose|k: int| 0 <= k < before.len() && before[k] == candle;
            assert(all[k] == candle);
            let i = choose|i: int| 0 <= i < d.len() && d[i] == candle;
            assert(candles[i] == candle);
        }
        if all.contains(candle) && !before.contains(candle) {
            let k = choose|k: int| 0 <= k < all.len() && all[k] == candle;
            if k < before.len() {
                assert(before[k] == candle);
            }
            assert(candles[n] == candle);
        }
        if candles.contains(candle) && !d.contains(candle) {
            let i = choose|i: int| 0 <= i < candles.len() && candles[i] == candle;
            if i < n {
                assert(d[i] == candle);
            }
            if f(candle) {
                assert(all[before.len() as int] == candle);
            }
        }
    } else {
        reveal(Seq::filter);
    }
}

/// History is kept of the spot instruments that can be traded, and of no others.
pub proof fn history_is_of_tradable_spots(one: InstrumentDefinition)
    ensures
        keeps_history()(one) <==> one.tradable && one.instrument_type == InstrumentType::Spot,
{
}

/// An event is delivered where its instrument and its channel are both among those that are
/// subscribed to: a tick on that of ticks, a candle on that of its timeframe.
pub proof fn delivered_events_are_subscribed_to(subscription: FeedSubscription, event: PriceEvent)
    ensures
        wanted_by(subscription)(event) <==> match event {
            PriceEvent::Tick(tick) => {
                &&& exists|i: int|
                    0 <= i < subscription.instrument_list().len() && (
                    #[trigger] subscription.instrument_list()[i])@ == tick.instrument_name@
                &&& subscription.channel_list().contains(FeedChannel::PriceTick)
            },
            PriceEvent::Candle(candle) => {
                &&& exists|i: int|
                    0 <= i < subscription.instrument_list().len() && (
                    #[trigger] subscription.instrument_list()[i])@ == candle.instrument_name@
                &&& subscription.channel_list().contains(FeedChannel::PriceCandle(candle.timeframe))
            },
        },
        match event {
            PriceEvent::Tick(tick) => event_price(event@) == tick.price@,
            PriceEvent::Candle(candle) => event_price(event@) == candle.price@,
        },
{
}

} // verus!
