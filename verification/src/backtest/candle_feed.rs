//! The candles that a backtest goes through.
use crate::adapters::historical::millis_of;
use crate::binary64::Real;
use crate::feeder::candle_alignment::{CandleAlignment, CandleAlignmentMap};
use crate::feeder::event::{is_price, Candle, Timeframe};
use crate::order::{
    filter_push, in_order, sort, sorted_of, sorting_keeps, sorting_keeps_count, sorting_orders,
    text_before, text_lt, text_order_is_total, text_order_is_transitive, Ranked,
};
use crate::strategy::{Bar, StrategyError, StrategyFault};
use crate::text::{same, views};
use vstd::prelude::*;

verus! {

/// The spans of timeframes go up by whole minutes, and each is what it is called in
/// milliseconds too.
pub proof fn timeframes_agree(timeframe: Timeframe)
    ensures
        millis_of(timeframe) == factor_of(timeframe) * 60_000,
        factor_of(Timeframe::OneHour) == 4 * factor_of(Timeframe::FifteenMinute),
        factor_of(Timeframe::OneHour) == 2 * factor_of(Timeframe::ThirtyMinute),
        factor_of(Timeframe::FifteenMinute) == 5 * factor_of(Timeframe::ThreeMinute),
        factor_of(Timeframe::FifteenMinute) == 3 * factor_of(Timeframe::FiveMinute),
        factor_of(Timeframe::SeventyFiveMinute) == 5 * factor_of(Timeframe::FifteenMinute),
        factor_of(Timeframe::FourHour) == 4 * factor_of(Timeframe::OneHour),
        factor_of(Timeframe::OneDay) == 24 * factor_of(Timeframe::OneHour),
        factor_of(Timeframe::ThreeMinute) == 3 * factor_of(Timeframe::OneMinute),
        factor_of(Timeframe::OneMinute) == 1,
{
}

/// The minutes of a timeframe.
pub open spec fn factor_of(timeframe: Timeframe) -> usize {
    match timeframe {
        Timeframe::OneMinute => 1,
        Timeframe::ThreeMinute => 3,
        Timeframe::FiveMinute => 5,
        Timeframe::FifteenMinute => 15,
        Timeframe::ThirtyMinute => 30,
        Timeframe::SeventyFiveMinute => 75,
        Timeframe::OneHour => 60,
        Timeframe::FourHour => 240,
        Timeframe::OneDay => 1_440,
    }
}

pub fn timeframe_factor(timeframe: Timeframe) -> (r: usize)
    ensures
        r == factor_of(timeframe),
{
    match timeframe {
        Timeframe::OneMinute => 1,
        Timeframe::ThreeMinute => 3,
        Timeframe::FiveMinute => 5,
        Timeframe::FifteenMinute => 15,
        Timeframe::ThirtyMinute => 30,
        Timeframe::SeventyFiveMinute => 75,
        Timeframe::OneHour => 60,
        Timeframe::FourHour => 240,
        Timeframe::OneDay => 1_440,
    }
}

/// Whether a span is the one of a timeframe that a moment falls into. The spans follow each
/// other from where the candles of an instrument begin in the day.
pub open spec fn is_bucket(
    timeframe: Timeframe,
    at: int,
    alignment: CandleAlignment,
    start: int,
    end: int,
) -> bool {
    &&& start <= at < end
    &&& end - start == factor_of(timeframe) * 60_000
    &&& (start - alignment.anchor_offset_seconds * 1_000) % (factor_of(timeframe) * 60_000) == 0
}

/// The beginning of the span of a timeframe that a moment falls into.
pub open spec fn bucket_start(timeframe: Timeframe, at: int, alignment: CandleAlignment) -> int {
    at - (at - alignment.anchor_offset_seconds * 1_000) % (factor_of(timeframe) * 60_000)
}

/// The end of the span of a timeframe that a moment falls into.
pub open spec fn bucket_end(timeframe: Timeframe, at: int, alignment: CandleAlignment) -> int {
    bucket_start(timeframe, at, alignment) + factor_of(timeframe) * 60_000
}

/// Whether the span that a moment falls into lies on the clock.
pub open spec fn has_bucket(timeframe: Timeframe, at: int, alignment: CandleAlignment) -> bool {
    bucket_start(timeframe, at, alignment) >= 0 && bucket_end(timeframe, at, alignment) <= u64::MAX
}

/// A moment falls into one span of a timeframe, and into no other.
pub proof fn bucket_is_one(timeframe: Timeframe, at: int, alignment: CandleAlignment)
    ensures
        is_bucket(
            timeframe,
            at,
            alignment,
            bucket_start(timeframe, at, alignment),
            bucket_end(timeframe, at, alignment),
        ),
        forall|start: int, end: int| #[trigger]
            is_bucket(timeframe, at, alignment, start, end) ==> start == bucket_start(
                timeframe,
                at,
                alignment,
            ) && end == bucket_end(timeframe, at, alignment),
{
    let span = factor_of(timeframe) * 60_000;
    let anchor = alignment.anchor_offset_seconds * 1_000;
    let x = at - anchor;
    let first = bucket_start(timeframe, at, alignment);
    vstd::arithmetic::div_mod::lemma_fundamental_div_mod(x, span);
    vstd::arithmetic::div_mod::lemma_mod_multiples_basic(x / span, span);
    assert(first - anchor == (x / span) * span) by (nonlinear_arith)
        requires
            x == span * (x / span) + x % span,
            first - anchor == x - x % span,
    ;
    assert forall|start: int, end: int| #[trigger]
        is_bucket(timeframe, at, alignment, start, end) implies start == first && end == first
        + span by {
        let y = start - anchor;
        vstd::arithmetic::div_mod::lemma_fundamental_div_mod(y, span);
        assert(y == x - x % span) by (nonlinear_arith)
            requires
                span > 0,
                x == span * (x / span) + x % span,
                0 <= x % span < span,
                y == span * (y / span),
                y <= x < y + span,
        ;
    }
}

/// The span of a timeframe that a moment falls into, where it lies on the clock.
pub fn bucket_bounds(timeframe: Timeframe, at: u64, alignment: CandleAlignment) -> (r: Option<
    (u64, u64),
>)
    ensures
        match r {
            Some((start, end)) => is_bucket(
                timeframe,
                at as int,
                alignment,
                start as int,
                end as int,
            ) && start == bucket_start(timeframe, at as int, alignment) && end == bucket_end(
                timeframe,
                at as int,
                alignment,
            ),
            None => !has_bucket(timeframe, at as int, alignment),
        },
{
    proof {
        bucket_is_one(timeframe, at as int, alignment);
    }
    let span: i128 = timeframe_factor(timeframe) as i128 * 60_000;
    let anchor: i128 = alignment.anchor_offset_seconds as i128 * 1_000;
    let since: i128 = match (at as i128 - anchor).checked_rem_euclid(span) {
        Some(since) => since,
        None => 0,
    };
    let start: i128 = at as i128 - since;
    let end: i128 = start + span;
    if start < 0 || end > u64::MAX as i128 {
        None
    } else {
        Some((start as u64, end as u64))
    }
}

/// Whether the span of each of some candles lies on the clock.
pub open spec fn have_buckets(
    source: Seq<Candle>,
    timeframe: Timeframe,
    alignment: CandleAlignment,
) -> bool {
    forall|i: int|
        0 <= i < source.len() ==> has_bucket(
            timeframe,
            (#[trigger] source[i]).start_time@ as int,
            alignment,
        )
}

/// The spans that some candles fall into.
pub open spec fn buckets_of(
    source: Seq<Candle>,
    timeframe: Timeframe,
    alignment: CandleAlignment,
) -> Seq<(u64, u64)> {
    Seq::new(
        source.len(),
        |i: int|
            (
                bucket_start(timeframe, source[i].start_time@ as int, alignment) as u64,
                bucket_end(timeframe, source[i].start_time@ as int, alignment) as u64,
            ),
    )
}

/// The spans that some candles fall into, where they all lie on the clock.
pub fn candle_bounds(source: &Vec<Candle>, timeframe: Timeframe, alignment: CandleAlignment) -> (r:
    Option<Vec<(u64, u64)>>)
    ensures
        match r {
            Some(bounds) => {
                &&& have_buckets(source@, timeframe, alignment)
                &&& bounds@ == buckets_of(source@, timeframe, alignment)
                &&& bounds@.len() == source@.len()
                &&& forall|i: int|
                    0 <= i < source@.len() ==> is_bucket(
                        timeframe,
                        source@[i].start_time@ as int,
                        alignment,
                        (#[trigger] bounds@[i]).0 as int,
                        bounds@[i].1 as int,
                    )
            },
            None => !have_buckets(source@, timeframe, alignment),
        },
{
    let mut bounds: Vec<(u64, u64)> = Vec::new();
    let mut i: usize = 0;
    while i < source.len()
        invariant
            i <= source@.len(),
            bounds@ == buckets_of(source@, timeframe, alignment).take(i as int),
            forall|k: int|
                0 <= k < i ==> has_bucket(
                    timeframe,
                    (#[trigger] source@[k]).start_time@ as int,
                    alignment,
                ),
            forall|k: int|
                0 <= k < i ==> is_bucket(
                    timeframe,
                    source@[k].start_time@ as int,
                    alignment,
                    (#[trigger] bounds@[k]).0 as int,
                    bounds@[k].1 as int,
                ),
        decreases source@.len() - i,
    {
        match bucket_bounds(timeframe, source[i].start_time.as_u64(), alignment) {
            Some(bound) => {
                bounds.push(bound);
                assert(bounds@ =~= buckets_of(source@, timeframe, alignment).take(i + 1));
            },
            None => {
                assert(!has_bucket(timeframe, source@[i as int].start_time@ as int, alignment));
                return None;
            },
        }
        i += 1;
    }
    assert(bounds@ =~= buckets_of(source@, timeframe, alignment));
    Some(bounds)
}

/// Whether candles of a timeframe can be put together from those of a minute.
pub fn can_aggregate_from_one_minute(timeframe: Timeframe) -> (r: bool)
    ensures
        r == (timeframe != Timeframe::OneMinute),
{
    match timeframe {
        Timeframe::OneMinute => false,
        _ => true,
    }
}

/// A candle in the order in which a backtest goes through candles: by their ends, then the
/// shorter ones first, then by their instruments, and then by their beginnings.
pub struct Played {
    pub bar: Bar,
}

impl Played {
    pub open spec fn when(&self) -> (u64, usize) {
        (self.bar.end_at, factor_of(self.bar.timeframe))
    }

    pub open spec fn name(&self) -> Seq<char> {
        self.bar.instrument@
    }
}

impl Ranked for Played {
    open spec fn ranks_before(&self, other: &Played) -> bool {
        ||| self.when().0 < other.when().0
        ||| self.when().0 == other.when().0 && self.when().1 < other.when().1
        ||| self.when() == other.when() && text_lt(self.name(), other.name())
        ||| self.when() == other.when() && self.name() == other.name() && self.bar.start_at
            < other.bar.start_at
    }

    proof fn rank_is_asymmetric(a: &Played, b: &Played) {
        text_order_is_total(a.name(), b.name());
        text_order_is_total(b.name(), a.name());
    }

    proof fn rank_is_transitive(a: &Played, b: &Played, c: &Played) {
        text_order_is_total(a.name(), b.name());
        text_order_is_total(b.name(), c.name());
        text_order_is_total(a.name(), c.name());
        text_order_is_total(c.name(), a.name());
        if text_lt(a.name(), b.name()) && text_lt(b.name(), c.name()) {
            text_order_is_transitive(a.name(), b.name(), c.name());
        }
    }

    fn is_before(&self, other: &Played) -> (r: bool) {
        proof {
            text_order_is_total(self.name(), other.name());
        }
        let a: usize = timeframe_factor(self.bar.timeframe);
        let b: usize = timeframe_factor(other.bar.timeframe);
        if self.bar.end_at != other.bar.end_at {
            self.bar.end_at < other.bar.end_at
        } else if a != b {
            a < b
        } else if same(self.bar.instrument.as_str(), other.bar.instrument.as_str()) {
            self.bar.start_at < other.bar.start_at
        } else {
            text_before(self.bar.instrument.as_str(), other.bar.instrument.as_str())
        }
    }
}

pub open spec fn played_all(bars: Seq<Bar>) -> Seq<Played> {
    Seq::new(bars.len(), |i: int| Played { bar: bars[i] })
}

pub open spec fn unplayed(list: Seq<Played>) -> Seq<Bar> {
    Seq::new(list.len(), |i: int| list[i].bar)
}

/// Candles in the order in which a backtest goes through them.
pub open spec fn play_order(bars: Seq<Bar>) -> Seq<Bar> {
    unplayed(sorted_of(played_all(bars)))
}

/// Candles in the order in which a backtest goes through them.
pub fn sort_bars(bars: &Vec<Bar>) -> (r: Vec<Bar>)
    ensures
        r@ == play_order(bars@),
{
    let ghost all = played_all(bars@);
    let mut items: Vec<Played> = Vec::new();
    let mut i: usize = 0;
    while i < bars.len()
        invariant
            i <= bars@.len(),
            all == played_all(bars@),
            items@ == all.take(i as int),
        decreases bars@.len() - i,
    {
        items.push(Played { bar: bars[i].clone() });
        i += 1;
        assert(all.take(i as int) =~= all.take(i - 1).push(all[i - 1]));
    }
    assert(all.take(i as int) =~= all);
    let sorted = sort(items);
    let mut out: Vec<Bar> = Vec::new();
    let mut k: usize = 0;
    while k < sorted.len()
        invariant
            k <= sorted@.len(),
            out@ == unplayed(sorted@).take(k as int),
        decreases sorted@.len() - k,
    {
        out.push(sorted[k].bar.clone());
        k += 1;
        assert(unplayed(sorted@).take(k as int) =~= unplayed(sorted@).take(k - 1).push(
            unplayed(sorted@)[k - 1],
        ));
    }
    assert(unplayed(sorted@).take(k as int) =~= unplayed(sorted@));
    out
}

/// What strategies see of a candle.
pub struct BarFacts {
    pub instrument: Seq<char>,
    pub timeframe: Timeframe,
    pub start_at: u64,
    pub end_at: u64,
    pub open: Real,
    pub high: Real,
    pub low: Real,
    pub close: Real,
    pub volume: Real,
    pub is_closed: bool,
}

impl View for Bar {
    type V = BarFacts;

    open spec fn view(&self) -> BarFacts {
        BarFacts {
            instrument: self.instrument@,
            timeframe: self.timeframe,
            start_at: self.start_at,
            end_at: self.end_at,
            open: self.open,
            high: self.high,
            low: self.low,
            close: self.close,
            volume: self.volume,
            is_closed: self.is_closed,
        }
    }
}

pub open spec fn bar_views(v: Seq<Bar>) -> Seq<BarFacts> {
    Seq::new(v.len(), |i: int| v[i]@)
}

/// The candle as strategies see it.
pub open spec fn bar_of(candle: Candle) -> BarFacts {
    BarFacts {
        instrument: candle.instrument_name@,
        timeframe: candle.timeframe,
        start_at: candle.start_time@,
        end_at: candle.end_time@,
        open: candle.open@,
        high: candle.high@,
        low: candle.low@,
        close: candle.close@,
        volume: candle.volume,
        is_closed: true,
    }
}

/// The candle as strategies see it.
pub fn bar_from_candle(candle: &Candle) -> (r: Bar)
    ensures
        r@ == bar_of(*candle),
{
    Bar {
        instrument: candle.instrument_name.to_text(),
        timeframe: candle.timeframe,
        start_at: candle.start_time.as_u64(),
        end_at: candle.end_time.as_u64(),
        open: candle.open.value(),
        high: candle.high.value(),
        low: candle.low.value(),
        close: candle.close.value(),
        volume: candle.volume,
        is_closed: true,
    }
}

/// Candles as strategies see them.
pub open spec fn bars_of(candles: Seq<Candle>) -> Seq<BarFacts> {
    Seq::new(candles.len(), |i: int| bar_of(candles[i]))
}

/// The candles that are used as they are: where there are any, or none can be put together.
pub fn direct_bars(direct: &Vec<Candle>, timeframe: Timeframe) -> (r: Option<Vec<Bar>>)
    ensures
        match r {
            Some(bars) => (direct@.len() > 0 || timeframe == Timeframe::OneMinute) && bar_views(
                bars@,
            ) == bars_of(direct@),
            None => direct@.len() == 0 && timeframe != Timeframe::OneMinute,
        },
{
    if direct.len() == 0 && can_aggregate_from_one_minute(timeframe) {
        return None;
    }
    let mut out: Vec<Bar> = Vec::new();
    let mut i: usize = 0;
    while i < direct.len()
        invariant
            i <= direct@.len(),
            out@.len() == i,
            forall|k: int| 0 <= k < i ==> (#[trigger] out@[k])@ == bar_of(direct@[k]),
        decreases direct@.len() - i,
    {
        out.push(bar_from_candle(&direct[i]));
        i += 1;
    }
    assert(bar_views(out@) =~= bars_of(direct@));
    Some(out)
}

/// How many candles of a minute are asked for, to put together so many of a timeframe.
pub open spec fn minutes_for(limit: usize, timeframe: Timeframe) -> int {
    if limit + 2 > usize::MAX {
        usize::MAX as int
    } else if (limit + 2) * factor_of(timeframe) > usize::MAX {
        usize::MAX as int
    } else {
        (limit + 2) * factor_of(timeframe)
    }
}

/// How many candles of a minute are asked for, to put together so many of a timeframe.
pub fn source_limit(limit: usize, timeframe: Timeframe) -> (r: usize)
    ensures
        r == minutes_for(limit, timeframe),
{
    let count: usize = if limit > usize::MAX - 2 {
        usize::MAX
    } else {
        limit + 2
    };
    let factor: usize = timeframe_factor(timeframe);
    proof {
        assert(usize::MAX * factor >= usize::MAX) by (nonlinear_arith)
            requires
                factor >= 1,
        ;
    }
    match count.checked_mul(factor) {
        Some(n) => n,
        None => usize::MAX,
    }
}

/// What is done about the candles of a timeframe before a moment.
#[derive(Debug)]
pub enum BarsStep {
    /// They are used as they are stored.
    Ready(Vec<Bar>),
    /// They are put together from those of a minute, of which so many are asked for.
    FetchMinutes { limit: usize },
}

/// Decides what is done about so many candles of a timeframe, out of those that are stored: they
/// are used where there are any, or none can be put together.
pub fn bars_step(direct: &Vec<Candle>, timeframe: Timeframe, limit: usize) -> (r: BarsStep)
    ensures
        match r {
            BarsStep::Ready(bars) => (direct@.len() > 0 || timeframe == Timeframe::OneMinute)
                && bar_views(bars@) == bars_of(direct@),
            BarsStep::FetchMinutes { limit: minutes } => direct@.len() == 0 && timeframe
                != Timeframe::OneMinute && minutes == minutes_for(limit, timeframe),
        },
{
    match direct_bars(direct, timeframe) {
        Some(bars) => BarsStep::Ready(bars),
        None => BarsStep::FetchMinutes { limit: source_limit(limit, timeframe) },
    }
}

/// The greater of two prices.
pub open spec fn greater_of(a: Real, b: Real) -> Real {
    if b.le_of(a) {
        a
    } else {
        b
    }
}

/// The lesser of two prices.
pub open spec fn lesser_of(a: Real, b: Real) -> Real {
    if a.le_of(b) {
        a
    } else {
        b
    }
}

/// A candle that begins with one of a minute.
pub open spec fn begun(
    instrument: Seq<char>,
    timeframe: Timeframe,
    candle: Candle,
    bounds: (u64, u64),
    volume: Real,
) -> BarFacts {
    BarFacts {
        instrument,
        timeframe,
        start_at: bounds.0,
        end_at: bounds.1,
        open: candle.open@,
        high: candle.high@,
        low: candle.low@,
        close: candle.close@,
        volume,
        is_closed: true,
    }
}

/// A candle that goes on with one of a minute.
pub open spec fn continued(bar: BarFacts, candle: Candle, bounds: (u64, u64), volume: Real) -> BarFacts {
    BarFacts {
        high: greater_of(bar.high, candle.high@),
        low: lesser_of(bar.low, candle.low@),
        close: candle.close@,
        volume,
        end_at: bounds.1,
        ..bar
    }
}

/// Candles put together from those of a minute: one that falls into the same span as the one
/// before goes on with it, and any other begins a candle.
pub open spec fn merged(
    instrument: Seq<char>,
    timeframe: Timeframe,
    source: Seq<Candle>,
    bounds: Seq<(u64, u64)>,
    volumes: Seq<Real>,
) -> Seq<BarFacts>
    decreases source.len(),
{
    if source.len() == 0 {
        Seq::empty()
    } else {
        let n = source.len() - 1;
        let before = merged(instrument, timeframe, source.drop_last(), bounds, volumes);
        if before.len() > 0 && before.last().start_at == bounds[n].0 {
            before.drop_last().push(continued(before.last(), source.last(), bounds[n], volumes[n]))
        } else {
            before.push(begun(instrument, timeframe, source.last(), bounds[n], volumes[n]))
        }
    }
}

/// Candles without the first, where its span begins before the candles that it was put
/// together from do.
pub open spec fn without_cut_start(bars: Seq<BarFacts>, source: Seq<Candle>) -> Seq<BarFacts> {
    if bars.len() > 0 && source.len() > 0 && source[0].start_time@ > bars[0].start_at {
        bars.drop_first()
    } else {
        bars
    }
}

/// Candles without the last, where its span ends after the candles that it was put together
/// from do.
pub open spec fn without_cut_end(bars: Seq<BarFacts>, source: Seq<Candle>) -> Seq<BarFacts> {
    if bars.len() > 0 && source.len() > 0 && source.last().end_time@ < bars.last().end_at {
        bars.drop_last()
    } else {
        bars
    }
}

/// The whole candles that are put together from those of a minute.
pub open spec fn aggregated_of(
    instrument: Seq<char>,
    timeframe: Timeframe,
    source: Seq<Candle>,
    bounds: Seq<(u64, u64)>,
    volumes: Seq<Real>,
) -> Seq<BarFacts> {
    without_cut_end(
        without_cut_start(merged(instrument, timeframe, source, bounds, volumes), source),
        source,
    )
}

/// The whole candles that are put together from those of a minute. `bounds` has the span that
/// each of these falls into, and `volumes` what the volume of its span has come to with it.
pub fn aggregate_bars(
    instrument: &str,
    timeframe: Timeframe,
    source: &Vec<Candle>,
    bounds: &Vec<(u64, u64)>,
    volumes: &Vec<Real>,
) -> (r: Vec<Bar>)
    requires
        bounds@.len() == source@.len(),
        volumes@.len() == source@.len(),
    ensures
        bar_views(r@) == aggregated_of(instrument@, timeframe, source@, bounds@, volumes@),
{
    let mut bars: Vec<Bar> = Vec::new();
    let mut i: usize = 0;
    assert(source@.take(0) =~= Seq::empty());
    assert(bar_views(bars@) =~= Seq::empty());
    while i < source.len()
        invariant
            i <= source@.len(),
            bounds@.len() == source@.len(),
            volumes@.len() == source@.len(),
            bar_views(bars@) == merged(
                instrument@,
                timeframe,
                source@.take(i as int),
                bounds@,
                volumes@,
            ),
        decreases source@.len() - i,
    {
        let ghost before = bar_views(bars@);
        assert(source@.take(i + 1).drop_last() =~= source@.take(i as int));
        let candle = &source[i];
        let (start, end) = bounds[i];
        let count: usize = bars.len();
        assert(count > 0 ==> before.last() == bars@[count - 1]@);
        if count > 0 && bars[count - 1].start_at == start {
            if let Some(bar) = bars.pop() {
                let ghost was = bar@;
                let mut bar = bar;
                let high = candle.high.value();
                let low = candle.low.value();
                if !high.at_most(bar.high) {
                    bar.high = high;
                }
                if !bar.low.at_most(low) {
                    bar.low = low;
                }
                bar.close = candle.close.value();
                bar.volume = volumes[i];
                bar.end_at = end;
                assert(bar@ == continued(was, *candle, (start, end), volumes@[i as int]));
                let ghost now = bar@;
                bars.push(bar);
                assert(bar_views(bars@) =~= before.drop_last().push(now));
            }
        } else {
            let bar = Bar {
                instrument: instrument.to_owned(),
                timeframe,
                start_at: start,
                end_at: end,
                open: candle.open.value(),
                high: candle.high.value(),
                low: candle.low.value(),
                close: candle.close.value(),
                volume: volumes[i],
                is_closed: true,
            };
            let ghost now = bar@;
            bars.push(bar);
            assert(bar_views(bars@) =~= before.push(now));
        }
        i += 1;
    }
    assert(source@.take(i as int) =~= source@);
    let ghost all = bar_views(bars@);
    let n: usize = source.len();
    if bars.len() > 0 && n > 0 {
        assert(all[0] == bars@[0]@);
        if source[0].start_time.as_u64() > bars[0].start_at {
            let _cut = bars.remove(0);
            assert(bar_views(bars@) =~= all.drop_first());
        }
    }
    let ghost rest = bar_views(bars@);
    assert(rest == without_cut_start(all, source@));
    let count: usize = bars.len();
    if count > 0 && n > 0 {
        assert(rest.last() == bars@[count - 1]@);
        if source[n - 1].end_time.as_u64() < bars[count - 1].end_at {
            let _cut = bars.pop();
            assert(bar_views(bars@) =~= rest.drop_last());
        }
    }
    bars
}

/// Candles that are put together are whole: none begins before the first that it is put
/// together from, and none ends after the last, where the candles stand in the order of their
/// spans.
pub proof fn aggregation_is_whole(
    instrument: Seq<char>,
    timeframe: Timeframe,
    source: Seq<Candle>,
    bounds: Seq<(u64, u64)>,
    volumes: Seq<Real>,
)
    requires
        bounds.len() == source.len(),
        source.len() > 0,
        forall|i: int| 0 <= i < source.len() ==> (#[trigger] bounds[i]).0 <= source[i].start_time@
            && source[i].end_time@ <= bounds[i].1,
        forall|i: int, j: int|
            0 <= i < j < source.len() ==> (#[trigger] bounds[i]) == (#[trigger] bounds[j])
                || bounds[i].1 <= bounds[j].0,
        forall|i: int| 0 <= i < source.len() ==> (#[trigger] source[i]).start_time@
            < source[i].end_time@,
    ensures
        forall|k: int|
            #![trigger aggregated_of(instrument, timeframe, source, bounds, volumes)[k]]
            0 <= k < aggregated_of(instrument, timeframe, source, bounds, volumes).len()
                ==> aggregated_of(instrument, timeframe, source, bounds, volumes)[k].start_at
                >= source[0].start_time@ && aggregated_of(
                instrument,
                timeframe,
                source,
                bounds,
                volumes,
            )[k].end_at <= source.last().end_time@,
{
    let all = merged(instrument, timeframe, source, bounds, volumes);
    merged_spans(instrument, timeframe, source, bounds, volumes);
    let rest = without_cut_start(all, source);
    let whole = without_cut_end(rest, source);
    let shift = all.len() - rest.len();
    assert forall|k: int| 0 <= k < rest.len() implies rest[k] == all[k + shift] by {}
    assert forall|k: int| #![trigger whole[k]] 0 <= k < whole.len() implies whole[k].start_at
        >= source[0].start_time@ && whole[k].end_at <= source.last().end_time@ by {
        assert(whole[k] == rest[k]);
        assert(whole[k] == all[k + shift]);
        if k + shift > 0 {
            assert(all[0].end_at <= all[k + shift].start_at);
            assert(all[0].end_at >= source[0].end_time@);
        }
        if k + shift < all.len() - 1 {
            assert(all[k + shift].end_at <= all[all.len() - 1].start_at);
        }
    }
}

/// The spans of candles that are put together are those of the ones that they are put together
/// from, in their order, each once.
proof fn merged_spans(
    instrument: Seq<char>,
    timeframe: Timeframe,
    source: Seq<Candle>,
    bounds: Seq<(u64, u64)>,
    volumes: Seq<Real>,
)
    requires
        bounds.len() >= source.len(),
        source.len() > 0,
        forall|i: int| 0 <= i < source.len() ==> (#[trigger] bounds[i]).0 <= source[i].start_time@
            && source[i].end_time@ <= bounds[i].1,
        forall|i: int, j: int|
            0 <= i < j < source.len() ==> (#[trigger] bounds[i]) == (#[trigger] bounds[j])
                || bounds[i].1 <= bounds[j].0,
        forall|i: int| 0 <= i < source.len() ==> (#[trigger] source[i]).start_time@
            < source[i].end_time@,
    ensures
        ({
            let all = merged(instrument, timeframe, source, bounds, volumes);
            &&& all.len() > 0
            &&& all[0].start_at == bounds[0].0
            &&& all[0].end_at == bounds[0].1
            &&& all.last().start_at == bounds[source.len() - 1].0
            &&& all.last().end_at == bounds[source.len() - 1].1
            &&& forall|i: int, j: int|
                0 <= i < j < all.len() ==> (#[trigger] all[i]).end_at <= (#[trigger] all[j]).start_at
            &&& forall|k: int|
                0 <= k < all.len() ==> exists|i: int|
                    0 <= i < source.len() && (#[trigger] bounds[i]) == (
                        (#[trigger] all[k]).start_at,
                        all[k].end_at,
                    )
        }),
    decreases source.len(),
{
    let all = merged(instrument, timeframe, source, bounds, volumes);
    let n = source.len() - 1;
    if n == 0 {
        assert(source.drop_last() =~= Seq::empty());
        assert(all.len() == 1);
        assert(bounds[0] == (all[0].start_at, all[0].end_at));
    } else {
        let d = source.drop_last();
        assert forall|i: int| 0 <= i < d.len() implies (#[trigger] bounds[i]).0 <= d[i].start_time@
            && d[i].end_time@ <= bounds[i].1 by {
            assert(d[i] == source[i]);
        }
        assert forall|i: int| 0 <= i < d.len() implies (#[trigger] d[i]).start_time@
            < d[i].end_time@ by {
            assert(d[i] == source[i]);
        }
        merged_spans(instrument, timeframe, d, bounds, volumes);
        let before = merged(instrument, timeframe, d, bounds, volumes);
        assert(bounds[n - 1] == bounds[n] || bounds[n - 1].1 <= bounds[n].0);
        assert(source[n].start_time@ < source[n].end_time@);
        assert(source[n - 1].start_time@ < source[n - 1].end_time@);
        if before.last().start_at == bounds[n].0 {
            assert(bounds[n - 1] == bounds[n]);
            assert forall|k: int| 0 <= k < all.len() implies exists|i: int|
                0 <= i < source.len() && (#[trigger] bounds[i]) == (
                    (#[trigger] all[k]).start_at,
                    all[k].end_at,
                ) by {
                if k < all.len() - 1 {
                    assert(all[k] == before[k]);
                    let i = choose|i: int|
                        0 <= i < d.len() && (#[trigger] bounds[i]) == (
                            before[k].start_at,
                            before[k].end_at,
                        );
                    assert(bounds[i] == (all[k].start_at, all[k].end_at));
                } else {
                    assert(bounds[n] == (all[k].start_at, all[k].end_at));
                }
            }
            assert forall|i: int, j: int| 0 <= i < j < all.len() implies (#[trigger] all[i]).end_at
                <= (#[trigger] all[j]).start_at by {
                assert(all[i] == before[i]);
                assert(before[i].end_at <= before[j].start_at);
                assert(all[j].start_at == before[j].start_at);
            }
            assert(all.last().start_at == bounds[n].0);
            if all.len() == 1 {
                assert(before.len() == 1);
            } else {
                assert(all[0] == before[0]);
            }
        } else {
            assert(bounds[n - 1].1 <= bounds[n].0);
            assert forall|k: int| 0 <= k < all.len() implies exists|i: int|
                0 <= i < source.len() && (#[trigger] bounds[i]) == (
                    (#[trigger] all[k]).start_at,
                    all[k].end_at,
                ) by {
                if k < before.len() {
                    assert(all[k] == before[k]);
                    let i = choose|i: int|
                        0 <= i < d.len() && (#[trigger] bounds[i]) == (
                            before[k].start_at,
                            before[k].end_at,
                        );
                    assert(bounds[i] == (all[k].start_at, all[k].end_at));
                } else {
                    assert(bounds[n] == (all[k].start_at, all[k].end_at));
                }
            }
            assert forall|i: int, j: int| 0 <= i < j < all.len() implies (#[trigger] all[i]).end_at
                <= (#[trigger] all[j]).start_at by {
                assert(all[i] == before[i]);
                if j < before.len() {
                    assert(all[j] == before[j]);
                } else {
                    let b = choose|b: int|
                        0 <= b < d.len() && (#[trigger] bounds[b]) == (
                            before[i].start_at,
                            before[i].end_at,
                        );
                    assert(bounds[b] == bounds[n] || bounds[b].1 <= bounds[n].0);
                    if bounds[b] == bounds[n] {
                        let last = before.len() - 1;
                        if i < last {
                            assert(before[i].end_at <= before[last].start_at);
                            assert(source[b].start_time@ < source[b].end_time@);
                        }
                    }
                }
            }
            assert(all[0] == before[0]);
        }
    }
}

/// The last of some values, so many at most.
pub open spec fn last_of<A>(s: Seq<A>, limit: int) -> Seq<A> {
    if s.len() > limit {
        s.skip(s.len() - limit)
    } else {
        s
    }
}

/// The last of some candles, so many at most.
pub fn last_bars(bars: &Vec<Bar>, limit: usize) -> (r: Vec<Bar>)
    ensures
        r@ == last_of(bars@, limit as int),
        r@.len() <= limit,
{
    let from: usize = if bars.len() > limit {
        bars.len() - limit
    } else {
        0
    };
    let mut out: Vec<Bar> = Vec::new();
    let mut i: usize = from;
    assert(bars@.skip(from as int).take(0) =~= Seq::empty());
    while i < bars.len()
        invariant
            from <= i <= bars@.len(),
            out@ == bars@.skip(from as int).take(i - from),
        decreases bars@.len() - i,
    {
        out.push(bars[i].clone());
        i += 1;
        assert(bars@.skip(from as int).take(i - from) =~= bars@.skip(from as int).take(
            i - 1 - from,
        ).push(bars@[i - 1]));
    }
    assert(bars@.skip(from as int).take(i - from) =~= bars@.skip(from as int));
    assert(bars@.skip(0) =~= bars@);
    out
}

/// The candles of some lists, one behind another.
pub open spec fn all_bars(parts: Seq<Seq<Bar>>) -> Seq<Bar>
    decreases parts.len(),
{
    if parts.len() == 0 {
        Seq::empty()
    } else {
        all_bars(parts.drop_last()) + parts.last()
    }
}

/// The lists that were loaded.
pub open spec fn loaded_parts(loaded: Seq<Result<Vec<Bar>, StrategyError>>) -> Seq<Seq<Bar>> {
    Seq::new(loaded.len(), |i: int| loaded[i]->Ok_0@)
}

/// Whether a fault is the first that came of loading some lists.
pub open spec fn is_first_fault(
    loaded: Seq<Result<Vec<Bar>, StrategyError>>,
    fault: StrategyError,
) -> bool {
    exists|i: int|
        0 <= i < loaded.len() && #[trigger] loaded[i] == Err::<Vec<Bar>, StrategyError>(fault)
            && forall|k: int| 0 <= k < i ==> (#[trigger] loaded[k]) is Ok
}

/// Whether all of some lists were loaded.
pub open spec fn are_loaded(loaded: Seq<Result<Vec<Bar>, StrategyError>>) -> bool {
    forall|i: int| 0 <= i < loaded.len() ==> (#[trigger] loaded[i]) is Ok
}

fn gather(loaded: Vec<Result<Vec<Bar>, StrategyError>>) -> (r: Result<Vec<Bar>, StrategyError>)
    ensures
        match r {
            Ok(bars) => are_loaded(loaded@) && bars@ == all_bars(loaded_parts(loaded@)),
            Err(e) => is_first_fault(loaded@, e),
        },
{
    let mut out: Vec<Bar> = Vec::new();
    let ghost all = loaded@;
    let ghost parts = loaded_parts(all);
    assert(parts.take(0) =~= Seq::empty());
    for one in it: loaded
        invariant
            it.seq() == all,
            parts == loaded_parts(all),
            forall|k: int| 0 <= k < it.index() ==> (#[trigger] all[k]) is Ok,
            out@ == all_bars(parts.take(it.index())),
    {
        let ghost n = it.index();
        assert(one == all[n]);
        assert(parts.take(n + 1).drop_last() =~= parts.take(n));
        match one {
            Ok(list) => {
                let ghost before = out@;
                let mut k: usize = 0;
                assert(list@.take(0) =~= Seq::empty());
                while k < list.len()
                    invariant
                        k <= list@.len(),
                        out@ == before + list@.take(k as int),
                    decreases list@.len() - k,
                {
                    out.push(list[k].clone());
                    k += 1;
                    assert(list@.take(k as int) =~= list@.take(k - 1).push(list@[k - 1]));
                    assert(before + list@.take(k as int) =~= (before + list@.take(k - 1)).push(
                        list@[k - 1],
                    ));
                }
                assert(list@.take(k as int) =~= list@);
            },
            Err(e) => {
                assert(all[n] == Err::<Vec<Bar>, StrategyError>(e));
                return Err(e);
            },
        }
    }
    assert(parts.take(parts.len() as int) =~= parts);
    Ok(out)
}

/// The candles that a backtest goes through, and the spans that they are put together in.
pub struct HistoricalCandleFeed {
    alignments: CandleAlignmentMap,
}

impl HistoricalCandleFeed {
    /// The spans by the names of instruments.
    pub closed spec fn spans(&self) -> Map<Seq<char>, CandleAlignment> {
        self.alignments@
    }

    pub fn open_with_alignments(alignments: CandleAlignmentMap) -> (r: HistoricalCandleFeed)
        ensures
            r.spans() == alignments@,
    {
        HistoricalCandleFeed { alignments }
    }

    /// The spans that the candles of an instrument are put together in.
    pub open spec fn span_of(&self, instrument: Seq<char>) -> CandleAlignment {
        if self.spans().contains_key(instrument) {
            self.spans()[instrument]
        } else {
            CandleAlignment { anchor_offset_seconds: 0, session_close_offset_seconds: None }
        }
    }

    /// The spans that the candles of an instrument are put together in.
    pub fn alignment_for(&self, instrument: &str) -> (r: CandleAlignment)
        ensures
            r == self.span_of(instrument@),
    {
        match self.alignments.get(instrument) {
            Some(alignment) => *alignment,
            None => CandleAlignment::utc(),
        }
    }

    /// The candles of a timeframe that are put together from those of a minute. `volumes` has
    /// what the volume of a candle's span has come to with it.
    pub fn load_bars_between(
        &self,
        instrument: &str,
        timeframe: Timeframe,
        source: &Vec<Candle>,
        volumes: &Vec<Real>,
    ) -> (r: Result<Vec<Bar>, StrategyError>)
        requires
            volumes@.len() == source@.len(),
        ensures
            match r {
                Ok(bars) => {
                    let alignment = self.span_of(instrument@);
                    &&& have_buckets(source@, timeframe, alignment)
                    &&& bar_views(bars@) == aggregated_of(
                        instrument@,
                        timeframe,
                        source@,
                        buckets_of(source@, timeframe, alignment),
                        volumes@,
                    )
                },
                Err(e) => !have_buckets(source@, timeframe, self.span_of(instrument@)) && e@
                    == StrategyFault::Parse("candles of "@ + instrument@ + " are out of range"@),
            },
    {
        match candle_bounds(source, timeframe, self.alignment_for(instrument)) {
            Some(bounds) => Ok(aggregate_bars(instrument, timeframe, source, &bounds, volumes)),
            None => {
                let mut message = "candles of ".to_owned();
                message.append(instrument);
                message.append(" are out of range");
                Err(StrategyError::Parse(message))
            },
        }
    }

    /// The last candles of a timeframe, so many at most, that are put together from those of a
    /// minute.
    pub fn load_bars_before(
        &self,
        instrument: &str,
        timeframe: Timeframe,
        source: &Vec<Candle>,
        volumes: &Vec<Real>,
        limit: usize,
    ) -> (r: Result<Vec<Bar>, StrategyError>)
        requires
            volumes@.len() == source@.len(),
        ensures
            match r {
                Ok(bars) => {
                    let alignment = self.span_of(instrument@);
                    &&& have_buckets(source@, timeframe, alignment)
                    &&& bar_views(bars@) == last_of(
                        aggregated_of(
                            instrument@,
                            timeframe,
                            source@,
                            buckets_of(source@, timeframe, alignment),
                            volumes@,
                        ),
                        limit as int,
                    )
                    &&& is_part(bar_views(bars@), instrument@, timeframe, limit as int)
                },
                Err(e) => !have_buckets(source@, timeframe, self.span_of(instrument@)) && e@
                    == StrategyFault::Parse("candles of "@ + instrument@ + " are out of range"@),
            },
    {
        match self.load_bars_between(instrument, timeframe, source, volumes) {
            Ok(bars) => {
                let last = last_bars(&bars, limit);
                proof {
                    let all = bar_views(bars@);
                    let ghost bounds = buckets_of(source@, timeframe, self.span_of(instrument@));
                    assert(bar_views(last@) =~= last_of(all, limit as int));
                    merged_is_part(instrument@, timeframe, source@, bounds, volumes@);
                    let whole = merged(instrument@, timeframe, source@, bounds, volumes@);
                    let rest = without_cut_start(whole, source@);
                    assert forall|i: int| 0 <= i < rest.len() implies is_bar_of(
                        #[trigger] rest[i],
                        instrument@,
                        timeframe,
                    ) by {
                        let k = i + (whole.len() - rest.len());
                        assert(rest[i] == whole[k]);
                    }
                    assert forall|i: int| 0 <= i < all.len() implies is_bar_of(
                        #[trigger] all[i],
                        instrument@,
                        timeframe,
                    ) by {
                        assert(all[i] == rest[i]);
                    }
                    assert forall|i: int| 0 <= i < last@.len() implies is_bar_of(
                        #[trigger] bar_views(last@)[i],
                        instrument@,
                        timeframe,
                    ) by {
                        let k = i + (all.len() - last@.len());
                        assert(bar_views(last@)[i] == all[k]);
                    }
                }
                Ok(last)
            },
            Err(e) => Err(e),
        }
    }

    /// The candles before a backtest, out of what came of loading those of each instrument and
    /// timeframe that are asked for.
    pub fn load_warmup_bars(
        &self,
        loaded: Vec<Result<Vec<Bar>, StrategyError>>,
        limit: usize,
    ) -> (r: Result<Vec<Bar>, StrategyError>)
        ensures
            if limit == 0 {
                r matches Ok(bars) && bars@.len() == 0
            } else {
                match r {
                    Ok(bars) => are_loaded(loaded@) && bars@ == play_order(
                        all_bars(loaded_parts(loaded@)),
                    ),
                    Err(e) => is_first_fault(loaded@, e),
                }
            },
    {
        if limit == 0 {
            return Ok(Vec::new());
        }
        match gather(loaded) {
            Ok(bars) => Ok(sort_bars(&bars)),
            Err(e) => Err(e),
        }
    }

    /// The candles of a backtest, out of what came of loading those of each instrument and
    /// timeframe that are asked for.
    pub fn load_replay_bars(&self, loaded: Vec<Result<Vec<Bar>, StrategyError>>) -> (r: Result<
        Vec<Bar>,
        StrategyError,
    >)
        ensures
            match r {
                Ok(bars) => are_loaded(loaded@) && bars@ == play_order(
                    all_bars(loaded_parts(loaded@)),
                ),
                Err(e) => is_first_fault(loaded@, e),
            },
    {
        match gather(loaded) {
            Ok(bars) => Ok(sort_bars(&bars)),
            Err(e) => Err(e),
        }
    }
}

/// Whether a candle is of an instrument and a timeframe.
pub open spec fn is_bar_of(bar: BarFacts, instrument: Seq<char>, timeframe: Timeframe) -> bool {
    bar.instrument == instrument && bar.timeframe == timeframe
}

/// Whether candles are of an instrument and a timeframe, and so many at most.
pub open spec fn is_part(
    bars: Seq<BarFacts>,
    instrument: Seq<char>,
    timeframe: Timeframe,
    limit: int,
) -> bool {
    &&& bars.len() <= limit
    &&& forall|i: int| 0 <= i < bars.len() ==> is_bar_of(#[trigger] bars[i], instrument, timeframe)
}

proof fn merged_is_part(
    instrument: Seq<char>,
    timeframe: Timeframe,
    source: Seq<Candle>,
    bounds: Seq<(u64, u64)>,
    volumes: Seq<Real>,
)
    ensures
        forall|i: int|
            0 <= i < merged(instrument, timeframe, source, bounds, volumes).len() ==> is_bar_of(
                #[trigger] merged(instrument, timeframe, source, bounds, volumes)[i],
                instrument,
                timeframe,
            ),
    decreases source.len(),
{
    if source.len() > 0 {
        merged_is_part(instrument, timeframe, source.drop_last(), bounds, volumes);
        let before = merged(instrument, timeframe, source.drop_last(), bounds, volumes);
        let all = merged(instrument, timeframe, source, bounds, volumes);
        assert forall|i: int| 0 <= i < all.len() implies is_bar_of(
            #[trigger] all[i],
            instrument,
            timeframe,
        ) by {
            if i < before.len() {
                assert(is_bar_of(before[i], instrument, timeframe));
            }
        }
    }
}

/// Candles that are used as they are stored are of the instrument and the timeframe that they
/// are stored of, and no more than are stored.
pub proof fn stored_is_part(
    direct: Seq<Candle>,
    instrument: Seq<char>,
    timeframe: Timeframe,
    limit: int,
)
    requires
        direct.len() <= limit,
        forall|i: int|
            0 <= i < direct.len() ==> (#[trigger] direct[i]).instrument_name@ == instrument
                && direct[i].timeframe == timeframe,
    ensures
        is_part(bars_of(direct), instrument, timeframe, limit),
{
}

/// The instruments and timeframes whose candles a backtest asks for.
pub open spec fn asked_of(instruments: Seq<Seq<char>>, timeframes: Seq<Timeframe>) -> Seq<
    (Seq<char>, Timeframe),
>
    decreases instruments.len(),
{
    if instruments.len() == 0 {
        Seq::empty()
    } else {
        asked_of(instruments.drop_last(), timeframes) + Seq::new(
            timeframes.len(),
            |i: int| (instruments.last(), timeframes[i]),
        )
    }
}

pub open spec fn asked_views(v: Seq<(String, Timeframe)>) -> Seq<(Seq<char>, Timeframe)> {
    Seq::new(v.len(), |i: int| (v[i].0@, v[i].1))
}

/// The instruments and timeframes whose candles a backtest asks for: of each instrument, each
/// timeframe.
pub fn asked_bars(instruments: &Vec<String>, timeframes: &Vec<Timeframe>) -> (r: Vec<
    (String, Timeframe),
>)
    ensures
        asked_views(r@) == asked_of(views(instruments@), timeframes@),
{
    let ghost names = views(instruments@);
    let mut out: Vec<(String, Timeframe)> = Vec::new();
    let mut i: usize = 0;
    assert(names.take(0) =~= Seq::empty());
    assert(asked_views(out@) =~= Seq::empty());
    while i < instruments.len()
        invariant
            i <= instruments@.len(),
            names == views(instruments@),
            asked_views(out@) == asked_of(names.take(i as int), timeframes@),
        decreases instruments@.len() - i,
    {
        assert(names.take(i + 1).drop_last() =~= names.take(i as int));
        let ghost before = asked_views(out@);
        let ghost of_one = Seq::new(timeframes@.len(), |k: int| (names[i as int], timeframes@[k]));
        let mut j: usize = 0;
        assert(of_one.take(0) =~= Seq::empty());
        while j < timeframes.len()
            invariant
                i < instruments@.len(),
                j <= timeframes@.len(),
                names == views(instruments@),
                of_one == Seq::new(timeframes@.len(), |k: int| (names[i as int], timeframes@[k])),
                asked_views(out@) == before + of_one.take(j as int),
            decreases timeframes@.len() - j,
        {
            let ghost had = asked_views(out@);
            out.push((instruments[i].clone(), timeframes[j]));
            assert(asked_views(out@) =~= had.push(of_one[j as int]));
            assert(of_one.take(j + 1) =~= of_one.take(j as int).push(of_one[j as int]));
            j += 1;
            assert(before + of_one.take(j as int) =~= had.push(of_one[j - 1]));
        }
        assert(of_one.take(j as int) =~= of_one);
        i += 1;
    }
    assert(names.take(i as int) =~= names);
    out
}

proof fn asked_are_among(instruments: Seq<Seq<char>>, timeframes: Seq<Timeframe>, k: int)
    requires
        0 <= k < asked_of(instruments, timeframes).len(),
    ensures
        instruments.contains(asked_of(instruments, timeframes)[k].0),
        timeframes.contains(asked_of(instruments, timeframes)[k].1),
    decreases instruments.len(),
{
    if instruments.len() > 0 {
        let d = instruments.drop_last();
        let before = asked_of(d, timeframes);
        if k < before.len() {
            asked_are_among(d, timeframes, k);
            let m = choose|m: int| 0 <= m < d.len() && d[m] == before[k].0;
            assert(instruments[m] == before[k].0);
        } else {
            assert(instruments[instruments.len() - 1] == instruments.last());
            assert(timeframes[k - before.len()] == asked_of(instruments, timeframes)[k].1);
        }
    }
}

/// What is asked for is asked for once, where no instrument and no timeframe is named twice.
pub proof fn asked_once(instruments: Seq<Seq<char>>, timeframes: Seq<Timeframe>)
    requires
        instruments.no_duplicates(),
        timeframes.no_duplicates(),
    ensures
        asked_of(instruments, timeframes).no_duplicates(),
    decreases instruments.len(),
{
    if instruments.len() > 0 {
        let d = instruments.drop_last();
        let before = asked_of(d, timeframes);
        let all = asked_of(instruments, timeframes);
        asked_once(d, timeframes);
        assert forall|i: int, j: int| 0 <= i < j < all.len() implies all[i] != all[j] by {
            if j < before.len() {
                assert(before[i] != before[j]);
            } else if i < before.len() {
                asked_are_among(d, timeframes, i);
                let m = choose|m: int| 0 <= m < d.len() && d[m] == before[i].0;
                assert(instruments[m] != instruments[instruments.len() - 1]);
            } else {
                assert(timeframes[i - before.len()] != timeframes[j - before.len()]);
            }
        }
    }
}

/// Whether candles stand in the order in which a backtest goes through them.
pub open spec fn in_play_order(bars: Seq<Bar>) -> bool {
    in_order(played_all(bars))
}

proof fn unplayed_multiset(list: Seq<Played>)
    ensures
        forall|bar: Bar| #[trigger]
            unplayed(list).to_multiset().count(bar) == list.to_multiset().count(Played { bar }),
    decreases list.len(),
{
    broadcast use vstd::seq_lib::group_to_multiset_ensures;

    if list.len() > 0 {
        let d = list.drop_last();
        unplayed_multiset(d);
        assert(list =~= d.push(list.last()));
        assert(unplayed(list) =~= unplayed(d).push(list.last().bar));
    } else {
        assert(list =~= Seq::empty());
        assert(unplayed(list) =~= Seq::empty());
    }
}

/// Putting candles in the order in which a backtest goes through them neither adds nor drops
/// one.
pub proof fn playing_keeps_bars(bars: Seq<Bar>)
    ensures
        in_play_order(play_order(bars)),
        play_order(bars).to_multiset() == bars.to_multiset(),
{
    let all = played_all(bars);
    sorting_orders(all);
    assert(played_all(play_order(bars)) =~= sorted_of(all));
    unplayed_multiset(sorted_of(all));
    unplayed_multiset(all);
    assert(unplayed(all) =~= bars);
    assert(play_order(bars).to_multiset() =~= bars.to_multiset());
}

/// Tells which candles are of an instrument and a timeframe.
pub open spec fn bars_under(instrument: Seq<char>, timeframe: Timeframe) -> spec_fn(Bar) -> bool {
    |bar: Bar| is_bar_of(bar@, instrument, timeframe)
}

proof fn unplayed_filter(list: Seq<Played>, f: spec_fn(Bar) -> bool, g: spec_fn(Played) -> bool)
    requires
        forall|p: Played| #[trigger] g(p) == f(p.bar),
    ensures
        unplayed(list).filter(f).len() == list.filter(g).len(),
    decreases list.len(),
{
    if list.len() > 0 {
        let d = list.drop_last();
        unplayed_filter(d, f, g);
        filter_push(d, list.last(), g);
        filter_push(unplayed(d), list.last().bar, f);
        assert(list =~= d.push(list.last()));
        assert(unplayed(list) =~= unplayed(d).push(list.last().bar));
    } else {
        assert(list =~= Seq::empty());
        assert(unplayed(list) =~= Seq::empty());
        reveal(Seq::filter);
    }
}

proof fn part_is_all_or_none(part: Seq<Bar>, f: spec_fn(Bar) -> bool)
    ensures
        part.filter(f).len() <= part.len(),
        (forall|i: int| 0 <= i < part.len() ==> !f(#[trigger] part[i])) ==> part.filter(f).len()
            == 0,
    decreases part.len(),
{
    reveal(Seq::filter);
    if part.len() > 0 {
        let d = part.drop_last();
        part_is_all_or_none(d, f);
        filter_push(d, part.last(), f);
        assert(part =~= d.push(part.last()));
        if forall|i: int| 0 <= i < part.len() ==> !f(#[trigger] part[i]) {
            assert forall|i: int| 0 <= i < d.len() implies !f(#[trigger] d[i]) by {
                assert(!f(part[i]));
            }
            assert(!f(part[part.len() - 1]));
        }
    }
}

proof fn gathered_counts(
    asked: Seq<(Seq<char>, Timeframe)>,
    parts: Seq<Seq<Bar>>,
    limit: int,
    one: (Seq<char>, Timeframe),
)
    requires
        limit >= 0,
        asked.len() == parts.len(),
        asked.no_duplicates(),
        forall|k: int|
            0 <= k < parts.len() ==> is_part(
                bar_views(#[trigger] parts[k]),
                asked[k].0,
                asked[k].1,
                limit,
            ),
    ensures
        all_bars(parts).filter(bars_under(one.0, one.1)).len() <= limit,
        !asked.contains(one) ==> all_bars(parts).filter(bars_under(one.0, one.1)).len() == 0,
        forall|i: int|
            0 <= i < all_bars(parts).len() ==> exists|k: int|
                0 <= k < asked.len() && is_bar_of(
                    (#[trigger] all_bars(parts)[i])@,
                    (#[trigger] asked[k]).0,
                    asked[k].1,
                ),
    decreases parts.len(),
{
    let f = bars_under(one.0, one.1);
    if parts.len() == 0 {
        reveal(Seq::filter);
    } else {
        let n = parts.len() - 1;
        let d = parts.drop_last();
        let a = asked.drop_last();
        let last = parts[n];
        assert forall|k: int| 0 <= k < d.len() implies is_part(
            bar_views(#[trigger] d[k]),
            a[k].0,
            a[k].1,
            limit,
        ) by {
            assert(d[k] == parts[k]);
        }
        gathered_counts(a, d, limit, one);
        Seq::filter_distributes_over_add(all_bars(d), last, f);
        part_is_all_or_none(last, f);
        assert(is_part(bar_views(last), asked[n].0, asked[n].1, limit));
        assert(bar_views(last).len() == last.len());
        if asked[n] == one {
            assert(!a.contains(one)) by {
                if a.contains(one) {
                    let k = choose|k: int| 0 <= k < a.len() && a[k] == one;
                    assert(asked[k] == asked[n]);
                }
            }
        } else {
            assert forall|i: int| 0 <= i < last.len() implies !f(#[trigger] last[i]) by {
                assert(is_bar_of(bar_views(last)[i], asked[n].0, asked[n].1));
            }
            if !asked.contains(one) {
                assert(!a.contains(one)) by {
                    if a.contains(one) {
                        let k = choose|k: int| 0 <= k < a.len() && a[k] == one;
                        assert(asked[k] == one);
                    }
                }
            }
        }
        assert(asked[n] == one ==> asked.contains(one));
        let all = all_bars(parts);
        assert forall|i: int| 0 <= i < all.len() implies exists|k: int|
            0 <= k < asked.len() && is_bar_of(
                (#[trigger] all[i])@,
                (#[trigger] asked[k]).0,
                asked[k].1,
            ) by {
            if i < all_bars(d).len() {
                assert(all[i] == all_bars(d)[i]);
                let k = choose|k: int|
                    0 <= k < a.len() && is_bar_of(all_bars(d)[i]@, (#[trigger] a[k]).0, a[k].1);
                assert(asked[k] == a[k]);
            } else {
                assert(all[i] == last[i - all_bars(d).len()]);
                assert(is_bar_of(
                    bar_views(last)[i - all_bars(d).len()],
                    asked[n].0,
                    asked[n].1,
                ));
            }
        }
    }
}

/// The candles before a backtest stand in the order in which it goes through them, are of the
/// instruments and timeframes that are asked for, and so many at most of each, where what was
/// loaded of each is.
pub proof fn warmup_is_what_was_asked(
    instruments: Seq<Seq<char>>,
    timeframes: Seq<Timeframe>,
    parts: Seq<Seq<Bar>>,
    limit: int,
)
    requires
        limit >= 0,
        instruments.no_duplicates(),
        timeframes.no_duplicates(),
        parts.len() == asked_of(instruments, timeframes).len(),
        forall|k: int|
            0 <= k < parts.len() ==> is_part(
                bar_views(#[trigger] parts[k]),
                asked_of(instruments, timeframes)[k].0,
                asked_of(instruments, timeframes)[k].1,
                limit,
            ),
    ensures
        in_play_order(play_order(all_bars(parts))),
        forall|i: int|
            0 <= i < play_order(all_bars(parts)).len() ==> instruments.contains(
                (#[trigger] play_order(all_bars(parts))[i]).instrument@,
            ) && timeframes.contains(play_order(all_bars(parts))[i].timeframe),
        forall|instrument: Seq<char>, timeframe: Timeframe|
            play_order(all_bars(parts)).filter(
                #[trigger] bars_under(instrument, timeframe),
            ).len() <= limit,
{
    let asked = asked_of(instruments, timeframes);
    let all = all_bars(parts);
    asked_once(instruments, timeframes);
    playing_keeps_bars(all);
    assert forall|i: int| 0 <= i < play_order(all).len() implies instruments.contains(
        (#[trigger] play_order(all)[i]).instrument@,
    ) && timeframes.contains(play_order(all)[i].timeframe) by {
        let bar = play_order(all)[i];
        sorting_keeps(played_all(all), i);
        let m = choose|m: int|
            0 <= m < played_all(all).len() && played_all(all)[m] == sorted_of(played_all(all))[i];
        assert(all[m] == bar);
        gathered_counts(asked, parts, limit, (bar.instrument@, bar.timeframe));
        let k = choose|k: int|
            0 <= k < asked.len() && is_bar_of(all[m]@, (#[trigger] asked[k]).0, asked[k].1);
        asked_are_among(instruments, timeframes, k);
    }
    assert forall|instrument: Seq<char>, timeframe: Timeframe|
        play_order(all).filter(#[trigger] bars_under(instrument, timeframe)).len() <= limit by {
        let f = bars_under(instrument, timeframe);
        let g = |p: Played| f(p.bar);
        gathered_counts(asked, parts, limit, (instrument, timeframe));
        sorting_keeps_count(played_all(all), g);
        unplayed_filter(sorted_of(played_all(all)), f, g);
        unplayed_filter(played_all(all), f, g);
        assert(unplayed(played_all(all)) =~= all);
    }
}

/// What was loaded is gone through whole: the candles of a backtest are those of all lists, each
/// as often as there, and in the order in which a backtest goes through them.
pub proof fn replay_is_all_that_was_loaded(loaded: Seq<Result<Vec<Bar>, StrategyError>>)
    requires
        are_loaded(loaded),
    ensures
        in_play_order(play_order(all_bars(loaded_parts(loaded)))),
        play_order(all_bars(loaded_parts(loaded))).to_multiset() == all_bars(
            loaded_parts(loaded),
        ).to_multiset(),
{
    playing_keeps_bars(all_bars(loaded_parts(loaded)));
}

/// The end of the candles that end together with the one at a place.
pub fn group_end(bars: &Vec<Bar>, from: usize) -> (r: usize)
    requires
        from < bars@.len(),
    ensures
        from < r <= bars@.len(),
        forall|i: int| from <= i < r ==> (#[trigger] bars@[i]).end_at == bars@[from as int].end_at,
        r < bars@.len() ==> bars@[r as int].end_at != bars@[from as int].end_at,
{
    let count: usize = bars.len();
    let mut i: usize = from + 1;
    while i < count && bars[i].end_at == bars[from].end_at
        invariant
            from < i <= count == bars@.len(),
            forall|k: int|
                from <= k < i ==> (#[trigger] bars@[k]).end_at == bars@[from as int].end_at,
        decreases bars@.len() - i,
    {
        i += 1;
    }
    i
}

/// Whether a candle is what some candles of a minute come to: those from place `from` on and
/// before place `to`, which are all that follow each other there and fall into one span. It
/// opens with the first of them and closes with the last, and its high and its low are the
/// greatest and the least of theirs.
pub open spec fn is_made_of(
    bar: BarFacts,
    source: Seq<Candle>,
    bounds: Seq<(u64, u64)>,
    volumes: Seq<Real>,
    from: int,
    to: int,
) -> bool {
    &&& 0 <= from < to <= source.len()
    &&& forall|i: int| from <= i < to ==> (#[trigger] bounds[i]).0 == bar.start_at
    &&& from > 0 ==> bounds[from - 1].0 != bar.start_at
    &&& to < source.len() ==> bounds[to].0 != bar.start_at
    &&& bar.end_at == bounds[to - 1].1
    &&& bar.open == source[from].open@
    &&& bar.close == source[to - 1].close@
    &&& bar.volume == volumes[to - 1]
    &&& bar.is_closed
    &&& forall|i: int|
        from <= i < to ==> (#[trigger] source[i]).high@.rank() <= bar.high.rank()
    &&& forall|i: int| from <= i < to ==> bar.low.rank() <= (#[trigger] source[i]).low@.rank()
    &&& exists|i: int| from <= i < to && #[trigger] source[i].high@ == bar.high
    &&& exists|i: int| from <= i < to && #[trigger] source[i].low@ == bar.low
}

/// Whether candles are what those of a minute come to between places that follow each other.
pub open spec fn are_made_between(
    bars: Seq<BarFacts>,
    source: Seq<Candle>,
    bounds: Seq<(u64, u64)>,
    volumes: Seq<Real>,
    cuts: Seq<int>,
) -> bool {
    &&& cuts.len() == bars.len() + 1
    &&& cuts[0] == 0
    &&& cuts.last() == source.len()
    &&& forall|k: int|
        0 <= k < bars.len() ==> is_made_of(
            #[trigger] bars[k],
            source,
            bounds,
            volumes,
            cuts[k],
            cuts[k + 1],
        )
}

proof fn merged_are_made(
    instrument: Seq<char>,
    timeframe: Timeframe,
    source: Seq<Candle>,
    bounds: Seq<(u64, u64)>,
    volumes: Seq<Real>,
) -> (cuts: Seq<int>)
    requires
        bounds.len() >= source.len(),
        forall|i: int|
            0 <= i < source.len() ==> is_price((#[trigger] source[i]).high@) && is_price(
                source[i].low@,
            ),
    ensures
        are_made_between(
            merged(instrument, timeframe, source, bounds, volumes),
            source,
            bounds,
            volumes,
            cuts,
        ),
    decreases source.len(),
{
    let all = merged(instrument, timeframe, source, bounds, volumes);
    if source.len() == 0 {
        seq![0]
    } else {
        let d = source.drop_last();
        let n = source.len() - 1;
        assert forall|i: int| 0 <= i < d.len() implies is_price((#[trigger] d[i]).high@)
            && is_price(d[i].low@) by {
            assert(d[i] == source[i]);
        }
        let before = merged(instrument, timeframe, d, bounds, volumes);
        let had = merged_are_made(instrument, timeframe, d, bounds, volumes);
        let m = before.len();
        assert(source[n] == source.last());
        if m > 0 && before.last().start_at == bounds[n].0 {
            let cuts = had.update(had.len() - 1, n + 1);
            assert(is_made_of(before[m - 1], d, bounds, volumes, had[m - 1], had[m as int]));
            assert forall|k: int| 0 <= k < all.len() implies is_made_of(
                #[trigger] all[k],
                source,
                bounds,
                volumes,
                cuts[k],
                cuts[k + 1],
            ) by {
                assert(is_made_of(before[k], d, bounds, volumes, had[k], had[k + 1]));
                made_of_more(before[k], d, source, bounds, volumes, had[k], had[k + 1]);
                if k == m - 1 {
                    let was = before[k];
                    let now = all[k];
                    assert(now == continued(was, source.last(), bounds[n], volumes[n]));
                    assert forall|i: int| cuts[k] <= i < n + 1 implies (
                    #[trigger] source[i]).high@.rank() <= now.high.rank() && now.low.rank()
                        <= source[i].low@.rank() by {
                        if i < n {
                            assert(d[i] == source[i]);
                        }
                    }
                    let h = choose|i: int| had[k] <= i < n && #[trigger] d[i].high@ == was.high;
                    let l = choose|i: int| had[k] <= i < n && #[trigger] d[i].low@ == was.low;
                    assert(source[h] == d[h] && source[l] == d[l]);
                    assert(source[n].high@ == now.high || source[h].high@ == now.high);
                    assert(source[n].low@ == now.low || source[l].low@ == now.low);
                } else {
                    assert(all[k] == before[k]);
                    if had[k + 1] == n {
                        assert(had[k + 1] <= had[m - 1]) by {
                            cuts_ascend(before, d, bounds, volumes, had, k + 1, m - 1);
                        }
                    }
                }
            }
            cuts
        } else {
            let cuts = had.push(n + 1);
            assert forall|k: int| 0 <= k < all.len() implies is_made_of(
                #[trigger] all[k],
                source,
                bounds,
                volumes,
                cuts[k],
                cuts[k + 1],
            ) by {
                if k < m {
                    assert(all[k] == before[k]);
                    assert(is_made_of(before[k], d, bounds, volumes, had[k], had[k + 1]));
                    made_of_more(before[k], d, source, bounds, volumes, had[k], had[k + 1]);
                    if had[k + 1] == n && k < m - 1 {
                        cuts_ascend(before, d, bounds, volumes, had, k + 1, m - 1);
                        assert(is_made_of(
                            before[m - 1],
                            d,
                            bounds,
                            volumes,
                            had[m - 1],
                            had[m as int],
                        ));
                    }
                } else {
                    if m > 0 {
                        assert(is_made_of(
                            before[m - 1],
                            d,
                            bounds,
                            volumes,
                            had[m - 1],
                            had[m as int],
                        ));
                        assert(bounds[n - 1].0 == before[m - 1].start_at);
                    }
                    assert(source[n].high@ == all[k].high && source[n].low@ == all[k].low);
                }
            }
            cuts
        }
    }
}

proof fn cuts_ascend(
    bars: Seq<BarFacts>,
    source: Seq<Candle>,
    bounds: Seq<(u64, u64)>,
    volumes: Seq<Real>,
    cuts: Seq<int>,
    i: int,
    j: int,
)
    requires
        are_made_between(bars, source, bounds, volumes, cuts),
        0 <= i <= j < cuts.len(),
    ensures
        cuts[i] <= cuts[j],
    decreases j - i,
{
    if i < j {
        cuts_ascend(bars, source, bounds, volumes, cuts, i, j - 1);
        assert(is_made_of(bars[j - 1], source, bounds, volumes, cuts[j - 1], cuts[j]));
    }
}

proof fn made_of_more(
    bar: BarFacts,
    d: Seq<Candle>,
    source: Seq<Candle>,
    bounds: Seq<(u64, u64)>,
    volumes: Seq<Real>,
    from: int,
    to: int,
)
    requires
        source.len() > 0,
        d == source.drop_last(),
        is_made_of(bar, d, bounds, volumes, from, to),
    ensures
        to < d.len() || bounds[to].0 != bar.start_at ==> is_made_of(
            bar,
            source,
            bounds,
            volumes,
            from,
            to,
        ),
{
    let h = choose|i: int| from <= i < to && #[trigger] d[i].high@ == bar.high;
    let l = choose|i: int| from <= i < to && #[trigger] d[i].low@ == bar.low;
    assert(source[h] == d[h] && source[l] == d[l]);
    assert forall|i: int| from <= i < to implies (#[trigger] source[i]).high@.rank()
        <= bar.high.rank() && bar.low.rank() <= source[i].low@.rank() by {
        assert(d[i] == source[i]);
    }
}

/// A candle that is put together is what those of a minute in its span come to: it opens with
/// the first of them and closes with the last, its high is the greatest of theirs and its low
/// the least. Of all that fall into spans one after another, only the first is left out, where
/// its span begins before the candles do, and the last, where its span ends after them.
pub proof fn candles_are_put_together_from_their_minutes(
    instrument: Seq<char>,
    timeframe: Timeframe,
    source: Seq<Candle>,
    bounds: Seq<(u64, u64)>,
    volumes: Seq<Real>,
) -> (cuts: Seq<int>)
    requires
        source.len() > 0,
        bounds.len() == source.len(),
        forall|i: int|
            0 <= i < source.len() ==> is_price((#[trigger] source[i]).high@) && is_price(
                source[i].low@,
            ),
    ensures
        cuts.len() > 1,
        cuts[0] == 0,
        cuts.last() == source.len(),
        ({
            let bars = aggregated_of(instrument, timeframe, source, bounds, volumes);
            let first: int = if source[0].start_time@ > bounds[0].0 {
                1
            } else {
                0
            };
            let end: int = if source.last().end_time@ < bounds.last().1 {
                cuts.len() - 2
            } else {
                cuts.len() - 1
            };
            &&& bars.len() == if end > first {
                end - first
            } else {
                0
            }
            &&& forall|k: int|
                0 <= k < bars.len() ==> {
                    let bar = #[trigger] bars[k];
                    let (from, to) = (cuts[k + first], cuts[k + first + 1]);
                    &&& bar.instrument == instrument
                    &&& bar.timeframe == timeframe
                    &&& is_made_of(bar, source, bounds, volumes, from, to)
                    &&& bar.open == source[from].open@
                    &&& bar.close == source[to - 1].close@
                    &&& forall|i: int|
                        from <= i < to ==> (#[trigger] source[i]).high@.rank() <= bar.high.rank()
                            && bar.low.rank() <= source[i].low@.rank()
                    &&& exists|i: int| from <= i < to && #[trigger] source[i].high@ == bar.high
                    &&& exists|i: int| from <= i < to && #[trigger] source[i].low@ == bar.low
                }
        }),
{
    let all = merged(instrument, timeframe, source, bounds, volumes);
    let cuts = merged_are_made(instrument, timeframe, source, bounds, volumes);
    merged_is_part(instrument, timeframe, source, bounds, volumes);
    let rest = without_cut_start(all, source);
    let bars = aggregated_of(instrument, timeframe, source, bounds, volumes);
    let n = all.len();
    assert(n > 0);
    assert(is_made_of(all[0], source, bounds, volumes, cuts[0], cuts[1]));
    assert(is_made_of(all[n - 1], source, bounds, volumes, cuts[n - 1], cuts[n as int]));
    let shift: int = n - rest.len();
    assert forall|k: int| 0 <= k < bars.len() implies #[trigger] bars[k] == all[k + shift] by {
        assert(bars[k] == rest[k]);
    }
    assert forall|k: int| 0 <= k < bars.len() implies is_bar_of(
        #[trigger] bars[k],
        instrument,
        timeframe,
    ) && is_made_of(bars[k], source, bounds, volumes, cuts[k + shift], cuts[k + shift + 1]) by {
        assert(bars[k] == all[k + shift]);
        assert(is_bar_of(all[k + shift], instrument, timeframe));
    }
    cuts
}

/// A candle is seen by strategies as it is: with its own prices, span and volume, and closed.
pub proof fn bars_tell_their_candles(candles: Seq<Candle>, i: int)
    requires
        0 <= i < candles.len(),
    ensures
        bars_of(candles).len() == candles.len(),
        ({
            let bar = bars_of(candles)[i];
            let candle = candles[i];
            &&& bar.instrument == candle.instrument_name@
            &&& bar.timeframe == candle.timeframe
            &&& bar.start_at == candle.start_time@
            &&& bar.end_at == candle.end_time@
            &&& bar.open == candle.open@
            &&& bar.high == candle.high@
            &&& bar.low == candle.low@
            &&& bar.close == candle.close@
            &&& bar.volume == candle.volume
            &&& bar.is_closed
        }),
{
}

/// The last of some values are those that nothing follows but each other: so many of them, or
/// all where there are fewer, in their order.
pub proof fn last_of_is_the_end<A>(s: Seq<A>, limit: int)
    requires
        limit >= 0,
    ensures
        last_of(s, limit).len() <= limit,
        last_of(s, limit).len() == limit || last_of(s, limit) == s,
        exists|head: Seq<A>| s == #[trigger] (head + last_of(s, limit)),
{
    if s.len() > limit {
        let head = s.take(s.len() - limit);
        assert(s =~= head + last_of(s, limit));
    } else {
        assert(s =~= Seq::<A>::empty() + last_of(s, limit));
    }
}

/// Enough candles of a minute are asked for to make up so many whole candles of a timeframe,
/// though the first and the last of their spans be cut; or as many as can be counted.
pub proof fn enough_minutes_are_asked_for(limit: usize, timeframe: Timeframe)
    ensures
        minutes_for(limit, timeframe) <= usize::MAX,
        minutes_for(limit, timeframe) == usize::MAX || minutes_for(limit, timeframe) * 60_000
            == (limit + 2) * millis_of(timeframe),
{
    timeframes_agree(timeframe);
    let f = factor_of(timeframe) as int;
    let l = limit as int;
    assert(((l + 2) * f) * 60_000 == (l + 2) * (f * 60_000)) by (nonlinear_arith);
}

/// Of candles, the one that ends sooner is gone through sooner; of those that end together the
/// shorter; and of those that are as long the one whose instrument comes first.
pub proof fn sooner_candles_are_gone_through_first(bars: Seq<Bar>, i: int, j: int)
    requires
        0 <= i < j < play_order(bars).len(),
    ensures
        ({
            let a = play_order(bars)[i];
            let b = play_order(bars)[j];
            &&& a.end_at <= b.end_at
            &&& a.end_at == b.end_at ==> factor_of(a.timeframe) <= factor_of(b.timeframe)
            &&& a.end_at == b.end_at && a.timeframe == b.timeframe ==> !text_lt(
                b.instrument@,
                a.instrument@,
            )
            &&& a.end_at == b.end_at && a.timeframe == b.timeframe && a.instrument@ == b.instrument@
                ==> a.start_at <= b.start_at
        }),
{
    playing_keeps_bars(bars);
    let s = played_all(play_order(bars));
    assert(!s[j].ranks_before(&s[i]));
}

/// All that was loaded of each list is among all candles, and nothing else, in the order of the
/// lists.
pub proof fn all_bars_are_those_of_each(parts: Seq<Seq<Bar>>, bar: Bar)
    ensures
        all_bars(parts).contains(bar) <==> exists|i: int|
            0 <= i < parts.len() && (#[trigger] parts[i]).contains(bar),
        parts.len() > 0 ==> all_bars(parts).len() == all_bars(parts.drop_last()).len()
            + parts[parts.len() - 1].len(),
    decreases parts.len(),
{
    if parts.len() > 0 {
        let d = parts.drop_last();
        let n = parts.len() - 1;
        all_bars_are_those_of_each(d, bar);
        let before = all_bars(d);
        let all = all_bars(parts);
        assert(parts[n] == parts.last());
        assert forall|i: int|
            #![trigger d[i]]
            #![trigger parts[i]]
            0 <= i < n implies d[i] == parts[i] by {}
        if before.contains(bar) {
            let k = choose|k: int| 0 <= k < before.len() && before[k] == bar;
            assert(all[k] == bar);
            let i = choose|i: int| 0 <= i < d.len() && (#[trigger] d[i]).contains(bar);
            assert(parts[i].contains(bar));
        }
        if parts[n].contains(bar) {
            let k = choose|k: int| 0 <= k < parts[n].len() && parts[n][k] == bar;
            assert(all[before.len() + k] == bar);
        }
        if all.contains(bar) {
            let k = choose|k: int| 0 <= k < all.len() && all[k] == bar;
            if k < before.len() {
                assert(before[k] == bar);
            } else {
                assert(parts[n][k - before.len()] == bar);
            }
        }
    }
}

/// Of each instrument each timeframe is asked for, and nothing else.
pub proof fn each_timeframe_of_each_instrument_is_asked_for(
    instruments: Seq<Seq<char>>,
    timeframes: Seq<Timeframe>,
    i: int,
    j: int,
)
    requires
        0 <= i < instruments.len(),
        0 <= j < timeframes.len(),
    ensures
        asked_of(instruments, timeframes).contains((instruments[i], timeframes[j])),
        forall|k: int|
            0 <= k < asked_of(instruments, timeframes).len() ==> instruments.contains(
                (#[trigger] asked_of(instruments, timeframes)[k]).0,
            ) && timeframes.contains(asked_of(instruments, timeframes)[k].1),
    decreases instruments.len(),
{
    let all = asked_of(instruments, timeframes);
    let d = instruments.drop_last();
    let before = asked_of(d, timeframes);
    if i < d.len() {
        each_timeframe_of_each_instrument_is_asked_for(d, timeframes, i, j);
        let k = choose|k: int|
            0 <= k < before.len() && before[k] == (instruments[i], timeframes[j]);
        assert(all[k] == (instruments[i], timeframes[j]));
    } else {
        assert(all[before.len() + j] == (instruments[i], timeframes[j]));
    }
    assert forall|k: int| 0 <= k < all.len() implies instruments.contains((#[trigger] all[k]).0)
        && timeframes.contains(all[k].1) by {
        asked_are_among(instruments, timeframes, k);
    }
}

} // verus!
