//! Instruments, prices, ticks and candles.
use crate::binary64::{Real, INFINITY_BITS};
use vstd::prelude::*;

verus! {

/// The name of an instrument.
#[derive(Debug, PartialEq, Eq, PartialOrd, Ord, Hash)]
pub struct InstrumentName {
    text: String,
}

impl View for InstrumentName {
    type V = Seq<char>;

    closed spec fn view(&self) -> Seq<char> {
        self.text@
    }
}

impl Clone for InstrumentName {
    fn clone(&self) -> (r: InstrumentName)
        ensures
            r == *self,
    {
        InstrumentName { text: self.text.clone() }
    }
}

impl InstrumentName {
    pub fn new(value: &str) -> (r: InstrumentName)
        ensures
            r@ == value@,
    {
        InstrumentName { text: value.to_owned() }
    }

    pub fn as_str(&self) -> (r: &str)
        ensures
            r@ == self@,
    {
        self.text.as_str()
    }

    /// The name as a string of its own.
    pub fn to_text(&self) -> (r: String)
        ensures
            r@ == self@,
    {
        self.text.clone()
    }
}

/// The names of a list.
pub open spec fn name_views(v: Seq<InstrumentName>) -> Seq<Seq<char>> {
    Seq::new(v.len(), |i: int| v[i]@)
}

/// What a feeder can be asked for.
#[derive(Clone, Copy, Debug, PartialEq, Eq, Hash, Structural)]
pub enum FeedChannel {
    PriceTick,
    PriceCandle(Timeframe),
}

/// The span of a candle.
#[derive(Clone, Copy, Debug, PartialEq, Eq, PartialOrd, Ord, Hash, Structural)]
pub enum Timeframe {
    OneMinute,
    ThreeMinute,
    FiveMinute,
    FifteenMinute,
    ThirtyMinute,
    SeventyFiveMinute,
    OneHour,
    FourHour,
    OneDay,
}

/// The name of a timeframe as it stands in messages about it.
pub open spec fn timeframe_name_of(timeframe: Timeframe) -> Seq<char> {
    match timeframe {
        Timeframe::OneMinute => "OneMinute"@,
        Timeframe::ThreeMinute => "ThreeMinute"@,
        Timeframe::FiveMinute => "FiveMinute"@,
        Timeframe::FifteenMinute => "FifteenMinute"@,
        Timeframe::ThirtyMinute => "ThirtyMinute"@,
        Timeframe::SeventyFiveMinute => "SeventyFiveMinute"@,
        Timeframe::OneHour => "OneHour"@,
        Timeframe::FourHour => "FourHour"@,
        Timeframe::OneDay => "OneDay"@,
    }
}

/// The label of a timeframe in reports and requests.
pub open spec fn timeframe_label_of(timeframe: Timeframe) -> Seq<char> {
    match timeframe {
        Timeframe::OneMinute => "1m"@,
        Timeframe::ThreeMinute => "3m"@,
        Timeframe::FiveMinute => "5m"@,
        Timeframe::FifteenMinute => "15m"@,
        Timeframe::ThirtyMinute => "30m"@,
        Timeframe::SeventyFiveMinute => "75m"@,
        Timeframe::OneHour => "1h"@,
        Timeframe::FourHour => "4h"@,
        Timeframe::OneDay => "1d"@,
    }
}

impl Timeframe {
    /// The name of the timeframe as it stands in messages about it.
    pub fn name(self) -> (r: &'static str)
        ensures
            r@ == timeframe_name_of(self),
    {
        match self {
            Timeframe::OneMinute => "OneMinute",
            Timeframe::ThreeMinute => "ThreeMinute",
            Timeframe::FiveMinute => "FiveMinute",
            Timeframe::FifteenMinute => "FifteenMinute",
            Timeframe::ThirtyMinute => "ThirtyMinute",
            Timeframe::SeventyFiveMinute => "SeventyFiveMinute",
            Timeframe::OneHour => "OneHour",
            Timeframe::FourHour => "FourHour",
            Timeframe::OneDay => "OneDay",
        }
    }
}

/// The label of a timeframe in reports and requests.
pub fn timeframe_label(timeframe: Timeframe) -> (r: &'static str)
    ensures
        r@ == timeframe_label_of(timeframe),
{
    match timeframe {
        Timeframe::OneMinute => "1m",
        Timeframe::ThreeMinute => "3m",
        Timeframe::FiveMinute => "5m",
        Timeframe::FifteenMinute => "15m",
        Timeframe::ThirtyMinute => "30m",
        Timeframe::SeventyFiveMinute => "75m",
        Timeframe::OneHour => "1h",
        Timeframe::FourHour => "4h",
        Timeframe::OneDay => "1d",
    }
}

/// A moment, in milliseconds since 1970-01-01 UTC.
#[derive(Clone, Copy, Debug, PartialEq, Eq, PartialOrd, Ord, Hash)]
pub struct UnixMillis {
    millis: u64,
}

impl View for UnixMillis {
    type V = u64;

    closed spec fn view(&self) -> u64 {
        self.millis
    }
}

impl UnixMillis {
    pub fn new(value: u64) -> (r: UnixMillis)
        ensures
            r@ == value,
    {
        UnixMillis { millis: value }
    }

    pub fn as_u64(self) -> (r: u64)
        ensures
            r == self@,
    {
        self.millis
    }
}

/// A price: a finite, positive value.
#[derive(Clone, Copy, Debug, PartialEq, Eq)]
pub struct Price {
    value: Real,
}

/// Whether a value can be a price.
pub open spec fn is_price(value: Real) -> bool {
    0 < value.bits < INFINITY_BITS
}

/// What is said of a value that can be no price.
pub open spec fn price_fault() -> Seq<char> {
    "price must be finite and positive"@
}

impl View for Price {
    type V = Real;

    closed spec fn view(&self) -> Real {
        self.value
    }
}

impl Price {
    #[verifier::type_invariant]
    closed spec fn positive(self) -> bool {
        is_price(self.value)
    }

    pub fn new(value: Real) -> (r: Result<Price, &'static str>)
        ensures
            match r {
                Ok(price) => is_price(value) && price@ == value,
                Err(reason) => !is_price(value) && reason@ == price_fault(),
            },
    {
        if 0 < value.bits && value.bits < INFINITY_BITS {
            Ok(Price { value })
        } else {
            Err("price must be finite and positive")
        }
    }

    /// The value of the price, which is finite and positive.
    pub fn value(self) -> (r: Real)
        ensures
            r == self@,
            is_price(r),
    {
        proof {
            use_type_invariant(&self);
        }
        self.value
    }

    pub fn above(self, other: Price) -> (r: bool)
        ensures
            r == (self@.rank() > other@.rank()),
    {
        !self.value().at_most(other.value())
    }
}

/// A price at a moment.
#[derive(Debug, PartialEq, Eq)]
pub struct PriceTick {
    pub instrument_name: InstrumentName,
    pub price: Price,
    pub time: UnixMillis,
}

/// A tick as contracts speak of it.
pub struct TickFacts {
    pub instrument_name: Seq<char>,
    pub price: Real,
    pub time: u64,
}

impl View for PriceTick {
    type V = TickFacts;

    open spec fn view(&self) -> TickFacts {
        TickFacts {
            instrument_name: self.instrument_name@,
            price: self.price@,
            time: self.time@,
        }
    }
}

impl Clone for PriceTick {
    fn clone(&self) -> (r: PriceTick)
        ensures
            r == *self,
    {
        PriceTick {
            instrument_name: self.instrument_name.clone(),
            price: self.price,
            time: self.time,
        }
    }
}

impl PriceTick {
    pub fn new(instrument_name: InstrumentName, price: Price, time: UnixMillis) -> (r: PriceTick)
        ensures
            r.instrument_name == instrument_name,
            r.price == price,
            r.time == time,
    {
        PriceTick { instrument_name, price, time }
    }
}

/// The prices of a timeframe.
#[derive(Debug, PartialEq, Eq)]
pub struct Candle {
    pub instrument_name: InstrumentName,
    pub timeframe: Timeframe,
    pub start_time: UnixMillis,
    pub end_time: UnixMillis,
    pub open: Price,
    pub high: Price,
    pub low: Price,
    pub close: Price,
    pub price: Price,
    pub volume: Real,
}

/// A candle as contracts speak of it.
pub struct CandleFacts {
    pub instrument_name: Seq<char>,
    pub timeframe: Timeframe,
    pub start_time: u64,
    pub end_time: u64,
    pub open: Real,
    pub high: Real,
    pub low: Real,
    pub close: Real,
    pub price: Real,
    pub volume: Real,
}

impl View for Candle {
    type V = CandleFacts;

    open spec fn view(&self) -> CandleFacts {
        CandleFacts {
            instrument_name: self.instrument_name@,
            timeframe: self.timeframe,
            start_time: self.start_time@,
            end_time: self.end_time@,
            open: self.open@,
            high: self.high@,
            low: self.low@,
            close: self.close@,
            price: self.price@,
            volume: self.volume,
        }
    }
}

impl Clone for Candle {
    fn clone(&self) -> (r: Candle)
        ensures
            r == *self,
    {
        Candle {
            instrument_name: self.instrument_name.clone(),
            timeframe: self.timeframe,
            start_time: self.start_time,
            end_time: self.end_time,
            open: self.open,
            high: self.high,
            low: self.low,
            close: self.close,
            price: self.price,
            volume: self.volume,
        }
    }
}

impl Candle {
    /// A candle, whose price is the one it closed at.
    pub fn new(
        instrument_name: InstrumentName,
        timeframe: Timeframe,
        start_time: UnixMillis,
        end_time: UnixMillis,
        open: Price,
        high: Price,
        low: Price,
        close: Price,
        volume: Real,
    ) -> (r: Candle)
        ensures
            r@ == (CandleFacts {
                instrument_name: instrument_name@,
                timeframe,
                start_time: start_time@,
                end_time: end_time@,
                open: open@,
                high: high@,
                low: low@,
                close: close@,
                price: close@,
                volume,
            }),
    {
        Candle {
            instrument_name,
            timeframe,
            start_time,
            end_time,
            open,
            high,
            low,
            close,
            price: close,
            volume,
        }
    }
}

/// What a feeder delivers.
#[derive(Debug, PartialEq, Eq)]
pub enum PriceEvent {
    Tick(PriceTick),
    Candle(Candle),
}

/// A delivery as contracts speak of it.
pub enum EventFacts {
    Tick(TickFacts),
    Candle(CandleFacts),
}

impl View for PriceEvent {
    type V = EventFacts;

    open spec fn view(&self) -> EventFacts {
        match self {
            PriceEvent::Tick(tick) => EventFacts::Tick(tick@),
            PriceEvent::Candle(candle) => EventFacts::Candle(candle@),
        }
    }
}

/// An optional delivery as contracts speak of it.
pub open spec fn event_facts(event: Option<PriceEvent>) -> Option<EventFacts> {
    match event {
        Some(e) => Some(e@),
        None => None,
    }
}

impl Clone for PriceEvent {
    fn clone(&self) -> (r: PriceEvent)
        ensures
            r == *self,
    {
        match self {
            PriceEvent::Tick(tick) => PriceEvent::Tick(tick.clone()),
            PriceEvent::Candle(candle) => PriceEvent::Candle(candle.clone()),
        }
    }
}

/// The instrument that a delivery is about.
pub open spec fn event_instrument(event: EventFacts) -> Seq<char> {
    match event {
        EventFacts::Tick(tick) => tick.instrument_name,
        EventFacts::Candle(candle) => candle.instrument_name,
    }
}

/// The channel that a delivery belongs to.
pub open spec fn event_channel(event: EventFacts) -> FeedChannel {
    match event {
        EventFacts::Tick(_) => FeedChannel::PriceTick,
        EventFacts::Candle(candle) => FeedChannel::PriceCandle(candle.timeframe),
    }
}

/// The price that a delivery tells.
pub open spec fn event_price(event: EventFacts) -> Real {
    match event {
        EventFacts::Tick(tick) => tick.price,
        EventFacts::Candle(candle) => candle.price,
    }
}

impl PriceEvent {
    pub fn instrument_name(&self) -> (r: &InstrumentName)
        ensures
            r@ == event_instrument(self@),
    {
        match self {
            PriceEvent::Tick(tick) => &tick.instrument_name,
            PriceEvent::Candle(candle) => &candle.instrument_name,
        }
    }

    pub fn channel(&self) -> (r: FeedChannel)
        ensures
            r == event_channel(self@),
    {
        match self {
            PriceEvent::Tick(_) => FeedChannel::PriceTick,
            PriceEvent::Candle(candle) => FeedChannel::PriceCandle(candle.timeframe),
        }
    }

    pub fn price(&self) -> (r: Price)
        ensures
            r@ == event_price(self@),
    {
        match self {
            PriceEvent::Tick(tick) => tick.price,
            PriceEvent::Candle(candle) => candle.price,
        }
    }
}

/// Every timeframe has a name and a label of its own.
pub proof fn timeframes_are_told_apart(a: Timeframe, b: Timeframe)
    requires
        timeframe_label_of(a) == timeframe_label_of(b) || timeframe_name_of(a) == timeframe_name_of(
            b,
        ),
    ensures
        a == b,
{
    reveal_strlit("1m");
    reveal_strlit("3m");
    reveal_strlit("5m");
    reveal_strlit("15m");
    reveal_strlit("30m");
    reveal_strlit("75m");
    reveal_strlit("1h");
    reveal_strlit("4h");
    reveal_strlit("1d");
    reveal_strlit("OneMinute");
    reveal_strlit("ThreeMinute");
    reveal_strlit("FiveMinute");
    reveal_strlit("FifteenMinute");
    reveal_strlit("ThirtyMinute");
    reveal_strlit("SeventyFiveMinute");
    reveal_strlit("OneHour");
    reveal_strlit("FourHour");
    reveal_strlit("OneDay");
    let (x, y) = (timeframe_label_of(a), timeframe_label_of(b));
    assert(x == y ==> x[0] == y[0] && x[1] == y[1] && x.len() == y.len());
    let (v, w) = (timeframe_name_of(a), timeframe_name_of(b));
    assert(v == w ==> v[0] == w[0] && v[1] == w[1] && v[2] == w[2] && v[3] == w[3] && v.len()
        == w.len());
}

} // verus!
