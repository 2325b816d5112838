//! The live market data of Delta: what is asked for, and what its messages tell.
use crate::binary64::{find_number, number_in, Decimal, Numbers, Real};
use crate::feeder::error::{outcome, FeedError, FeedFault};
use crate::feeder::event::{
    event_facts, is_price, name_views, price_fault, timeframe_name_of, EventFacts, FeedChannel, InstrumentName, Price,
    PriceEvent, PriceTick, TickFacts, UnixMillis,
};
use crate::feeder::FeedSubscription;
use crate::json::{
    field_of, first_field, json_option, json_views, list_facts, parsed_text, read_json, string_of,
    unsigned_of, value_field, Json, JsonFacts, Shape, ShapeFacts,
};
use crate::order::{take_to_set, TextSet};
use crate::text::{same, str_views, trim, trim_of, views};
use vstd::prelude::*;

verus! {

/// The channel that prices are asked for on, where none is configured.
pub const DEFAULT_DELTA_TICKER_CHANNEL: &'static str = "v2/ticker";

/// The channel that prices of indices are asked for on.
pub const DELTA_SPOT_PRICE_CHANNEL: &'static str = "spot_price";

/// How many prices that are none are told of.
pub const MAX_INVALID_DELTA_PRICE_LOGS: usize = 20;

/// What is asked for of Delta.
pub struct DeltaSubscriptions {
    ticker_channel: String,
    tickers: TextSet,
    spots: TextSet,
}

/// The texts of a list that say something and are not in a set.
pub open spec fn new_ones(list: Seq<Seq<char>>, known: Set<Seq<char>>) -> Seq<Seq<char>>
    decreases list.len(),
{
    if list.len() == 0 {
        Seq::empty()
    } else {
        let before = new_ones(list.drop_last(), known);
        if trim_of(list.last()).len() > 0 && !known.contains(list.last()) {
            before.push(list.last())
        } else {
            before
        }
    }
}

/// The texts of a list that are in a set.
pub open spec fn known_ones(list: Seq<Seq<char>>, known: Set<Seq<char>>) -> Seq<Seq<char>>
    decreases list.len(),
{
    if list.len() == 0 {
        Seq::empty()
    } else {
        let before = known_ones(list.drop_last(), known);
        if known.contains(list.last()) {
            before.push(list.last())
        } else {
            before
        }
    }
}

fn pick_new(list: &Vec<String>, known: &TextSet) -> (r: Vec<String>)
    ensures
        views(r@) == new_ones(views(list@), known@),
{
    let ghost all = views(list@);
    let mut out: Vec<String> = Vec::new();
    let mut i: usize = 0;
    assert(all.take(0) =~= Seq::empty());
    assert(views(out@) =~= Seq::empty());
    while i < list.len()
        invariant
            i <= list@.len(),
            all == views(list@),
            views(out@) == new_ones(all.take(i as int), known@),
        decreases list@.len() - i,
    {
        let ghost before = views(out@);
        assert(all.take(i + 1).drop_last() =~= all.take(i as int));
        assert(all.take(i + 1).last() == list@[i as int]@);
        if !trim(list[i].as_str()).as_str().is_empty() && !known.contains(list[i].as_str()) {
            let one = list[i].clone();
            out.push(one);
            assert(views(out@) =~= before.push(one@));
        }
        i += 1;
    }
    assert(all.take(i as int) =~= all);
    out
}

fn pick_known(list: &Vec<String>, known: &TextSet) -> (r: Vec<String>)
    ensures
        views(r@) == known_ones(views(list@), known@),
{
    let ghost all = views(list@);
    let mut out: Vec<String> = Vec::new();
    let mut i: usize = 0;
    assert(all.take(0) =~= Seq::empty());
    assert(views(out@) =~= Seq::empty());
    while i < list.len()
        invariant
            i <= list@.len(),
            all == views(list@),
            views(out@) == known_ones(all.take(i as int), known@),
        decreases list@.len() - i,
    {
        let ghost before = views(out@);
        assert(all.take(i + 1).drop_last() =~= all.take(i as int));
        assert(all.take(i + 1).last() == list@[i as int]@);
        if known.contains(list[i].as_str()) {
            let one = list[i].clone();
            out.push(one);
            assert(views(out@) =~= before.push(one@));
        }
        i += 1;
    }
    assert(all.take(i as int) =~= all);
    out
}

fn add_all(set: &mut TextSet, list: &Vec<String>)
    ensures
        final(set)@ == old(set)@ + views(list@).to_set(),
{
    let ghost all = views(list@);
    let ghost start = set@;
    let mut i: usize = 0;
    assert(start + all.take(0).to_set() =~= start);
    while i < list.len()
        invariant
            i <= list@.len(),
            all == views(list@),
            set@ == start + all.take(i as int).to_set(),
        decreases list@.len() - i,
    {
        let _new = set.insert(list[i].clone());
        proof {
            take_to_set(all, i as int);
        }
        i += 1;
        assert(set@ =~= start + all.take(i as int).to_set());
    }
    assert(all.take(i as int) =~= all);
}

fn remove_all(set: &mut TextSet, list: &Vec<String>)
    ensures
        final(set)@ == old(set)@ - views(list@).to_set(),
{
    let ghost all = views(list@);
    let ghost start = set@;
    let mut i: usize = 0;
    assert(start - all.take(0).to_set() =~= start);
    while i < list.len()
        invariant
            i <= list@.len(),
            all == views(list@),
            set@ == start - all.take(i as int).to_set(),
        decreases list@.len() - i,
    {
        let _gone = set.remove(list[i].as_str());
        proof {
            take_to_set(all, i as int);
        }
        i += 1;
        assert(set@ =~= start - all.take(i as int).to_set());
    }
    assert(all.take(i as int) =~= all);
}

/// An optional text, as contracts speak of it.
pub open spec fn text_option(value: Option<&str>) -> Option<Seq<char>> {
    match value {
        Some(v) => Some(v@),
        None => None,
    }
}

/// The channel that prices are asked for on.
pub open spec fn channel_of(configured: Option<Seq<char>>) -> Seq<char> {
    match configured {
        Some(channel) => if trim_of(channel).len() > 0 {
            channel
        } else {
            DEFAULT_DELTA_TICKER_CHANNEL@
        },
        None => DEFAULT_DELTA_TICKER_CHANNEL@,
    }
}

impl DeltaSubscriptions {
    /// The channel that prices are asked for on.
    pub closed spec fn channel(&self) -> Seq<char> {
        self.ticker_channel@
    }

    /// The symbols whose prices are asked for.
    pub closed spec fn tickers(&self) -> Set<Seq<char>> {
        self.tickers@
    }

    /// The indices whose prices are asked for.
    pub closed spec fn spots(&self) -> Set<Seq<char>> {
        self.spots@
    }

    pub fn new(ticker_channel: Option<&str>) -> (r: DeltaSubscriptions)
        ensures
            r.channel() == channel_of(text_option(ticker_channel)),
            r.tickers() == Set::<Seq<char>>::empty(),
            r.spots() == Set::<Seq<char>>::empty(),
    {
        let configured = match ticker_channel {
            Some(channel) => if trim(channel).as_str().is_empty() {
                None
            } else {
                Some(channel)
            },
            None => None,
        };
        let ticker_channel = match configured {
            Some(channel) => channel.to_owned(),
            None => DEFAULT_DELTA_TICKER_CHANNEL.to_owned(),
        };
        DeltaSubscriptions { ticker_channel, tickers: TextSet::new(), spots: TextSet::new() }
    }

    pub fn ticker_channel(&self) -> (r: &str)
        ensures
            r@ == self.channel(),
    {
        self.ticker_channel.as_str()
    }

    /// Which symbols of a list are to be asked for: those that are not asked for yet.
    pub fn subscribe_symbols(&self, symbols: &Vec<String>) -> (r: Vec<String>)
        ensures
            views(r@) == new_ones(views(symbols@), self.tickers()),
    {
        pick_new(symbols, &self.tickers)
    }

    /// Takes in that symbols are asked for.
    pub fn subscribed(&mut self, symbols: &Vec<String>)
        ensures
            final(self).tickers() == old(self).tickers() + views(symbols@).to_set(),
            final(self).spots() == old(self).spots(),
            final(self).channel() == old(self).channel(),
    {
        add_all(&mut self.tickers, symbols);
    }

    /// Which symbols of a list are no longer to be asked for: those that are.
    pub fn unsubscribe_symbols(&self, symbols: &Vec<String>) -> (r: Vec<String>)
        ensures
            views(r@) == known_ones(views(symbols@), self.tickers()),
    {
        pick_known(symbols, &self.tickers)
    }

    /// Takes in that symbols are no longer asked for.
    pub fn unsubscribed(&mut self, symbols: &Vec<String>)
        ensures
            final(self).tickers() == old(self).tickers() - views(symbols@).to_set(),
            final(self).spots() == old(self).spots(),
            final(self).channel() == old(self).channel(),
    {
        remove_all(&mut self.tickers, symbols);
    }

    /// Which indices of a list are to be asked for: those that are not asked for yet.
    pub fn subscribe_spot_symbols(&self, symbols: &Vec<String>) -> (r: Vec<String>)
        ensures
            views(r@) == new_ones(views(symbols@), self.spots()),
    {
        pick_new(symbols, &self.spots)
    }

    /// Takes in that indices are asked for.
    pub fn spots_subscribed(&mut self, symbols: &Vec<String>)
        ensures
            final(self).spots() == old(self).spots() + views(symbols@).to_set(),
            final(self).tickers() == old(self).tickers(),
            final(self).channel() == old(self).channel(),
    {
        add_all(&mut self.spots, symbols);
    }
}

proof fn new_ones_are_new(list: Seq<Seq<char>>, known: Set<Seq<char>>)
    ensures
        forall|k: Seq<char>| #[trigger]
            new_ones(list, known).to_set().contains(k) ==> !known.contains(k),
    decreases list.len(),
{
    if list.len() > 0 {
        new_ones_are_new(list.drop_last(), known);
        let before = new_ones(list.drop_last(), known);
        assert forall|k: Seq<char>| #[trigger]
            new_ones(list, known).to_set().contains(k) implies !known.contains(k) by {
            let i = choose|i: int|
                0 <= i < new_ones(list, known).len() && new_ones(list, known)[i] == k;
            if i < before.len() {
                assert(before[i] == k);
                assert(before.to_set().contains(k));
            }
        }
    }
}

/// Asking for the symbols of a list that are not asked for, and no longer asking for them,
/// leaves what was asked for.
pub proof fn leaving_undoes_asking(list: Seq<Seq<char>>, known: Set<Seq<char>>)
    ensures
        ({
            let fresh = new_ones(list, known).to_set();
            (known + fresh) - fresh == known
        }),
{
    let fresh = new_ones(list, known).to_set();
    new_ones_are_new(list, known);
    assert((known + fresh) - fresh =~= known);
}

/// Which symbols a subscription asks for; candles cannot be had.
pub fn subscription_symbols(subscription: &FeedSubscription) -> (r: Result<Vec<String>, FeedError>)
    ensures
        match first_candle(subscription.channel_list()) {
            Some(channel) => r matches Err(e) && e@ == unsupported_channel(channel),
            None => r matches Ok(symbols) && views(symbols@)
                == name_views(subscription.instrument_list()),
        },
{
    let channels = subscription.channels();
    let ghost all = subscription.channel_list();
    let mut i: usize = 0;
    assert(all.skip(0) =~= all);
    while i < channels.len()
        invariant
            i <= channels@.len(),
            all == channels@,
            all == subscription.channel_list(),
            first_candle(all) == first_candle(all.skip(i as int)),
        decreases channels@.len() - i,
    {
        assert(all.skip(i as int).drop_first() =~= all.skip(i + 1));
        if let FeedChannel::PriceCandle(timeframe) = channels[i] {
            let mut channel = "PriceCandle(".to_owned();
            channel.append(timeframe.name());
            channel.append(")");
            return Err(
                FeedError::UnsupportedChannel { broker: "delta".to_owned(), channel },
            );
        }
        i += 1;
    }
    let names = subscription.instruments();
    let ghost wanted = name_views(subscription.instrument_list());
    let mut out: Vec<String> = Vec::new();
    let mut k: usize = 0;
    assert(views(out@) =~= wanted.take(0));
    while k < names.len()
        invariant
            k <= names@.len(),
            wanted == name_views(names@),
            views(out@) == wanted.take(k as int),
        decreases names@.len() - k,
    {
        let ghost before = views(out@);
        let name = names[k].to_text();
        out.push(name);
        assert(views(out@) =~= before.push(name@));
        k += 1;
        assert(wanted.take(k as int) =~= before.push(wanted[k - 1]));
    }
    assert(wanted.take(k as int) =~= wanted);
    Ok(out)
}

/// The first channel of candles.
pub open spec fn first_candle(channels: Seq<FeedChannel>) -> Option<FeedChannel>
    decreases channels.len(),
{
    if channels.len() == 0 {
        None
    } else if channels[0] is PriceCandle {
        Some(channels[0])
    } else {
        first_candle(channels.drop_first())
    }
}

pub open spec fn unsupported_channel(channel: FeedChannel) -> FeedFault {
    FeedFault::UnsupportedChannel {
        broker: "delta"@,
        channel: match channel {
            FeedChannel::PriceCandle(timeframe) => "PriceCandle("@ + timeframe_name_of(timeframe)
                + ")"@,
            FeedChannel::PriceTick => "PriceTick"@,
        },
    }
}

/// A value as a number. `numbers` tells what texts denote.
pub open spec fn number_value(json: JsonFacts, numbers: Map<Seq<char>, Decimal>) -> Option<Real> {
    match json.shape {
        ShapeFacts::Number { value, .. } => value,
        ShapeFacts::Text(t) => match number_in(numbers, t) {
            Some(d) => Some(d.value),
            None => None,
        },
        _ => None,
    }
}

pub open spec fn number_option(json: Option<JsonFacts>, numbers: Map<Seq<char>, Decimal>) -> Option<
    Real,
> {
    match json {
        Some(value) => number_value(value, numbers),
        None => None,
    }
}

fn parse_json_number(json: Option<&Json>, numbers: &Numbers) -> (r: Option<Real>)
    ensures
        r == number_option(json_option(json), numbers@),
{
    match json {
        None => None,
        Some(json) => match &json.shape {
            Shape::Number { value, .. } => *value,
            Shape::Text(t) => match find_number(numbers, t.as_str()) {
                Some(d) => Some(d.value),
                None => None,
            },
            _ => None,
        },
    }
}

/// An item of a list.
pub open spec fn item_of(json: JsonFacts, i: int) -> Option<JsonFacts> {
    match json.shape {
        ShapeFacts::List(items) => if 0 <= i < items.len() {
            Some(items[i])
        } else {
            None
        },
        _ => None,
    }
}

fn item(json: &Json, i: usize) -> (r: Option<&Json>)
    ensures
        json_option(r) == item_of(json@, i as int),
{
    match &json.shape {
        Shape::List(items) => {
            proof {
                list_facts(*items);
            }
            if i < items.len() {
                assert(json_views(items@)[i as int] == items@[i as int]@);
                Some(&items[i])
            } else {
                None
            }
        },
        _ => None,
    }
}

pub open spec fn text_in(json: Option<JsonFacts>) -> Option<Seq<char>> {
    match json {
        Some(value) => string_of(value),
        None => None,
    }
}

pub open spec fn count_in(json: Option<JsonFacts>) -> Option<u64> {
    match json {
        Some(value) => unsigned_of(value),
        None => None,
    }
}

fn text_value<'a>(json: Option<&'a Json>) -> (r: Option<&'a str>)
    ensures
        text_option(r) == text_in(json_option(json)),
{
    match json {
        Some(value) => value.as_str(),
        None => None,
    }
}

fn count_value(json: Option<&Json>) -> (r: Option<u64>)
    ensures
        r == count_in(json_option(json)),
{
    match json {
        Some(value) => value.as_u64(),
        None => None,
    }
}

/// The first of the items that a short ticker has.
pub open spec fn compact_of(json: JsonFacts) -> Option<JsonFacts> {
    match field_of(json, "d"@) {
        Some(list) => item_of(list, 0),
        None => None,
    }
}

fn compact_ticker_payload(json: &Json) -> (r: Option<&Json>)
    ensures
        json_option(r) == compact_of(json@),
{
    match json.field("d") {
        Some(list) => item(list, 0),
        None => None,
    }
}

pub open spec fn symbol_keys() -> Seq<Seq<char>> {
    seq!["symbol"@, "sy"@, "s"@]
}

/// The symbol of a ticker.
pub open spec fn ticker_symbol_of(json: JsonFacts) -> Option<Seq<char>> {
    match text_in(first_field(json, symbol_keys())) {
        Some(symbol) => Some(symbol),
        None => match compact_of(json) {
            Some(payload) => text_in(first_field(payload, symbol_keys())),
            None => None,
        },
    }
}

fn ticker_symbol(json: &Json) -> (r: Option<&str>)
    ensures
        text_option(r) == ticker_symbol_of(json@),
{
    let keys: Vec<&'static str> = vec!["symbol", "sy", "s"];
    assert(str_views(keys@) =~= symbol_keys());
    match text_value(value_field(json, &keys)) {
        Some(symbol) => Some(symbol),
        None => match compact_ticker_payload(json) {
            Some(payload) => text_value(value_field(payload, &keys)),
            None => None,
        },
    }
}

pub open spec fn ticker_price_keys() -> Seq<Seq<char>> {
    seq![
        "close"@,
        "price"@,
        "last_price"@,
        "last_traded_price"@,
        "mark_price"@,
        "spot_price"@,
    ]
}

pub open spec fn compact_price_keys() -> Seq<Seq<char>> {
    seq!["close"@, "price"@, "last_price"@, "last_traded_price"@]
}

/// The price in an item of a short ticker: the last, the close of the day, or the mark.
pub open spec fn compact_price_of(json: JsonFacts, numbers: Map<Seq<char>, Decimal>) -> Option<
    Real,
> {
    let close = match field_of(json, "ohlc"@) {
        Some(list) => number_option(item_of(list, 3), numbers),
        None => None,
    };
    match number_option(first_field(json, compact_price_keys()), numbers) {
        Some(price) => Some(price),
        None => match close {
            Some(price) => Some(price),
            None => number_option(first_field(json, seq!["m"@, "mark_price"@]), numbers),
        },
    }
}

fn compact_ticker_price(json: &Json, numbers: &Numbers) -> (r: Option<Real>)
    ensures
        r == compact_price_of(json@, numbers@),
{
    let keys: Vec<&'static str> = vec!["close", "price", "last_price", "last_traded_price"];
    assert(str_views(keys@) =~= compact_price_keys());
    if let Some(price) = parse_json_number(value_field(json, &keys), numbers) {
        return Some(price);
    }
    let close = match json.field("ohlc") {
        Some(list) => parse_json_number(item(list, 3), numbers),
        None => None,
    };
    if let Some(price) = close {
        return Some(price);
    }
    let keys: Vec<&'static str> = vec!["m", "mark_price"];
    assert(str_views(keys@) =~= seq!["m"@, "mark_price"@]);
    parse_json_number(value_field(json, &keys), numbers)
}

/// The price of a ticker.
pub open spec fn ticker_price_of(json: JsonFacts, numbers: Map<Seq<char>, Decimal>) -> Option<Real> {
    match number_option(first_field(json, ticker_price_keys()), numbers) {
        Some(price) => Some(price),
        None => match compact_of(json) {
            Some(payload) => compact_price_of(payload, numbers),
            None => None,
        },
    }
}

fn ticker_price(json: &Json, numbers: &Numbers) -> (r: Option<Real>)
    ensures
        r == ticker_price_of(json@, numbers@),
{
    let keys: Vec<&'static str> = vec![
        "close",
        "price",
        "last_price",
        "last_traded_price",
        "mark_price",
        "spot_price",
    ];
    assert(str_views(keys@) =~= ticker_price_keys());
    if let Some(price) = parse_json_number(value_field(json, &keys), numbers) {
        return Some(price);
    }
    match compact_ticker_payload(json) {
        Some(payload) => compact_ticker_price(payload, numbers),
        None => None,
    }
}

/// A message whose price is none: which sort it is of, its symbol, its price where there is
/// one, and what is wrong with it.
#[derive(Debug)]
pub struct IgnoredPrice {
    pub message_type: &'static str,
    pub symbol: String,
    pub price: Option<Real>,
    pub reason: &'static str,
}

/// What a message tells.
#[derive(Debug)]
pub enum Reading {
    Event(PriceEvent),
    Nothing,
    Ignored(IgnoredPrice),
}

/// What a message tells, as contracts speak of it.
pub enum ReadingFacts {
    Event(EventFacts),
    Nothing,
    Ignored {
        message_type: Seq<char>,
        symbol: Seq<char>,
        price: Option<Real>,
        reason: Seq<char>,
    },
}

impl View for Reading {
    type V = ReadingFacts;

    open spec fn view(&self) -> ReadingFacts {
        match self {
            Reading::Event(event) => ReadingFacts::Event(event@),
            Reading::Nothing => ReadingFacts::Nothing,
            Reading::Ignored(i) => ReadingFacts::Ignored {
                message_type: i.message_type@,
                symbol: i.symbol@,
                price: i.price,
                reason: i.reason@,
            },
        }
    }
}

/// What a price of a symbol at a moment tells.
pub open spec fn reading_of(message_type: Seq<char>, symbol: Seq<char>, price: Real, micros: u64) -> ReadingFacts {
    if is_price(price) {
        ReadingFacts::Event(
            EventFacts::Tick(
                TickFacts { instrument_name: symbol, price, time: (micros / 1_000) as u64 },
            ),
        )
    } else {
        ReadingFacts::Ignored {
            message_type,
            symbol,
            price: Some(price),
            reason: price_fault(),
        }
    }
}

fn reading(message_type: &'static str, symbol: &str, price: Real, micros: u64) -> (r: Reading)
    ensures
        r@ == reading_of(message_type@, symbol@, price, micros),
{
    match Price::new(price) {
        Ok(price) => Reading::Event(
            PriceEvent::Tick(
                PriceTick::new(
                    InstrumentName::new(symbol),
                    price,
                    UnixMillis::new(micros / 1_000),
                ),
            ),
        ),
        Err(reason) => Reading::Ignored(
            IgnoredPrice {
                message_type,
                symbol: symbol.to_owned(),
                price: Some(price),
                reason,
            },
        ),
    }
}

pub open spec fn no_price_of(message_type: Seq<char>, symbol: Seq<char>) -> ReadingFacts {
    ReadingFacts::Ignored { message_type, symbol, price: None, reason: "missing price"@ }
}

fn no_price(message_type: &'static str, symbol: &str) -> (r: Reading)
    ensures
        r@ == no_price_of(message_type@, symbol@),
{
    Reading::Ignored(
        IgnoredPrice {
            message_type,
            symbol: symbol.to_owned(),
            price: None,
            reason: "missing price",
        },
    )
}

pub open spec fn moment_or(moment: Option<u64>, now: u64) -> u64 {
    match moment {
        Some(m) => m,
        None => now,
    }
}

/// What a ticker tells.
pub open spec fn ticker_of(json: JsonFacts, numbers: Map<Seq<char>, Decimal>, now: u64) -> Result<
    ReadingFacts,
    FeedFault,
> {
    match ticker_symbol_of(json) {
        None => Err(FeedFault::Parse("Delta ticker missing symbol: "@ + json.text)),
        Some(symbol) => match ticker_price_of(json, numbers) {
            None => Ok(no_price_of("ticker"@, symbol)),
            Some(price) => Ok(
                reading_of(
                    "ticker"@,
                    symbol,
                    price,
                    moment_or(
                        count_in(first_field(json, seq!["timestamp"@, "t"@, "ts"@])),
                        now,
                    ),
                ),
            ),
        },
    }
}

fn parse_ticker_tick(json: &Json, numbers: &Numbers, now_micros: u64) -> (r: Result<
    Reading,
    FeedError,
>)
    ensures
        outcome(r) == ticker_of(json@, numbers@, now_micros),
{
    let symbol = match ticker_symbol(json) {
        Some(symbol) => symbol,
        None => return Err(
            FeedError::Parse(
                "Delta ticker missing symbol: ".to_owned().concat(json.text.as_str()),
            ),
        ),
    };
    let price = match ticker_price(json, numbers) {
        Some(price) => price,
        None => return Ok(no_price("ticker", symbol)),
    };
    let keys: Vec<&'static str> = vec!["timestamp", "t", "ts"];
    assert(str_views(keys@) =~= seq!["timestamp"@, "t"@, "ts"@]);
    let micros: u64 = match count_value(value_field(json, &keys)) {
        Some(m) => m,
        None => now_micros,
    };
    Ok(reading("ticker", symbol, price, micros))
}

/// What a trade tells.
pub open spec fn trade_of(json: JsonFacts, numbers: Map<Seq<char>, Decimal>) -> Result<
    ReadingFacts,
    FeedFault,
> {
    match text_in(first_field(json, seq!["sy"@, "symbol"@])) {
        None => Err(FeedFault::Parse("Delta trade missing symbol: "@ + json.text)),
        Some(symbol) => match number_option(first_field(json, seq!["p"@, "price"@]), numbers) {
            None => Ok(no_price_of("trade"@, symbol)),
            Some(price) => match count_in(first_field(json, seq!["t"@, "timestamp"@])) {
                None => Err(FeedFault::Parse("Delta trade missing timestamp: "@ + json.text)),
                Some(micros) => Ok(reading_of("trade"@, symbol, price, micros)),
            },
        },
    }
}

fn parse_trade_tick(json: &Json, numbers: &Numbers) -> (r: Result<Reading, FeedError>)
    ensures
        outcome(r) == trade_of(json@, numbers@),
{
    let keys: Vec<&'static str> = vec!["sy", "symbol"];
    assert(str_views(keys@) =~= seq!["sy"@, "symbol"@]);
    let symbol = match text_value(value_field(json, &keys)) {
        Some(symbol) => symbol,
        None => return Err(
            FeedError::Parse("Delta trade missing symbol: ".to_owned().concat(json.text.as_str())),
        ),
    };
    let keys: Vec<&'static str> = vec!["p", "price"];
    assert(str_views(keys@) =~= seq!["p"@, "price"@]);
    let price = match parse_json_number(value_field(json, &keys), numbers) {
        Some(price) => price,
        None => return Ok(no_price("trade", symbol)),
    };
    let keys: Vec<&'static str> = vec!["t", "timestamp"];
    assert(str_views(keys@) =~= seq!["t"@, "timestamp"@]);
    match count_value(value_field(json, &keys)) {
        Some(micros) => Ok(reading("trade", symbol, price, micros)),
        None => Err(
            FeedError::Parse(
                "Delta trade missing timestamp: ".to_owned().concat(json.text.as_str()),
            ),
        ),
    }
}

/// What a price of an index tells.
pub open spec fn spot_of(json: JsonFacts, numbers: Map<Seq<char>, Decimal>, now: u64) -> Result<
    ReadingFacts,
    FeedFault,
> {
    match text_in(first_field(json, seq!["s"@, "sy"@, "symbol"@])) {
        None => Err(FeedFault::Parse("Delta spot price missing symbol: "@ + json.text)),
        Some(symbol) => match number_option(first_field(json, seq!["p"@, "price"@]), numbers) {
            None => Ok(no_price_of("spot_price"@, symbol)),
            Some(price) => Ok(
                reading_of(
                    "spot_price"@,
                    symbol,
                    price,
                    moment_or(
                        count_in(first_field(json, seq!["t"@, "timestamp"@, "ts"@])),
                        now,
                    ),
                ),
            ),
        },
    }
}

fn parse_spot_price_tick(json: &Json, numbers: &Numbers, now_micros: u64) -> (r: Result<
    Reading,
    FeedError,
>)
    ensures
        outcome(r) == spot_of(json@, numbers@, now_micros),
{
    let keys: Vec<&'static str> = vec!["s", "sy", "symbol"];
    assert(str_views(keys@) =~= seq!["s"@, "sy"@, "symbol"@]);
    let symbol = match text_value(value_field(json, &keys)) {
        Some(symbol) => symbol,
        None => return Err(
            FeedError::Parse(
                "Delta spot price missing symbol: ".to_owned().concat(json.text.as_str()),
            ),
        ),
    };
    let keys: Vec<&'static str> = vec!["p", "price"];
    assert(str_views(keys@) =~= seq!["p"@, "price"@]);
    let price = match parse_json_number(value_field(json, &keys), numbers) {
        Some(price) => price,
        None => return Ok(no_price("spot_price", symbol)),
    };
    let keys: Vec<&'static str> = vec!["t", "timestamp", "ts"];
    assert(str_views(keys@) =~= seq!["t"@, "timestamp"@, "ts"@]);
    let micros: u64 = match count_value(value_field(json, &keys)) {
        Some(m) => m,
        None => now_micros,
    };
    Ok(reading("spot_price", symbol, price, micros))
}

/// What a message tells.
pub open spec fn message_of(json: JsonFacts, numbers: Map<Seq<char>, Decimal>, now: u64) -> Result<
    ReadingFacts,
    FeedFault,
> {
    let fault = FeedFault::Parse("Delta websocket error: "@ + json.text);
    let sort = text_in(field_of(json, "type"@));
    if field_of(json, "success"@) matches Some(success) && success.shape == ShapeFacts::Bool(
        false,
    ) {
        Err(fault)
    } else if sort == Some("v2/ticker"@) || sort == Some("ticker"@) {
        ticker_of(json, numbers, now)
    } else if sort == Some("trades"@) {
        trade_of(json, numbers)
    } else if sort == Some("v2/spot_price"@) || sort == Some("spot_price"@) {
        spot_of(json, numbers, now)
    } else if sort == Some("error"@) {
        Err(fault)
    } else {
        Ok(ReadingFacts::Nothing)
    }
}

/// What a message tells. `numbers` tells what texts denote, and `now_micros` is the moment of
/// a message that tells none.
pub fn read_delta_message(json: &Json, numbers: &Numbers, now_micros: u64) -> (r: Result<
    Reading,
    FeedError,
>)
    ensures
        outcome(r) == message_of(json@, numbers@, now_micros),
{
    let failed = match json.field("success") {
        Some(success) => match &success.shape {
            Shape::Bool(b) => !*b,
            _ => false,
        },
        None => false,
    };
    if failed {
        return Err(
            FeedError::Parse("Delta websocket error: ".to_owned().concat(json.text.as_str())),
        );
    }
    match text_value(json.field("type")) {
        None => Ok(Reading::Nothing),
        Some(sort) => {
            if same(sort, "v2/ticker") || same(sort, "ticker") {
                parse_ticker_tick(json, numbers, now_micros)
            } else if same(sort, "trades") {
                parse_trade_tick(json, numbers)
            } else if same(sort, "v2/spot_price") || same(sort, "spot_price") {
                parse_spot_price_tick(json, numbers, now_micros)
            } else if same(sort, "error") {
                Err(
                    FeedError::Parse(
                        "Delta websocket error: ".to_owned().concat(json.text.as_str()),
                    ),
                )
            } else {
                Ok(Reading::Nothing)
            }
        },
    }
}

/// What a text message tells.
pub open spec fn text_message_of(text: Seq<char>, numbers: Map<Seq<char>, Decimal>, now: u64) -> Result<
    ReadingFacts,
    FeedFault,
> {
    match parsed_text(text) {
        Err(e) => Err(FeedFault::Parse(e)),
        Ok(json) => message_of(json, numbers, now),
    }
}

/// What a text message tells.
pub fn read_delta_text_message(text: &str, numbers: &Numbers, now_micros: u64) -> (r: Result<
    Reading,
    FeedError,
>)
    ensures
        outcome(r) == text_message_of(text@, numbers@, now_micros),
{
    match read_json(text) {
        Err(e) => Err(FeedError::Parse(e)),
        Ok(json) => read_delta_message(&json, numbers, now_micros),
    }
}

/// The event that a reading has, where it has one.
pub open spec fn event_in(reading: ReadingFacts) -> Option<EventFacts> {
    match reading {
        ReadingFacts::Event(event) => Some(event),
        _ => None,
    }
}

/// The event that a text message tells, where it tells one.
pub fn parse_delta_text_message(text: &str, numbers: &Numbers, now_micros: u64) -> (r: Result<
    Option<PriceEvent>,
    FeedError,
>)
    ensures
        match text_message_of(text@, numbers@, now_micros) {
            Err(fault) => r matches Err(e) && e@ == fault,
            Ok(reading) => r matches Ok(event) && event_facts(event)
                == event_in(reading),
        },
{
    match read_delta_text_message(text, numbers, now_micros) {
        Err(e) => Err(e),
        Ok(Reading::Event(event)) => Ok(Some(event)),
        Ok(_) => Ok(None),
    }
}

/// What is told of a message whose price is none.
pub open spec fn told_of(ignored: IgnoredPrice, price: Seq<char>) -> Seq<char> {
    "Delta ignored invalid "@ + ignored.message_type@ + " price: symbol="@ + ignored.symbol@ + (
    match ignored.price {
        Some(_) => " price="@ + price,
        None => ""@,
    }) + " reason="@ + ignored.reason@
}

/// What is told of a message whose price is none, after so many: nothing where those were
/// enough, and with the last, that nothing more is told. `price` is the price as a text.
pub fn ignored_lines(ignored: &IgnoredPrice, price: &str, count: usize) -> (r: Vec<String>)
    ensures
        views(r@) == if count >= MAX_INVALID_DELTA_PRICE_LOGS {
            Seq::empty()
        } else if count + 1 == MAX_INVALID_DELTA_PRICE_LOGS {
            seq![
                told_of(*ignored, price@),
                "Delta invalid price log limit reached; suppressing further invalid price logs"@,
            ]
        } else {
            seq![told_of(*ignored, price@)]
        },
{
    let mut out: Vec<String> = Vec::new();
    if count >= MAX_INVALID_DELTA_PRICE_LOGS {
        assert(views(out@) =~= Seq::empty());
        return out;
    }
    let middle = match &ignored.price {
        Some(_) => " price=".to_owned().concat(price),
        None => "".to_owned(),
    };
    let mut line = "Delta ignored invalid ".to_owned();
    line.append(ignored.message_type);
    line.append(" price: symbol=");
    line.append(ignored.symbol.as_str());
    line.append(middle.as_str());
    line.append(" reason=");
    line.append(ignored.reason);
    out.push(line);
    if count + 1 == MAX_INVALID_DELTA_PRICE_LOGS {
        out.push(
            "Delta invalid price log limit reached; suppressing further invalid price logs".to_owned(),
        );
        assert(views(out@) =~= seq![
            told_of(*ignored, price@),
            "Delta invalid price log limit reached; suppressing further invalid price logs"@,
        ]);
    } else {
        assert(views(out@) =~= seq![told_of(*ignored, price@)]);
    }
    out
}

/// What is asked for is what is named, is no blank and is not asked for yet, and all of it.
pub proof fn asked_are_new(list: Seq<Seq<char>>, known: Set<Seq<char>>, symbol: Seq<char>)
    ensures
        new_ones(list, known).contains(symbol) <==> list.contains(symbol) && trim_of(symbol).len()
            > 0 && !known.contains(symbol),
        known_ones(list, known).contains(symbol) <==> list.contains(symbol) && known.contains(
            symbol,
        ),
    decreases list.len(),
{
    if list.len() > 0 {
        let d = list.drop_last();
        let n = list.len() - 1;
        asked_are_new(d, known, symbol);
        assert(list =~= d.push(list.last()));
        let (a, b) = (new_ones(d, known), new_ones(list, known));
        let (c, e) = (known_ones(d, known), known_ones(list, known));
        assert(list.contains(symbol) <==> d.contains(symbol) || list.last() == symbol) by {
            if d.contains(symbol) {
                let k = choose|k: int| 0 <= k < d.len() && d[k] == symbol;
                assert(list[k] == symbol);
            }
            if list.contains(symbol) {
                let k = choose|k: int| 0 <= k < list.len() && list[k] == symbol;
                if k < n {
                    assert(d[k] == symbol);
                }
            }
            assert(list[n] == list.last());
        }
        pushed_holds(a, list.last(), symbol);
        pushed_holds(c, list.last(), symbol);
    }
}

proof fn pushed_holds(list: Seq<Seq<char>>, last: Seq<char>, symbol: Seq<char>)
    ensures
        list.push(last).contains(symbol) <==> list.contains(symbol) || last == symbol,
{
    let all = list.push(last);
    if list.contains(symbol) {
        let k = choose|k: int| 0 <= k < list.len() && list[k] == symbol;
        assert(all[k] == symbol);
    }
    if all.contains(symbol) {
        let k = choose|k: int| 0 <= k < all.len() && all[k] == symbol;
        if k < list.len() {
            assert(list[k] == symbol);
        }
    }
    assert(all[list.len() as int] == last);
}

/// Candles are refused wherever they stand among the channels: the first of them is named, and
/// none only where there is none.
pub proof fn first_candle_is_found(channels: Seq<FeedChannel>)
    ensures
        match first_candle(channels) {
            Some(channel) => exists|i: int|
                {
                    &&& 0 <= i < channels.len()
                    &&& #[trigger] channels[i] == channel
                    &&& channel is PriceCandle
                    &&& forall|k: int| 0 <= k < i ==> #[trigger] channels[k] is PriceTick
                },
            None => forall|i: int| 0 <= i < channels.len() ==> #[trigger] channels[i] is PriceTick,
        },
    decreases channels.len(),
{
    if channels.len() > 0 && !(channels[0] is PriceCandle) {
        let d = channels.drop_first();
        first_candle_is_found(d);
        match first_candle(channels) {
            Some(channel) => {
                let i = choose|i: int|
                    {
                        &&& 0 <= i < d.len()
                        &&& #[trigger] d[i] == channel
                        &&& channel is PriceCandle
                        &&& forall|k: int| 0 <= k < i ==> #[trigger] d[k] is PriceTick
                    };
                assert(channels[i + 1] == channel);
                assert forall|k: int| 0 <= k < i + 1 implies #[trigger] channels[k] is PriceTick by {
                    if k > 0 {
                        assert(d[k - 1] == channels[k]);
                    }
                }
            },
            None => {
                assert forall|i: int| 0 <= i < channels.len() implies #[trigger] channels[i] is PriceTick by {
                    if i > 0 {
                        assert(d[i - 1] == channels[i]);
                    }
                }
            },
        }
    } else if channels.len() > 0 {
        assert(channels[0] == first_candle(channels)->0);
    }
}

/// A ticker tells a tick: of the symbol that it names, at the price that it closes at, and at
/// its time, of which it gives the microseconds and a tick the milliseconds.
pub proof fn tickers_tell_ticks(
    json: JsonFacts,
    numbers: Map<Seq<char>, Decimal>,
    now: u64,
    symbol: Seq<char>,
    price: Real,
    micros: u64,
)
    requires
        text_in(field_of(json, "type"@)) == Some("v2/ticker"@),
        field_of(json, "success"@) is None,
        text_in(field_of(json, "symbol"@)) == Some(symbol),
        number_option(field_of(json, "close"@), numbers) == Some(price),
        count_in(field_of(json, "timestamp"@)) == Some(micros),
    ensures
        message_of(json, numbers, now) is Ok,
        0 < price.bits < 0x7ff0_0000_0000_0000 ==> ({
            let told = message_of(json, numbers, now)->Ok_0;
            &&& told is Event
            &&& told->Event_0 is Tick
            &&& told->Event_0->Tick_0.instrument_name == symbol
            &&& told->Event_0->Tick_0.price == price
            &&& told->Event_0->Tick_0.time * 1_000 <= micros < told->Event_0->Tick_0.time * 1_000
                + 1_000
        }),
        !(0 < price.bits < 0x7ff0_0000_0000_0000) ==> event_in(
            message_of(json, numbers, now)->Ok_0,
        ) is None,
{
    reveal_with_fuel(first_field, 2);
    assert(symbol_keys()[0] == "symbol"@);
    assert(ticker_price_keys()[0] == "close"@);
    assert(seq!["timestamp"@, "t"@, "ts"@][0] == "timestamp"@);
}

/// A trade tells a tick: of its symbol, at its price and at its time. One without a time is no
/// trade.
pub proof fn trades_tell_ticks(
    json: JsonFacts,
    numbers: Map<Seq<char>, Decimal>,
    now: u64,
    symbol: Seq<char>,
    price: Real,
)
    requires
        text_in(field_of(json, "type"@)) == Some("trades"@),
        field_of(json, "success"@) is None,
        text_in(field_of(json, "sy"@)) == Some(symbol),
        number_option(field_of(json, "p"@), numbers) == Some(price),
        field_of(json, "timestamp"@) is None || field_of(json, "t"@) is Some,
        0 < price.bits < 0x7ff0_0000_0000_0000,
    ensures
        count_in(field_of(json, "t"@)) matches Some(micros) ==> {
            let told = message_of(json, numbers, now)->Ok_0;
            &&& message_of(json, numbers, now) is Ok
            &&& told is Event
            &&& told->Event_0 is Tick
            &&& told->Event_0->Tick_0.instrument_name == symbol
            &&& told->Event_0->Tick_0.price == price
            &&& told->Event_0->Tick_0.time * 1_000 <= micros < told->Event_0->Tick_0.time * 1_000
                + 1_000
        },
        count_in(field_of(json, "t"@)) is None ==> message_of(json, numbers, now) is Err,
{
    types_differ();
    reveal_with_fuel(first_field, 3);
    assert(seq!["sy"@, "symbol"@][0] == "sy"@);
    assert(seq!["p"@, "price"@][0] == "p"@);
    let times = seq!["t"@, "timestamp"@];
    assert(times[0] == "t"@);
    assert(times.drop_first()[0] == "timestamp"@);
    assert(times.drop_first().drop_first().len() == 0);
}

/// A spot price tells a tick: of its symbol, at its price and at its time, or now where it tells
/// none.
pub proof fn spot_prices_tell_ticks(
    json: JsonFacts,
    numbers: Map<Seq<char>, Decimal>,
    now: u64,
    symbol: Seq<char>,
    price: Real,
)
    requires
        text_in(field_of(json, "type"@)) == Some("v2/spot_price"@),
        field_of(json, "success"@) is None,
        text_in(field_of(json, "s"@)) == Some(symbol),
        number_option(field_of(json, "p"@), numbers) == Some(price),
        field_of(json, "t"@) is Some || (field_of(json, "timestamp"@) is None && field_of(
            json,
            "ts"@,
        ) is None),
        0 < price.bits < 0x7ff0_0000_0000_0000,
    ensures
        ({
            let told = message_of(json, numbers, now)->Ok_0;
            let micros = match count_in(field_of(json, "t"@)) {
                Some(m) => m,
                None => now,
            };
            &&& message_of(json, numbers, now) is Ok
            &&& told is Event
            &&& told->Event_0 is Tick
            &&& told->Event_0->Tick_0.instrument_name == symbol
            &&& told->Event_0->Tick_0.price == price
            &&& told->Event_0->Tick_0.time * 1_000 <= micros < told->Event_0->Tick_0.time * 1_000
                + 1_000
        }),
{
    types_differ();
    reveal_with_fuel(first_field, 4);
    assert(seq!["s"@, "sy"@, "symbol"@][0] == "s"@);
    assert(seq!["p"@, "price"@][0] == "p"@);
    let times = seq!["t"@, "timestamp"@, "ts"@];
    assert(times[0] == "t"@);
    assert(times.drop_first()[0] == "timestamp"@);
    assert(times.drop_first().drop_first()[0] == "ts"@);
    assert(times.drop_first().drop_first().drop_first().len() == 0);
}

/// What says that it failed is a fault, whatever else it says, and so is an error. What is of no
/// sort that tells prices tells none.
pub proof fn failures_are_faults(json: JsonFacts, numbers: Map<Seq<char>, Decimal>, now: u64)
    ensures
        field_of(json, "success"@) is Some && field_of(json, "success"@)->0.shape
            == ShapeFacts::Bool(false) ==> message_of(json, numbers, now) is Err,
        text_in(field_of(json, "type"@)) == Some("error"@) ==> message_of(json, numbers, now) is Err,
        text_in(field_of(json, "type"@)) is None && field_of(json, "success"@) is None ==> message_of(
            json,
            numbers,
            now,
        ) == Ok::<ReadingFacts, FeedFault>(ReadingFacts::Nothing),
{
    types_differ();
}

proof fn types_differ()
    ensures
        "trades"@ != "v2/ticker"@,
        "trades"@ != "ticker"@,
        "v2/spot_price"@ != "v2/ticker"@,
        "v2/spot_price"@ != "ticker"@,
        "v2/spot_price"@ != "trades"@,
        "error"@ != "v2/ticker"@,
        "error"@ != "ticker"@,
        "error"@ != "trades"@,
        "error"@ != "v2/spot_price"@,
        "error"@ != "spot_price"@,
{
    reveal_strlit("trades");
    reveal_strlit("v2/ticker");
    reveal_strlit("ticker");
    reveal_strlit("v2/spot_price");
    reveal_strlit("spot_price");
    reveal_strlit("error");
    assert("trades"@[1] != "ticker"@[1]);
    assert("error"@[0] != "ticker"@[0]);
    assert("v2/spot_price"@[3] != "v2/ticker"@[3]);
}

/// The channel that tickers come by is the one that is configured, where it is no blank.
pub proof fn configured_channel_is_taken(configured: Seq<char>)
    ensures
        trim_of(configured).len() > 0 ==> channel_of(Some(configured)) == configured,
        trim_of(configured).len() == 0 ==> channel_of(Some(configured)) == channel_of(None),
        channel_of(None) == "v2/ticker"@,
{
}

} // verus!
