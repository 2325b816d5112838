//! What comes over the socket of DBInternational.
use crate::adapters::dbinternational::auth::{text_field, text_under};
use crate::adapters::dbinternational::live::{
    batch_of, followed, instrument_name, millis_of, name_of, nothing, queue_value_ticks,
    seconds_or_millis_to_millis, tick_outcome, ticks_in, BatchFacts, InstrumentNames, TickBatch,
    TickFault, TickFaultFacts, TOUCHLINE_MESSAGE_CODE,
};
use crate::adapters::dbinternational::master_catalog::DbinternationalInstrumentKey;
use crate::binary64::{Decimal, Numbers, Real};
use crate::bytes::{
    fits, little_at, little_is_to_the_base_of_256, part, read_u16_le, read_u32_le, read_u64_le,
};
use crate::feeder::error::{FeedError, FeedFault};
use crate::feeder::event::{
    is_price, EventFacts, InstrumentName, Price, PriceEvent, PriceTick, TickFacts, UnixMillis,
};
use crate::json::{
    json_views, list_facts, parsed_text, read_json, string_of, unsigned_of, Json, JsonFacts, Shape,
    ShapeFacts,
};
use crate::text::{join, join_of, same, views};
use vstd::prelude::*;

verus! {

/// The place behind some bytes, where they are there; else the place itself.
pub open spec fn step_over(bytes: Seq<u8>, at: int, n: int) -> int {
    if fits(bytes, at, n) {
        at + n
    } else {
        at
    }
}

fn step(bytes: &[u8], at: usize, n: usize) -> (r: usize)
    requires
        at <= bytes@.len(),
    ensures
        r == step_over(bytes@, at as int, n as int),
        r <= bytes@.len(),
{
    if bytes.len() - at >= n {
        at + n
    } else {
        at
    }
}

/// The eight bytes at a place as a number, where they are there.
pub open spec fn eight_at(bytes: Seq<u8>, at: int, otherwise: u64) -> u64 {
    if fits(bytes, at, 8) {
        little_at(bytes, at, 8) as u64
    } else {
        otherwise
    }
}

fn eight(bytes: &[u8], at: usize, otherwise: u64) -> (r: u64)
    ensures
        r == eight_at(bytes@, at as int, otherwise),
{
    match read_u64_le(bytes, at) {
        Some(v) => v,
        None => otherwise,
    }
}

/// Four bytes, read as a number with a sign, as a number of eight bytes without one.
pub open spec fn widened(v: u32) -> u64 {
    if v < 0x8000_0000 {
        v as u64
    } else {
        (v + 0xffff_ffff_0000_0000) as u64
    }
}

/// The time of a tick: that of its last update, or else of the last trade, or else the one
/// of the exchange.
pub open spec fn touch_time(update: u64, trade: u64, exchange: u64) -> u64 {
    millis_of(
        if update > 0 {
            update
        } else if 0 < trade < 0x8000_0000_0000_0000 {
            trade
        } else {
            exchange
        },
    )
}

/// Where the fields of a touchline that depend on its version begin.
pub open spec fn touch_start(payload: Seq<u8>) -> int {
    let a = step_over(payload, step_over(payload, 2, 2), 8);
    if little_at(payload, 0, 2) >= 4 {
        step_over(payload, step_over(payload, a, 8), 4)
    } else {
        a
    }
}

/// The tick that a touchline gives. A field that does not fit into it is passed over.
pub open spec fn touchline_of(
    payload: Seq<u8>,
    names: Map<(u64, u64), InstrumentName>,
) -> Result<Option<EventFacts>, TickFaultFacts> {
    let at = touch_start(payload);
    let exchange = eight_at(payload, at + 6, 0);
    let a = step_over(payload, step_over(payload, step_over(payload, at + 6, 8), 22), 22);
    let update = eight_at(payload, a, exchange);
    let b = step_over(payload, a, 8);
    let trade = eight_at(payload, step_over(payload, b + 8, 24), 0);
    if !fits(payload, 0, 2) || !fits(payload, at, 6) || !fits(payload, b, 8) {
        Ok(None)
    } else {
        let price = Real { bits: little_at(payload, b, 8) as u64 };
        if !is_price(price) {
            Err(TickFaultFacts::Price { binary: true, price })
        } else {
            Ok(
                Some(
                    EventFacts::Tick(
                        TickFacts {
                            instrument_name: name_of(
                                DbinternationalInstrumentKey {
                                    exchange_segment: little_at(payload, at, 2) as u16,
                                    exchange_instrument_id: widened(
                                        little_at(payload, at + 2, 4) as u32,
                                    ),
                                },
                                names,
                            ),
                            price,
                            time: touch_time(update, trade, exchange),
                        },
                    ),
                ),
            )
        }
    }
}

/// The tick that a touchline gives.
pub fn parse_binary_touchline_event(payload: &[u8], names: &InstrumentNames) -> (r: Result<
    Option<PriceEvent>,
    TickFault,
>)
    ensures
        tick_outcome(r) == touchline_of(payload@, names@),
{
    let version: u16 = match read_u16_le(payload, 0) {
        Some(version) => version,
        None => return Ok(None),
    };
    let a: usize = step(payload, 2, 2);
    let b: usize = step(payload, a, 8);
    let at: usize = if version >= 4 {
        let c: usize = step(payload, b, 8);
        step(payload, c, 4)
    } else {
        b
    };
    assert(at == touch_start(payload@));
    let total: usize = payload.len();
    if total - at < 6 {
        return Ok(None);
    }
    let segment: u16 = match read_u16_le(payload, at) {
        Some(segment) => segment,
        None => return Ok(None),
    };
    let id: u32 = match read_u32_le(payload, at + 2) {
        Some(id) => id,
        None => return Ok(None),
    };
    let exchange: u64 = eight(payload, at + 6, 0);
    let c: usize = step(payload, at + 6, 8);
    let d: usize = step(payload, c, 22);
    let e: usize = step(payload, d, 22);
    let update: u64 = eight(payload, e, exchange);
    let f: usize = step(payload, e, 8);
    let bits: u64 = match read_u64_le(payload, f) {
        Some(bits) => bits,
        None => return Ok(None),
    };
    let g: usize = step(payload, f + 8, 24);
    let trade: u64 = eight(payload, g, 0);
    let value: Real = Real { bits };
    let price = match Price::new(value) {
        Ok(price) => price,
        Err(_) => return Err(TickFault::Price { binary: true, price: value }),
    };
    let exchange_instrument_id: u64 = if id < 0x8000_0000 {
        id as u64
    } else {
        id as u64 + 0xffff_ffff_0000_0000
    };
    let key = DbinternationalInstrumentKey { exchange_segment: segment, exchange_instrument_id };
    let time: u64 = if update > 0 {
        update
    } else if 0 < trade && trade < 0x8000_0000_0000_0000 {
        trade
    } else {
        exchange
    };
    Ok(
        Some(
            PriceEvent::Tick(
                PriceTick::new(
                    instrument_name(key, names),
                    price,
                    UnixMillis::new(seconds_or_millis_to_millis(time)),
                ),
            ),
        ),
    )
}

/// What `flate2::read::DeflateDecoder` reads from compressed bytes, or the message of the
/// error that it ends in.
pub uninterp spec fn inflated(bytes: Seq<u8>) -> Result<Seq<u8>, Seq<char>>;

/// Reads a `flate2::read::DeflateDecoder` to its end. What comes out depends on the
/// compressed bytes alone; it is named and not described.
#[verifier::external_body]
fn inflate(bytes: &[u8]) -> (r: Result<Vec<u8>, String>)
    ensures
        match r {
            Ok(out) => inflated(bytes@) == Ok::<Seq<u8>, Seq<char>>(out@),
            Err(e) => inflated(bytes@) == Err::<Seq<u8>, Seq<char>>(e@),
        },
{
    let mut out = Vec::new();
    match std::io::Read::read_to_end(&mut flate2::read::DeflateDecoder::new(bytes), &mut out) {
        Ok(_) => Ok(out),
        Err(e) => Err(e.to_string()),
    }
}

/// The touchline in what a packet was compressed from, which may begin with its code.
pub open spec fn bare_touchline(bytes: Seq<u8>) -> Seq<u8> {
    if fits(bytes, 0, 2) && little_at(bytes, 0, 2) == TOUCHLINE_MESSAGE_CODE {
        bytes.skip(2)
    } else {
        bytes
    }
}

/// The ticks that a packet with a touchline gives. `plain` is what it was compressed from.
pub open spec fn unpacked_ticks(
    plain: Result<Seq<u8>, Seq<char>>,
    names: Map<(u64, u64), InstrumentName>,
) -> BatchFacts {
    match plain {
        Err(e) => BatchFacts {
            events: Seq::empty(),
            fault: Some(TickFaultFacts::Feed(FeedFault::Io(e))),
        },
        Ok(bytes) => batch_of(touchline_of(bare_touchline(bytes), names)),
    }
}

/// The ticks that a packet with a touchline gives. `plain` is what it was compressed from.
pub fn queue_unpacked_ticks(plain: Result<Vec<u8>, String>, names: &InstrumentNames) -> (r:
    TickBatch)
    ensures
        r@ == unpacked_ticks(
            match plain {
                Ok(bytes) => Ok(bytes@),
                Err(e) => Err(e@),
            },
            names@,
        ),
{
    match plain {
        Err(e) => TickBatch::failed(FeedError::Io(e)),
        Ok(bytes) => {
            let code: Option<u16> = read_u16_le(bytes.as_slice(), 0);
            if code.is_some() && code.unwrap() == TOUCHLINE_MESSAGE_CODE {
                let bare = part(bytes.as_slice(), 2, bytes.len());
                assert(bare@ =~= bytes@.skip(2));
                TickBatch::of(parse_binary_touchline_event(bare.as_slice(), names))
            } else {
                TickBatch::of(parse_binary_touchline_event(bytes.as_slice(), names))
            }
        },
    }
}

/// How long the head of a packet is: whether the packet is compressed, its code, four
/// numbers that are not looked at, its length before and its length after compression.
pub const PACKET_HEAD: usize = 17;

/// The length of the packet whose head stands at a place.
pub open spec fn packet_len(bytes: Seq<u8>, at: int) -> nat {
    if bytes[at] == 1 {
        little_at(bytes, at + 15, 2)
    } else {
        little_at(bytes, at + 13, 2)
    }
}

/// The ticks of the packet whose head stands at a place.
pub open spec fn packet_ticks(
    bytes: Seq<u8>,
    at: int,
    names: Map<(u64, u64), InstrumentName>,
) -> BatchFacts {
    let body = bytes.subrange(at + PACKET_HEAD, at + PACKET_HEAD + packet_len(bytes, at));
    if little_at(bytes, at + 1, 2) != TOUCHLINE_MESSAGE_CODE {
        nothing()
    } else if bytes[at] == 1 {
        unpacked_ticks(inflated(body), names)
    } else {
        batch_of(touchline_of(body, names))
    }
}

/// The ticks of the packets from a place on, up to one that is not there as a whole.
pub open spec fn packets_from(
    bytes: Seq<u8>,
    at: int,
    names: Map<(u64, u64), InstrumentName>,
) -> BatchFacts
    decreases bytes.len() - at,
{
    if !fits(bytes, at, PACKET_HEAD as int) || !fits(
        bytes,
        at + PACKET_HEAD,
        packet_len(bytes, at) as int,
    ) {
        nothing()
    } else {
        followed(
            packet_ticks(bytes, at, names),
            packets_from(bytes, at + PACKET_HEAD + packet_len(bytes, at), names),
        )
    }
}

proof fn followed_by_more(a: BatchFacts, b: BatchFacts, c: BatchFacts)
    ensures
        followed(followed(a, b), c) == followed(a, followed(b, c)),
{
    assert((a.events + b.events) + c.events =~= a.events + (b.events + c.events));
}

fn packet(bytes: &[u8], at: usize, len: usize, names: &InstrumentNames) -> (r: TickBatch)
    requires
        fits(bytes@, at as int, PACKET_HEAD as int),
        len == packet_len(bytes@, at as int),
        fits(bytes@, at + PACKET_HEAD, len as int),
    ensures
        r@ == packet_ticks(bytes@, at as int, names@),
{
    let total: usize = bytes.len();
    let code: u16 = match read_u16_le(bytes, at + 1) {
        Some(code) => code,
        None => 0,
    };
    if code != TOUCHLINE_MESSAGE_CODE {
        return TickBatch::new();
    }
    let body = part(bytes, at + PACKET_HEAD, at + PACKET_HEAD + len);
    if bytes[at] == 1 {
        queue_unpacked_ticks(inflate(body.as_slice()), names)
    } else {
        TickBatch::of(parse_binary_touchline_event(body.as_slice(), names))
    }
}

/// The ticks of a sequence of packets.
pub fn queue_binary_packet_ticks(bytes: &[u8], names: &InstrumentNames) -> (r: TickBatch)
    ensures
        r@ == packets_from(bytes@, 0, names@),
{
    let total: usize = bytes.len();
    let mut batch = TickBatch::new();
    let mut at: usize = 0;
    assert(followed(nothing(), packets_from(bytes@, 0, names@)).events =~= packets_from(
        bytes@,
        0,
        names@,
    ).events);
    while at < total
        invariant
            at <= total == bytes@.len(),
            batch@.fault is None,
            packets_from(bytes@, 0, names@) == followed(
                batch@,
                packets_from(bytes@, at as int, names@),
            ),
        decreases total - at,
    {
        if total - at < PACKET_HEAD {
            assert(followed(batch@, nothing()).events =~= batch@.events);
            return batch;
        }
        let place: usize = if bytes[at] == 1 {
            at + 15
        } else {
            at + 13
        };
        let len: usize = match read_u16_le(bytes, place) {
            Some(len) => len as usize,
            None => 0,
        };
        assert(len == packet_len(bytes@, at as int));
        if total - at - PACKET_HEAD < len {
            assert(followed(batch@, nothing()).events =~= batch@.events);
            return batch;
        }
        let more = packet(bytes, at, len, names);
        proof {
            followed_by_more(
                batch@,
                more@,
                packets_from(bytes@, at + PACKET_HEAD + len, names@),
            );
        }
        batch = batch.follow(more);
        if batch.fault.is_some() {
            return batch;
        }
        at = at + PACKET_HEAD + len;
    }
    assert(followed(batch@, nothing()).events =~= batch@.events);
    batch
}

/// The bytes that a list of numbers gives.
pub open spec fn bytes_of(items: Seq<JsonFacts>) -> Option<Seq<u8>>
    decreases items.len(),
{
    if items.len() == 0 {
        Some(Seq::empty())
    } else {
        match bytes_of(items.drop_last()) {
            None => None,
            Some(bytes) => match unsigned_of(items.last()) {
                Some(n) if n <= 255 => Some(bytes.push(n as u8)),
                _ => None,
            },
        }
    }
}

proof fn bytes_stop(items: Seq<JsonFacts>, n: int)
    requires
        0 <= n <= items.len(),
        bytes_of(items.take(n)) is None,
    ensures
        bytes_of(items) is None,
    decreases items.len() - n,
{
    if n < items.len() {
        assert(items.take(n + 1).drop_last() =~= items.take(n));
        bytes_stop(items, n + 1);
    } else {
        assert(items.take(n) =~= items);
    }
}

/// The bytes that a value gives.
pub open spec fn binary_of(json: JsonFacts) -> Option<Seq<u8>> {
    match json.shape {
        ShapeFacts::List(items) => bytes_of(items),
        _ => None,
    }
}

pub fn binary_bytes_from_value(json: &Json) -> (r: Option<Vec<u8>>)
    ensures
        match r {
            Some(bytes) => binary_of(json@) == Some(bytes@),
            None => binary_of(json@) is None,
        },
{
    match &json.shape {
        Shape::List(items) => {
            let ghost all = json_views(items@);
            proof {
                list_facts(*items);
            }
            let mut out: Vec<u8> = Vec::new();
            let mut i: usize = 0;
            assert(all.take(0) =~= Seq::empty());
            while i < items.len()
                invariant
                    i <= items@.len(),
                    all == json_views(items@),
                    json@.shape == ShapeFacts::List(all),
                    bytes_of(all.take(i as int)) == Some(out@),
                decreases items@.len() - i,
            {
                assert(all.take(i + 1).drop_last() =~= all.take(i as int));
                assert(all.take(i + 1).last() == items@[i as int]@);
                match items[i].as_u64() {
                    Some(n) => {
                        if n > 255 {
                            proof {
                                bytes_stop(all, i + 1);
                            }
                            return None;
                        }
                        out.push(n as u8);
                    },
                    None => {
                        proof {
                            bytes_stop(all, i + 1);
                        }
                        return None;
                    },
                }
                i += 1;
            }
            assert(all.take(i as int) =~= all);
            Some(out)
        },
        _ => None,
    }
}

/// The ticks in a value that a message of packets brings.
pub open spec fn binary_ticks(json: JsonFacts, names: Map<(u64, u64), InstrumentName>) -> BatchFacts {
    match binary_of(json) {
        None => nothing(),
        Some(bytes) => packets_from(bytes, 0, names),
    }
}

fn queue_binary_value_ticks(json: &Json, names: &InstrumentNames) -> (r: TickBatch)
    ensures
        r@ == binary_ticks(json@, names@),
{
    match binary_bytes_from_value(json) {
        None => TickBatch::new(),
        Some(bytes) => queue_binary_packet_ticks(bytes.as_slice(), names),
    }
}

/// The name of the event that the values of a message tell of.
pub open spec fn event_name_of(values: Seq<JsonFacts>) -> Seq<char> {
    if values.len() > 0 {
        match string_of(values[0]) {
            Some(name) => name,
            None => ""@,
        }
    } else {
        ""@
    }
}

/// The ticks in one of the values of a message.
pub open spec fn payload_ticks(
    binary: bool,
    json: JsonFacts,
    names: Map<(u64, u64), InstrumentName>,
    numbers: Map<Seq<char>, Decimal>,
    now: u64,
) -> BatchFacts {
    if binary {
        binary_ticks(json, names)
    } else {
        ticks_in(json, names, numbers, now)
    }
}

/// The ticks in some of the values of a message.
pub open spec fn payloads_ticks(
    binary: bool,
    values: Seq<JsonFacts>,
    names: Map<(u64, u64), InstrumentName>,
    numbers: Map<Seq<char>, Decimal>,
    now: u64,
) -> BatchFacts
    decreases values.len(),
{
    if values.len() == 0 {
        nothing()
    } else {
        followed(
            payloads_ticks(binary, values.drop_last(), names, numbers, now),
            payload_ticks(binary, values.last(), names, numbers, now),
        )
    }
}

proof fn payloads_stop(
    binary: bool,
    values: Seq<JsonFacts>,
    names: Map<(u64, u64), InstrumentName>,
    numbers: Map<Seq<char>, Decimal>,
    now: u64,
    n: int,
)
    requires
        0 <= n <= values.len(),
        payloads_ticks(binary, values.take(n), names, numbers, now).fault is Some,
    ensures
        payloads_ticks(binary, values, names, numbers, now) == payloads_ticks(
            binary,
            values.take(n),
            names,
            numbers,
            now,
        ),
    decreases values.len() - n,
{
    if n < values.len() {
        assert(values.take(n + 1).drop_last() =~= values.take(n));
        payloads_stop(binary, values, names, numbers, now, n + 1);
    } else {
        assert(values.take(n) =~= values);
    }
}

/// The values of a message behind the name of its event.
pub open spec fn payloads_of(values: Seq<JsonFacts>) -> Seq<JsonFacts> {
    if values.len() > 0 {
        values.drop_first()
    } else {
        values
    }
}

/// The ticks in a message.
pub open spec fn message_ticks(
    values: Seq<JsonFacts>,
    names: Map<(u64, u64), InstrumentName>,
    numbers: Map<Seq<char>, Decimal>,
    now: u64,
) -> BatchFacts {
    payloads_ticks(
        event_name_of(values) == "xts-binary-packet"@,
        payloads_of(values),
        names,
        numbers,
        now,
    )
}

fn event_name(values: &Vec<Json>) -> (r: String)
    ensures
        r@ == event_name_of(json_views(values@)),
{
    if values.len() > 0 {
        assert(json_views(values@)[0] == values@[0]@);
        match values[0].as_str() {
            Some(name) => name.to_owned(),
            None => "".to_owned(),
        }
    } else {
        "".to_owned()
    }
}

/// The ticks in a message.
pub fn queue_socketio_values(
    values: &Vec<Json>,
    names: &InstrumentNames,
    numbers: &Numbers,
    now_millis: u64,
) -> (r: TickBatch)
    ensures
        r@ == message_ticks(json_views(values@), names@, numbers@, now_millis),
{
    let ghost all = json_views(values@);
    let ghost payloads = payloads_of(all);
    let name = event_name(values);
    let binary = same(name.as_str(), "xts-binary-packet");
    let mut batch = TickBatch::new();
    if values.len() == 0 {
        return batch;
    }
    let mut i: usize = 1;
    assert(payloads.take(0) =~= Seq::empty());
    while i < values.len()
        invariant
            1 <= i <= values@.len(),
            all == json_views(values@),
            payloads == payloads_of(all),
            binary == (event_name_of(all) == "xts-binary-packet"@),
            batch@ == payloads_ticks(
                binary,
                payloads.take(i - 1),
                names@,
                numbers@,
                now_millis,
            ),
            batch@.fault is None,
        decreases values@.len() - i,
    {
        assert(payloads.take(i as int).drop_last() =~= payloads.take(i - 1));
        assert(payloads.take(i as int).last() == values@[i as int]@);
        let more = if binary {
            queue_binary_value_ticks(&values[i], names)
        } else {
            queue_value_ticks(&values[i], names, numbers, now_millis)
        };
        batch = batch.follow(more);
        if batch.fault.is_some() {
            proof {
                payloads_stop(binary, payloads, names@, numbers@, now_millis, i as int);
            }
            return batch;
        }
        i += 1;
    }
    assert(payloads.take(i - 1) =~= payloads);
    batch
}

/// What is printed of a message, where messages are told of.
pub fn socket_event_line(values: &Vec<Json>, log_to_console: bool) -> (r: Option<String>)
    ensures
        ({
            let name = event_name_of(json_views(values@));
            if log_to_console && name.len() > 0 && name != "joined"@ {
                r matches Some(line) && line@ == "DBInternational socket event: "@ + name
            } else {
                r is None
            }
        }),
{
    let name = event_name(values);
    if log_to_console && !name.as_str().is_empty() && !same(name.as_str(), "joined") {
        Some("DBInternational socket event: ".to_owned().concat(name.as_str()))
    } else {
        None
    }
}

/// The texts of some values.
pub open spec fn texts_of(values: Seq<JsonFacts>) -> Seq<Seq<char>> {
    Seq::new(values.len(), |i: int| values[i].text)
}

/// Some values as they are told.
pub fn values_to_log_string(values: &Vec<Json>) -> (r: String)
    ensures
        r@ == join_of(texts_of(json_views(values@)), ", "@),
{
    let ghost texts = texts_of(json_views(values@));
    let mut parts: Vec<String> = Vec::new();
    let mut i: usize = 0;
    while i < values.len()
        invariant
            i <= values@.len(),
            texts == texts_of(json_views(values@)),
            views(parts@) == texts.take(i as int),
        decreases values@.len() - i,
    {
        let ghost before = views(parts@);
        parts.push(values[i].text.clone());
        assert(views(parts@) =~= before.push(texts[i as int]));
        i += 1;
        assert(texts.take(i as int) =~= before.push(texts[i - 1]));
    }
    assert(texts.take(i as int) =~= texts);
    join(&parts, ", ")
}

/// What an error says: its code and its description, or all of it where it has neither.
pub open spec fn error_value_of(json: JsonFacts) -> Seq<char> {
    let description = match text_under(json, "description"@) {
        Some(t) => t,
        None => ""@,
    };
    let code = match text_under(json, "code"@) {
        Some(t) => t,
        None => ""@,
    };
    if code.len() > 0 && description.len() > 0 {
        code + ": "@ + description
    } else if code.len() > 0 {
        code
    } else if description.len() > 0 {
        description
    } else {
        json.text
    }
}

fn socket_error_value_message(json: &Json) -> (r: String)
    ensures
        r@ == error_value_of(json@),
{
    let description = match text_field(json, "description") {
        Some(t) => t.to_owned(),
        None => "".to_owned(),
    };
    let code = match text_field(json, "code") {
        Some(t) => t.to_owned(),
        None => "".to_owned(),
    };
    proof {
        reveal_strlit("");
    }
    if !code.as_str().is_empty() && !description.as_str().is_empty() {
        let mut out = code;
        out.append(": ");
        out.append(description.as_str());
        out
    } else if !code.as_str().is_empty() {
        code
    } else if !description.as_str().is_empty() {
        description
    } else {
        json.text.clone()
    }
}

/// What one value of an error says. A text is read as JSON where it is JSON.
pub open spec fn error_part_of(json: JsonFacts) -> Seq<char> {
    match json.shape {
        ShapeFacts::Text(t) => match parsed_text(t) {
            Ok(inner) => error_value_of(inner),
            Err(_) => t,
        },
        _ => error_value_of(json),
    }
}

/// What an error says.
pub open spec fn error_message_of(values: Seq<JsonFacts>) -> Seq<char> {
    if values.len() == 0 {
        "-"@
    } else {
        join_of(Seq::new(values.len(), |i: int| error_part_of(values[i])), " | "@)
    }
}

/// What an error says.
pub fn socket_error_message(values: &Vec<Json>) -> (r: String)
    ensures
        r@ == error_message_of(json_views(values@)),
{
    let ghost all = json_views(values@);
    let ghost texts = Seq::new(all.len(), |i: int| error_part_of(all[i]));
    let mut parts: Vec<String> = Vec::new();
    let mut i: usize = 0;
    while i < values.len()
        invariant
            i <= values@.len(),
            all == json_views(values@),
            texts == Seq::new(all.len(), |i: int| error_part_of(all[i])),
            views(parts@) == texts.take(i as int),
        decreases values@.len() - i,
    {
        let ghost before = views(parts@);
        assert(all[i as int] == values@[i as int]@);
        let message = match &values[i].shape {
            Shape::Text(t) => match read_json(t.as_str()) {
                Ok(inner) => socket_error_value_message(&inner),
                Err(_) => t.clone(),
            },
            _ => socket_error_value_message(&values[i]),
        };
        parts.push(message);
        assert(views(parts@) =~= before.push(texts[i as int]));
        i += 1;
        assert(texts.take(i as int) =~= before.push(texts[i - 1]));
    }
    assert(texts.take(i as int) =~= texts);
    if values.len() == 0 {
        "-".to_owned()
    } else {
        join(&parts, " | ")
    }
}

/// What is to be done when the socket tells of an event.
#[derive(Debug, PartialEq, Eq)]
pub enum SocketNotice {
    Nothing,
    Print(String),
    Fail(String),
}

/// What is to be done when the socket tells of an event, as contracts speak of it.
pub enum NoticeFacts {
    Nothing,
    Print(Seq<char>),
    Fail(Seq<char>),
}

impl View for SocketNotice {
    type V = NoticeFacts;

    open spec fn view(&self) -> NoticeFacts {
        match self {
            SocketNotice::Nothing => NoticeFacts::Nothing,
            SocketNotice::Print(t) => NoticeFacts::Print(t@),
            SocketNotice::Fail(t) => NoticeFacts::Fail(t@),
        }
    }
}

/// What is to be done when the socket tells of an event. That it is closed or at fault
/// ends the feed; that it is open and joined is told of, where that is wanted.
pub open spec fn notice_of(event: Seq<char>, values: Seq<JsonFacts>, log: bool) -> NoticeFacts {
    if event == "connect"@ {
        if log {
            NoticeFacts::Print("DBInternational Socket.IO connected"@)
        } else {
            NoticeFacts::Nothing
        }
    } else if event == "joined"@ {
        if log {
            NoticeFacts::Print(
                "DBInternational socket joined: "@ + join_of(texts_of(values), ", "@),
            )
        } else {
            NoticeFacts::Nothing
        }
    } else if event == "disconnect"@ {
        NoticeFacts::Fail(
            "DBInternational socket disconnected: "@ + join_of(texts_of(values), ", "@),
        )
    } else if event == "error"@ {
        NoticeFacts::Fail("DBInternational socket error: "@ + join_of(texts_of(values), ", "@))
    } else if event == "socketError"@ {
        NoticeFacts::Fail("DBInternational socket error: "@ + error_message_of(values))
    } else {
        NoticeFacts::Nothing
    }
}

pub fn socket_notice(event: &str, values: &Vec<Json>, log_to_console: bool) -> (r: SocketNotice)
    ensures
        r@ == notice_of(event@, json_views(values@), log_to_console),
{
    if same(event, "connect") {
        if log_to_console {
            SocketNotice::Print("DBInternational Socket.IO connected".to_owned())
        } else {
            SocketNotice::Nothing
        }
    } else if same(event, "joined") {
        if log_to_console {
            SocketNotice::Print(
                "DBInternational socket joined: ".to_owned().concat(
                    values_to_log_string(values).as_str(),
                ),
            )
        } else {
            SocketNotice::Nothing
        }
    } else if same(event, "disconnect") {
        SocketNotice::Fail(
            "DBInternational socket disconnected: ".to_owned().concat(
                values_to_log_string(values).as_str(),
            ),
        )
    } else if same(event, "error") {
        SocketNotice::Fail(
            "DBInternational socket error: ".to_owned().concat(
                values_to_log_string(values).as_str(),
            ),
        )
    } else if same(event, "socketError") {
        SocketNotice::Fail(
            "DBInternational socket error: ".to_owned().concat(
                socket_error_message(values).as_str(),
            ),
        )
    } else {
        SocketNotice::Nothing
    }
}

/// How far a socket came in being opened, with the error that it stopped at.
#[derive(Debug)]
pub enum SocketStart {
    Open,
    NoRuntime(String),
    NoManager(String),
    NoSocket(String),
    NoHandshake(String),
    NoAnswer(String),
}

/// What is wrong with a socket that did not open.
pub open spec fn start_fault(start: SocketStart) -> Option<FeedFault> {
    match start {
        SocketStart::Open => None,
        SocketStart::NoRuntime(e) => Some(
            FeedFault::Disconnected("DBInternational Socket.IO runtime failed: "@ + e@),
        ),
        SocketStart::NoManager(e) => Some(
            FeedFault::Disconnected("DBInternational Socket.IO manager failed: "@ + e@),
        ),
        SocketStart::NoSocket(e) => Some(
            FeedFault::Disconnected("DBInternational Socket.IO socket setup failed: "@ + e@),
        ),
        SocketStart::NoHandshake(e) => Some(
            FeedFault::Disconnected("DBInternational Socket.IO handshake failed: "@ + e@),
        ),
        SocketStart::NoAnswer(e) => Some(
            FeedFault::Disconnected("DBInternational Socket.IO startup timed out: "@ + e@),
        ),
    }
}

/// What is wrong with a socket that did not open.
pub fn socket_start_error(start: &SocketStart) -> (r: Option<FeedError>)
    ensures
        match r {
            Some(e) => start_fault(*start) == Some(e@),
            None => start_fault(*start) is None,
        },
{
    let (prefix, error) = match start {
        SocketStart::Open => return None,
        SocketStart::NoRuntime(e) => ("DBInternational Socket.IO runtime failed: ", e),
        SocketStart::NoManager(e) => ("DBInternational Socket.IO manager failed: ", e),
        SocketStart::NoSocket(e) => ("DBInternational Socket.IO socket setup failed: ", e),
        SocketStart::NoHandshake(e) => ("DBInternational Socket.IO handshake failed: ", e),
        SocketStart::NoAnswer(e) => ("DBInternational Socket.IO startup timed out: ", e),
    };
    Some(FeedError::Disconnected(prefix.to_owned().concat(error.as_str())))
}

/// What comes from the thread of the socket.
#[derive(Debug)]
pub enum DbinternationalLiveMessage {
    Event(PriceEvent),
    Error(String),
    /// The thread has ended.
    Closed(String),
}

/// The next event, or why there is none.
pub fn next_price_event(message: DbinternationalLiveMessage) -> (r: Result<
    Option<PriceEvent>,
    FeedError,
>)
    ensures
        match message {
            DbinternationalLiveMessage::Event(event) => r == Ok::<Option<PriceEvent>, FeedError>(
                Some(event),
            ),
            DbinternationalLiveMessage::Error(error) => r matches Err(e) && e@
                == FeedFault::Disconnected(error@),
            DbinternationalLiveMessage::Closed(error) => r matches Err(e) && e@
                == FeedFault::Disconnected("DBInternational event channel closed: "@ + error@),
        },
{
    match message {
        DbinternationalLiveMessage::Event(event) => Ok(Some(event)),
        DbinternationalLiveMessage::Error(error) => Err(FeedError::Disconnected(error)),
        DbinternationalLiveMessage::Closed(error) => Err(
            FeedError::Disconnected(
                "DBInternational event channel closed: ".to_owned().concat(error.as_str()),
            ),
        ),
    }
}

/// A whole touchline is read as what its bytes say: the segment and the number of the instrument,
/// the price that was traded last, and the time, which is that of the update where it has one,
/// else that of the trade, else that of the exchange. From its fourth version on a touchline has
/// twelve bytes more before these.
pub proof fn touchlines_are_read_byte_by_byte(
    payload: Seq<u8>,
    names: Map<(u64, u64), InstrumentName>,
)
    requires
        payload.len() >= 130,
    ensures
        ({
            let at = if payload[0] + 256 * payload[1] >= 4 {
                24int
            } else {
                12
            };
            let number = |k: int|
                payload[k] + 256 * payload[k + 1] + 65_536 * payload[k + 2] + 16_777_216 * payload[k
                    + 3];
            let long = |k: int| number(k) + 4_294_967_296 * number(k + 4);
            let segment = payload[at] + 256 * payload[at + 1];
            let id = number(at + 2) + if payload[at + 5] >= 128 {
                0xffff_ffff_0000_0000int
            } else {
                0
            };
            let price = long(at + 66);
            let time = if long(at + 58) > 0 {
                long(at + 58)
            } else if 0 < long(at + 98) && payload[at + 105] < 128 {
                long(at + 98)
            } else {
                long(at + 6)
            };
            &&& !(0 < price < 0x7ff0_0000_0000_0000) ==> touchline_of(payload, names) is Err
            &&& 0 < price < 0x7ff0_0000_0000_0000 ==> {
                let told = touchline_of(payload, names)->Ok_0;
                &&& touchline_of(payload, names) is Ok
                &&& told is Some
                &&& told->0 is Tick
                &&& told->0->Tick_0.price.bits == price
                &&& told->0->Tick_0.time == if time < 100_000_000_000 {
                    time * 1_000
                } else {
                    time
                }
                &&& forall|k: (u64, u64)|
                    k.0 == segment && k.1 == id && #[trigger] names.contains_key(k)
                        ==> told->0->Tick_0.instrument_name == names[k]@
            }
        }),
{
    little_is_to_the_base_of_256(payload.subrange(0, 2));
    let at = if payload[0] + 256 * payload[1] >= 4 {
        24int
    } else {
        12
    };
    assert(touch_start(payload) == at);
    little_is_to_the_base_of_256(payload.subrange(at, at + 2));
    little_is_to_the_base_of_256(payload.subrange(at + 2, at + 6));
    little_is_to_the_base_of_256(payload.subrange(at + 6, at + 14));
    little_is_to_the_base_of_256(payload.subrange(at + 58, at + 66));
    little_is_to_the_base_of_256(payload.subrange(at + 66, at + 74));
    little_is_to_the_base_of_256(payload.subrange(at + 98, at + 106));
}

/// Packets are read one behind another: where bytes begin with a whole packet, its ticks come
/// first, and then those of the bytes behind it.
pub proof fn packets_follow_one_another(
    packet: Seq<u8>,
    rest: Seq<u8>,
    names: Map<(u64, u64), InstrumentName>,
)
    requires
        packet.len() >= 17,
        packet.len() == 17 + if packet[0] == 1 {
            packet[15] + 256 * packet[16]
        } else {
            packet[13] + 256 * packet[14]
        },
    ensures
        ({
            let first = packets_from(packet, 0, names);
            let both = packets_from(packet + rest, 0, names);
            &&& first.fault is None ==> both.events == first.events + packets_from(
                rest,
                0,
                names,
            ).events
            &&& first.fault is Some ==> both.events == first.events && both.fault == first.fault
            &&& packet[0] != 1 && packet[1] + 256 * packet[2] == 1_501 ==> first.events == batch_of(
                touchline_of(packet.skip(17), names),
            ).events
            &&& packet[1] + 256 * packet[2] != 1_501 ==> first.events.len() == 0
        }),
{
    let all = packet + rest;
    little_is_to_the_base_of_256(packet.subrange(1, 3));
    little_is_to_the_base_of_256(packet.subrange(13, 15));
    little_is_to_the_base_of_256(packet.subrange(15, 17));
    assert(all.subrange(1, 3) =~= packet.subrange(1, 3));
    assert(all.subrange(13, 15) =~= packet.subrange(13, 15));
    assert(all.subrange(15, 17) =~= packet.subrange(15, 17));
    let n = packet.len() as int;
    assert(all.subrange(17, n) =~= packet.subrange(17, n));
    assert(packet.subrange(17, n) =~= packet.skip(17));
    reveal_with_fuel(packets_from, 2);
    packets_stand_anywhere(packet, rest, 0, names);
    let one = packet_ticks(packet, 0, names);
    assert(one.events + Seq::<EventFacts>::empty() =~= one.events);
}

proof fn packets_stand_anywhere(
    packet: Seq<u8>,
    rest: Seq<u8>,
    at: int,
    names: Map<(u64, u64), InstrumentName>,
)
    requires
        0 <= at,
    ensures
        packets_from(packet + rest, packet.len() + at, names) == packets_from(rest, at, names),
    decreases rest.len() - at,
{
    let all = packet + rest;
    let n = packet.len() as int;
    if fits(rest, at, 17) {
        assert(all.subrange(n + at + 1, n + at + 3) =~= rest.subrange(at + 1, at + 3));
        assert(all.subrange(n + at + 13, n + at + 15) =~= rest.subrange(at + 13, at + 15));
        assert(all.subrange(n + at + 15, n + at + 17) =~= rest.subrange(at + 15, at + 17));
        assert(all[n + at] == rest[at]);
        let len = packet_len(rest, at) as int;
        if fits(rest, at + 17, len) {
            assert(all.subrange(n + at + 17, n + at + 17 + len) =~= rest.subrange(
                at + 17,
                at + 17 + len,
            ));
            packets_stand_anywhere(packet, rest, at + 17 + len, names);
        }
    }
}

/// A list of numbers stands for bytes where each of them is one, and then for those.
pub proof fn bytes_are_the_numbers(items: Seq<JsonFacts>)
    ensures
        match bytes_of(items) {
            Some(bytes) => bytes.len() == items.len() && forall|i: int|
                0 <= i < items.len() ==> unsigned_of(#[trigger] items[i]) == Some(bytes[i] as u64),
            None => exists|i: int|
                0 <= i < items.len() && {
                    ||| unsigned_of(#[trigger] items[i]) is None
                    ||| unsigned_of(items[i])->0 > 255
                },
        },
    decreases items.len(),
{
    if items.len() > 0 {
        let d = items.drop_last();
        let n = items.len() - 1;
        bytes_are_the_numbers(d);
        assert(items[n] == items.last());
        assert forall|i: int|
            #![trigger d[i]]
            #![trigger items[i]]
            0 <= i < n implies d[i] == items[i] by {}
        if bytes_of(d) is None {
            let i = choose|i: int|
                0 <= i < d.len() && {
                    ||| unsigned_of(#[trigger] d[i]) is None
                    ||| unsigned_of(d[i])->0 > 255
                };
            assert(items[i] == d[i]);
        }
    }
}

/// A socket that is closed or that fails ends the feed, whether or not anything is logged; one
/// that opens does not.
pub proof fn closed_sockets_end_the_feed(values: Seq<JsonFacts>, log: bool)
    ensures
        notice_of("disconnect"@, values, log) is Fail,
        notice_of("error"@, values, log) is Fail,
        notice_of("socketError"@, values, log) is Fail,
        !(notice_of("connect"@, values, log) is Fail),
        !(notice_of("joined"@, values, log) is Fail),
        !log ==> notice_of("connect"@, values, log) is Nothing,
        log ==> notice_of("connect"@, values, log) is Print,
{
    reveal_strlit("disconnect");
    reveal_strlit("error");
    reveal_strlit("socketError");
    reveal_strlit("connect");
    reveal_strlit("joined");
    assert("disconnect"@[0] != "connect"@[0]);
    assert("error"@[0] != "connect"@[0]);
    assert("socketError"@[0] != "connect"@[0]);
    assert("joined"@[0] != "connect"@[0]);
}

} // verus!
