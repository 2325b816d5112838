//! The live market data of FYERS: the messages that ask for it, and what its frames tell.
use crate::adapters::fyers::token::{jwt_access_token_only, jwt_of};
use crate::binary64::{text_facts, Real};
use crate::bytes::{
    big_at, fits, little_at, little_is_to_the_base_of_256, part, read_u16_be, read_u16_le,
    read_u32_be,
};
use crate::encodings::{decode_url, url_decoded};
use crate::feeder::catalog::{instrument_views, InstrumentDefinition, InstrumentFacts};
use crate::feeder::error::{outcome, FeedError, FeedFault};
use crate::feeder::event::{
    event_facts, is_price, price_fault, EventFacts, InstrumentName, Price, PriceEvent, PriceTick,
    TickFacts, UnixMillis,
};
use crate::json::{
    field_of, parsed_bytes, read_json_bytes, string_of, unsigned_of, Json, JsonFacts,
};
use crate::order::{ascending_of, sorted_keys, texts_in, TextMap, TextSet};
use crate::pairs::PairMap;
use crate::text::{
    byte_len, decimal, decimal_of, lossy, lossy_of, plain_text_is_cut_anywhere, read_utf8, same,
    slice, slice_of, split,
    split_of, split_of_nonempty, starts, starts_with, strip_end, strip_end_of, strip_start, strip_start_of,
    texts_between, trim, trim_of, upper, upper_of, utf8_fault, views,
};
use vstd::prelude::*;
use vstd::utf8::{decode_utf8, encode_utf8, valid_utf8};

verus! {

/// What the service is told to be asked by.
pub const FYERS_SOURCE: &'static str = "dhancred-rust-0.1";

/// The channel that is asked for.
pub const FYERS_DEFAULT_CHANNEL: u8 = 11;

/// What stands for a field that is not told.
pub const FYERS_SENTINEL_I32: i32 = -0x8000_0000;

/// How many symbols are asked for at once.
pub const FYERS_CHUNK: usize = 1_500;

/// How many prices that are none are told of.
pub const MAX_INVALID_FYERS_PRICE_LOGS: usize = 20;

/// The two lowest bytes of a number, the higher first.
pub open spec fn two_bytes(n: nat) -> Seq<u8> {
    seq![(n / 256 % 256) as u8, (n % 256) as u8]
}

proof fn low_bytes(n: nat)
    ensures
        two_bytes(n) == two_bytes(n % 65_536),
{
    let q = n / 65_536;
    let r = n % 65_536;
    assert(n == 65_536 * q + r);
    assert(n / 256 == 256 * q + r / 256);
    assert(n % 256 == r % 256);
    assert((256 * q + r / 256) % 256 == (r / 256) % 256);
    assert(two_bytes(n) =~= two_bytes(r));
}

/// The lowest bytes of a sum are those of the sum of the lowest bytes.
proof fn low_bytes_of_sum(base: nat, a: nat, b: nat, c: nat)
    ensures
        two_bytes(base + a % 65_536 + b % 65_536 + c % 65_536) == two_bytes(base + a + b + c),
{
    let x = base + a % 65_536 + b % 65_536 + c % 65_536;
    let y = base + a + b + c;
    let k = a / 65_536 + b / 65_536 + c / 65_536;
    assert(y == x + 65_536 * k);
    assert(y % 65_536 == x % 65_536);
    low_bytes(x);
    low_bytes(y);
}

fn push_two_bytes(data: &mut Vec<u8>, n: usize)
    ensures
        final(data)@ == old(data)@ + two_bytes(n as nat),
{
    let ghost before = data@;
    data.push((n / 256 % 256) as u8);
    data.push((n % 256) as u8);
    assert(data@ =~= before + two_bytes(n as nat));
}

fn push_all(data: &mut Vec<u8>, bytes: &[u8])
    ensures
        final(data)@ == old(data)@ + bytes@,
{
    let ghost before = data@;
    let mut i: usize = 0;
    assert(data@ =~= before + bytes@.take(0));
    while i < bytes.len()
        invariant
            i <= bytes@.len(),
            data@ == before + bytes@.take(i as int),
        decreases bytes@.len() - i,
    {
        data.push(bytes[i]);
        i += 1;
        assert(data@ =~= before + bytes@.take(i as int));
    }
    assert(bytes@.take(i as int) =~= bytes@);
}

/// A field of a message: its number, how many bytes it has, and the bytes.
pub open spec fn message_field(id: u8, value: Seq<u8>) -> Seq<u8> {
    seq![id] + two_bytes(value.len()) + value
}

fn append_bytes_field(data: &mut Vec<u8>, id: u8, value: &[u8])
    ensures
        final(data)@ == old(data)@ + message_field(id, value@),
{
    let ghost before = data@;
    data.push(id);
    push_two_bytes(data, value.len());
    push_all(data, value);
    assert(data@ =~= before + message_field(id, value@));
}

/// The message that tells who asks.
pub open spec fn access_message_of(hsm_key: Seq<char>) -> Seq<u8> {
    let key = encode_utf8(hsm_key);
    let source = encode_utf8(FYERS_SOURCE@);
    two_bytes(16 + key.len() + source.len()) + seq![1u8, 4u8] + message_field(1, key)
        + message_field(2, seq![80u8]) + message_field(3, seq![1u8]) + message_field(4, source)
}

/// The message that tells who asks.
pub fn access_token_msg(hsm_key: &str) -> (r: Vec<u8>)
    ensures
        r@ == access_message_of(hsm_key@),
{
    let mut data: Vec<u8> = Vec::new();
    let key = hsm_key.as_bytes();
    let source = FYERS_SOURCE.as_bytes();
    let n: usize = 16 + key.len() % 65_536 + source.len() % 65_536;
    push_two_bytes(&mut data, n);
    proof {
        low_bytes_of_sum(16, key@.len(), source@.len(), 0);
    }
    assert(two_bytes(n as nat) == two_bytes(16 + key@.len() + source@.len()));
    data.push(1);
    data.push(4);
    assert(data@ =~= two_bytes(n as nat) + seq![1u8, 4u8]);
    append_bytes_field(&mut data, 1, key);
    let person: [u8; 1] = [80];
    assert(person@ =~= seq![80u8]);
    append_bytes_field(&mut data, 2, person.as_slice());
    let one: [u8; 1] = [1];
    assert(one@ =~= seq![1u8]);
    append_bytes_field(&mut data, 3, one.as_slice());
    append_bytes_field(&mut data, 4, source);
    data
}

/// The length that the message which tells who asks begins with is that of what follows it.
pub proof fn access_message_tells_length(hsm_key: Seq<char>)
    requires
        access_message_of(hsm_key).len() < 65_538,
    ensures
        256 * access_message_of(hsm_key)[0] + access_message_of(hsm_key)[1] == access_message_of(
            hsm_key,
        ).len() - 2,
{
}

/// The message that asks for short ticks.
pub open spec fn lite_message_of() -> Seq<u8> {
    seq![0u8, 0u8, 12u8, 2u8] + message_field(1, seq![0u8, 0u8, 0u8, 0u8, 0u8, 0u8, 8u8, 0u8])
        + message_field(2, seq![76u8])
}

/// The message that asks for short ticks.
pub fn lite_mode_msg() -> (r: Vec<u8>)
    ensures
        r@ == lite_message_of(),
{
    let mut data: Vec<u8> = vec![0, 0, 12, 2];
    assert(data@ =~= seq![0u8, 0u8, 12u8, 2u8]);
    let channels: [u8; 8] = [0, 0, 0, 0, 0, 0, 8, 0];
    assert(channels@ =~= seq![0u8, 0u8, 0u8, 0u8, 0u8, 0u8, 8u8, 0u8]);
    append_bytes_field(&mut data, 1, channels.as_slice());
    let mode: [u8; 1] = [76];
    assert(mode@ =~= seq![76u8]);
    append_bytes_field(&mut data, 2, mode.as_slice());
    data
}

/// Symbols behind one another, each behind the number of its bytes.
pub open spec fn listed_symbols(symbols: Seq<Seq<char>>) -> Seq<u8>
    decreases symbols.len(),
{
    if symbols.len() == 0 {
        Seq::empty()
    } else {
        let last = encode_utf8(symbols.last());
        listed_symbols(symbols.drop_last()) + seq![(last.len() % 256) as u8] + last
    }
}

/// Symbols, behind how many they are.
pub open spec fn scrips_of(symbols: Seq<Seq<char>>) -> Seq<u8> {
    two_bytes(symbols.len()) + listed_symbols(symbols)
}

fn scrips_data(symbols: &Vec<String>) -> (r: Vec<u8>)
    ensures
        r@ == scrips_of(views(symbols@)),
{
    let ghost all = views(symbols@);
    let mut data: Vec<u8> = Vec::new();
    push_two_bytes(&mut data, symbols.len());
    let ghost head = data@;
    let mut i: usize = 0;
    assert(all.take(0) =~= Seq::empty());
    assert(head =~= two_bytes(all.len()));
    assert(data@ =~= head + listed_symbols(all.take(0)));
    while i < symbols.len()
        invariant
            i <= symbols@.len(),
            all == views(symbols@),
            data@ == head + listed_symbols(all.take(i as int)),
        decreases symbols@.len() - i,
    {
        assert(all.take(i + 1).drop_last() =~= all.take(i as int));
        assert(all.take(i + 1).last() == symbols@[i as int]@);
        let bytes = symbols[i].as_str().as_bytes();
        data.push((bytes.len() % 256) as u8);
        push_all(&mut data, bytes);
        i += 1;
        assert(data@ =~= head + listed_symbols(all.take(i as int)));
    }
    assert(all.take(i as int) =~= all);
    data
}

/// The message that asks for symbols, or no longer.
pub open spec fn symbols_message_of(request: u8, symbols: Seq<Seq<char>>, token: Seq<char>) -> Seq<
    u8,
> {
    let scrips = scrips_of(symbols);
    two_bytes(18 + scrips.len() + encode_utf8(token).len() + encode_utf8(FYERS_SOURCE@).len())
        + seq![request, 2u8] + message_field(1, scrips) + message_field(
        2,
        seq![FYERS_DEFAULT_CHANNEL],
    )
}

/// The message that asks for symbols, by request 4, or no longer, by request 5.
pub fn hsm_symbols_msg(request_type: u8, symbols: &Vec<String>, access_token: &str) -> (r: Vec<u8>)
    ensures
        r@ == symbols_message_of(request_type, views(symbols@), access_token@),
{
    let scrips = scrips_data(symbols);
    let source = FYERS_SOURCE.as_bytes();
    let token: usize = byte_len(access_token);
    let n: usize = 18 + scrips.len() % 65_536 + token % 65_536 + source.len() % 65_536;
    let mut data: Vec<u8> = Vec::new();
    push_two_bytes(&mut data, n);
    proof {
        low_bytes_of_sum(18, scrips@.len(), token as nat, source@.len());
    }
    assert(two_bytes(n as nat) == two_bytes(18 + scrips@.len() + token as nat + source@.len()));
    data.push(request_type);
    data.push(2);
    assert(data@ =~= two_bytes(n as nat) + seq![request_type, 2u8]);
    append_bytes_field(&mut data, 1, scrips.as_slice());
    let channel: [u8; 1] = [FYERS_DEFAULT_CHANNEL];
    assert(channel@ =~= seq![FYERS_DEFAULT_CHANNEL]);
    append_bytes_field(&mut data, 2, channel.as_slice());
    data
}

/// The messages that ask for symbols, no more at once than agreed.
pub open spec fn messages_of(request: u8, symbols: Seq<Seq<char>>, token: Seq<char>) -> Seq<Seq<u8>>
    decreases symbols.len(),
{
    if symbols.len() == 0 {
        Seq::empty()
    } else {
        let n = if symbols.len() < FYERS_CHUNK {
            symbols.len() as int
        } else {
            FYERS_CHUNK as int
        };
        seq![symbols_message_of(request, symbols.take(n), token)] + messages_of(
            request,
            symbols.skip(n),
            token,
        )
    }
}

pub open spec fn message_views(v: Seq<Vec<u8>>) -> Seq<Seq<u8>> {
    Seq::new(v.len(), |i: int| v[i]@)
}

fn chunked_messages(request_type: u8, symbols: &Vec<String>, access_token: &str) -> (r: Vec<Vec<u8>>)
    ensures
        message_views(r@) == messages_of(request_type, views(symbols@), access_token@),
{
    let ghost all = views(symbols@);
    let ghost whole = messages_of(request_type, all, access_token@);
    let n: usize = symbols.len();
    let mut out: Vec<Vec<u8>> = Vec::new();
    let mut from: usize = 0;
    assert(all.skip(0) =~= all);
    assert(message_views(out@) + whole =~= whole);
    while from < n
        invariant
            from <= n == symbols@.len(),
            all == views(symbols@),
            whole == messages_of(request_type, all, access_token@),
            message_views(out@) + messages_of(
                request_type,
                all.skip(from as int),
                access_token@,
            ) == whole,
        decreases n - from,
    {
        let to: usize = if n - from < FYERS_CHUNK {
            n
        } else {
            from + FYERS_CHUNK
        };
        let ghost before = message_views(out@);
        let ghost rest = all.skip(from as int);
        let chunk = texts_between(symbols, from, to);
        let one = hsm_symbols_msg(request_type, &chunk, access_token);
        out.push(one);
        assert(message_views(out@) =~= before.push(one@));
        assert(rest.take(to - from) =~= all.subrange(from as int, to as int));
        assert(rest.skip(to - from) =~= all.skip(to as int));
        let ghost later = messages_of(request_type, all.skip(to as int), access_token@);
        assert(before + (seq![one@] + later) =~= before.push(one@) + later);
        from = to;
    }
    assert(all.skip(from as int) =~= Seq::empty());
    assert(message_views(out@) + Seq::<Seq<u8>>::empty() =~= message_views(out@));
    out
}

/// The name of a segment on the wire.
pub open spec fn segment_of(code: Seq<char>) -> Option<Seq<char>> {
    if code == "1010"@ {
        Some("nse_cm"@)
    } else if code == "1011"@ {
        Some("nse_fo"@)
    } else if code == "1120"@ {
        Some("mcx_fo"@)
    } else if code == "1210"@ {
        Some("bse_cm"@)
    } else if code == "1012"@ {
        Some("cde_fo"@)
    } else if code == "1211"@ {
        Some("bse_fo"@)
    } else if code == "1212"@ {
        Some("bcs_fo"@)
    } else if code == "1020"@ {
        Some("nse_com"@)
    } else {
        None
    }
}

fn hsm_segment(code: &str) -> (r: Option<String>)
    ensures
        text_facts(r) == segment_of(code@),
{
    if same(code, "1010") {
        Some("nse_cm".to_owned())
    } else if same(code, "1011") {
        Some("nse_fo".to_owned())
    } else if same(code, "1120") {
        Some("mcx_fo".to_owned())
    } else if same(code, "1210") {
        Some("bse_cm".to_owned())
    } else if same(code, "1012") {
        Some("cde_fo".to_owned())
    } else if same(code, "1211") {
        Some("bse_fo".to_owned())
    } else if same(code, "1212") {
        Some("bcs_fo".to_owned())
    } else if same(code, "1020") {
        Some("nse_com".to_owned())
    } else {
        None
    }
}

/// The name of an index on the wire, where it is not that of its symbol.
pub open spec fn index_name_of(symbol: Seq<char>) -> Option<Seq<char>> {
    if symbol == "NSE:NIFTY50-INDEX"@ {
        Some("Nifty 50"@)
    } else if symbol == "NSE:NIFTYBANK-INDEX"@ {
        Some("Nifty Bank"@)
    } else if symbol == "BSE:SENSEX-INDEX"@ {
        Some("SENSEX"@)
    } else if symbol == "NSE:FINNIFTY-INDEX"@ {
        Some("Nifty Fin Service"@)
    } else if symbol == "NSE:MIDCPNIFTY-INDEX"@ || symbol == "NSE:NIFTYMIDSELECT-INDEX"@ {
        Some("NIFTY MID SELECT"@)
    } else {
        None
    }
}

fn fyers_index_name(symbol: &str) -> (r: Option<String>)
    ensures
        text_facts(r) == index_name_of(symbol@),
{
    if same(symbol, "NSE:NIFTY50-INDEX") {
        Some("Nifty 50".to_owned())
    } else if same(symbol, "NSE:NIFTYBANK-INDEX") {
        Some("Nifty Bank".to_owned())
    } else if same(symbol, "BSE:SENSEX-INDEX") {
        Some("SENSEX".to_owned())
    } else if same(symbol, "NSE:FINNIFTY-INDEX") {
        Some("Nifty Fin Service".to_owned())
    } else if same(symbol, "NSE:MIDCPNIFTY-INDEX") || same(symbol, "NSE:NIFTYMIDSELECT-INDEX") {
        Some("NIFTY MID SELECT".to_owned())
    } else {
        None
    }
}

/// The name in a symbol: what stands behind the first colon, up to a dash.
pub open spec fn name_in(symbol: Seq<char>) -> Option<Seq<char>> {
    let parts = split_of(symbol, ':');
    if parts.len() < 2 {
        None
    } else {
        Some(split_of(parts[1], '-')[0])
    }
}

fn name_of_symbol(symbol: &str) -> (r: Option<String>)
    ensures
        text_facts(r) == name_in(symbol@),
{
    let parts = split(symbol, ':');
    if parts.len() < 2 {
        return None;
    }
    assert(views(parts@)[1] == parts@[1]@);
    let names = split(parts[1].as_str(), '-');
    proof {
        split_of_nonempty(parts@[1]@, '-');
    }
    assert(views(names@)[0] == names@[0]@);
    Some(names[0].clone())
}

/// What an instrument is asked for by.
pub open spec fn hsm_symbol_of(symbol: Seq<char>, token: Seq<char>) -> Option<Seq<char>> {
    let upper_symbol = upper_of(symbol);
    let parts = split_of(upper_symbol, '-');
    match slice_of(token, 0, 4) {
        None => None,
        Some(code) => match segment_of(code) {
            None => None,
            Some(segment) => if parts.len() > 1 && parts.last() == "INDEX"@ {
                let name = match index_name_of(upper_symbol) {
                    Some(name) => Some(name),
                    None => name_in(upper_symbol),
                };
                match name {
                    Some(name) => Some("if|"@ + segment + "|"@ + name),
                    None => None,
                }
            } else if encode_utf8(token).len() < 10 {
                None
            } else {
                match slice_of(token, 10, encode_utf8(token).len()) {
                    Some(rest) => Some("sf|"@ + segment + "|"@ + rest),
                    None => None,
                }
            },
        },
    }
}

/// What an instrument is asked for by.
pub fn hsm_symbol_for_symbol_update(symbol: &str, fy_token: &str) -> (r: Option<String>)
    ensures
        text_facts(r) == hsm_symbol_of(symbol@, fy_token@),
{
    let code = match slice(fy_token, 0, 4) {
        Some(code) => code,
        None => return None,
    };
    let segment = match hsm_segment(code.as_str()) {
        Some(segment) => segment,
        None => return None,
    };
    let upper_symbol = upper(symbol);
    let parts = split(upper_symbol.as_str(), '-');
    let ghost all = views(parts@);
    let count: usize = parts.len();
    assert(count > 0 ==> all.last() == parts@[count - 1]@);
    if count > 1 && same(parts[count - 1].as_str(), "INDEX") {
        let name = match fyers_index_name(upper_symbol.as_str()) {
            Some(name) => Some(name),
            None => name_of_symbol(upper_symbol.as_str()),
        };
        match name {
            Some(name) => {
                let mut out = "if|".to_owned();
                out.append(segment.as_str());
                out.append("|");
                out.append(name.as_str());
                Some(out)
            },
            None => None,
        }
    } else {
        let n: usize = byte_len(fy_token);
        if n < 10 {
            return None;
        }
        match slice(fy_token, 10, n) {
            Some(rest) => {
                let mut out = "sf|".to_owned();
                out.append(segment.as_str());
                out.append("|");
                out.append(rest.as_str());
                Some(out)
            },
            None => None,
        }
    }
}

/// The key that a token carries for the socket, where it is not expired.
pub open spec fn hsm_key_in(payload: JsonFacts, now: u64) -> Result<Seq<char>, FeedFault> {
    let expires = match field_of(payload, "exp"@) {
        Some(value) => match unsigned_of(value) {
            Some(n) => n,
            None => 0,
        },
        None => 0,
    };
    let key = match field_of(payload, "hsm_key"@) {
        Some(value) => string_of(value),
        None => None,
    };
    if expires <= now {
        Err(FeedFault::Config("FYERS access token is expired"@))
    } else {
        match key {
            Some(text) => if trim_of(text).len() > 0 {
                Ok(text)
            } else {
                Err(FeedFault::Config("FYERS access token missing hsm_key"@))
            },
            None => Err(FeedFault::Config("FYERS access token missing hsm_key"@)),
        }
    }
}

/// The key that the payload of a token carries for the socket, where it is not expired.
pub fn hsm_key_from_payload(payload: &Json, now_secs: u64) -> (r: Result<String, FeedError>)
    ensures
        outcome(r) == hsm_key_in(payload@, now_secs),
{
    let expires: u64 = match payload.field("exp") {
        Some(value) => match value.as_u64() {
            Some(n) => n,
            None => 0,
        },
        None => 0,
    };
    if expires <= now_secs {
        return Err(FeedError::Config("FYERS access token is expired".to_owned()));
    }
    if let Some(value) = payload.field("hsm_key") {
        if let Some(text) = value.as_str() {
            if !trim(text).as_str().is_empty() {
                return Ok(text.to_owned());
            }
        }
    }
    Err(FeedError::Config("FYERS access token missing hsm_key".to_owned()))
}

/// The key that a token carries for the socket.
pub open spec fn hsm_key_of(access_token: Seq<char>, now: u64) -> Result<Seq<char>, FeedFault> {
    match jwt_of(access_token) {
        Err(e) => Err(e),
        Ok(jwt) => {
            let parts = split_of(jwt, '.');
            if parts.len() < 2 {
                Err(FeedFault::Config("FYERS access token is not a JWT"@))
            } else {
                match url_decoded(parts[1]) {
                    Err(e) => Err(FeedFault::Config("invalid FYERS JWT payload: "@ + e)),
                    Ok(bytes) => match parsed_bytes(bytes) {
                        Err(e) => Err(FeedFault::Parse(e)),
                        Ok(payload) => hsm_key_in(payload, now),
                    },
                }
            }
        },
    }
}

/// The key that a token carries for the socket.
pub fn decode_hsm_key(access_token: &str, now_secs: u64) -> (r: Result<String, FeedError>)
    ensures
        outcome(r) == hsm_key_of(access_token@, now_secs),
{
    let jwt = match jwt_access_token_only(access_token) {
        Ok(jwt) => jwt,
        Err(e) => return Err(e),
    };
    let parts = split(jwt.as_str(), '.');
    if parts.len() < 2 {
        return Err(FeedError::Config("FYERS access token is not a JWT".to_owned()));
    }
    assert(views(parts@)[1] == parts@[1]@);
    let decoded = match decode_url(parts[1].as_str()) {
        Ok(decoded) => decoded,
        Err(e) => return Err(
            FeedError::Config("invalid FYERS JWT payload: ".to_owned().concat(e.as_str())),
        ),
    };
    match read_json_bytes(decoded.as_slice()) {
        Err(e) => Err(FeedError::Parse(e)),
        Ok(payload) => hsm_key_from_payload(&payload, now_secs),
    }
}

/// A text without the characters zero at its ends.
pub open spec fn without_zeros(s: Seq<char>) -> Seq<char> {
    strip_end_of(strip_start_of(s, '\0'), '\0')
}

/// The status that so many bytes of a response hold, where they hold one.
pub open spec fn status_in(data: Seq<u8>, length: int) -> Option<Seq<char>> {
    if length > 0 && 7 + length <= data.len() && without_zeros(
        lossy_of(data.subrange(7, 7 + length)),
    ).len() > 0 {
        Some(without_zeros(lossy_of(data.subrange(7, 7 + length))))
    } else {
        None
    }
}

fn find_status(data: &[u8], length: usize) -> (r: Option<String>)
    requires
        length <= 65_535,
    ensures
        text_facts(r) == status_in(data@, length as int),
{
    let n: usize = data.len();
    if length > 0 && n >= 7 && length <= n - 7 {
        let bytes = part(data, 7, 7 + length);
        let text = lossy(bytes.as_slice());
        let value = strip_end(strip_start(text.as_str(), '\0').as_str(), '\0');
        if !value.as_str().is_empty() {
            return Some(value);
        }
    }
    None
}

/// The status that a response tells. How many bytes it has may stand there with the higher
/// byte first or the lower.
pub open spec fn status_of(data: Seq<u8>) -> Result<Seq<char>, FeedFault> {
    if data.len() < 8 {
        Err(FeedFault::Parse("FYERS control response too short"@))
    } else {
        match status_in(data, 256 * data[5] + data[6]) {
            Some(status) => Ok(status),
            None => match status_in(data, data[5] + 256 * data[6]) {
                Some(status) => Ok(status),
                None => Err(FeedFault::Parse("FYERS control response status missing"@)),
            },
        }
    }
}

/// The status that a response tells.
pub fn control_response_status(data: &[u8]) -> (r: Result<String, FeedError>)
    ensures
        outcome(r) == status_of(data@),
{
    if data.len() < 8 {
        return Err(FeedError::Parse("FYERS control response too short".to_owned()));
    }
    let high: usize = 256 * data[5] as usize + data[6] as usize;
    if let Some(status) = find_status(data, high) {
        return Ok(status);
    }
    let low: usize = data[5] as usize + 256 * data[6] as usize;
    if let Some(status) = find_status(data, low) {
        return Ok(status);
    }
    Err(FeedError::Parse("FYERS control response status missing".to_owned()))
}

pub open spec fn ended(what: Seq<char>) -> FeedFault {
    FeedFault::Parse("FYERS frame ended while reading "@ + what)
}

fn frame_ended(what: &str) -> (r: FeedError)
    ensures
        r@ == ended(what@),
{
    FeedError::Parse("FYERS frame ended while reading ".to_owned().concat(what))
}

pub open spec fn ended_skipping() -> FeedFault {
    FeedFault::Parse("FYERS frame ended while skipping bytes"@)
}

/// A byte of a frame, and where the rest begins.
pub open spec fn byte_at(data: Seq<u8>, at: int) -> Result<(u8, int), FeedFault> {
    if at < data.len() {
        Ok((data[at], at + 1))
    } else {
        Err(ended("u8"@))
    }
}

/// Two bytes of a frame as a number, the higher first.
pub open spec fn u16_be_at(data: Seq<u8>, at: int) -> Result<(u16, int), FeedFault> {
    if fits(data, at, 2) {
        Ok((big_at(data, at, 2) as u16, at + 2))
    } else {
        Err(ended("u16"@))
    }
}

/// Two bytes of a frame as a number, the lower first.
pub open spec fn u16_le_at(data: Seq<u8>, at: int) -> Result<(u16, int), FeedFault> {
    if fits(data, at, 2) {
        Ok((little_at(data, at, 2) as u16, at + 2))
    } else {
        Err(ended("u16"@))
    }
}

/// Four bytes of a frame as a number with a sign, the highest first.
pub open spec fn i32_of(data: Seq<u8>, at: int) -> int {
    let n = big_at(data, at, 4);
    if n >= 0x8000_0000 {
        n - 0x1_0000_0000
    } else {
        n as int
    }
}

/// A text of a frame, behind the number of its bytes.
pub open spec fn text_at(data: Seq<u8>, at: int) -> Result<(Seq<char>, int), FeedFault> {
    match byte_at(data, at) {
        Err(e) => Err(e),
        Ok((n, from)) => if from + n > data.len() {
            Err(ended("string"@))
        } else {
            let bytes = data.subrange(from, from + n);
            if valid_utf8(bytes) {
                Ok((decode_utf8(bytes), from + n))
            } else {
                Err(FeedFault::Parse("FYERS invalid string: "@ + utf8_fault(bytes)))
            }
        },
    }
}

/// What reading came to, as contracts speak of it.
pub open spec fn read_outcome<T>(r: Result<(T, usize), FeedError>) -> Result<(T, int), FeedFault> {
    match r {
        Ok((value, next)) => Ok((value, next as int)),
        Err(e) => Err(e@),
    }
}

pub open spec fn text_outcome(r: Result<(String, usize), FeedError>) -> Result<
    (Seq<char>, int),
    FeedFault,
> {
    match r {
        Ok((value, next)) => Ok((value@, next as int)),
        Err(e) => Err(e@),
    }
}

fn take_byte(data: &[u8], at: usize) -> (r: Result<(u8, usize), FeedError>)
    ensures
        read_outcome(r) == byte_at(data@, at as int),
        r matches Ok((_, next)) ==> next <= data@.len(),
{
    let n: usize = data.len();
    if at < n {
        Ok((data[at], at + 1))
    } else {
        Err(frame_ended("u8"))
    }
}

fn take_u16_be(data: &[u8], at: usize) -> (r: Result<(u16, usize), FeedError>)
    ensures
        read_outcome(r) == u16_be_at(data@, at as int),
        r matches Ok((_, next)) ==> next <= data@.len(),
{
    let n: usize = data.len();
    match read_u16_be(data, at) {
        Some(v) => Ok((v, at + 2)),
        None => Err(frame_ended("u16")),
    }
}

fn take_u16_le(data: &[u8], at: usize) -> (r: Result<(u16, usize), FeedError>)
    ensures
        read_outcome(r) == u16_le_at(data@, at as int),
        r matches Ok((_, next)) ==> next <= data@.len(),
{
    let n: usize = data.len();
    match read_u16_le(data, at) {
        Some(v) => Ok((v, at + 2)),
        None => Err(frame_ended("u16")),
    }
}

fn take_i32(data: &[u8], at: usize) -> (r: Option<i32>)
    ensures
        match r {
            Some(v) => fits(data@, at as int, 4) && v == i32_of(data@, at as int),
            None => !fits(data@, at as int, 4),
        },
{
    match read_u32_be(data, at) {
        None => None,
        Some(n) => {
            if n >= 0x8000_0000 {
                let below: i32 = (u32::MAX - n) as i32;
                Some(-below - 1)
            } else {
                Some(n as i32)
            }
        },
    }
}

fn take_text(data: &[u8], at: usize) -> (r: Result<(String, usize), FeedError>)
    ensures
        text_outcome(r) == text_at(data@, at as int),
        r matches Ok((_, next)) ==> next <= data@.len(),
{
    let (n, from) = match take_byte(data, at) {
        Ok(pair) => pair,
        Err(e) => return Err(e),
    };
    let size: usize = data.len();
    if n as usize > size - from {
        return Err(frame_ended("string"));
    }
    let to: usize = from + n as usize;
    let bytes = part(data, from, to);
    match read_utf8(bytes.as_slice()) {
        Ok(text) => Ok((text, to)),
        Err(fault) => Err(
            FeedError::Parse("FYERS invalid string: ".to_owned().concat(fault.as_str())),
        ),
    }
}

/// What a topic is about.
#[derive(Clone, Copy, Debug, PartialEq, Eq, Structural)]
pub enum TopicKind {
    Scrip,
    Index,
}

/// What a topic with a name is about.
pub open spec fn kind_of(name: Seq<char>) -> Option<TopicKind> {
    if starts(name, "sf|"@) {
        Some(TopicKind::Scrip)
    } else if starts(name, "if|"@) {
        Some(TopicKind::Index)
    } else {
        None
    }
}

/// The place of the field that tells the moment of a tick.
pub open spec fn time_place(kind: TopicKind) -> int {
    match kind {
        TopicKind::Scrip => 3,
        TopicKind::Index => 2,
    }
}

impl TopicKind {
    pub fn from_hsm_symbol(value: &str) -> (r: Option<TopicKind>)
        ensures
            r == kind_of(value@),
    {
        if starts_with(value, "sf|") {
            Some(TopicKind::Scrip)
        } else if starts_with(value, "if|") {
            Some(TopicKind::Index)
        } else {
            None
        }
    }

    fn time_index(self) -> (r: u8)
        ensures
            r == time_place(self),
    {
        match self {
            TopicKind::Scrip => 3,
            TopicKind::Index => 2,
        }
    }
}

/// What is known of a topic: the last price as it came, what it is divided by, and the last
/// moment.
#[derive(Debug)]
pub struct TopicState {
    pub symbol: String,
    pub kind: TopicKind,
    pub ltp_raw: Option<i32>,
    pub multiplier: u16,
    pub precision: u8,
    pub exch_feed_time: Option<i32>,
}

/// What is known of a topic, as contracts speak of it.
pub struct TopicFacts {
    pub symbol: Seq<char>,
    pub kind: TopicKind,
    pub ltp_raw: Option<i32>,
    pub multiplier: u16,
    pub precision: u8,
    pub exch_feed_time: Option<i32>,
}

impl View for TopicState {
    type V = TopicFacts;

    open spec fn view(&self) -> TopicFacts {
        TopicFacts {
            symbol: self.symbol@,
            kind: self.kind,
            ltp_raw: self.ltp_raw,
            multiplier: self.multiplier,
            precision: self.precision,
            exch_feed_time: self.exch_feed_time,
        }
    }
}

/// A tick as it came: its price is to be divided by ten to the power of the precision, times
/// the multiplier.
#[derive(Debug)]
pub struct RawTick {
    pub symbol: String,
    pub ltp_raw: i32,
    pub multiplier: u16,
    pub precision: u8,
    pub exch_feed_time: Option<i32>,
}

/// A tick as it came, as contracts speak of it.
pub struct RawFacts {
    pub symbol: Seq<char>,
    pub ltp_raw: i32,
    pub multiplier: u16,
    pub precision: u8,
    pub exch_feed_time: Option<i32>,
}

impl View for RawTick {
    type V = RawFacts;

    open spec fn view(&self) -> RawFacts {
        RawFacts {
            symbol: self.symbol@,
            ltp_raw: self.ltp_raw,
            multiplier: self.multiplier,
            precision: self.precision,
            exch_feed_time: self.exch_feed_time,
        }
    }
}

pub open spec fn raw_views(v: Seq<RawTick>) -> Seq<RawFacts> {
    Seq::new(v.len(), |i: int| v[i]@)
}

/// The moment of a tick in milliseconds. A moment that came as seconds is taken as such; one
/// with a sign as it stands in 64 bits.
pub open spec fn millis_of(feed_time: Option<i32>, now: u64) -> u64 {
    match feed_time {
        None => now,
        Some(t) => if t < 0 {
            (0x1_0000_0000_0000_0000 + t) as u64
        } else {
            (t * 1_000) as u64
        },
    }
}

/// The event that a tick with a price tells, where the price is one.
pub open spec fn event_of(raw: RawFacts, price: Real, now: u64) -> Option<EventFacts> {
    if is_price(price) {
        Some(
            EventFacts::Tick(
                TickFacts {
                    instrument_name: raw.symbol,
                    price,
                    time: millis_of(raw.exch_feed_time, now),
                },
            ),
        )
    } else {
        None
    }
}

impl RawTick {
    /// What the price is divided by, apart from the power of ten.
    pub fn factor(&self) -> (r: u16)
        ensures
            r == if self.multiplier == 0 {
                1
            } else {
                self.multiplier
            },
    {
        if self.multiplier == 0 {
            1
        } else {
            self.multiplier
        }
    }

    /// The event that the tick tells. `price` is its price, divided.
    pub fn to_price_event(&self, price: Real, now_millis: u64) -> (r: Option<PriceEvent>)
        ensures
            event_facts(r) == event_of(self@, price, now_millis),
    {
        match Price::new(price) {
            Err(_) => None,
            Ok(price) => {
                let time: u64 = match self.exch_feed_time {
                    None => now_millis,
                    Some(t) => {
                        if t < 0 {
                            let below: u64 = (-(t as i64)) as u64;
                            u64::MAX - below + 1
                        } else {
                            t as u64 * 1_000
                        }
                    },
                };
                Some(
                    PriceEvent::Tick(
                        PriceTick::new(
                            InstrumentName::new(self.symbol.as_str()),
                            price,
                            UnixMillis::new(time),
                        ),
                    ),
                )
            },
        }
    }
}

/// What is told of a tick whose price is none, after so many: nothing where those were
/// enough, and with the last, that nothing more is told. `price` is the price as a text.
pub fn ignored_lines(symbol: &str, price: &str, count: usize) -> (r: Vec<String>)
    ensures
        ({
            let line = "FYERS ignored invalid price: symbol="@ + symbol@ + " price="@ + price@
                + " reason="@ + price_fault();
            views(r@) == if count >= MAX_INVALID_FYERS_PRICE_LOGS {
                Seq::empty()
            } else if count + 1 == MAX_INVALID_FYERS_PRICE_LOGS {
                seq![
                    line,
                    "FYERS invalid price log limit reached; suppressing further invalid price logs"@,
                ]
            } else {
                seq![line]
            }
        }),
{
    let mut out: Vec<String> = Vec::new();
    if count >= MAX_INVALID_FYERS_PRICE_LOGS {
        assert(views(out@) =~= Seq::empty());
        return out;
    }
    let mut line = "FYERS ignored invalid price: symbol=".to_owned();
    line.append(symbol);
    line.append(" price=");
    line.append(price);
    line.append(" reason=");
    line.append("price must be finite and positive");
    out.push(line);
    if count + 1 == MAX_INVALID_FYERS_PRICE_LOGS {
        out.push(
            "FYERS invalid price log limit reached; suppressing further invalid price logs".to_owned(),
        );
        assert(views(out@) =~= seq![
            line@,
            "FYERS invalid price log limit reached; suppressing further invalid price logs"@,
        ]);
    } else {
        assert(views(out@) =~= seq![line@]);
    }
    out
}

/// What is known while frames come in: the symbols of names on the wire, the names of topics
/// by their numbers, what is known of topics by their names, and the ticks that were not
/// handed on yet.
pub struct ParserFacts {
    pub symbols: Map<Seq<char>, Seq<char>>,
    pub ids: Map<u16, Seq<char>>,
    pub topics: Map<Seq<char>, TopicFacts>,
    pub pending: Seq<RawFacts>,
}

/// What became of a part of a frame: what is known then, where the rest begins, and what is
/// wrong.
pub struct StepFacts {
    pub state: ParserFacts,
    pub at: int,
    pub fault: Option<FeedFault>,
}

pub open spec fn went_on(state: ParserFacts, at: int) -> StepFacts {
    StepFacts { state, at, fault: None }
}

pub open spec fn failed(state: ParserFacts, fault: FeedFault) -> StepFacts {
    StepFacts { state, at: 0, fault: Some(fault) }
}

/// A field out of some that may not be told.
pub open spec fn told_field(data: Seq<u8>, at: int, count: int, place: int) -> Option<i32> {
    if place < count && i32_of(data, at + 4 * place) != FYERS_SENTINEL_I32 {
        Some(i32_of(data, at + 4 * place) as i32)
    } else {
        None
    }
}

/// What a snapshot of a topic tells.
pub struct SnapshotFacts {
    pub id: u16,
    pub name: Seq<char>,
    pub kind: TopicKind,
    pub ltp_raw: Option<i32>,
    pub exch_feed_time: Option<i32>,
    pub multiplier: u16,
    pub precision: u8,
}

/// Where the third of three texts ends.
pub open spec fn three_texts(data: Seq<u8>, at: int) -> Result<int, FeedFault> {
    match text_at(data, at) {
        Err(e) => Err(e),
        Ok((_, a)) => match text_at(data, a) {
            Err(e) => Err(e),
            Ok((_, b)) => match text_at(data, b) {
                Err(e) => Err(e),
                Ok((_, c)) => Ok(c),
            },
        },
    }
}

/// The end of a snapshot, behind its fields: its multiplier, its precision, and where it ends.
pub open spec fn snapshot_tail(data: Seq<u8>, at: int) -> Result<(u16, u8, int), FeedFault> {
    if at + 2 > data.len() {
        Err(ended_skipping())
    } else {
        match u16_be_at(data, at + 2) {
            Err(e) => Err(e),
            Ok((multiplier, a)) => match byte_at(data, a) {
                Err(e) => Err(e),
                Ok((precision, b)) => match three_texts(data, b) {
                    Err(e) => Err(e),
                    Ok(end) => Ok((multiplier, precision, end)),
                },
            },
        }
    }
}

/// The snapshot at a place of a frame, and where the rest begins.
pub open spec fn snapshot_of(data: Seq<u8>, at: int) -> Result<(SnapshotFacts, int), FeedFault> {
    match u16_le_at(data, at) {
        Err(e) => Err(e),
        Ok((id, a)) => match text_at(data, a) {
            Err(e) => Err(e),
            Ok((name, b)) => match kind_of(name) {
                None => Err(FeedFault::Parse("unsupported FYERS topic "@ + name)),
                Some(kind) => match byte_at(data, b) {
                    Err(e) => Err(e),
                    Ok((count, c)) => if c + 4 * count > data.len() {
                        Err(ended("i32"@))
                    } else {
                        match snapshot_tail(data, c + 4 * count) {
                            Err(e) => Err(e),
                            Ok((multiplier, precision, end)) => Ok(
                                (
                                    SnapshotFacts {
                                        id,
                                        name,
                                        kind,
                                        ltp_raw: told_field(data, c, count as int, 0),
                                        exch_feed_time: told_field(
                                            data,
                                            c,
                                            count as int,
                                            time_place(kind),
                                        ),
                                        multiplier,
                                        precision,
                                    },
                                    end,
                                ),
                            ),
                        }
                    },
                },
            },
        },
    }
}

/// The tick that a topic tells, where it has a price.
pub open spec fn tick_of(topic: TopicFacts) -> Seq<RawFacts> {
    match topic.ltp_raw {
        None => Seq::empty(),
        Some(ltp_raw) => seq![
            RawFacts {
                symbol: topic.symbol,
                ltp_raw,
                multiplier: topic.multiplier,
                precision: topic.precision,
                exch_feed_time: topic.exch_feed_time,
            },
        ],
    }
}

/// What is known after a snapshot.
pub open spec fn after_snapshot(state: ParserFacts, s: SnapshotFacts) -> ParserFacts {
    let topic = TopicFacts {
        symbol: if state.symbols.contains_key(s.name) {
            state.symbols[s.name]
        } else {
            s.name
        },
        kind: s.kind,
        ltp_raw: s.ltp_raw,
        multiplier: s.multiplier,
        precision: s.precision,
        exch_feed_time: s.exch_feed_time,
    };
    ParserFacts {
        symbols: state.symbols,
        ids: state.ids.insert(s.id, s.name),
        topics: state.topics.insert(s.name, topic),
        pending: state.pending + tick_of(topic),
    }
}

/// Whether the topic with a number is known.
pub open spec fn is_known(state: ParserFacts, id: u16) -> bool {
    state.ids.contains_key(id) && state.topics.contains_key(state.ids[id])
}

/// What is known of a topic after some fields came in.
pub open spec fn with_fields(topic: TopicFacts, data: Seq<u8>, at: int, count: int) -> TopicFacts {
    TopicFacts {
        ltp_raw: match told_field(data, at, count, 0) {
            Some(value) => Some(value),
            None => topic.ltp_raw,
        },
        exch_feed_time: match told_field(data, at, count, time_place(topic.kind)) {
            Some(value) => Some(value),
            None => topic.exch_feed_time,
        },
        ..topic
    }
}

/// How many of some fields there are in the rest of a frame.
pub open spec fn whole_fields(data: Seq<u8>, at: int, count: int) -> int {
    if at + 4 * count <= data.len() {
        count
    } else {
        (data.len() - at) / 4
    }
}

/// What is known after fields of the topic with a number came in, as many as there are.
pub open spec fn after_fields(state: ParserFacts, id: u16, data: Seq<u8>, at: int, count: int) -> StepFacts {
    let name = state.ids[id];
    let before = state.topics[name];
    let there = whole_fields(data, at, count);
    let topic = with_fields(before, data, at, there);
    let next = ParserFacts { topics: state.topics.insert(name, topic), ..state };
    if there < count {
        failed(next, ended("i32"@))
    } else if topic.ltp_raw != before.ltp_raw {
        went_on(ParserFacts { pending: next.pending + tick_of(topic), ..next }, at + 4 * count)
    } else {
        went_on(next, at + 4 * count)
    }
}

/// What becomes of an update with all fields.
pub open spec fn full_step(state: ParserFacts, data: Seq<u8>, at: int) -> StepFacts {
    match u16_le_at(data, at) {
        Err(e) => failed(state, e),
        Ok((id, a)) => match byte_at(data, a) {
            Err(e) => failed(state, e),
            Ok((count, b)) => if is_known(state, id) {
                after_fields(state, id, data, b, count as int)
            } else if b + 4 * count > data.len() {
                failed(state, ended_skipping())
            } else {
                went_on(state, b + 4 * count)
            },
        },
    }
}

/// What is known after a price of the topic with a number came in.
pub open spec fn after_price(state: ParserFacts, id: u16, value: i32) -> ParserFacts {
    if !is_known(state, id) || value == FYERS_SENTINEL_I32
        || state.topics[state.ids[id]].ltp_raw == Some(value) {
        state
    } else {
        let name = state.ids[id];
        let topic = TopicFacts { ltp_raw: Some(value), ..state.topics[name] };
        ParserFacts {
            topics: state.topics.insert(name, topic),
            pending: state.pending + tick_of(topic),
            ..state
        }
    }
}

/// What becomes of an update with the price alone.
pub open spec fn lite_step(state: ParserFacts, data: Seq<u8>, at: int) -> StepFacts {
    match u16_le_at(data, at) {
        Err(e) => failed(state, e),
        Ok((id, a)) => if !fits(data, a, 4) {
            failed(state, ended("i32"@))
        } else {
            went_on(after_price(state, id, i32_of(data, a) as i32), a + 4)
        },
    }
}

/// What becomes of one of the entries of a frame.
pub open spec fn entry_step(state: ParserFacts, data: Seq<u8>, at: int) -> StepFacts {
    match byte_at(data, at) {
        Err(e) => failed(state, e),
        Ok((sort, a)) => if sort == 83 {
            match snapshot_of(data, a) {
                Err(e) => failed(state, e),
                Ok((s, end)) => went_on(after_snapshot(state, s), end),
            }
        } else if sort == 85 {
            full_step(state, data, a)
        } else if sort == 76 {
            lite_step(state, data, a)
        } else {
            failed(
                state,
                FeedFault::Parse("unsupported FYERS datafeed type "@ + decimal_of(sort as nat)),
            )
        },
    }
}

/// What becomes of some entries of a frame, one after another, up to the first with which
/// something is wrong.
pub open spec fn entries_step(state: ParserFacts, data: Seq<u8>, at: int, count: nat) -> StepFacts
    decreases count,
{
    if count == 0 {
        went_on(state, at)
    } else {
        let one = entry_step(state, data, at);
        if one.fault is Some {
            one
        } else {
            entries_step(one.state, data, one.at, (count - 1) as nat)
        }
    }
}

/// What becomes of a frame with ticks.
pub open spec fn feed_step(state: ParserFacts, data: Seq<u8>) -> StepFacts {
    match u16_be_at(data, 7) {
        Err(e) => failed(state, e),
        Ok((count, at)) => entries_step(state, data, at, count as nat),
    }
}

/// What a response to a request comes to: what is told of it, or what is wrong.
pub open spec fn control_of(label: Seq<char>, data: Seq<u8>, log: bool) -> Result<
    Option<Seq<char>>,
    FeedFault,
> {
    match status_of(data) {
        Err(e) => Err(e),
        Ok(status) => if status == "K"@ {
            Ok(
                if log {
                    Some("FYERS websocket "@ + label + " response: OK"@)
                } else {
                    None
                },
            )
        } else {
            Err(
                FeedFault::Parse(
                    "FYERS websocket "@ + label + " response failed: "@ + status,
                ),
            )
        },
    }
}

fn handle_control_response(label: &str, data: &[u8], log: bool) -> (r: Result<
    Option<String>,
    FeedError,
>)
    ensures
        match r {
            Ok(line) => control_of(label@, data@, log) == Ok::<Option<Seq<char>>, FeedFault>(
                text_facts(line),
            ),
            Err(e) => control_of(label@, data@, log) == Err::<Option<Seq<char>>, FeedFault>(e@),
        },
{
    let status = match control_response_status(data) {
        Ok(status) => status,
        Err(e) => return Err(e),
    };
    if same(status.as_str(), "K") {
        if log {
            let mut line = "FYERS websocket ".to_owned();
            line.append(label);
            line.append(" response: OK");
            Ok(Some(line))
        } else {
            Ok(None)
        }
    } else {
        let mut message = "FYERS websocket ".to_owned();
        message.append(label);
        message.append(" response failed: ");
        message.append(status.as_str());
        Err(FeedError::Parse(message))
    }
}

/// What sort of response a frame is, where it is one.
pub open spec fn control_label(sort: u8) -> Option<Seq<char>> {
    if sort == 1 {
        Some("auth"@)
    } else if sort == 4 {
        Some("subscribe"@)
    } else if sort == 5 {
        Some("unsubscribe"@)
    } else if sort == 12 {
        Some("mode"@)
    } else {
        None
    }
}

/// The topics of a table.
pub open spec fn topics_in(map: Map<Seq<char>, TopicState>) -> Map<Seq<char>, TopicFacts> {
    Map::new(|k: Seq<char>| map.contains_key(k), |k: Seq<char>| map[k]@)
}

/// The names of topics by their numbers.
pub open spec fn ids_in(map: Map<(u64, u64), String>) -> Map<u16, Seq<char>> {
    Map::new(
        |id: u16| map.contains_key((id as u64, 0u64)),
        |id: u16| map[(id as u64, 0u64)]@,
    )
}

/// Reads frames.
pub struct FyersHsmParser {
    hsm_to_symbol: TextMap<String>,
    topic_ids: PairMap<String>,
    topics: TextMap<TopicState>,
    pending: Vec<RawTick>,
    log_control_messages: bool,
}

impl View for FyersHsmParser {
    type V = ParserFacts;

    closed spec fn view(&self) -> ParserFacts {
        ParserFacts {
            symbols: texts_in(self.hsm_to_symbol@),
            ids: ids_in(self.topic_ids@),
            topics: topics_in(self.topics@),
            pending: raw_views(self.pending@),
        }
    }
}

/// What reading a snapshot came to.
struct Snapshot {
    id: u16,
    name: String,
    kind: TopicKind,
    ltp_raw: Option<i32>,
    exch_feed_time: Option<i32>,
    multiplier: u16,
    precision: u8,
}

impl Snapshot {
    spec fn facts(&self) -> SnapshotFacts {
        SnapshotFacts {
            id: self.id,
            name: self.name@,
            kind: self.kind,
            ltp_raw: self.ltp_raw,
            exch_feed_time: self.exch_feed_time,
            multiplier: self.multiplier,
            precision: self.precision,
        }
    }
}

fn take_field(data: &[u8], at: usize, count: u8, place: u8) -> (r: Option<i32>)
    requires
        at + 4 * count <= data@.len(),
    ensures
        r == told_field(data@, at as int, count as int, place as int),
{
    if place >= count {
        return None;
    }
    let n: usize = data.len();
    match take_i32(data, at + 4 * place as usize) {
        Some(value) => {
            if value != FYERS_SENTINEL_I32 {
                Some(value)
            } else {
                None
            }
        },
        None => None,
    }
}

fn read_three_texts(data: &[u8], at: usize) -> (r: Result<usize, FeedError>)
    ensures
        match r {
            Ok(end) => three_texts(data@, at as int) == Ok::<int, FeedFault>(end as int) && end
                <= data@.len(),
            Err(e) => three_texts(data@, at as int) == Err::<int, FeedFault>(e@),
        },
{
    let (_, a) = match take_text(data, at) {
        Ok(pair) => pair,
        Err(e) => return Err(e),
    };
    let (_, b) = match take_text(data, a) {
        Ok(pair) => pair,
        Err(e) => return Err(e),
    };
    match take_text(data, b) {
        Ok((_, c)) => Ok(c),
        Err(e) => Err(e),
    }
}

fn read_snapshot_tail(data: &[u8], at: usize) -> (r: Result<(u16, u8, usize), FeedError>)
    requires
        at <= data@.len(),
    ensures
        match r {
            Ok((multiplier, precision, end)) => snapshot_tail(data@, at as int) == Ok::<
                (u16, u8, int),
                FeedFault,
            >((multiplier, precision, end as int)) && end <= data@.len(),
            Err(e) => snapshot_tail(data@, at as int) == Err::<(u16, u8, int), FeedFault>(e@),
        },
{
    let n: usize = data.len();
    if n - at < 2 {
        return Err(FeedError::Parse("FYERS frame ended while skipping bytes".to_owned()));
    }
    let (multiplier, a) = match take_u16_be(data, at + 2) {
        Ok(pair) => pair,
        Err(e) => return Err(e),
    };
    let (precision, b) = match take_byte(data, a) {
        Ok(pair) => pair,
        Err(e) => return Err(e),
    };
    match read_three_texts(data, b) {
        Ok(end) => Ok((multiplier, precision, end)),
        Err(e) => Err(e),
    }
}

fn read_snapshot(data: &[u8], at: usize) -> (r: Result<(Snapshot, usize), FeedError>)
    ensures
        match r {
            Ok((s, end)) => snapshot_of(data@, at as int) == Ok::<(SnapshotFacts, int), FeedFault>(
                (s.facts(), end as int),
            ) && end <= data@.len(),
            Err(e) => snapshot_of(data@, at as int) == Err::<(SnapshotFacts, int), FeedFault>(e@),
        },
{
    let (id, a) = match take_u16_le(data, at) {
        Ok(pair) => pair,
        Err(e) => return Err(e),
    };
    let (name, b) = match take_text(data, a) {
        Ok(pair) => pair,
        Err(e) => return Err(e),
    };
    let kind = match TopicKind::from_hsm_symbol(name.as_str()) {
        Some(kind) => kind,
        None => return Err(
            FeedError::Parse("unsupported FYERS topic ".to_owned().concat(name.as_str())),
        ),
    };
    let (count, c) = match take_byte(data, b) {
        Ok(pair) => pair,
        Err(e) => return Err(e),
    };
    let n: usize = data.len();
    if 4 * count as usize > n - c {
        return Err(frame_ended("i32"));
    }
    let ltp_raw = take_field(data, c, count, 0);
    let exch_feed_time = take_field(data, c, count, kind.time_index());
    match read_snapshot_tail(data, c + 4 * count as usize) {
        Err(e) => Err(e),
        Ok((multiplier, precision, end)) => Ok(
            (
                Snapshot { id, name, kind, ltp_raw, exch_feed_time, multiplier, precision },
                end,
            ),
        ),
    }
}

impl FyersHsmParser {
    /// Whether responses to requests are told of.
    pub closed spec fn logs(&self) -> bool {
        self.log_control_messages
    }

    /// Knows of symbols, and of nothing else yet.
    pub fn new(hsm_to_symbol: TextMap<String>, log_control_messages: bool) -> (r: FyersHsmParser)
        ensures
            r@ == (ParserFacts {
                symbols: texts_in(hsm_to_symbol@),
                ids: Map::empty(),
                topics: Map::empty(),
                pending: Seq::empty(),
            }),
            r.logs() == log_control_messages,
    {
        let r = FyersHsmParser {
            hsm_to_symbol,
            topic_ids: PairMap::new(),
            topics: TextMap::new(),
            pending: Vec::new(),
            log_control_messages,
        };
        assert(r@.ids =~= Map::empty());
        assert(r@.topics =~= Map::empty());
        assert(r@.pending =~= Seq::empty());
        r
    }

    /// The next tick that was not handed on yet, where there is one.
    pub fn next_tick(&mut self) -> (r: Option<RawTick>)
        ensures
            final(self).logs() == old(self).logs(),
            match r {
                None => old(self)@.pending.len() == 0 && final(self)@ == old(self)@,
                Some(tick) => old(self)@.pending.len() > 0 && tick@ == old(self)@.pending[0]
                    && final(self)@ == (ParserFacts {
                    pending: old(self)@.pending.skip(1),
                    ..old(self)@
                }),
            },
    {
        if self.pending.len() == 0 {
            return None;
        }
        let ghost before = self.pending@;
        let tick = self.pending.remove(0);
        assert(raw_views(before)[0] == before[0]@);
        assert(raw_views(self.pending@) =~= raw_views(before).skip(1));
        Some(tick)
    }

    fn push_tick(&mut self, topic: &TopicState)
        ensures
            final(self).logs() == old(self).logs(),
            final(self)@ == (ParserFacts {
                pending: old(self)@.pending + tick_of(topic@),
                ..old(self)@
            }),
    {
        let ghost before = raw_views(self.pending@);
        if let Some(ltp_raw) = topic.ltp_raw {
            let tick = RawTick {
                symbol: topic.symbol.clone(),
                ltp_raw,
                multiplier: topic.multiplier,
                precision: topic.precision,
                exch_feed_time: topic.exch_feed_time,
            };
            self.pending.push(tick);
            assert(raw_views(self.pending@) =~= before + seq![tick@]);
        } else {
            assert(raw_views(self.pending@) =~= before + Seq::empty());
        }
    }

    fn put_topic(&mut self, name: String, topic: TopicState)
        ensures
            final(self).logs() == old(self).logs(),
            final(self)@ == (ParserFacts {
                topics: old(self)@.topics.insert(name@, topic@),
                ..old(self)@
            }),
    {
        let ghost before = self.topics@;
        let ghost key = name@;
        self.topics.insert(name, topic);
        assert(topics_in(self.topics@) =~= topics_in(before).insert(key, topic@));
    }

    fn take_snapshot(&mut self, s: Snapshot)
        ensures
            final(self).logs() == old(self).logs(),
            final(self)@ == after_snapshot(old(self)@, s.facts()),
    {
        let ghost facts = s.facts();
        let ghost before = self.topic_ids@;
        let symbol = match self.hsm_to_symbol.get(s.name.as_str()) {
            Some(symbol) => symbol.clone(),
            None => s.name.clone(),
        };
        self.topic_ids.insert((s.id as u64, 0), s.name.clone());
        assert(ids_in(self.topic_ids@) =~= ids_in(before).insert(s.id, s.name@));
        let topic = TopicState {
            symbol,
            kind: s.kind,
            ltp_raw: s.ltp_raw,
            multiplier: s.multiplier,
            precision: s.precision,
            exch_feed_time: s.exch_feed_time,
        };
        self.push_tick(&topic);
        self.put_topic(s.name, topic);
    }

    /// The name and what is known of the topic with a number.
    fn lift_topic(&mut self, id: u16) -> (r: Option<(String, TopicState)>)
        ensures
            final(self).logs() == old(self).logs(),
            match r {
                None => !is_known(old(self)@, id) && final(self)@ == old(self)@,
                Some((name, topic)) => {
                    &&& is_known(old(self)@, id)
                    &&& name@ == old(self)@.ids[id]
                    &&& topic@ == old(self)@.topics[name@]
                    &&& final(self)@ == (ParserFacts {
                        topics: old(self)@.topics.remove(name@),
                        ..old(self)@
                    })
                },
            },
    {
        let name = match self.topic_ids.get((id as u64, 0)) {
            None => return None,
            Some(name) => name.clone(),
        };
        let ghost before = self.topics@;
        match self.topics.remove(name.as_str()) {
            None => {
                assert(before.remove(name@) =~= before);
                assert(topics_in(self.topics@) =~= topics_in(before));
                None
            },
            Some(topic) => {
                assert(topics_in(self.topics@) =~= topics_in(before).remove(name@));
                Some((name, topic))
            },
        }
    }

    fn parse_full_update(&mut self, data: &[u8], at: usize) -> (r: Result<usize, FeedError>)
        ensures
            final(self).logs() == old(self).logs(),
            final(self)@ == full_step(old(self)@, data@, at as int).state,
            match r {
                Ok(next) => full_step(old(self)@, data@, at as int) == went_on(
                    final(self)@,
                    next as int,
                ) && next <= data@.len(),
                Err(e) => full_step(old(self)@, data@, at as int).fault == Some(e@),
            },
    {
        let (id, a) = match take_u16_le(data, at) {
            Ok(pair) => pair,
            Err(e) => return Err(e),
        };
        let (count, b) = match take_byte(data, a) {
            Ok(pair) => pair,
            Err(e) => return Err(e),
        };
        let n: usize = data.len();
        let room: usize = n - b;
        let ghost start = self@;
        match self.lift_topic(id) {
            None => {
                if 4 * count as usize > room {
                    Err(FeedError::Parse("FYERS frame ended while skipping bytes".to_owned()))
                } else {
                    Ok(b + 4 * count as usize)
                }
            },
            Some((name, topic)) => {
                let mut topic = topic;
                let ghost before = topic@;
                let there: u8 = if 4 * count as usize <= room {
                    count
                } else {
                    (room / 4) as u8
                };
                assert(there == whole_fields(data@, b as int, count as int));
                let mut updated = false;
                if let Some(value) = take_field(data, b, there, 0) {
                    updated = match topic.ltp_raw {
                        Some(old_value) => old_value != value,
                        None => true,
                    };
                    topic.ltp_raw = Some(value);
                }
                if let Some(value) = take_field(data, b, there, topic.kind.time_index()) {
                    topic.exch_feed_time = Some(value);
                }
                assert(topic@ == with_fields(before, data@, b as int, there as int));
                assert(updated == (topic@.ltp_raw != before.ltp_raw));
                if updated && there == count {
                    self.push_tick(&topic);
                }
                self.put_topic(name, topic);
                assert(start.topics.remove(name@).insert(name@, topic@) =~= start.topics.insert(
                    name@,
                    topic@,
                ));
                if there < count {
                    Err(frame_ended("i32"))
                } else {
                    Ok(b + 4 * count as usize)
                }
            },
        }
    }

    fn parse_lite_update(&mut self, data: &[u8], at: usize) -> (r: Result<usize, FeedError>)
        ensures
            final(self).logs() == old(self).logs(),
            final(self)@ == lite_step(old(self)@, data@, at as int).state,
            match r {
                Ok(next) => lite_step(old(self)@, data@, at as int) == went_on(
                    final(self)@,
                    next as int,
                ) && next <= data@.len(),
                Err(e) => lite_step(old(self)@, data@, at as int).fault == Some(e@),
            },
    {
        let (id, a) = match take_u16_le(data, at) {
            Ok(pair) => pair,
            Err(e) => return Err(e),
        };
        let n: usize = data.len();
        let value: i32 = match take_i32(data, a) {
            Some(value) => value,
            None => return Err(frame_ended("i32")),
        };
        let ghost start = self@;
        if let Some((name, topic)) = self.lift_topic(id) {
            let mut topic = topic;
            let ghost before = topic@;
            let other = match topic.ltp_raw {
                Some(old_value) => old_value != value,
                None => true,
            };
            if value != FYERS_SENTINEL_I32 && other {
                topic.ltp_raw = Some(value);
                self.push_tick(&topic);
            }
            self.put_topic(name, topic);
            assert(start.topics.remove(name@).insert(name@, topic@) =~= start.topics.insert(
                name@,
                topic@,
            ));
            assert(start.topics.insert(name@, before) =~= start.topics);
        }
        Ok(a + 4)
    }

    fn parse_entry(&mut self, data: &[u8], at: usize) -> (r: Result<usize, FeedError>)
        ensures
            final(self).logs() == old(self).logs(),
            final(self)@ == entry_step(old(self)@, data@, at as int).state,
            match r {
                Ok(next) => entry_step(old(self)@, data@, at as int) == went_on(
                    final(self)@,
                    next as int,
                ) && next <= data@.len(),
                Err(e) => entry_step(old(self)@, data@, at as int).fault == Some(e@),
            },
    {
        let (sort, a) = match take_byte(data, at) {
            Ok(pair) => pair,
            Err(e) => return Err(e),
        };
        if sort == 83 {
            match read_snapshot(data, a) {
                Err(e) => Err(e),
                Ok((s, end)) => {
                    self.take_snapshot(s);
                    Ok(end)
                },
            }
        } else if sort == 85 {
            self.parse_full_update(data, a)
        } else if sort == 76 {
            self.parse_lite_update(data, a)
        } else {
            Err(
                FeedError::Parse(
                    "unsupported FYERS datafeed type ".to_owned().concat(
                        decimal(sort as u64).as_str(),
                    ),
                ),
            )
        }
    }

    fn handle_datafeed_resp(&mut self, data: &[u8]) -> (r: Option<FeedError>)
        ensures
            final(self).logs() == old(self).logs(),
            final(self)@ == feed_step(old(self)@, data@).state,
            match r {
                None => feed_step(old(self)@, data@).fault is None,
                Some(e) => feed_step(old(self)@, data@).fault == Some(e@),
            },
    {
        let (count, from) = match take_u16_be(data, 7) {
            Ok(pair) => pair,
            Err(e) => return Some(e),
        };
        let mut at: usize = from;
        let mut i: u16 = 0;
        while i < count
            invariant
                i <= count,
                self.logs() == old(self).logs(),
                feed_step(old(self)@, data@) == entries_step(
                    self@,
                    data@,
                    at as int,
                    (count - i) as nat,
                ),
            decreases count - i,
        {
            match self.parse_entry(data, at) {
                Err(e) => return Some(e),
                Ok(next) => {
                    at = next;
                },
            }
            i += 1;
        }
        None
    }

    /// Takes in a frame, and tells what is told of it.
    pub fn handle_binary_message(&mut self, data: &[u8]) -> (r: Result<Option<String>, FeedError>)
        ensures
            final(self).logs() == old(self).logs(),
            if data@.len() < 3 {
                final(self)@ == old(self)@ && (r matches Err(e) && e@ == FeedFault::Parse(
                    "FYERS binary frame too short"@,
                ))
            } else if control_label(data@[2]) is Some {
                &&& final(self)@ == old(self)@
                &&& match control_of(control_label(data@[2])->0, data@, old(self).logs()) {
                    Ok(line) => r matches Ok(told) && text_facts(told) == line,
                    Err(fault) => r matches Err(e) && e@ == fault,
                }
            } else if data@[2] == 6 {
                let step = feed_step(old(self)@, data@);
                &&& final(self)@ == step.state
                &&& match step.fault {
                    None => r matches Ok(told) && told is None,
                    Some(fault) => r matches Err(e) && e@ == fault,
                }
            } else {
                final(self)@ == old(self)@ && (r matches Ok(told) && told is None)
            },
    {
        if data.len() < 3 {
            return Err(FeedError::Parse("FYERS binary frame too short".to_owned()));
        }
        let sort: u8 = data[2];
        if sort == 1 {
            handle_control_response("auth", data, self.log_control_messages)
        } else if sort == 4 {
            handle_control_response("subscribe", data, self.log_control_messages)
        } else if sort == 5 {
            handle_control_response("unsubscribe", data, self.log_control_messages)
        } else if sort == 12 {
            handle_control_response("mode", data, self.log_control_messages)
        } else if sort == 6 {
            match self.handle_datafeed_resp(data) {
                None => Ok(None),
                Some(e) => Err(e),
            }
        } else {
            Ok(None)
        }
    }

    fn add_symbol(&mut self, hsm_symbol: &str, symbol: &str)
        ensures
            final(self).logs() == old(self).logs(),
            final(self)@ == (ParserFacts {
                symbols: old(self)@.symbols.insert(hsm_symbol@, symbol@),
                ..old(self)@
            }),
    {
        let ghost before = self.hsm_to_symbol@;
        self.hsm_to_symbol.insert(hsm_symbol.to_owned(), symbol.to_owned());
        assert(texts_in(self.hsm_to_symbol@) =~= texts_in(before).insert(hsm_symbol@, symbol@));
    }

    fn forget(&mut self, hsm_symbol: &str)
        ensures
            final(self).logs() == old(self).logs(),
            final(self)@ == (ParserFacts {
                symbols: old(self)@.symbols.remove(hsm_symbol@),
                topics: old(self)@.topics.remove(hsm_symbol@),
                ..old(self)@
            }),
    {
        let ghost a = self.hsm_to_symbol@;
        let ghost b = self.topics@;
        let _symbol = self.hsm_to_symbol.remove(hsm_symbol);
        let _topic = self.topics.remove(hsm_symbol);
        assert(texts_in(self.hsm_to_symbol@) =~= texts_in(a).remove(hsm_symbol@));
        assert(topics_in(self.topics@) =~= topics_in(b).remove(hsm_symbol@));
    }
}

/// What is asked for, and what is known of it.
pub struct FeedFacts {
    pub active: Set<Seq<char>>,
    /// The names on the wire of symbols.
    pub wire: Map<Seq<char>, Seq<char>>,
    pub parser: ParserFacts,
}

/// The symbols of the instruments of a list that are to be asked for, by their names on the
/// wire: of those that can be traded and are not asked for yet. Of several with one name,
/// the last.
pub open spec fn converted_of(list: Seq<InstrumentFacts>, active: Set<Seq<char>>) -> Result<
    Map<Seq<char>, Seq<char>>,
    FeedFault,
>
    decreases list.len(),
{
    if list.len() == 0 {
        Ok(Map::empty())
    } else {
        match converted_of(list.drop_last(), active) {
            Err(e) => Err(e),
            Ok(before) => {
                let i = list.last();
                if !i.tradable || active.contains(i.trading_symbol) {
                    Ok(before)
                } else {
                    match hsm_symbol_of(i.trading_symbol, i.instrument_token) {
                        None => Err(
                            FeedFault::InvalidInstrument(
                                "FYERS cannot build HSM symbol for "@ + i.trading_symbol
                                    + " token "@ + i.instrument_token,
                            ),
                        ),
                        Some(name) => Ok(before.insert(name, i.trading_symbol)),
                    }
                }
            },
        }
    }
}

proof fn converting_fails(list: Seq<InstrumentFacts>, n: int, active: Set<Seq<char>>)
    requires
        0 <= n <= list.len(),
        converted_of(list.take(n), active) is Err,
    ensures
        converted_of(list, active) == converted_of(list.take(n), active),
    decreases list.len(),
{
    if n == list.len() {
        assert(list.take(n) =~= list);
    } else {
        assert(list.drop_last().take(n) =~= list.take(n));
        converting_fails(list.drop_last(), n, active);
    }
}

/// What is known after symbols are asked for, by their names on the wire.
pub open spec fn after_asking(
    feed: FeedFacts,
    names: Seq<Seq<char>>,
    converted: Map<Seq<char>, Seq<char>>,
) -> FeedFacts
    decreases names.len(),
{
    if names.len() == 0 {
        feed
    } else {
        let before = after_asking(feed, names.drop_last(), converted);
        let name = names.last();
        let symbol = converted[name];
        FeedFacts {
            active: before.active.insert(symbol),
            wire: before.wire.insert(symbol, name),
            parser: ParserFacts {
                symbols: before.parser.symbols.insert(name, symbol),
                ..before.parser
            },
        }
    }
}

/// The names on the wire of the symbols of a list that are asked for.
pub open spec fn asked_names(symbols: Seq<Seq<char>>, feed: FeedFacts) -> Seq<Seq<char>>
    decreases symbols.len(),
{
    if symbols.len() == 0 {
        Seq::empty()
    } else {
        let before = asked_names(symbols.drop_last(), feed);
        let symbol = symbols.last();
        if feed.active.contains(symbol) && feed.wire.contains_key(symbol) {
            before.push(feed.wire[symbol])
        } else {
            before
        }
    }
}

/// What is known after symbols are no longer asked for.
pub open spec fn after_leaving(feed: FeedFacts, symbols: Seq<Seq<char>>) -> FeedFacts
    decreases symbols.len(),
{
    if symbols.len() == 0 {
        feed
    } else {
        let before = after_leaving(feed, symbols.drop_last());
        let symbol = symbols.last();
        FeedFacts {
            active: before.active.remove(symbol),
            wire: before.wire.remove(symbol),
            parser: if before.wire.contains_key(symbol) {
                ParserFacts {
                    symbols: before.parser.symbols.remove(before.wire[symbol]),
                    topics: before.parser.topics.remove(before.wire[symbol]),
                    ..before.parser
                }
            } else {
                before.parser
            },
        }
    }
}

/// What is no longer asked for is neither active nor known on the wire.
pub proof fn leaving_forgets(feed: FeedFacts, symbols: Seq<Seq<char>>, i: int)
    requires
        0 <= i < symbols.len(),
    ensures
        !after_leaving(feed, symbols).active.contains(symbols[i]),
        !after_leaving(feed, symbols).wire.contains_key(symbols[i]),
    decreases symbols.len(),
{
    if i < symbols.len() - 1 {
        leaving_forgets(feed, symbols.drop_last(), i);
        assert(symbols.drop_last()[i] == symbols[i]);
    }
}

/// What is asked for of FYERS.
pub struct FyersFeed {
    access_token: String,
    active: TextSet,
    symbol_to_hsm: TextMap<String>,
    parser: FyersHsmParser,
}

impl View for FyersFeed {
    type V = FeedFacts;

    closed spec fn view(&self) -> FeedFacts {
        FeedFacts {
            active: self.active@,
            wire: texts_in(self.symbol_to_hsm@),
            parser: self.parser@,
        }
    }
}

impl FyersFeed {
    /// The token that is asked with.
    pub closed spec fn token(&self) -> Seq<char> {
        self.access_token@
    }

    pub closed spec fn logs(&self) -> bool {
        self.parser.logs()
    }

    pub open spec fn same_terms(&self, other: &FyersFeed) -> bool {
        self.token() == other.token() && self.logs() == other.logs()
    }

    /// Asks with a token, for nothing yet. Tells what is sent first: who asks, and that short
    /// ticks are wanted.
    pub fn connect(access_token: &str, log_control_messages: bool, now_secs: u64) -> (r: Result<
        (FyersFeed, Vec<u8>, Vec<u8>),
        FeedError,
    >)
        ensures
            match jwt_of(trim_of(access_token@)) {
                Err(fault) => r matches Err(e) && e@ == fault,
                Ok(token) => match hsm_key_of(token, now_secs) {
                    Err(fault) => r matches Err(e) && e@ == fault,
                    Ok(key) => r matches Ok((feed, first, second)) && {
                        &&& feed.token() == token
                        &&& feed.logs() == log_control_messages
                        &&& feed@ == (FeedFacts {
                            active: Set::empty(),
                            wire: Map::empty(),
                            parser: ParserFacts {
                                symbols: Map::empty(),
                                ids: Map::empty(),
                                topics: Map::empty(),
                                pending: Seq::empty(),
                            },
                        })
                        &&& first@ == access_message_of(key)
                        &&& second@ == lite_message_of()
                    },
                },
            },
    {
        let token = match jwt_access_token_only(trim(access_token).as_str()) {
            Ok(token) => token,
            Err(e) => return Err(e),
        };
        let key = match decode_hsm_key(token.as_str(), now_secs) {
            Ok(key) => key,
            Err(e) => return Err(e),
        };
        let none: TextMap<String> = TextMap::new();
        assert(texts_in(none@) =~= Map::empty());
        let symbol_to_hsm: TextMap<String> = TextMap::new();
        assert(texts_in(symbol_to_hsm@) =~= Map::empty());
        let feed = FyersFeed {
            access_token: token,
            active: TextSet::new(),
            symbol_to_hsm,
            parser: FyersHsmParser::new(none, log_control_messages),
        };
        Ok((feed, access_token_msg(key.as_str()), lite_mode_msg()))
    }

    /// Asks for the instruments of a list, and tells what is sent.
    pub fn subscribe_instruments(&mut self, instruments: &Vec<InstrumentDefinition>) -> (r: Result<
        Vec<Vec<u8>>,
        FeedError,
    >)
        ensures
            final(self).same_terms(old(self)),
            match converted_of(instrument_views(instruments@), old(self)@.active) {
                Err(fault) => final(self)@ == old(self)@ && (r matches Err(e) && e@ == fault),
                Ok(converted) => {
                    let names = ascending_of(converted.dom());
                    &&& final(self)@ == after_asking(old(self)@, names, converted)
                    &&& r matches Ok(messages) && message_views(messages@) == messages_of(
                        4,
                        names,
                        old(self).token(),
                    )
                },
            },
    {
        let ghost all = instrument_views(instruments@);
        let ghost active = self@.active;
        let mut converted: TextMap<String> = TextMap::new();
        let mut i: usize = 0;
        assert(all.take(0) =~= Seq::empty());
        assert(texts_in(converted@) =~= Map::empty());
        while i < instruments.len()
            invariant
                i <= instruments@.len(),
                all == instrument_views(instruments@),
                self@ == old(self)@,
                self.same_terms(old(self)),
                active == self@.active,
                converted_of(all.take(i as int), active) == Ok::<
                    Map<Seq<char>, Seq<char>>,
                    FeedFault,
                >(texts_in(converted@)),
            decreases instruments@.len() - i,
        {
            let ghost before = converted@;
            assert(all.take(i + 1).drop_last() =~= all.take(i as int));
            assert(all.take(i + 1).last() == instruments@[i as int]@);
            let one = &instruments[i];
            if one.tradable && !self.active.contains(one.trading_symbol.as_str()) {
                match hsm_symbol_for_symbol_update(
                    one.trading_symbol.as_str(),
                    one.instrument_token.as_str(),
                ) {
                    None => {
                        proof {
                            converting_fails(all, i + 1, active);
                        }
                        let mut message = "FYERS cannot build HSM symbol for ".to_owned();
                        message.append(one.trading_symbol.as_str());
                        message.append(" token ");
                        message.append(one.instrument_token.as_str());
                        return Err(FeedError::InvalidInstrument(message));
                    },
                    Some(name) => {
                        let ghost key = name@;
                        converted.insert(name, one.trading_symbol.clone());
                        assert(texts_in(converted@) =~= texts_in(before).insert(
                            key,
                            one.trading_symbol@,
                        ));
                    },
                }
            }
            i += 1;
        }
        assert(all.take(i as int) =~= all);
        let ghost table = texts_in(converted@);
        assert(table.dom() =~= converted@.dom());
        let names = sorted_keys(&converted);
        let ghost keys = views(names@);
        let mut k: usize = 0;
        assert(keys.take(0) =~= Seq::empty());
        while k < names.len()
            invariant
                k <= names@.len(),
                keys == views(names@),
                table == texts_in(converted@),
                keys.to_set() == converted@.dom(),
                self.same_terms(old(self)),
                self@ == after_asking(old(self)@, keys.take(k as int), table),
            decreases names@.len() - k,
        {
            let ghost wire = self.symbol_to_hsm@;
            assert(keys.take(k + 1).drop_last() =~= keys.take(k as int));
            assert(keys.take(k + 1).last() == names@[k as int]@);
            assert(keys.to_set().contains(keys[k as int]));
            let name = names[k].as_str();
            if let Some(symbol) = converted.get(name) {
                self.parser.add_symbol(name, symbol.as_str());
                self.symbol_to_hsm.insert(symbol.clone(), name.to_owned());
                assert(texts_in(self.symbol_to_hsm@) =~= texts_in(wire).insert(symbol@, name@));
                let _new = self.active.insert(symbol.clone());
            }
            k += 1;
        }
        assert(keys.take(k as int) =~= keys);
        Ok(chunked_messages(4, &names, self.access_token.as_str()))
    }

    /// What is sent to no longer ask for the symbols of a list.
    pub fn unsubscribe_symbols(&self, symbols: &Vec<String>) -> (r: Vec<Vec<u8>>)
        ensures
            message_views(r@) == messages_of(5, asked_names(views(symbols@), self@), self.token()),
    {
        let ghost all = views(symbols@);
        let mut names: Vec<String> = Vec::new();
        let mut i: usize = 0;
        assert(all.take(0) =~= Seq::empty());
        assert(views(names@) =~= Seq::empty());
        while i < symbols.len()
            invariant
                i <= symbols@.len(),
                all == views(symbols@),
                views(names@) == asked_names(all.take(i as int), self@),
            decreases symbols@.len() - i,
        {
            let ghost before = views(names@);
            assert(all.take(i + 1).drop_last() =~= all.take(i as int));
            assert(all.take(i + 1).last() == symbols@[i as int]@);
            let symbol = symbols[i].as_str();
            if self.active.contains(symbol) {
                if let Some(name) = self.symbol_to_hsm.get(symbol) {
                    let name = name.clone();
                    names.push(name);
                    assert(views(names@) =~= before.push(name@));
                }
            }
            i += 1;
        }
        assert(all.take(i as int) =~= all);
        chunked_messages(5, &names, self.access_token.as_str())
    }

    /// Takes in that the symbols of a list are no longer asked for. Where none of them was,
    /// nothing changes.
    pub fn unsubscribed(&mut self, symbols: &Vec<String>)
        ensures
            final(self).same_terms(old(self)),
            final(self)@ == if asked_names(views(symbols@), old(self)@).len() == 0 {
                old(self)@
            } else {
                after_leaving(old(self)@, views(symbols@))
            },
    {
        let messages = self.unsubscribe_symbols(symbols);
        let ghost names = asked_names(views(symbols@), self@);
        assert(message_views(messages@).len() == messages@.len());
        if messages.len() == 0 {
            return;
        }
        let ghost all = views(symbols@);
        let mut i: usize = 0;
        assert(all.take(0) =~= Seq::empty());
        while i < symbols.len()
            invariant
                i <= symbols@.len(),
                all == views(symbols@),
                self.same_terms(old(self)),
                self@ == after_leaving(old(self)@, all.take(i as int)),
            decreases symbols@.len() - i,
        {
            let ghost wire = self.symbol_to_hsm@;
            assert(all.take(i + 1).drop_last() =~= all.take(i as int));
            assert(all.take(i + 1).last() == symbols@[i as int]@);
            let symbol = symbols[i].as_str();
            let _was = self.active.remove(symbol);
            match self.symbol_to_hsm.remove(symbol) {
                Some(name) => {
                    self.parser.forget(name.as_str());
                },
                None => {},
            }
            assert(texts_in(self.symbol_to_hsm@) =~= texts_in(wire).remove(symbol@));
            i += 1;
        }
        assert(all.take(i as int) =~= all);
    }

    /// The next tick that was not handed on yet, where there is one.
    pub fn next_tick(&mut self) -> (r: Option<RawTick>)
        ensures
            final(self).same_terms(old(self)),
            match r {
                None => old(self)@.parser.pending.len() == 0 && final(self)@ == old(self)@,
                Some(tick) => old(self)@.parser.pending.len() > 0 && tick@
                    == old(self)@.parser.pending[0] && final(self)@ == (FeedFacts {
                    parser: ParserFacts {
                        pending: old(self)@.parser.pending.skip(1),
                        ..old(self)@.parser
                    },
                    ..old(self)@
                }),
            },
    {
        self.parser.next_tick()
    }

    /// Takes in a frame, and tells what is told of it.
    pub fn handle_binary_message(&mut self, data: &[u8]) -> (r: Result<Option<String>, FeedError>)
        ensures
            final(self).same_terms(old(self)),
            final(self)@.active == old(self)@.active,
            final(self)@.wire == old(self)@.wire,
            data@.len() >= 3 && data@[2] == 6 ==> final(self)@.parser == feed_step(
                old(self)@.parser,
                data@,
            ).state && match feed_step(old(self)@.parser, data@).fault {
                None => r matches Ok(told) && told is None,
                Some(fault) => r matches Err(e) && e@ == fault,
            },
            data@.len() < 3 || data@[2] != 6 ==> final(self)@ == old(self)@,
            data@.len() < 3 ==> (r matches Err(e) && e@ == FeedFault::Parse(
                "FYERS binary frame too short"@,
            )),
            data@.len() >= 3 && data@[2] != 6 ==> match control_label(data@[2]) {
                Some(label) => match control_of(label, data@, old(self).logs()) {
                    Ok(line) => r matches Ok(told) && text_facts(told) == line,
                    Err(fault) => r matches Err(e) && e@ == fault,
                },
                None => r matches Ok(told) && told is None,
            },
    {
        self.parser.handle_binary_message(data)
    }
}

/// A tick that a snapshot told is told once: the same price coming again tells none.
pub proof fn same_price_tells_nothing(state: ParserFacts, id: u16, value: i32)
    requires
        is_known(state, id),
    ensures
        after_price(after_price(state, id, value), id, value) == after_price(state, id, value),
{
}

/// The number that four bytes of a frame stand for, the highest first and with a sign.
pub open spec fn four_bytes_at(data: Seq<u8>, at: int) -> int {
    16_777_216 * data[at] + 65_536 * data[at + 1] + 256 * data[at + 2] + data[at + 3]
        - if data[at] >= 128 {
        0x1_0000_0000int
    } else {
        0
    }
}

proof fn four_bytes_are_read(data: Seq<u8>, at: int)
    requires
        0 <= at,
        at + 4 <= data.len(),
    ensures
        i32_of(data, at) == four_bytes_at(data, at),
{
    little_is_to_the_base_of_256(data.subrange(at, at + 4));
}

/// An entry that tells only a price is read as what its bytes say, and tells a tick of what is
/// known under its number where the price is a new one. It takes seven bytes, and of everything
/// else nothing changes.
pub proof fn price_entries_tell_ticks(state: ParserFacts, data: Seq<u8>, at: int, id: u16)
    requires
        0 <= at,
        at + 7 <= data.len(),
        data[at] == 76,
        id == data[at + 1] + 256 * data[at + 2],
        state.ids.contains_key(id),
        state.topics.contains_key(state.ids[id]),
    ensures
        ({
            let value = four_bytes_at(data, at + 3);
            let topic = state.topics[state.ids[id]];
            let after = entry_step(state, data, at);
            let fresh = value != -0x8000_0000 && (topic.ltp_raw is None || topic.ltp_raw->0
                != value);
            &&& after.fault is None
            &&& after.at == at + 7
            &&& !fresh ==> after.state == state
            &&& fresh ==> {
                let told = after.state.pending.last();
                &&& after.state.pending.len() == state.pending.len() + 1
                &&& after.state.pending.drop_last() == state.pending
                &&& told.symbol == topic.symbol
                &&& told.ltp_raw == value
                &&& told.multiplier == topic.multiplier
                &&& told.precision == topic.precision
                &&& told.exch_feed_time == topic.exch_feed_time
                &&& after.state.topics[state.ids[id]].ltp_raw == Some(value as i32)
            }
            &&& after.state.ids == state.ids
            &&& after.state.symbols == state.symbols
            &&& forall|name: Seq<char>|
                name != state.ids[id] && #[trigger] state.topics.contains_key(name)
                    ==> after.state.topics.contains_key(name) && after.state.topics[name]
                    == state.topics[name]
        }),
{
    little_is_to_the_base_of_256(data.subrange(at + 1, at + 3));
    four_bytes_are_read(data, at + 3);
    let after = entry_step(state, data, at);
    if after.state != state {
        assert(after.state.pending.drop_last() =~= state.pending);
    }
}

/// An entry that tells all fields is read as what its bytes say: the price is its first, the time
/// the fourth of what is traded and the third of an index. What a field leaves open stays as it
/// was, and there is a tick only where the price is a new one.
pub proof fn whole_entries_tell_ticks(state: ParserFacts, data: Seq<u8>, at: int, id: u16, count: int)
    requires
        0 <= at,
        at + 4 <= data.len(),
        data[at] == 85,
        id == data[at + 1] + 256 * data[at + 2],
        count == data[at + 3],
        count >= 4,
        at + 4 + 4 * count <= data.len(),
        state.ids.contains_key(id),
        state.topics.contains_key(state.ids[id]),
    ensures
        ({
            let topic = state.topics[state.ids[id]];
            let price = four_bytes_at(data, at + 4);
            let time = four_bytes_at(
                data,
                at + 4 + if topic.kind is Scrip {
                    12int
                } else {
                    8
                },
            );
            let after = entry_step(state, data, at);
            let now = after.state.topics[state.ids[id]];
            let fresh = price != -0x8000_0000 && (topic.ltp_raw is None || topic.ltp_raw->0
                != price);
            &&& after.fault is None
            &&& after.at == at + 4 + 4 * count
            &&& price != -0x8000_0000 ==> now.ltp_raw == Some(price as i32)
            &&& price == -0x8000_0000 ==> now.ltp_raw == topic.ltp_raw
            &&& time != -0x8000_0000 ==> now.exch_feed_time == Some(time as i32)
            &&& time == -0x8000_0000 ==> now.exch_feed_time == topic.exch_feed_time
            &&& now.symbol == topic.symbol && now.multiplier == topic.multiplier && now.precision
                == topic.precision
            &&& !fresh ==> after.state.pending == state.pending
            &&& fresh ==> {
                let told = after.state.pending.last();
                &&& after.state.pending.drop_last() == state.pending
                &&& told.symbol == topic.symbol
                &&& told.ltp_raw == price
                &&& told.multiplier == topic.multiplier
                &&& told.precision == topic.precision
                &&& told.exch_feed_time == now.exch_feed_time
            }
        }),
{
    little_is_to_the_base_of_256(data.subrange(at + 1, at + 3));
    let topic = state.topics[state.ids[id]];
    let place = time_place(topic.kind);
    four_bytes_are_read(data, at + 4);
    four_bytes_are_read(data, at + 4 + 4 * place);
    let after = entry_step(state, data, at);
    if after.state.pending.len() > state.pending.len() {
        assert(after.state.pending.drop_last() =~= state.pending);
    }
}

/// A snapshot tells of what it is, what it has for a name and for a number, its price and what
/// its prices are in; from then on it is known under both.
pub proof fn snapshots_make_topics_known(state: ParserFacts, s: SnapshotFacts)
    ensures
        ({
            let after = after_snapshot(state, s);
            let topic = after.topics[s.name];
            &&& is_known(after, s.id)
            &&& after.ids[s.id] == s.name
            &&& state.symbols.contains_key(s.name) ==> topic.symbol == state.symbols[s.name]
            &&& topic.ltp_raw == s.ltp_raw
            &&& topic.multiplier == s.multiplier
            &&& topic.precision == s.precision
            &&& topic.exch_feed_time == s.exch_feed_time
            &&& topic.kind == s.kind
            &&& s.ltp_raw is None ==> after.pending == state.pending
            &&& s.ltp_raw is Some ==> after.pending.len() == state.pending.len() + 1
                && after.pending.drop_last() == state.pending && after.pending.last().symbol
                == topic.symbol && after.pending.last().ltp_raw == s.ltp_raw->0
            &&& forall|name: Seq<char>|
                name != s.name && #[trigger] state.topics.contains_key(name)
                    ==> after.topics.contains_key(name) && after.topics[name] == state.topics[name]
            &&& after.symbols == state.symbols
        }),
{
    let after = after_snapshot(state, s);
    if s.ltp_raw is Some {
        assert(after.pending.drop_last() =~= state.pending);
    } else {
        assert(after.pending =~= state.pending);
    }
}

/// A snapshot is read as what its bytes say: its number, its name behind the length of it, its
/// fields, the first of which is the price, and behind two bytes more its multiplier and its
/// precision.
pub proof fn snapshots_are_read_byte_by_byte(data: Seq<u8>, at: int)
    requires
        0 <= at,
        snapshot_of(data, at) is Ok,
    ensures
        ({
            let s = snapshot_of(data, at)->Ok_0.0;
            let n = data[at + 2] as int;
            let fields = at + 4 + n;
            let count = data[at + 3 + n] as int;
            let tail = fields + 4 * count;
            let time = if s.kind is Scrip {
                3int
            } else {
                2
            };
            &&& s.id == data[at] + 256 * data[at + 1]
            &&& s.name == decode_utf8(data.subrange(at + 3, at + 3 + n))
            &&& starts(s.name, "sf|"@) || starts(s.name, "if|"@)
            &&& s.kind is Scrip <==> starts(s.name, "sf|"@)
            &&& count > 0 && four_bytes_at(data, fields) != -0x8000_0000 ==> s.ltp_raw == Some(
                four_bytes_at(data, fields) as i32,
            )
            &&& count == 0 || four_bytes_at(data, fields) == -0x8000_0000 ==> s.ltp_raw is None
            &&& count > time && four_bytes_at(data, fields + 4 * time) != -0x8000_0000
                ==> s.exch_feed_time == Some(four_bytes_at(data, fields + 4 * time) as i32)
            &&& s.multiplier == 256 * data[tail + 2] + data[tail + 3]
            &&& s.precision == data[tail + 4]
        }),
{
    little_is_to_the_base_of_256(data.subrange(at, at + 2));
    let n = data[at + 2] as int;
    let fields = at + 4 + n;
    let count = data[at + 3 + n] as int;
    let tail = fields + 4 * count;
    let s = snapshot_of(data, at)->Ok_0.0;
    if count > 0 {
        four_bytes_are_read(data, fields);
    }
    if count > time_place(s.kind) {
        four_bytes_are_read(data, fields + 4 * time_place(s.kind));
    }
    little_is_to_the_base_of_256(data.subrange(tail + 2, tail + 4));
}

/// The entries of a frame are read one behind another: some and then some more are all of them.
pub proof fn entries_follow_one_another(state: ParserFacts, data: Seq<u8>, at: int, m: nat, n: nat)
    ensures
        ({
            let first = entries_step(state, data, at, m);
            let both = entries_step(state, data, at, m + n);
            &&& first.fault is Some ==> both == first
            &&& first.fault is None ==> both == entries_step(first.state, data, first.at, n)
            &&& m == 1 ==> first.state == entry_step(state, data, at).state
            &&& m == 0 ==> first.state == state
        }),
    decreases m,
{
    reveal_with_fuel(entries_step, 2);
    if m > 0 {
        let one = entry_step(state, data, at);
        if one.fault is None {
            entries_follow_one_another(one.state, data, one.at, (m - 1) as nat, n);
        }
    }
}

/// Symbols are asked for in messages, each of at most 1500 of them, in their order and each once:
/// only the last message is of fewer.
pub proof fn every_symbol_is_in_one_message(
    request: u8,
    symbols: Seq<Seq<char>>,
    token: Seq<char>,
) -> (groups: Seq<Seq<Seq<char>>>)
    ensures
        groups.flatten() == symbols,
        groups.len() == messages_of(request, symbols, token).len(),
        forall|i: int|
            0 <= i < groups.len() ==> {
                &&& 0 < (#[trigger] groups[i]).len() <= 1_500
                &&& i < groups.len() - 1 ==> groups[i].len() == 1_500
                &&& messages_of(request, symbols, token)[i] == symbols_message_of(
                    request,
                    groups[i],
                    token,
                )
            },
    decreases symbols.len(),
{
    if symbols.len() == 0 {
        let none = Seq::<Seq<Seq<char>>>::empty();
        assert(none.flatten() =~= symbols);
        none
    } else {
        let n = if symbols.len() < 1_500 {
            symbols.len() as int
        } else {
            1_500
        };
        let rest = every_symbol_is_in_one_message(request, symbols.skip(n), token);
        let groups = seq![symbols.take(n)] + rest;
        let all = messages_of(request, symbols, token);
        let others = messages_of(request, symbols.skip(n), token);
        assert(groups.drop_first() =~= rest);
        assert(groups.first() == symbols.take(n));
        assert(groups.flatten() =~= symbols.take(n) + rest.flatten());
        assert(symbols =~= symbols.take(n) + symbols.skip(n));
        assert forall|i: int| 0 <= i < groups.len() implies {
            &&& 0 < (#[trigger] groups[i]).len() <= 1_500
            &&& i < groups.len() - 1 ==> groups[i].len() == 1_500
            &&& all[i] == symbols_message_of(request, groups[i], token)
        } by {
            if i > 0 {
                assert(groups[i] == rest[i - 1]);
                assert(all[i] == others[i - 1]);
            } else if rest.len() > 0 {
                assert(symbols.skip(n).len() > 0);
            }
        }
        groups
    }
}

/// A message about symbols says what it asks, how many symbols it has, and then each of them
/// behind its length.
pub proof fn messages_list_their_symbols(request: u8, symbols: Seq<Seq<char>>, token: Seq<char>)
    requires
        symbols.len() < 65_536,
        scrips_of(symbols).len() < 65_536,
    ensures
        ({
            let m = symbols_message_of(request, symbols, token);
            let n = scrips_of(symbols).len() as int;
            &&& m[2] == request
            &&& m[3] == 2
            &&& m[4] == 1
            &&& 256 * m[5] + m[6] == n
            &&& 256 * m[7] + m[8] == symbols.len()
            &&& m.subrange(9, 7 + n) == listed_symbols(symbols)
            &&& m.skip(7 + n) == seq![2u8, 0u8, 1u8, 11u8]
        }),
        symbols.len() > 0 ==> listed_symbols(symbols) == listed_symbols(symbols.drop_last()) + seq![
            (encode_utf8(symbols.last()).len() % 256) as u8,
        ] + encode_utf8(symbols.last()),
{
    let m = symbols_message_of(request, symbols, token);
    let scrips = scrips_of(symbols);
    let n = scrips.len() as int;
    let head = two_bytes(18 + scrips.len() + encode_utf8(token).len() + encode_utf8(FYERS_SOURCE@).len());
    let field = message_field(1, scrips);
    let channel = message_field(2, seq![FYERS_DEFAULT_CHANNEL]);
    assert(m =~= head + seq![request, 2u8] + field + channel);
    assert(m[2] == request && m[3] == 2);
    assert(m[4] == field[0] && m[5] == field[1] && m[6] == field[2]);
    assert(m[7] == scrips[0] && m[8] == scrips[1]);
    assert(m.subrange(9, 7 + n) =~= listed_symbols(symbols));
    assert(channel =~= seq![2u8, 0u8, 1u8, 11u8]);
    assert(m.skip(7 + n) =~= channel);
    assert(n / 256 < 256 && symbols.len() / 256 < 256);
}

/// A token can be used where it is not expired and has a key that is no blank.
pub proof fn tokens_are_used_until_they_expire(payload: JsonFacts, now: u64, exp: u64, key: Seq<char>)
    requires
        field_of(payload, "exp"@) is Some,
        unsigned_of(field_of(payload, "exp"@)->0) == Some(exp),
        field_of(payload, "hsm_key"@) is Some,
        string_of(field_of(payload, "hsm_key"@)->0) == Some(key),
    ensures
        hsm_key_in(payload, now) is Ok <==> now < exp && trim_of(key).len() > 0,
        hsm_key_in(payload, now) is Ok ==> hsm_key_in(payload, now)->Ok_0 == key,
{
}

/// What is traded is asked for under its segment, which the start of its token tells, and under
/// what follows the first ten figures of the token.
pub proof fn tokens_tell_what_is_asked_for(symbol: Seq<char>, token: Seq<char>)
    requires
        token.len() >= 10,
        forall|i: int| 0 <= i < token.len() ==> (#[trigger] token[i] as u32) < 128,
        split_of(upper_of(symbol), '-').last() != "INDEX"@,
    ensures
        match segment_of(token.take(4)) {
            Some(segment) => hsm_symbol_of(symbol, token) == Some(
                "sf|"@ + segment + "|"@ + token.skip(10),
            ),
            None => hsm_symbol_of(symbol, token) is None,
        },
{
    plain_text_is_cut_anywhere(token, 0, 4);
    plain_text_is_cut_anywhere(token, 10, token.len() as int);
    assert(token.subrange(0, 4) =~= token.take(4));
    assert(token.subrange(10, token.len() as int) =~= token.skip(10));
}

/// A tick is of its symbol, at its price, and at the second that the exchange told, in
/// milliseconds; now where it told none. What can be no price is no tick.
pub proof fn ticks_tell_what_was_read(raw: RawFacts, price: Real, now: u64)
    ensures
        event_of(raw, price, now) is Some <==> 0 < price.bits < 0x7ff0_0000_0000_0000,
        event_of(raw, price, now) matches Some(event) ==> {
            &&& event is Tick
            &&& event->Tick_0.instrument_name == raw.symbol
            &&& event->Tick_0.price == price
            &&& raw.exch_feed_time is None ==> event->Tick_0.time == now
            &&& raw.exch_feed_time is Some && raw.exch_feed_time->0 >= 0 ==> event->Tick_0.time
                == 1_000 * raw.exch_feed_time->0
        },
{
}

/// What is asked for are the symbols of the instruments that can be traded and are not asked for
/// yet, and each such instrument has a name that it is asked for by.
pub proof fn asked_symbols_are_new(list: Seq<InstrumentFacts>, active: Set<Seq<char>>)
    requires
        converted_of(list, active) is Ok,
    ensures
        ({
            let names = converted_of(list, active)->Ok_0;
            &&& forall|name: Seq<char>| #[trigger]
                names.contains_key(name) ==> exists|i: int|
                    {
                        &&& 0 <= i < list.len()
                        &&& (#[trigger] list[i]).tradable
                        &&& !active.contains(list[i].trading_symbol)
                        &&& names[name] == list[i].trading_symbol
                        &&& hsm_symbol_of(list[i].trading_symbol, list[i].instrument_token) == Some(
                            name,
                        )
                    }
            &&& forall|i: int|
                0 <= i < list.len() && (#[trigger] list[i]).tradable && !active.contains(
                    list[i].trading_symbol,
                ) ==> {
                    let name = hsm_symbol_of(list[i].trading_symbol, list[i].instrument_token);
                    name is Some && names.contains_key(name->0)
                }
        }),
    decreases list.len(),
{
    if list.len() > 0 {
        let d = list.drop_last();
        let n = list.len() - 1;
        asked_symbols_are_new(d, active);
        let before = converted_of(d, active)->Ok_0;
        let names = converted_of(list, active)->Ok_0;
        assert(list[n] == list.last());
        assert forall|i: int|
            #![trigger d[i]]
            #![trigger list[i]]
            0 <= i < n implies d[i] == list[i] by {}
        assert forall|name: Seq<char>| #[trigger] names.contains_key(name) implies exists|i: int|
            {
                &&& 0 <= i < list.len()
                &&& (#[trigger] list[i]).tradable
                &&& !active.contains(list[i].trading_symbol)
                &&& names[name] == list[i].trading_symbol
                &&& hsm_symbol_of(list[i].trading_symbol, list[i].instrument_token) == Some(name)
            } by {
            let own = hsm_symbol_of(list[n].trading_symbol, list[n].instrument_token);
            if list[n].tradable && !active.contains(list[n].trading_symbol) && own == Some(name) {
                assert(list[n].tradable);
            } else {
                assert(before.contains_key(name));
                let i = choose|i: int|
                    {
                        &&& 0 <= i < d.len()
                        &&& (#[trigger] d[i]).tradable
                        &&& !active.contains(d[i].trading_symbol)
                        &&& before[name] == d[i].trading_symbol
                        &&& hsm_symbol_of(d[i].trading_symbol, d[i].instrument_token) == Some(name)
                    };
                assert(list[i] == d[i]);
            }
        }
    }
}

/// What is asked for is known from then on: its symbol is active, is asked for by its name, and a
/// frame that tells that name tells the symbol.
pub proof fn asked_symbols_are_known(
    feed: FeedFacts,
    names: Seq<Seq<char>>,
    converted: Map<Seq<char>, Seq<char>>,
    k: int,
)
    requires
        0 <= k < names.len(),
    ensures
        ({
            let after = after_asking(feed, names, converted);
            &&& after.active.contains(converted[names[k]])
            &&& after.wire.contains_key(converted[names[k]])
            &&& after.parser.symbols.contains_key(names[k])
            &&& after.parser.symbols[names[k]] == converted[names[k]]
            &&& after.parser.topics == feed.parser.topics
            &&& after.parser.pending == feed.parser.pending
        }),
    decreases names.len(),
{
    let d = names.drop_last();
    let n = names.len() - 1;
    reveal_with_fuel(after_asking, 2);
    if k < n {
        asked_symbols_are_known(feed, d, converted, k);
        assert(d[k] == names[k]);
    } else if n > 0 {
        asked_symbols_are_known(feed, d, converted, 0);
    }
}

/// A command is answered well where the answer says so, and is a fault otherwise, whether or not
/// anything is logged.
pub proof fn only_good_answers_pass(label: Seq<char>, data: Seq<u8>, log: bool)
    ensures
        control_of(label, data, log) is Ok <==> status_of(data) is Ok && status_of(data)->Ok_0
            == "K"@,
        control_of(label, data, log) is Ok ==> (control_of(label, data, log)->Ok_0 is Some <==> log),
{
}

/// The first four figures of a token tell its segment, each segment by figures of its own.
pub proof fn figures_tell_segments(code: Seq<char>)
    ensures
        segment_of(code) == Some("nse_cm"@) <==> code == "1010"@,
        segment_of(code) == Some("nse_fo"@) <==> code == "1011"@,
        segment_of(code) == Some("mcx_fo"@) <==> code == "1120"@,
        segment_of(code) == Some("bse_cm"@) <==> code == "1210"@,
        segment_of(code) == Some("cde_fo"@) <==> code == "1012"@,
        segment_of(code) == Some("bse_fo"@) <==> code == "1211"@,
        segment_of(code) == Some("bcs_fo"@) <==> code == "1212"@,
        segment_of(code) == Some("nse_com"@) <==> code == "1020"@,
{
    reveal_strlit("1010");
    reveal_strlit("1011");
    reveal_strlit("1120");
    reveal_strlit("1210");
    reveal_strlit("1012");
    reveal_strlit("1211");
    reveal_strlit("1212");
    reveal_strlit("1020");
    assert("1010"@[3] != "1011"@[3]);
    assert("1010"@[1] != "1120"@[1]);
    assert("1010"@[1] != "1210"@[1]);
    assert("1010"@[3] != "1012"@[3]);
    assert("1010"@[1] != "1211"@[1]);
    assert("1010"@[1] != "1212"@[1]);
    assert("1010"@[2] != "1020"@[2]);
    assert("1011"@[1] != "1120"@[1]);
    assert("1011"@[1] != "1210"@[1]);
    assert("1011"@[3] != "1012"@[3]);
    assert("1011"@[1] != "1211"@[1]);
    assert("1011"@[1] != "1212"@[1]);
    assert("1011"@[2] != "1020"@[2]);
    assert("1120"@[1] != "1210"@[1]);
    assert("1120"@[1] != "1012"@[1]);
    assert("1120"@[1] != "1211"@[1]);
    assert("1120"@[1] != "1212"@[1]);
    assert("1120"@[1] != "1020"@[1]);
    assert("1210"@[1] != "1012"@[1]);
    assert("1210"@[3] != "1211"@[3]);
    assert("1210"@[3] != "1212"@[3]);
    assert("1210"@[1] != "1020"@[1]);
    assert("1012"@[1] != "1211"@[1]);
    assert("1012"@[1] != "1212"@[1]);
    assert("1012"@[2] != "1020"@[2]);
    assert("1211"@[3] != "1212"@[3]);
    assert("1211"@[1] != "1020"@[1]);
    assert("1212"@[1] != "1020"@[1]);
    reveal_strlit("nse_cm");
    reveal_strlit("nse_fo");
    reveal_strlit("mcx_fo");
    reveal_strlit("bse_cm");
    reveal_strlit("cde_fo");
    reveal_strlit("bse_fo");
    reveal_strlit("bcs_fo");
    reveal_strlit("nse_com");
    assert("nse_cm"@[4] != "nse_fo"@[4]);
    assert("nse_cm"@[0] != "mcx_fo"@[0]);
    assert("nse_cm"@[0] != "bse_cm"@[0]);
    assert("nse_cm"@[0] != "cde_fo"@[0]);
    assert("nse_cm"@[0] != "bse_fo"@[0]);
    assert("nse_cm"@[0] != "bcs_fo"@[0]);
    assert("nse_cm"@.len() != "nse_com"@.len());
    assert("nse_fo"@[0] != "mcx_fo"@[0]);
    assert("nse_fo"@[0] != "bse_cm"@[0]);
    assert("nse_fo"@[0] != "cde_fo"@[0]);
    assert("nse_fo"@[0] != "bse_fo"@[0]);
    assert("nse_fo"@[0] != "bcs_fo"@[0]);
    assert("nse_fo"@.len() != "nse_com"@.len());
    assert("mcx_fo"@[0] != "bse_cm"@[0]);
    assert("mcx_fo"@[0] != "cde_fo"@[0]);
    assert("mcx_fo"@[0] != "bse_fo"@[0]);
    assert("mcx_fo"@[0] != "bcs_fo"@[0]);
    assert("mcx_fo"@.len() != "nse_com"@.len());
    assert("bse_cm"@[0] != "cde_fo"@[0]);
    assert("bse_cm"@[4] != "bse_fo"@[4]);
    assert("bse_cm"@[1] != "bcs_fo"@[1]);
    assert("bse_cm"@.len() != "nse_com"@.len());
    assert("cde_fo"@[0] != "bse_fo"@[0]);
    assert("cde_fo"@[0] != "bcs_fo"@[0]);
    assert("cde_fo"@.len() != "nse_com"@.len());
    assert("bse_fo"@[1] != "bcs_fo"@[1]);
    assert("bse_fo"@.len() != "nse_com"@.len());
    assert("bcs_fo"@.len() != "nse_com"@.len());
}

} // verus!
