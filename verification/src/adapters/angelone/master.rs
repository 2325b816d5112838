//! The master of AngelOne: what its rows stand for, and when it is fetched anew.
use crate::adapters::angelone::auth::{ist_day_of, on_same_day};
use crate::adapters::HttpReply;
use crate::binary64::{
    decimal_facts, find_number, number_in, text_facts, Decimal, DecimalFacts, Numbers,
};
use crate::calendar::{
    civil_from_days, date_of, date_text, format_day, ist_day_and_second, local_day, IST_OFFSET_SECONDS, LAST_UTC,
};
use crate::config::AngeloneBrokerSection;
use crate::feeder::catalog::{
    float_fault, float_fault_of, instrument_views, is_option_type, kind_name,
    InstrumentDefinition, InstrumentFacts, InstrumentType, UNIVERSAL_INSTRUMENT_CSV_HEADER,
};
use crate::feeder::error::{outcome, FeedError, FeedFault};
use crate::feeder::event::InstrumentName;
use crate::text::{
    byte_len, chars_of, decimal, decimal_of, ends, ends_with, fitting, fitting_is_prefix, fitting_of, padded,
    padded_of, plain_text_is_cut_anywhere, same, snippet, snippet_of, split_once, split_once_at, split_once_of, starts, starts_with,
    sub_text, trim, trim_keeps, trim_of, trimming_is_complete, upper, upper_of,
};
use vstd::prelude::*;
use vstd::utf8::encode_utf8;

verus! {

/// What came of fetching a master.
#[derive(Debug, PartialEq, Eq)]
pub struct AngeloneMasterRefreshSummary {
    pub instrument_count: usize,
    pub output_path: String,
    pub refreshed: bool,
}

/// A row of the master.
#[derive(Debug)]
pub struct AngeloneRawInstrument {
    pub token: String,
    pub symbol: String,
    pub name: String,
    pub expiry: String,
    pub strike: String,
    pub lotsize: String,
    pub instrumenttype: String,
    pub exch_seg: String,
    pub tick_size: String,
}

/// A row of the master, as contracts speak of it.
pub struct RawFacts {
    pub token: Seq<char>,
    pub symbol: Seq<char>,
    pub name: Seq<char>,
    pub expiry: Seq<char>,
    pub strike: Seq<char>,
    pub lotsize: Seq<char>,
    pub instrumenttype: Seq<char>,
    pub exch_seg: Seq<char>,
    pub tick_size: Seq<char>,
}

impl View for AngeloneRawInstrument {
    type V = RawFacts;

    open spec fn view(&self) -> RawFacts {
        RawFacts {
            token: self.token@,
            symbol: self.symbol@,
            name: self.name@,
            expiry: self.expiry@,
            strike: self.strike@,
            lotsize: self.lotsize@,
            instrumenttype: self.instrumenttype@,
            exch_seg: self.exch_seg@,
            tick_size: self.tick_size@,
        }
    }
}

/// The rows of a master, as contracts speak of them.
pub open spec fn raw_views(v: Seq<AngeloneRawInstrument>) -> Seq<RawFacts> {
    Seq::new(v.len(), |i: int| v[i]@)
}

/// What an instrument is subscribed by.
#[derive(Debug, PartialEq, Eq, PartialOrd, Ord)]
pub struct AngeloneInstrumentKey {
    pub exchange_type: u8,
    pub token: String,
}

/// What an instrument is subscribed by, as contracts speak of it.
pub struct KeyFacts {
    pub exchange_type: u8,
    pub token: Seq<char>,
}

impl View for AngeloneInstrumentKey {
    type V = KeyFacts;

    open spec fn view(&self) -> KeyFacts {
        KeyFacts { exchange_type: self.exchange_type, token: self.token@ }
    }
}

impl Clone for AngeloneInstrumentKey {
    fn clone(&self) -> (r: AngeloneInstrumentKey)
        ensures
            r == *self,
    {
        AngeloneInstrumentKey { exchange_type: self.exchange_type, token: self.token.clone() }
    }
}

/// The number of the exchange of a segment.
pub open spec fn exchange_of(segment: Seq<char>) -> Option<u8> {
    let s = upper_of(trim_of(segment));
    if s == "NSE"@ {
        Some(1)
    } else if s == "NFO"@ {
        Some(2)
    } else if s == "BSE"@ {
        Some(3)
    } else if s == "BFO"@ {
        Some(4)
    } else if s == "MCX"@ {
        Some(5)
    } else if s == "NCDEX"@ || s == "NCO"@ {
        Some(7)
    } else if s == "CDS"@ {
        Some(13)
    } else {
        None
    }
}

pub fn exchange_type(exchange_segment: &str) -> (r: Option<u8>)
    ensures
        r == exchange_of(exchange_segment@),
{
    let t = upper(trim(exchange_segment).as_str());
    let s = t.as_str();
    if same(s, "NSE") {
        Some(1)
    } else if same(s, "NFO") {
        Some(2)
    } else if same(s, "BSE") {
        Some(3)
    } else if same(s, "BFO") {
        Some(4)
    } else if same(s, "MCX") {
        Some(5)
    } else if same(s, "NCDEX") || same(s, "NCO") {
        Some(7)
    } else if same(s, "CDS") {
        Some(13)
    } else {
        None
    }
}

/// What a price on the wire is divided by.
pub open spec fn divisor_of(exchange_type: u8) -> u64 {
    if exchange_type == 13 {
        10_000_000
    } else {
        100
    }
}

/// What a price on the wire is divided by.
pub fn price_divisor(exchange_type: u8) -> (r: u64)
    ensures
        r == divisor_of(exchange_type),
{
    if exchange_type == 13 {
        10_000_000
    } else {
        100
    }
}

pub fn csv_header() -> (r: &'static str)
    ensures
        r@ == UNIVERSAL_INSTRUMENT_CSV_HEADER@,
{
    UNIVERSAL_INSTRUMENT_CSV_HEADER
}

/// The kind of option that a symbol tells.
pub open spec fn side_of(symbol: Seq<char>) -> Option<InstrumentType> {
    let s = upper_of(trim_of(symbol));
    if ends(s, "CE"@) {
        Some(InstrumentType::Call)
    } else if ends(s, "PE"@) {
        Some(InstrumentType::Put)
    } else {
        None
    }
}

fn option_side(symbol: &str) -> (r: Option<InstrumentType>)
    ensures
        r == side_of(symbol@),
{
    let s = upper(trim(symbol).as_str());
    if ends_with(s.as_str(), "CE") {
        Some(InstrumentType::Call)
    } else if ends_with(s.as_str(), "PE") {
        Some(InstrumentType::Put)
    } else {
        None
    }
}

/// The kind of instrument that a row is for.
pub open spec fn kind_of(row: RawFacts) -> Option<InstrumentType> {
    let kind = upper_of(trim_of(row.instrumenttype));
    if trim_of(row.expiry).len() == 0 && (kind.len() == 0 || kind == "AMXIDX"@ || kind == "INDEX"@
        || starts(kind, "UND"@)) {
        Some(InstrumentType::Spot)
    } else if starts(kind, "FUT"@) {
        Some(InstrumentType::Fut)
    } else if starts(kind, "OPT"@) {
        side_of(row.symbol)
    } else {
        None
    }
}

fn instrument_type(row: &AngeloneRawInstrument) -> (r: Option<InstrumentType>)
    ensures
        r == kind_of(row@),
{
    let t = upper(trim(row.instrumenttype.as_str()).as_str());
    let kind = t.as_str();
    if trim(row.expiry.as_str()).as_str().is_empty() && (kind.is_empty() || same(kind, "AMXIDX")
        || same(kind, "INDEX") || starts_with(kind, "UND")) {
        return Some(InstrumentType::Spot);
    }
    if starts_with(kind, "FUT") {
        return Some(InstrumentType::Fut);
    }
    if starts_with(kind, "OPT") {
        return option_side(row.symbol.as_str());
    }
    None
}

/// The exchange that a segment belongs to.
pub open spec fn exchange_name_of(segment: Seq<char>) -> Seq<char> {
    let s = upper_of(trim_of(segment));
    if s == "NSE"@ || s == "NFO"@ {
        "NSE"@
    } else if s == "BSE"@ || s == "BFO"@ {
        "BSE"@
    } else if s == "NCDEX"@ || s == "NCO"@ {
        "NCDEX"@
    } else {
        s
    }
}

fn exchange_name(segment: &str) -> (r: String)
    ensures
        r@ == exchange_name_of(segment@),
{
    let s = upper(trim(segment).as_str());
    if same(s.as_str(), "NSE") || same(s.as_str(), "NFO") {
        "NSE".to_owned()
    } else if same(s.as_str(), "BSE") || same(s.as_str(), "BFO") {
        "BSE".to_owned()
    } else if same(s.as_str(), "NCDEX") || same(s.as_str(), "NCO") {
        "NCDEX".to_owned()
    } else {
        s
    }
}

/// The number of a month.
pub open spec fn month_of(name: Seq<char>) -> Option<u64> {
    let m = upper_of(name);
    if m == "JAN"@ {
        Some(1)
    } else if m == "FEB"@ {
        Some(2)
    } else if m == "MAR"@ {
        Some(3)
    } else if m == "APR"@ {
        Some(4)
    } else if m == "MAY"@ {
        Some(5)
    } else if m == "JUN"@ {
        Some(6)
    } else if m == "JUL"@ {
        Some(7)
    } else if m == "AUG"@ {
        Some(8)
    } else if m == "SEP"@ {
        Some(9)
    } else if m == "OCT"@ {
        Some(10)
    } else if m == "NOV"@ {
        Some(11)
    } else if m == "DEC"@ {
        Some(12)
    } else {
        None
    }
}

fn month_number(value: &str) -> (r: Option<u64>)
    ensures
        r == month_of(value@),
{
    let t = upper(value);
    let m = t.as_str();
    if same(m, "JAN") {
        Some(1)
    } else if same(m, "FEB") {
        Some(2)
    } else if same(m, "MAR") {
        Some(3)
    } else if same(m, "APR") {
        Some(4)
    } else if same(m, "MAY") {
        Some(5)
    } else if same(m, "JUN") {
        Some(6)
    } else if same(m, "JUL") {
        Some(7)
    } else if same(m, "AUG") {
        Some(8)
    } else if same(m, "SEP") {
        Some(9)
    } else if same(m, "OCT") {
        Some(10)
    } else if same(m, "NOV") {
        Some(11)
    } else if same(m, "DEC") {
        Some(12)
    } else {
        None
    }
}

/// A date that is written as a day of two bytes, a month of three and a year of four, as
/// `YYYY-MM-DD`.
pub open spec fn expiry_of(value: Seq<char>) -> Option<Seq<char>> {
    let v = trim_of(value);
    if encode_utf8(v).len() != 9 {
        None
    } else {
        let day = fitting_of(v, 2);
        let rest = v.skip(day.len() as int);
        let month = fitting_of(rest, 3);
        match month_of(month) {
            None => None,
            Some(m) => Some(
                rest.skip(month.len() as int) + "-"@ + padded_of(m as nat, 2) + "-"@ + day,
            ),
        }
    }
}

/// A text without its first `n` characters.
fn without_start(s: &str, n: usize) -> (r: String)
    requires
        n <= s@.len(),
    ensures
        r@ == s@.skip(n as int),
{
    let v = chars_of(s);
    let r = sub_text(&v, n, v.len());
    assert(r@ =~= s@.skip(n as int));
    r
}

/// A date that is written as a day of two bytes, a month of three and a year of four, as
/// `YYYY-MM-DD`.
pub fn parse_expiry(value: &str) -> (r: Option<String>)
    ensures
        text_facts(r) == expiry_of(value@),
{
    let v = trim(value);
    if byte_len(v.as_str()) != 9 {
        return None;
    }
    let day = fitting(v.as_str(), 2);
    proof {
        fitting_is_prefix(v@, 2);
    }
    let rest = without_start(v.as_str(), chars_of(day.as_str()).len());
    let month = fitting(rest.as_str(), 3);
    proof {
        fitting_is_prefix(rest@, 3);
    }
    match month_number(month.as_str()) {
        None => None,
        Some(m) => {
            let mut out = without_start(rest.as_str(), chars_of(month.as_str()).len());
            out.append("-");
            out.append(padded(m, 2).as_str());
            out.append("-");
            out.append(day.as_str());
            Some(out)
        },
    }
}

/// The value that a field of a row denotes, out of a table of such values.
pub open spec fn field_number(
    value: Seq<char>,
    field: Seq<char>,
    numbers: Map<Seq<char>, Decimal>,
) -> Result<DecimalFacts, FeedFault> {
    match number_in(numbers, trim_of(value)) {
        Some(d) => Ok(d),
        None => Err(
            FeedFault::Parse(
                "AngelOne master invalid "@ + field + " "@ + value + ": "@ + float_fault_of(
                    trim_of(value),
                ),
            ),
        ),
    }
}

fn parse_decimal(value: &str, field: &str, numbers: &Numbers) -> (r: Result<Decimal, FeedError>)
    ensures
        outcome(r) == field_number(value@, field@, numbers@),
{
    let t = trim(value);
    match find_number(numbers, t.as_str()) {
        Some(d) => Ok(d),
        None => {
            let mut message = "AngelOne master invalid ".to_owned();
            message.append(field);
            message.append(" ");
            message.append(value);
            message.append(": ");
            message.append(float_fault(t.as_str()).as_str());
            Err(FeedError::Parse(message))
        },
    }
}

/// The strike of a row, which only an option has.
pub open spec fn strike_of(
    row: RawFacts,
    kind: InstrumentType,
    hundredths: Map<Seq<char>, Decimal>,
) -> Result<Option<DecimalFacts>, FeedFault> {
    if is_option_type(kind) {
        match field_number(row.strike, "strike"@, hundredths) {
            Ok(d) => Ok(Some(d)),
            Err(e) => Err(e),
        }
    } else {
        Ok(None)
    }
}

/// The instrument that a row is for, where it is for one.
pub open spec fn instrument_of(
    row: RawFacts,
    numbers: Map<Seq<char>, Decimal>,
    hundredths: Map<Seq<char>, Decimal>,
) -> Result<Option<InstrumentFacts>, FeedFault> {
    let token = trim_of(row.token);
    let symbol = trim_of(row.symbol);
    let underlying = upper_of(trim_of(row.name));
    match (exchange_of(row.exch_seg), kind_of(row)) {
        (Some(exchange), Some(kind)) => if token.len() == 0 || symbol.len() == 0
            || underlying.len() == 0 {
            Ok(None)
        } else {
            match strike_of(row, kind, hundredths) {
                Err(e) => Err(e),
                Ok(strike) => match field_number(row.lotsize, "lotsize"@, numbers) {
                    Err(e) => Err(e),
                    Ok(lot_size) => match field_number(row.tick_size, "tick_size"@, hundredths) {
                        Err(e) => Err(e),
                        Ok(tick_size) => Ok(
                            Some(
                                InstrumentFacts {
                                    instrument_name: if kind == InstrumentType::Spot {
                                        underlying
                                    } else {
                                        symbol
                                    },
                                    instrument_type: kind,
                                    strike,
                                    expiry: expiry_of(row.expiry),
                                    broker: "ANGELONE"@,
                                    instrument_token: upper_of(trim_of(row.exch_seg)) + ":"@
                                        + token,
                                    trading_symbol: symbol,
                                    exchange: exchange_name_of(row.exch_seg),
                                    segment: if trim_of(row.instrumenttype).len() > 0 {
                                        trim_of(row.instrumenttype)
                                    } else {
                                        kind_name(kind)
                                    },
                                    underlying,
                                    lot_size,
                                    tick_size,
                                    tradable: true,
                                },
                            ),
                        ),
                    },
                },
            }
        },
        _ => Ok(None),
    }
}

/// What reading a row came to, as contracts speak of it.
pub open spec fn row_outcome(r: Result<Option<InstrumentDefinition>, FeedError>) -> Result<
    Option<InstrumentFacts>,
    FeedFault,
> {
    match r {
        Ok(Some(i)) => Ok(Some(i@)),
        Ok(None) => Ok(None),
        Err(e) => Err(e@),
    }
}

/// The instrument that a row is for, where it is for one. `numbers` has the values that texts
/// denote, `hundredths` a hundredth of each.
pub fn instrument_from_raw(
    row: &AngeloneRawInstrument,
    numbers: &Numbers,
    hundredths: &Numbers,
) -> (r: Result<Option<InstrumentDefinition>, FeedError>)
    ensures
        row_outcome(r) == instrument_of(row@, numbers@, hundredths@),
{
    let exchange = match exchange_type(row.exch_seg.as_str()) {
        Some(exchange) => exchange,
        None => return Ok(None),
    };
    let instrument_type = match instrument_type(row) {
        Some(kind) => kind,
        None => return Ok(None),
    };
    let token = trim(row.token.as_str());
    let trading_symbol = trim(row.symbol.as_str());
    let underlying = upper(trim(row.name.as_str()).as_str());
    if token.as_str().is_empty() || trading_symbol.as_str().is_empty()
        || underlying.as_str().is_empty() {
        return Ok(None);
    }
    let strike: Option<Decimal> = if instrument_type.is_option() {
        match parse_decimal(row.strike.as_str(), "strike", hundredths) {
            Ok(d) => Some(d),
            Err(e) => return Err(e),
        }
    } else {
        None
    };
    assert(strike_of(row@, instrument_type, hundredths@) == Ok::<
        Option<DecimalFacts>,
        FeedFault,
    >(decimal_facts(strike)));
    let expiry = parse_expiry(row.expiry.as_str());
    let lot_size = match parse_decimal(row.lotsize.as_str(), "lotsize", numbers) {
        Ok(d) => d,
        Err(e) => return Err(e),
    };
    let tick_size = match parse_decimal(row.tick_size.as_str(), "tick_size", hundredths) {
        Ok(d) => d,
        Err(e) => return Err(e),
    };
    let instrument_name = if instrument_type.is_derivative() {
        InstrumentName::new(trading_symbol.as_str())
    } else {
        InstrumentName::new(underlying.as_str())
    };
    let mut instrument_token = upper(trim(row.exch_seg.as_str()).as_str());
    instrument_token.append(":");
    instrument_token.append(token.as_str());
    let raw = trim(row.instrumenttype.as_str());
    let segment = if raw.as_str().is_empty() {
        instrument_type.segment().to_owned()
    } else {
        raw
    };
    Ok(
        Some(
            InstrumentDefinition {
                instrument_name,
                instrument_type,
                strike,
                expiry,
                broker: "ANGELONE".to_owned(),
                instrument_token,
                trading_symbol,
                exchange: exchange_name(row.exch_seg.as_str()),
                segment,
                underlying,
                lot_size,
                tick_size,
                tradable: exchange > 0,
            },
        ),
    )
}

/// The instruments that rows are for.
pub open spec fn instruments_of(
    rows: Seq<RawFacts>,
    numbers: Map<Seq<char>, Decimal>,
    hundredths: Map<Seq<char>, Decimal>,
) -> Result<Seq<InstrumentFacts>, FeedFault>
    decreases rows.len(),
{
    if rows.len() == 0 {
        Ok(Seq::empty())
    } else {
        match instruments_of(rows.drop_last(), numbers, hundredths) {
            Err(e) => Err(e),
            Ok(before) => match instrument_of(rows.last(), numbers, hundredths) {
                Err(e) => Err(e),
                Ok(None) => Ok(before),
                Ok(Some(i)) => Ok(before.push(i)),
            },
        }
    }
}

proof fn instruments_fail(
    rows: Seq<RawFacts>,
    n: int,
    numbers: Map<Seq<char>, Decimal>,
    hundredths: Map<Seq<char>, Decimal>,
)
    requires
        0 <= n <= rows.len(),
        instruments_of(rows.take(n), numbers, hundredths) is Err,
    ensures
        instruments_of(rows, numbers, hundredths) == instruments_of(
            rows.take(n),
            numbers,
            hundredths,
        ),
    decreases rows.len(),
{
    if n == rows.len() {
        assert(rows.take(n) =~= rows);
    } else {
        assert(rows.drop_last().take(n) =~= rows.take(n));
        instruments_fail(rows.drop_last(), n, numbers, hundredths);
    }
}

/// What reading rows came to, as contracts speak of it.
pub open spec fn list_outcome(r: Result<Vec<InstrumentDefinition>, FeedError>) -> Result<
    Seq<InstrumentFacts>,
    FeedFault,
> {
    match r {
        Ok(list) => Ok(instrument_views(list@)),
        Err(e) => Err(e@),
    }
}

/// The instruments of a master. `decoded` is what came of decoding its JSON text into rows.
pub open spec fn master_outcome(
    decoded: Result<Vec<AngeloneRawInstrument>, String>,
    numbers: Map<Seq<char>, Decimal>,
    hundredths: Map<Seq<char>, Decimal>,
) -> Result<Seq<InstrumentFacts>, FeedFault> {
    match decoded {
        Err(error) => Err(FeedFault::Parse("AngelOne master JSON parse failed: "@ + error@)),
        Ok(rows) => instruments_of(raw_views(rows@), numbers, hundredths),
    }
}

/// The instruments of a master. `decoded` is what came of decoding its JSON text into rows.
pub fn parse_master_json(
    decoded: &Result<Vec<AngeloneRawInstrument>, String>,
    numbers: &Numbers,
    hundredths: &Numbers,
) -> (r: Result<Vec<InstrumentDefinition>, FeedError>)
    ensures
        list_outcome(r) == master_outcome(*decoded, numbers@, hundredths@),
{
    let rows = match decoded {
        Ok(rows) => rows,
        Err(error) => return Err(
            FeedError::Parse(
                "AngelOne master JSON parse failed: ".to_owned().concat(error.as_str()),
            ),
        ),
    };
    let ghost all = raw_views(rows@);
    let mut out: Vec<InstrumentDefinition> = Vec::new();
    let mut i: usize = 0;
    assert(all.take(0) =~= Seq::empty());
    assert(instrument_views(out@) =~= Seq::empty());
    while i < rows.len()
        invariant
            i <= rows@.len(),
            all == raw_views(rows@),
            *decoded matches Ok(d) && d == *rows,
            instruments_of(all.take(i as int), numbers@, hundredths@) == Ok::<
                Seq<InstrumentFacts>,
                FeedFault,
            >(instrument_views(out@)),
        decreases rows@.len() - i,
    {
        let ghost before = instrument_views(out@);
        assert(all.take(i + 1).drop_last() =~= all.take(i as int));
        assert(all.take(i + 1).last() == rows@[i as int]@);
        match instrument_from_raw(&rows[i], numbers, hundredths) {
            Err(e) => {
                proof {
                    instruments_fail(all, i + 1, numbers@, hundredths@);
                }
                return Err(e);
            },
            Ok(None) => {},
            Ok(Some(instrument)) => {
                out.push(instrument);
                assert(instrument_views(out@) =~= before.push(instrument@));
            },
        }
        i += 1;
    }
    assert(all.take(i as int) =~= all);
    Ok(out)
}

/// What an instrument with a token is subscribed by.
pub open spec fn key_of(value: Seq<char>) -> Result<KeyFacts, FeedFault> {
    match split_once_of(trim_of(value), ':') {
        None => Err(
            FeedFault::InvalidInstrument(
                "AngelOne instrument_token "@ + value + " must be exch_seg:token"@,
            ),
        ),
        Some((segment, token)) => match exchange_of(segment) {
            None => Err(
                FeedFault::InvalidInstrument("unsupported AngelOne exchange segment "@ + segment),
            ),
            Some(exchange_type) => if trim_of(token).len() == 0 {
                Err(FeedFault::InvalidInstrument("AngelOne instrument token is empty"@))
            } else {
                Ok(KeyFacts { exchange_type, token: trim_of(token) })
            },
        },
    }
}

pub fn instrument_key_from_token(value: &str) -> (r: Result<AngeloneInstrumentKey, FeedError>)
    ensures
        outcome(r) == key_of(value@),
{
    let t = trim(value);
    match split_once(t.as_str(), ':') {
        None => {
            let mut message = "AngelOne instrument_token ".to_owned();
            message.append(value);
            message.append(" must be exch_seg:token");
            Err(FeedError::InvalidInstrument(message))
        },
        Some((segment, token)) => match exchange_type(segment.as_str()) {
            None => Err(
                FeedError::InvalidInstrument(
                    "unsupported AngelOne exchange segment ".to_owned().concat(segment.as_str()),
                ),
            ),
            Some(exchange_type) => {
                let token = trim(token.as_str());
                if token.as_str().is_empty() {
                    Err(
                        FeedError::InvalidInstrument(
                            "AngelOne instrument token is empty".to_owned(),
                        ),
                    )
                } else {
                    Ok(AngeloneInstrumentKey { exchange_type, token })
                }
            },
        },
    }
}

/// What fetching a master came to. `decoded` is what came of decoding the body of the reply
/// into rows. Where it succeeds, the body is what the file of the master is to hold.
pub fn refresh_master(
    config: &AngeloneBrokerSection,
    reply: &HttpReply,
    decoded: &Result<Vec<AngeloneRawInstrument>, String>,
    numbers: &Numbers,
    hundredths: &Numbers,
) -> (r: Result<AngeloneMasterRefreshSummary, FeedError>)
    ensures
        if !reply.success {
            r matches Err(e) && e@ == FeedFault::Http(
                "AngelOne master failed status="@ + decimal_of(reply.status as nat) + " body="@
                    + snippet_of(reply.body@, 300),
            )
        } else {
            match master_outcome(*decoded, numbers@, hundredths@) {
                Err(fault) => r matches Err(e) && e@ == fault,
                Ok(list) => r matches Ok(s) && s.instrument_count == list.len() && s.output_path@
                    == config.master_file@ && s.refreshed,
            }
        },
{
    if !reply.success {
        let mut message = "AngelOne master failed status=".to_owned();
        message.append(decimal(reply.status as u64).as_str());
        message.append(" body=");
        message.append(snippet(reply.body.as_str(), 300).as_str());
        return Err(FeedError::Http(message));
    }
    match parse_master_json(decoded, numbers, hundredths) {
        Err(e) => Err(e),
        Ok(list) => Ok(
            AngeloneMasterRefreshSummary {
                instrument_count: list.len(),
                output_path: config.master_file.clone(),
                refreshed: true,
            },
        ),
    }
}

/// Whether a file was written this day, in Indian Standard Time. `modified` is when it was
/// written, where there is one.
pub fn master_file_current_today(modified: Option<u64>, now_utc: u64) -> (r: bool)
    ensures
        r == (modified matches Some(m) && ist_day_of(m) == ist_day_of(now_utc)),
{
    match modified {
        Some(m) => on_same_day(m, now_utc),
        None => false,
    }
}

/// What is to be done about the master.
#[derive(Debug, PartialEq, Eq)]
pub enum MasterStep {
    Keep(AngeloneMasterRefreshSummary),
    Fetch,
}

/// Decides whether the master is fetched anew: where it was not written this day. `read` is
/// what came of reading the master that is there.
pub fn ensure_master_current(
    config: &AngeloneBrokerSection,
    modified: Option<u64>,
    read: Result<Vec<InstrumentDefinition>, FeedError>,
    now_utc: u64,
) -> (r: Result<MasterStep, FeedError>)
    ensures
        if modified matches Some(m) && ist_day_of(m) == ist_day_of(now_utc) {
            match read {
                Err(error) => r == Err::<MasterStep, FeedError>(error),
                Ok(list) => r matches Ok(MasterStep::Keep(s)) && s.instrument_count == list@.len()
                    && s.output_path@ == config.master_file@ && !s.refreshed,
            }
        } else {
            r matches Ok(MasterStep::Fetch)
        },
{
    if !master_file_current_today(modified, now_utc) {
        return Ok(MasterStep::Fetch);
    }
    match read {
        Err(e) => Err(e),
        Ok(list) => Ok(
            MasterStep::Keep(
                AngeloneMasterRefreshSummary {
                    instrument_count: list.len(),
                    output_path: config.master_file.clone(),
                    refreshed: false,
                },
            ),
        ),
    }
}

/// A date as `YYYY-MM-DD`, with a plus before a year that does not fit into four places.
pub open spec fn long_date_text(date: (int, int, int)) -> Seq<char> {
    if date.0 > 9_999 {
        "+"@ + date_text(date)
    } else {
        date_text(date)
    }
}

/// The date in Indian Standard Time.
pub fn current_ist_date(now_utc: u64) -> (r: String)
    requires
        now_utc <= LAST_UTC,
    ensures
        r@ == long_date_text(date_of(local_day(now_utc as int, IST_OFFSET_SECONDS as int))),
{
    let (day, _) = ist_day_and_second(now_utc);
    let (year, _, _) = civil_from_days(day);
    if year > 9_999 {
        "+".to_owned().concat(format_day(day).as_str())
    } else {
        format_day(day)
    }
}

/// A row that is for an instrument has a token by which it can be subscribed: that of the
/// row, at the exchange of its segment.
pub proof fn instrument_can_be_subscribed(
    row: RawFacts,
    numbers: Map<Seq<char>, Decimal>,
    hundredths: Map<Seq<char>, Decimal>,
)
    requires
        instrument_of(row, numbers, hundredths) matches Ok(Some(_)),
    ensures
        instrument_of(row, numbers, hundredths) matches Ok(Some(i)) && key_of(i.instrument_token)
            == Ok::<KeyFacts, FeedFault>(
            KeyFacts { exchange_type: exchange_of(row.exch_seg)->0, token: trim_of(row.token) },
        ),
{
    let segment = upper_of(trim_of(row.exch_seg));
    let token = trim_of(row.token);
    reveal_strlit(":");
    reveal_strlit("NSE");
    reveal_strlit("NFO");
    reveal_strlit("BSE");
    reveal_strlit("BFO");
    reveal_strlit("MCX");
    reveal_strlit("NCDEX");
    reveal_strlit("NCO");
    reveal_strlit("CDS");
    assert(forall|k: int| 0 <= k < segment.len() ==> segment[k] != ':');
    split_once_at(segment, ':', token);
    trimming_is_complete(row.token);
    assert(segment + ":"@ + token =~= segment + seq![':'] + token);
    trim_keeps(segment + ":"@ + token);
    assert(trim_of(segment) =~= segment) by {
        trim_keeps(segment);
    }
    assert(upper_of(segment) =~= segment);
}

/// An instrument of the master tells its row: its token at its exchange, its symbol, what it is
/// of, what it is and when it expires. It has a strike where it is an option, and only there; a
/// spot has the name of what it is of, everything else that of its symbol.
pub proof fn instruments_tell_their_rows(
    row: RawFacts,
    numbers: Map<Seq<char>, Decimal>,
    hundredths: Map<Seq<char>, Decimal>,
)
    ensures
        instrument_of(row, numbers, hundredths) matches Ok(Some(i)) ==> {
            &&& i.trading_symbol == trim_of(row.symbol)
            &&& i.trading_symbol.len() > 0
            &&& i.underlying == upper_of(trim_of(row.name))
            &&& i.underlying.len() > 0
            &&& i.instrument_token == upper_of(trim_of(row.exch_seg)) + ":"@ + trim_of(row.token)
            &&& trim_of(row.token).len() > 0
            &&& i.instrument_name == if i.instrument_type == InstrumentType::Spot {
                i.underlying
            } else {
                i.trading_symbol
            }
            &&& i.strike is Some <==> i.instrument_type == InstrumentType::Call || i.instrument_type
                == InstrumentType::Put
            &&& i.tradable
            &&& i.broker == "ANGELONE"@
            &&& i.instrument_type == InstrumentType::Spot ==> trim_of(row.expiry).len() == 0
            &&& i.instrument_type == InstrumentType::Call ==> ends(
                upper_of(trim_of(row.symbol)),
                "CE"@,
            )
            &&& i.instrument_type == InstrumentType::Put ==> ends(
                upper_of(trim_of(row.symbol)),
                "PE"@,
            )
            &&& i.instrument_type == InstrumentType::Fut ==> starts(
                upper_of(trim_of(row.instrumenttype)),
                "FUT"@,
            )
            &&& number_in(numbers, trim_of(row.lotsize)) == Some(i.lot_size)
            &&& number_in(hundredths, trim_of(row.tick_size)) == Some(i.tick_size)
            &&& i.strike is Some ==> number_in(hundredths, trim_of(row.strike)) == i.strike
        },
{
}

/// The instruments of the master are those of its rows, and of each row that has one there is it;
/// a row that cannot be read is a fault of the whole.
pub proof fn master_has_the_instruments_of_its_rows(
    rows: Seq<RawFacts>,
    numbers: Map<Seq<char>, Decimal>,
    hundredths: Map<Seq<char>, Decimal>,
    it: InstrumentFacts,
)
    ensures
        match instruments_of(rows, numbers, hundredths) {
            Ok(all) => {
                &&& all.contains(it) <==> exists|i: int|
                    0 <= i < rows.len() && #[trigger] instrument_of(rows[i], numbers, hundredths)
                        == Ok::<Option<InstrumentFacts>, FeedFault>(Some(it))
                &&& forall|i: int|
                    0 <= i < rows.len() ==> (
                    #[trigger] instrument_of(rows[i], numbers, hundredths)) is Ok
            },
            Err(e) => exists|i: int|
                0 <= i < rows.len() && #[trigger] instrument_of(rows[i], numbers, hundredths)
                    == Err::<Option<InstrumentFacts>, FeedFault>(e),
        },
    decreases rows.len(),
{
    if rows.len() > 0 {
        let d = rows.drop_last();
        let n = rows.len() - 1;
        master_has_the_instruments_of_its_rows(d, numbers, hundredths, it);
        assert(rows[n] == rows.last());
        assert forall|i: int|
            #![trigger d[i]]
            #![trigger rows[i]]
            0 <= i < n implies d[i] == rows[i] by {}
        let last = instrument_of(rows[n], numbers, hundredths);
        match instruments_of(d, numbers, hundredths) {
            Err(e) => {
                let i = choose|i: int|
                    0 <= i < d.len() && #[trigger] instrument_of(d[i], numbers, hundredths) == Err::<
                        Option<InstrumentFacts>,
                        FeedFault,
                    >(e);
                assert(instrument_of(rows[i], numbers, hundredths) == Err::<
                    Option<InstrumentFacts>,
                    FeedFault,
                >(e));
            },
            Ok(before) => {
                if last is Ok {
                    let all = instruments_of(rows, numbers, hundredths)->Ok_0;
                    assert forall|i: int| 0 <= i < rows.len() implies (
                    #[trigger] instrument_of(rows[i], numbers, hundredths)) is Ok by {
                        if i < n {
                            assert(instrument_of(d[i], numbers, hundredths) is Ok);
                        }
                    }
                    if before.contains(it) {
                        let k = choose|k: int| 0 <= k < before.len() && before[k] == it;
                        assert(all[k] == it);
                        let i = choose|i: int|
                            0 <= i < d.len() && #[trigger] instrument_of(d[i], numbers, hundredths)
                                == Ok::<Option<InstrumentFacts>, FeedFault>(Some(it));
                        assert(instrument_of(rows[i], numbers, hundredths) == Ok::<
                            Option<InstrumentFacts>,
                            FeedFault,
                        >(Some(it)));
                    }
                    if all.contains(it) && !before.contains(it) {
                        let k = choose|k: int| 0 <= k < all.len() && all[k] == it;
                        if k < before.len() {
                            assert(before[k] == it);
                        }
                    }
                    if exists|i: int|
                        0 <= i < rows.len() && #[trigger] instrument_of(
                            rows[i],
                            numbers,
                            hundredths,
                        ) == Ok::<Option<InstrumentFacts>, FeedFault>(Some(it)) {
                        let i = choose|i: int|
                            0 <= i < rows.len() && #[trigger] instrument_of(
                                rows[i],
                                numbers,
                                hundredths,
                            ) == Ok::<Option<InstrumentFacts>, FeedFault>(Some(it));
                        if i < n {
                            assert(instrument_of(d[i], numbers, hundredths) == Ok::<
                                Option<InstrumentFacts>,
                                FeedFault,
                            >(Some(it)));
                        } else {
                            assert(all[before.len() as int] == it);
                        }
                    }
                }
            },
        }
    }
}

/// Two segments have the same number only where they are of the same exchange and the same kind:
/// where they are the same but for blanks and the case of their letters, or both of the
/// commodities exchange.
pub proof fn segments_have_their_own_numbers(a: Seq<char>, b: Seq<char>)
    requires
        exchange_of(a) is Some,
        exchange_of(a) == exchange_of(b),
    ensures
        upper_of(trim_of(a)) == upper_of(trim_of(b)) || exchange_name_of(a) == "NCDEX"@
            && exchange_name_of(b) == "NCDEX"@,
{
    reveal_strlit("NSE");
    reveal_strlit("NFO");
    reveal_strlit("BSE");
    reveal_strlit("BFO");
    reveal_strlit("NCDEX");
    reveal_strlit("NCO");
    assert("NCO"@[1] != "NSE"@[1] && "NCO"@[1] != "NFO"@[1]);
    assert("NCO"@[0] != "BSE"@[0] && "NCO"@[0] != "BFO"@[0]);
}

/// An expiry is told by its year, its month as a number and its day, whatever the case of the
/// letters of its month.
pub proof fn expiries_are_told_by_year_month_and_day(
    day: Seq<char>,
    month: Seq<char>,
    year: Seq<char>,
)
    requires
        day.len() == 2,
        month.len() == 3,
        year.len() == 4,
        forall|i: int| 0 <= i < 2 ==> (#[trigger] day[i] as u32) < 128,
        forall|i: int| 0 <= i < 3 ==> (#[trigger] month[i] as u32) < 128,
        forall|i: int| 0 <= i < 4 ==> (#[trigger] year[i] as u32) < 128,
        trim_of(day + month + year) == day + month + year,
    ensures
        expiry_of(day + month + year) is Some <==> month_of(month) is Some,
        expiry_of(day + month + year) is Some ==> expiry_of(day + month + year)->0 == year + "-"@
            + padded_of(month_of(month)->0 as nat, 2) + "-"@ + day,
{
    let v = day + month + year;
    let rest = v.skip(2);
    plain_text_is_cut_anywhere(v, 0, 2);
    plain_text_is_cut_anywhere(rest, 0, 3);
    assert(v.take(2) =~= day);
    assert(rest.take(3) =~= month);
    assert(rest.skip(3) =~= year);
}

/// A segment has the number that the exchange is told by on the wire, and no other segment has
/// it: the cash segments one and three, their derivatives two and four, and the commodities and
/// currencies five, seven and thirteen. Prices of currencies come in ten millionths, all others
/// in hundredths.
pub proof fn segments_are_told_by_their_numbers(segment: Seq<char>, exchange: u8)
    ensures
        ({
            let s = upper_of(trim_of(segment));
            &&& exchange_of(segment) == Some(1u8) <==> s == "NSE"@
            &&& exchange_of(segment) == Some(2u8) <==> s == "NFO"@
            &&& exchange_of(segment) == Some(3u8) <==> s == "BSE"@
            &&& exchange_of(segment) == Some(4u8) <==> s == "BFO"@
            &&& exchange_of(segment) == Some(5u8) <==> s == "MCX"@
            &&& exchange_of(segment) == Some(13u8) <==> s == "CDS"@
            &&& exchange_of(segment) == Some(7u8) <==> s == "NCDEX"@ || s == "NCO"@
        }),
        exchange == 13 <==> divisor_of(exchange) == 10_000_000,
        exchange != 13 ==> divisor_of(exchange) == 100,
{
    reveal_strlit("NSE");
    reveal_strlit("NFO");
    reveal_strlit("BSE");
    reveal_strlit("BFO");
    reveal_strlit("MCX");
    reveal_strlit("CDS");
    reveal_strlit("NCDEX");
    reveal_strlit("NCO");
    assert("NSE"@[1] != "NFO"@[1]);
    assert("NSE"@[0] != "BSE"@[0]);
    assert("NSE"@[0] != "BFO"@[0]);
    assert("NSE"@[0] != "MCX"@[0]);
    assert("NSE"@[0] != "CDS"@[0]);
    assert("NSE"@.len() != "NCDEX"@.len());
    assert("NSE"@[1] != "NCO"@[1]);
    assert("NFO"@[0] != "BSE"@[0]);
    assert("NFO"@[0] != "BFO"@[0]);
    assert("NFO"@[0] != "MCX"@[0]);
    assert("NFO"@[0] != "CDS"@[0]);
    assert("NFO"@.len() != "NCDEX"@.len());
    assert("NFO"@[1] != "NCO"@[1]);
    assert("BSE"@[1] != "BFO"@[1]);
    assert("BSE"@[0] != "MCX"@[0]);
    assert("BSE"@[0] != "CDS"@[0]);
    assert("BSE"@.len() != "NCDEX"@.len());
    assert("BSE"@[0] != "NCO"@[0]);
    assert("BFO"@[0] != "MCX"@[0]);
    assert("BFO"@[0] != "CDS"@[0]);
    assert("BFO"@.len() != "NCDEX"@.len());
    assert("BFO"@[0] != "NCO"@[0]);
    assert("MCX"@[0] != "CDS"@[0]);
    assert("MCX"@.len() != "NCDEX"@.len());
    assert("MCX"@[0] != "NCO"@[0]);
    assert("CDS"@.len() != "NCDEX"@.len());
    assert("CDS"@[0] != "NCO"@[0]);
    assert("NCDEX"@.len() != "NCO"@.len());
}

} // verus!
