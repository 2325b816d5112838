//! The masters of FYERS, and the derivatives that are chosen among them.
use crate::adapters::master_file::{count_csv_instruments, is_fresh_for_epoch_day};
use crate::adapters::universe::{
    arrange, arranged_of, option_within, options_among, references, references_in, Order,
    StrikeWindow, UniverseSummary,
};
use crate::binary64::{
    decimal_facts, find_number, number_in, text_facts, Decimal, DecimalFacts, Numbers, Real,
};
use crate::calendar::{date_of, date_text, format_day};
use crate::config::{FyersBrokerSection, InstrumentSelection};
use crate::feeder::catalog::{
    cells, cells_of, csv_row_of, flag_text, instrument_views, is_option_type, kind_name, parse_row,
    row_of, InstrumentDefinition, InstrumentFacts, InstrumentType,
};
use crate::feeder::error::{FeedError, FeedFault};
use crate::feeder::event::InstrumentName;
use crate::json::{field_of, json_views, parsed_text, read_json, Json, JsonFacts, Shape, ShapeFacts};
use crate::order::{
    ascending_items, ascending_of, filter_push, sort, sorted_of, sorting_orders, text_before, text_lt,
    text_order_is_total, text_order_is_transitive, Ranked,
};
use crate::text::{
    chars_of, copy_texts, decimal, decimal_of, ends, ends_with, lines, lines_of, parse_i64,
    parse_i64_of, said_lines, same, split, split_of, split_of_nonempty, starts, starts_with,
    sub_text, trim, trim_of, upper, upper_of, views,
};
use vstd::prelude::*;

verus! {

pub type FyersUniverseSummary = UniverseSummary;

/// What became of the master of a source.
#[derive(Debug, PartialEq, Eq)]
pub struct FyersMasterRefreshSummary {
    pub source: String,
    pub url: String,
    pub output_path: String,
    pub instrument_count: usize,
    pub downloaded: bool,
}

/// Whether there is any master to keep.
pub fn check_master_urls(config: &FyersBrokerSection) -> (r: Result<(), FeedError>)
    ensures
        match r {
            Ok(_) => config.master_urls@.len() > 0,
            Err(e) => config.master_urls@.len() == 0 && e@ == FeedFault::Config(
                "FYERS master_urls cannot be empty"@,
            ),
        },
{
    if config.master_urls.len() == 0 {
        return Err(FeedError::Config("FYERS master_urls cannot be empty".to_owned()));
    }
    Ok(())
}

/// Whether a character may stand in the name of a source.
pub open spec fn is_source_char(c: char) -> bool {
    ('a' <= c && c <= 'z') || ('A' <= c && c <= 'Z') || ('0' <= c && c <= '9') || c == '_' || c
        == '-'
}

/// Whether a text can be the name of a source.
pub open spec fn is_source(s: Seq<char>) -> bool {
    s.len() > 0 && forall|i: int| 0 <= i < s.len() ==> is_source_char(#[trigger] s[i])
}

/// The name of a source as files are named by it.
pub fn normalize_source(source: &str) -> (r: Result<String, FeedError>)
    ensures
        ({
            let normalized = upper_of(trim_of(source@));
            match r {
                Ok(name) => is_source(normalized) && name@ == normalized,
                Err(e) => !is_source(normalized) && e@ == FeedFault::Config(
                    "invalid FYERS master source "@ + source@,
                ),
            }
        }),
{
    let normalized = upper(trim(source).as_str());
    let v = chars_of(normalized.as_str());
    let mut fine = v.len() > 0;
    let mut i: usize = 0;
    while i < v.len()
        invariant
            i <= v@.len(),
            v@ == normalized@,
            fine == (v@.len() > 0 && forall|k: int| 0 <= k < i ==> is_source_char(#[trigger] v@[k])),
        decreases v@.len() - i,
    {
        let c = v[i];
        let allowed = ('a' <= c && c <= 'z') || ('A' <= c && c <= 'Z') || ('0' <= c && c <= '9')
            || c == '_' || c == '-';
        assert(allowed == is_source_char(v@[i as int]));
        fine = fine && allowed;
        i += 1;
    }
    if fine {
        Ok(normalized)
    } else {
        Err(FeedError::Config("invalid FYERS master source ".to_owned().concat(source)))
    }
}

/// The name of the file that the master of a source is kept in.
pub fn master_file_name(source: &str) -> (r: String)
    ensures
        r@ == source@ + ".csv"@,
{
    source.to_owned().concat(".csv")
}

/// What is to be done about the master of a source.
#[derive(Debug, PartialEq, Eq)]
pub enum RefreshStep {
    /// It is of today: it is kept.
    Keep,
    /// It is to be fetched. What is told of that.
    Download(String),
}

/// What is to be done about the master of a source on a day. `modified` is the second at
/// which its file was written, where there is one.
pub fn refresh_step(source: &str, modified: Option<u64>, today_epoch_day: u64) -> (r: RefreshStep)
    ensures
        match r {
            RefreshStep::Keep => modified matches Some(m) && m / 86_400 >= today_epoch_day,
            RefreshStep::Download(line) => !(modified matches Some(m) && m / 86_400
                >= today_epoch_day) && line@ == "FYERS "@ + source@ + " master downloading"@,
        },
{
    if is_fresh_for_epoch_day(modified, today_epoch_day) {
        RefreshStep::Keep
    } else {
        let mut line = "FYERS ".to_owned();
        line.append(source);
        line.append(" master downloading");
        RefreshStep::Download(line)
    }
}

/// The summary of a master that is kept. `content` is what its file holds.
pub fn kept_master(source: &str, url: &str, output_path: &str, content: &str) -> (r:
    FyersMasterRefreshSummary)
    ensures
        r.source@ == source@,
        r.url@ == url@,
        r.output_path@ == output_path@,
        r.instrument_count == if said_lines(lines_of(content@)) > 0 {
            said_lines(lines_of(content@)) - 1
        } else {
            0
        },
        !r.downloaded,
{
    FyersMasterRefreshSummary {
        source: source.to_owned(),
        url: url.to_owned(),
        output_path: output_path.to_owned(),
        instrument_count: count_csv_instruments(content),
        downloaded: false,
    }
}

/// The summary of a master that was fetched, of so many instruments.
pub fn fetched_master(source: &str, url: &str, output_path: &str, instrument_count: usize) -> (r:
    FyersMasterRefreshSummary)
    ensures
        r.source@ == source@,
        r.url@ == url@,
        r.output_path@ == output_path@,
        r.instrument_count == instrument_count,
        r.downloaded,
{
    FyersMasterRefreshSummary {
        source: source.to_owned(),
        url: url.to_owned(),
        output_path: output_path.to_owned(),
        instrument_count,
        downloaded: true,
    }
}

/// Why a master could not be fetched.
#[derive(Debug)]
pub enum FetchFailure {
    Request(String),
    Status(String),
    Json(String),
}

/// What is said of a master that could not be fetched.
pub fn fetch_failed(source: &str, failure: &FetchFailure) -> (r: FeedError)
    ensures
        r@ == match *failure {
            FetchFailure::Request(error) => FeedFault::Http(
                "FYERS "@ + source@ + " request failed: "@ + error@,
            ),
            FetchFailure::Status(error) => FeedFault::Http(
                "FYERS "@ + source@ + " returned HTTP error: "@ + error@,
            ),
            FetchFailure::Json(error) => FeedFault::Parse(
                "FYERS "@ + source@ + " JSON parse failed: "@ + error@,
            ),
        },
{
    let mut message = "FYERS ".to_owned();
    message.append(source);
    match failure {
        FetchFailure::Request(error) => {
            message.append(" request failed: ");
            message.append(error.as_str());
            FeedError::Http(message)
        },
        FetchFailure::Status(error) => {
            message.append(" returned HTTP error: ");
            message.append(error.as_str());
            FeedError::Http(message)
        },
        FetchFailure::Json(error) => {
            message.append(" JSON parse failed: ");
            message.append(error.as_str());
            FeedError::Parse(message)
        },
    }
}

/// A value as a text, where it is a text, a number or a truth value.
pub open spec fn plain_text_of(json: JsonFacts) -> Option<Seq<char>> {
    match json.shape {
        ShapeFacts::Text(t) => Some(t),
        ShapeFacts::Number { .. } => Some(json.text),
        ShapeFacts::Bool(b) => Some(flag_text(b)),
        _ => None,
    }
}

fn value_to_string(json: &Json) -> (r: Option<String>)
    ensures
        text_facts(r) == plain_text_of(json@),
{
    match &json.shape {
        Shape::Text(t) => Some(t.clone()),
        Shape::Number { .. } => Some(json.text.clone()),
        Shape::Bool(b) => Some(
            if *b {
                "true".to_owned()
            } else {
                "false".to_owned()
            },
        ),
        _ => None,
    }
}

/// The text of a field, where it says something.
pub open spec fn text_field(fields: JsonFacts, name: Seq<char>) -> Option<Seq<char>> {
    match field_of(fields, name) {
        None => None,
        Some(json) => match plain_text_of(json) {
            None => None,
            Some(t) => if trim_of(t).len() == 0 || trim_of(t) == "None"@ {
                None
            } else {
                Some(trim_of(t))
            },
        },
    }
}

fn string_field(fields: &Json, name: &str) -> (r: Option<String>)
    ensures
        text_facts(r) == text_field(fields@, name@),
{
    match fields.field(name) {
        None => None,
        Some(json) => match value_to_string(json) {
            None => None,
            Some(t) => {
                let t = trim(t.as_str());
                if t.as_str().is_empty() || same(t.as_str(), "None") {
                    None
                } else {
                    Some(t)
                }
            },
        },
    }
}

/// The number that a field is, or that its text denotes.
pub open spec fn number_field(
    fields: JsonFacts,
    name: Seq<char>,
    numbers: Map<Seq<char>, Decimal>,
) -> Option<DecimalFacts> {
    match field_of(fields, name) {
        None => None,
        Some(json) => match json.shape {
            ShapeFacts::Number { .. } => number_in(numbers, json.text),
            ShapeFacts::Text(t) => number_in(numbers, trim_of(t)),
            _ => None,
        },
    }
}

fn f64_field(fields: &Json, name: &str, numbers: &Numbers) -> (r: Option<Decimal>)
    ensures
        decimal_facts(r) == number_field(fields@, name@, numbers@),
{
    match fields.field(name) {
        None => None,
        Some(json) => match &json.shape {
            Shape::Number { .. } => find_number(numbers, json.text.as_str()),
            Shape::Text(t) => find_number(numbers, trim(t.as_str()).as_str()),
            _ => None,
        },
    }
}

/// The whole number that a value is. One that is too great for its sign wraps around.
pub open spec fn whole_of(json: JsonFacts) -> Option<int> {
    match json.shape {
        ShapeFacts::Number { unsigned, signed, .. } => match signed {
            Some(n) => Some(n as int),
            None => match unsigned {
                Some(n) => Some(
                    if n > i64::MAX {
                        n - 0x1_0000_0000_0000_0000
                    } else {
                        n as int
                    },
                ),
                None => None,
            },
        },
        ShapeFacts::Text(t) => parse_i64_of(trim_of(t)),
        _ => None,
    }
}

pub open spec fn whole_facts(r: Option<i64>) -> Option<int> {
    match r {
        Some(n) => Some(n as int),
        None => None,
    }
}

fn value_to_i64(json: &Json) -> (r: Option<i64>)
    ensures
        whole_facts(r) == whole_of(json@),
{
    match &json.shape {
        Shape::Number { unsigned, signed, .. } => match signed {
            Some(n) => Some(*n),
            None => match unsigned {
                Some(n) => {
                    let n: u64 = *n;
                    if n > 0x7fff_ffff_ffff_ffff {
                        let below: i64 = (u64::MAX - n) as i64;
                        Some(-below - 1)
                    } else {
                        Some(n as i64)
                    }
                },
                None => None,
            },
        },
        Shape::Text(t) => parse_i64(trim(t.as_str()).as_str()),
        _ => None,
    }
}

/// The whole number of a field.
pub open spec fn whole_field(fields: JsonFacts, name: Seq<char>) -> Option<int> {
    match field_of(fields, name) {
        None => None,
        Some(json) => whole_of(json),
    }
}

fn i64_field(fields: &Json, name: &str) -> (r: Option<i64>)
    ensures
        whole_facts(r) == whole_field(fields@, name@),
{
    match fields.field(name) {
        None => None,
        Some(json) => value_to_i64(json),
    }
}

/// The date, in UTC, of a moment after 1970-01-01.
pub open spec fn unix_date_of(seconds: int) -> Option<Seq<char>> {
    if seconds <= 0 {
        None
    } else {
        Some(date_text(date_of(seconds / 86_400)))
    }
}

fn unix_seconds_to_yyyy_mm_dd(seconds: i64) -> (r: Option<String>)
    ensures
        text_facts(r) == unix_date_of(seconds as int),
{
    if seconds <= 0 {
        None
    } else {
        Some(format_day(seconds / 86_400))
    }
}

/// The date of expiry that a value is: a moment, or a text that is taken as it is.
pub open spec fn expiry_of(json: JsonFacts) -> Option<Seq<char>> {
    match json.shape {
        ShapeFacts::Number { .. } => match whole_of(json) {
            Some(seconds) => unix_date_of(seconds),
            None => None,
        },
        ShapeFacts::Text(t) => {
            let trimmed = trim_of(t);
            if trimmed.len() == 0 {
                None
            } else {
                match parse_i64_of(trimmed) {
                    Some(seconds) => match unix_date_of(seconds) {
                        Some(date) => Some(date),
                        None => Some(trimmed),
                    },
                    None => Some(trimmed),
                }
            }
        },
        _ => None,
    }
}

fn value_to_expiry(json: &Json) -> (r: Option<String>)
    ensures
        text_facts(r) == expiry_of(json@),
{
    match &json.shape {
        Shape::Number { .. } => match value_to_i64(json) {
            Some(seconds) => unix_seconds_to_yyyy_mm_dd(seconds),
            None => None,
        },
        Shape::Text(t) => {
            let trimmed = trim(t.as_str());
            if trimmed.as_str().is_empty() {
                return None;
            }
            if let Some(seconds) = parse_i64(trimmed.as_str()) {
                if let Some(date) = unix_seconds_to_yyyy_mm_dd(seconds) {
                    return Some(date);
                }
            }
            Some(trimmed)
        },
        _ => None,
    }
}

pub open spec fn expiry_field_of(fields: JsonFacts, name: Seq<char>) -> Option<Seq<char>> {
    match field_of(fields, name) {
        None => None,
        Some(json) => expiry_of(json),
    }
}

fn expiry_field(fields: &Json, name: &str) -> (r: Option<String>)
    ensures
        text_facts(r) == expiry_field_of(fields@, name@),
{
    match fields.field(name) {
        None => None,
        Some(json) => value_to_expiry(json),
    }
}

/// The exchange that the name of a source tells.
pub open spec fn source_exchange(source: Seq<char>) -> Option<Seq<char>> {
    let s = upper_of(source);
    if starts(s, "NSE_"@) {
        Some("NSE"@)
    } else if starts(s, "BSE_"@) {
        Some("BSE"@)
    } else if starts(s, "MCX_"@) {
        Some("MCX"@)
    } else {
        None
    }
}

fn exchange_from_source(source: &str) -> (r: Option<String>)
    ensures
        text_facts(r) == source_exchange(source@),
{
    let s = upper(source);
    if starts_with(s.as_str(), "NSE_") {
        Some("NSE".to_owned())
    } else if starts_with(s.as_str(), "BSE_") {
        Some("BSE".to_owned())
    } else if starts_with(s.as_str(), "MCX_") {
        Some("MCX".to_owned())
    } else {
        None
    }
}

/// The exchange of a number.
pub open spec fn code_exchange(code: int) -> Option<Seq<char>> {
    if code == 10 {
        Some("NSE"@)
    } else if code == 12 {
        Some("BSE"@)
    } else {
        None
    }
}

/// The exchange of an instrument: as it is told, by its source, or by its number.
pub open spec fn exchange_in(source: Seq<char>, fields: JsonFacts) -> Seq<char> {
    match text_field(fields, "exchangeName"@) {
        Some(name) => upper_of(name),
        None => match source_exchange(source) {
            Some(name) => upper_of(name),
            None => match whole_field(fields, "exchange"@) {
                None => upper_of("FYERS"@),
                Some(code) => match code_exchange(code) {
                    Some(name) => upper_of(name),
                    None => upper_of("FYERS"@),
                },
            },
        },
    }
}

fn exchange_of(source: &str, fields: &Json) -> (r: String)
    ensures
        r@ == exchange_in(source@, fields@),
{
    if let Some(name) = string_field(fields, "exchangeName") {
        return upper(name.as_str());
    }
    if let Some(name) = exchange_from_source(source) {
        return upper(name.as_str());
    }
    match i64_field(fields, "exchange") {
        None => upper("FYERS"),
        Some(code) => {
            if code == 10 {
                upper("NSE")
            } else if code == 12 {
                upper("BSE")
            } else {
                upper("FYERS")
            }
        },
    }
}

/// A text without an ending, however often it has it.
pub open spec fn without_endings(s: Seq<char>, ending: Seq<char>) -> Seq<char>
    decreases s.len(),
{
    if ending.len() > 0 && ends(s, ending) {
        without_endings(s.take(s.len() - ending.len()), ending)
    } else {
        s
    }
}

fn drop_endings(s: &str, ending: &str) -> (r: String)
    requires
        ending@.len() > 0,
    ensures
        r@ == without_endings(s@, ending@),
{
    let mut rest = s.to_owned();
    let count: usize = chars_of(ending).len();
    while ends_with(rest.as_str(), ending)
        invariant
            count == ending@.len() > 0,
            without_endings(s@, ending@) == without_endings(rest@, ending@),
        decreases rest@.len(),
    {
        let v = chars_of(rest.as_str());
        let n: usize = v.len() - count;
        assert(v@.subrange(0, n as int) =~= rest@.take(n as int));
        rest = sub_text(&v, 0, n);
    }
    rest
}

/// The underlying that a symbol names: what stands behind its exchange and before a hyphen,
/// without the endings of futures and options.
pub open spec fn underlying_in(symbol: Seq<char>) -> Option<Seq<char>> {
    let parts = split_of(symbol, ':');
    let name = if parts.len() > 1 {
        parts[1]
    } else {
        symbol
    };
    let bare = without_endings(
        without_endings(without_endings(split_of(name, '-')[0], "FUT"@), "CE"@),
        "PE"@,
    );
    if bare.len() == 0 {
        None
    } else {
        Some(bare)
    }
}

fn infer_underlying_from_symbol(trading_symbol: &str) -> (r: Option<String>)
    ensures
        text_facts(r) == underlying_in(trading_symbol@),
{
    let parts = split(trading_symbol, ':');
    assert(views(parts@).len() == parts@.len());
    let name = if parts.len() > 1 {
        parts[1].clone()
    } else {
        trading_symbol.to_owned()
    };
    let pieces = split(name.as_str(), '-');
    proof {
        split_of_nonempty(name@, '-');
        assert(views(pieces@).len() == pieces@.len());
        assert(views(pieces@)[0] == pieces@[0]@);
        reveal_strlit("FUT");
        reveal_strlit("CE");
        reveal_strlit("PE");
    }
    let bare = drop_endings(pieces[0].as_str(), "FUT");
    let bare = drop_endings(bare.as_str(), "CE");
    let bare = drop_endings(bare.as_str(), "PE");
    if bare.as_str().is_empty() {
        None
    } else {
        Some(bare)
    }
}

/// The kind of an instrument: as it is told, by the ending of its symbol, or by its number.
pub open spec fn kind_in(fields: JsonFacts, symbol: Seq<char>) -> Option<InstrumentType> {
    let told = match text_field(fields, "optType"@) {
        Some(t) => upper_of(t),
        None => upper_of(""@),
    };
    if told == "CE"@ {
        Some(InstrumentType::Call)
    } else if told == "PE"@ {
        Some(InstrumentType::Put)
    } else if ends(symbol, "CE"@) {
        Some(InstrumentType::Call)
    } else if ends(symbol, "PE"@) {
        Some(InstrumentType::Put)
    } else if ends(symbol, "FUT"@) {
        Some(InstrumentType::Fut)
    } else {
        match whole_field(fields, "exInstType"@) {
            None => Some(InstrumentType::Spot),
            Some(n) => if n == 11 {
                Some(InstrumentType::Fut)
            } else if n == 0 || n == 10 {
                Some(InstrumentType::Spot)
            } else {
                None
            },
        }
    }
}

fn fyers_instrument_type(fields: &Json, trading_symbol: &str) -> (r: Option<InstrumentType>)
    ensures
        r == kind_in(fields@, trading_symbol@),
{
    let told = match string_field(fields, "optType") {
        Some(t) => upper(t.as_str()),
        None => upper(""),
    };
    if same(told.as_str(), "CE") {
        Some(InstrumentType::Call)
    } else if same(told.as_str(), "PE") {
        Some(InstrumentType::Put)
    } else if ends_with(trading_symbol, "CE") {
        Some(InstrumentType::Call)
    } else if ends_with(trading_symbol, "PE") {
        Some(InstrumentType::Put)
    } else if ends_with(trading_symbol, "FUT") {
        Some(InstrumentType::Fut)
    } else {
        match i64_field(fields, "exInstType") {
            None => Some(InstrumentType::Spot),
            Some(n) => {
                if n == 11 {
                    Some(InstrumentType::Fut)
                } else if n == 0 || n == 10 {
                    Some(InstrumentType::Spot)
                } else {
                    None
                }
            },
        }
    }
}

/// The number one.
pub open spec fn one_fact() -> DecimalFacts {
    DecimalFacts { value: Real { bits: 0x3ff0_0000_0000_0000 }, text: "1"@ }
}

/// The number zero.
pub open spec fn zero_fact() -> DecimalFacts {
    DecimalFacts { value: Real { bits: 0 }, text: "0"@ }
}

/// Whether a number is above zero.
pub open spec fn is_positive(value: Real) -> bool {
    (Real { bits: 0 }).le_of(value) && !value.le_of(Real { bits: 0 })
}

/// The symbol of an instrument: as it is told, or the key that it stands under.
pub open spec fn symbol_in(key: Seq<char>, fields: JsonFacts) -> Seq<char> {
    match text_field(fields, "symTicker"@) {
        Some(t) => upper_of(t),
        None => upper_of(key),
    }
}

/// The instrument that an item of a master describes, where it is of a kind that is traded.
pub open spec fn instrument_in(
    source: Seq<char>,
    key: Seq<char>,
    fields: JsonFacts,
    numbers: Map<Seq<char>, Decimal>,
) -> Result<Option<InstrumentFacts>, FeedFault> {
    let symbol = symbol_in(key, fields);
    match text_field(fields, "fyToken"@) {
        None => Err(
            FeedFault::Parse("FYERS symbol master item "@ + symbol + " is missing fyToken"@),
        ),
        Some(token) => match kind_in(fields, symbol) {
            None => Ok(None),
            Some(kind) => Ok(
                Some(
                    InstrumentFacts {
                        instrument_name: symbol,
                        instrument_type: kind,
                        strike: match number_field(fields, "strikePrice"@, numbers) {
                            Some(strike) => if is_positive(strike.value) {
                                Some(strike)
                            } else {
                                None
                            },
                            None => None,
                        },
                        expiry: expiry_field_of(fields, "expiryDate"@),
                        broker: "FYERS"@,
                        instrument_token: token,
                        trading_symbol: symbol,
                        exchange: exchange_in(source, fields),
                        segment: kind_name(kind),
                        underlying: match text_field(fields, "underSym"@) {
                            Some(t) => upper_of(t),
                            None => match underlying_in(symbol) {
                                Some(t) => upper_of(t),
                                None => upper_of(symbol),
                            },
                        },
                        lot_size: match number_field(fields, "minLotSize"@, numbers) {
                            Some(n) => n,
                            None => one_fact(),
                        },
                        tick_size: match number_field(fields, "tickSize"@, numbers) {
                            Some(n) => n,
                            None => zero_fact(),
                        },
                        tradable: match whole_field(fields, "tradeStatus"@) {
                            Some(n) => n == 1,
                            None => true,
                        },
                    },
                ),
            ),
        },
    }
}

/// The instrument that an item of a master describes. `numbers` has the values of its numbers
/// and of its texts.
pub fn parse_instrument(source: &str, symbol_key: &str, fields: &Json, numbers: &Numbers) -> (r:
    Result<Option<InstrumentDefinition>, FeedError>)
    ensures
        match r {
            Ok(Some(i)) => instrument_in(source@, symbol_key@, fields@, numbers@) == Ok::<
                Option<InstrumentFacts>,
                FeedFault,
            >(Some(i@)),
            Ok(None) => instrument_in(source@, symbol_key@, fields@, numbers@) == Ok::<
                Option<InstrumentFacts>,
                FeedFault,
            >(None),
            Err(e) => instrument_in(source@, symbol_key@, fields@, numbers@) == Err::<
                Option<InstrumentFacts>,
                FeedFault,
            >(e@),
        },
{
    let trading_symbol = match string_field(fields, "symTicker") {
        Some(t) => upper(t.as_str()),
        None => upper(symbol_key),
    };
    let instrument_token = match string_field(fields, "fyToken") {
        Some(t) => t,
        None => {
            let mut message = "FYERS symbol master item ".to_owned();
            message.append(trading_symbol.as_str());
            message.append(" is missing fyToken");
            return Err(FeedError::Parse(message));
        },
    };
    let instrument_type = match fyers_instrument_type(fields, trading_symbol.as_str()) {
        Some(kind) => kind,
        None => return Ok(None),
    };
    let exchange = exchange_of(source, fields);
    let underlying = match string_field(fields, "underSym") {
        Some(t) => upper(t.as_str()),
        None => match infer_underlying_from_symbol(trading_symbol.as_str()) {
            Some(t) => upper(t.as_str()),
            None => upper(trading_symbol.as_str()),
        },
    };
    let lot_size = match f64_field(fields, "minLotSize", numbers) {
        Some(n) => n,
        None => Decimal { value: Real { bits: 0x3ff0_0000_0000_0000 }, text: "1".to_owned() },
    };
    let zero = Real { bits: 0 };
    let tick_size = match f64_field(fields, "tickSize", numbers) {
        Some(n) => n,
        None => Decimal { value: zero, text: "0".to_owned() },
    };
    let tradable = match i64_field(fields, "tradeStatus") {
        Some(n) => n == 1,
        None => true,
    };
    let strike = match f64_field(fields, "strikePrice", numbers) {
        Some(strike) => {
            if zero.at_most(strike.value) && !strike.value.at_most(zero) {
                Some(strike)
            } else {
                None
            }
        },
        None => None,
    };
    Ok(
        Some(
            InstrumentDefinition {
                instrument_name: InstrumentName::new(trading_symbol.as_str()),
                instrument_type,
                strike,
                expiry: expiry_field(fields, "expiryDate"),
                broker: "FYERS".to_owned(),
                instrument_token,
                trading_symbol,
                exchange,
                segment: instrument_type.segment().to_owned(),
                underlying,
                lot_size,
                tick_size,
                tradable,
            },
        ),
    )
}

/// The line that an item of a master is kept as, where it is of a kind that is traded.
pub fn master_row(source: &str, symbol_key: &str, fields: &Json, numbers: &Numbers) -> (r: Result<
    Option<String>,
    FeedError,
>)
    ensures
        match instrument_in(source@, symbol_key@, fields@, numbers@) {
            Err(fault) => r matches Err(e) && e@ == fault,
            Ok(None) => r matches Ok(row) && row is None,
            Ok(Some(i)) => r matches Ok(Some(row)) && row@ == csv_row_of(i),
        },
{
    match parse_instrument(source, symbol_key, fields, numbers) {
        Err(e) => Err(e),
        Ok(None) => Ok(None),
        Ok(Some(instrument)) => Ok(Some(instrument.to_csv_row())),
    }
}

/// The instruments that the items of a master describe, by their keys.
pub open spec fn items_in(
    source: Seq<char>,
    keys: Seq<Seq<char>>,
    values: Seq<JsonFacts>,
    numbers: Map<Seq<char>, Decimal>,
) -> Result<Seq<InstrumentFacts>, FeedFault>
    decreases keys.len(),
{
    if keys.len() == 0 || values.len() != keys.len() {
        Ok(Seq::empty())
    } else {
        match items_in(source, keys.drop_last(), values.drop_last(), numbers) {
            Err(e) => Err(e),
            Ok(before) => if !(values.last().shape is Object) {
                Err(
                    FeedFault::Parse(
                        "FYERS symbol master item "@ + keys.last() + " is not an object"@,
                    ),
                )
            } else {
                match instrument_in(source, keys.last(), values.last(), numbers) {
                    Err(e) => Err(e),
                    Ok(None) => Ok(before),
                    Ok(Some(i)) => Ok(before.push(i)),
                }
            },
        }
    }
}

proof fn reading_items_fails(
    source: Seq<char>,
    keys: Seq<Seq<char>>,
    values: Seq<JsonFacts>,
    n: int,
    numbers: Map<Seq<char>, Decimal>,
)
    requires
        0 <= n <= keys.len() == values.len(),
        items_in(source, keys.take(n), values.take(n), numbers) is Err,
    ensures
        items_in(source, keys, values, numbers) == items_in(
            source,
            keys.take(n),
            values.take(n),
            numbers,
        ),
    decreases keys.len(),
{
    if n == keys.len() {
        assert(keys.take(n) =~= keys);
        assert(values.take(n) =~= values);
    } else {
        assert(keys.drop_last().take(n) =~= keys.take(n));
        assert(values.drop_last().take(n) =~= values.take(n));
        reading_items_fails(source, keys.drop_last(), values.drop_last(), n, numbers);
    }
}

/// The instruments that a master describes, as its items stand.
pub open spec fn master_in(source: Seq<char>, json: JsonFacts, numbers: Map<Seq<char>, Decimal>) -> Result<
    Seq<InstrumentFacts>,
    FeedFault,
> {
    match json.shape {
        ShapeFacts::Object { keys, values } => items_in(source, keys, values, numbers),
        _ => Err(FeedFault::Parse("FYERS symbol master response must be a JSON object"@)),
    }
}

/// An instrument as masters are ordered: by its symbol, and then by its token.
pub struct Listed {
    pub instrument: InstrumentDefinition,
}

impl Listed {
    pub open spec fn symbol(&self) -> Seq<char> {
        self.instrument.trading_symbol@
    }

    pub open spec fn token(&self) -> Seq<char> {
        self.instrument.instrument_token@
    }
}

impl Ranked for Listed {
    open spec fn ranks_before(&self, other: &Listed) -> bool {
        ||| text_lt(self.symbol(), other.symbol())
        ||| self.symbol() == other.symbol() && text_lt(self.token(), other.token())
    }

    proof fn rank_is_asymmetric(a: &Listed, b: &Listed) {
        text_order_is_total(a.symbol(), b.symbol());
        text_order_is_total(b.symbol(), a.symbol());
        text_order_is_total(a.token(), b.token());
        text_order_is_total(b.token(), a.token());
    }

    proof fn rank_is_transitive(a: &Listed, b: &Listed, c: &Listed) {
        text_order_is_total(a.symbol(), b.symbol());
        text_order_is_total(b.symbol(), c.symbol());
        text_order_is_total(a.symbol(), c.symbol());
        text_order_is_total(c.symbol(), a.symbol());
        text_order_is_total(a.token(), b.token());
        text_order_is_total(b.token(), c.token());
        text_order_is_total(a.token(), c.token());
        text_order_is_total(c.token(), a.token());
        if text_lt(a.symbol(), b.symbol()) && text_lt(b.symbol(), c.symbol()) {
            text_order_is_transitive(a.symbol(), b.symbol(), c.symbol());
        }
        if text_lt(a.token(), b.token()) && text_lt(b.token(), c.token()) {
            text_order_is_transitive(a.token(), b.token(), c.token());
        }
    }

    fn is_before(&self, other: &Listed) -> (r: bool) {
        proof {
            text_order_is_total(self.symbol(), other.symbol());
        }
        let a = self.instrument.trading_symbol.as_str();
        let b = other.instrument.trading_symbol.as_str();
        if text_before(a, b) {
            true
        } else if same(a, b) {
            text_before(
                self.instrument.instrument_token.as_str(),
                other.instrument.instrument_token.as_str(),
            )
        } else {
            false
        }
    }
}

pub open spec fn listed_all(list: Seq<InstrumentDefinition>) -> Seq<Listed> {
    Seq::new(list.len(), |i: int| Listed { instrument: list[i] })
}

pub open spec fn unlisted(list: Seq<Listed>) -> Seq<InstrumentDefinition> {
    Seq::new(list.len(), |i: int| list[i].instrument)
}

/// Whether instruments are those of a list, by their symbols and then by their tokens.
pub open spec fn is_listing_of(sorted: Seq<InstrumentDefinition>, list: Seq<InstrumentDefinition>) -> bool {
    sorted == unlisted(sorted_of(listed_all(list)))
}

/// Whether instruments are some given ones, by their symbols and then by their tokens.
pub open spec fn lists_all(sorted: Seq<InstrumentDefinition>, facts: Seq<InstrumentFacts>) -> bool {
    exists|list: Seq<InstrumentDefinition>|
        instrument_views(list) == facts && #[trigger] is_listing_of(sorted, list)
}

fn arrange_listing(list: &Vec<InstrumentDefinition>) -> (r: Vec<InstrumentDefinition>)
    ensures
        is_listing_of(r@, list@),
{
    let ghost all = listed_all(list@);
    let mut items: Vec<Listed> = Vec::new();
    let mut i: usize = 0;
    while i < list.len()
        invariant
            i <= list@.len(),
            all == listed_all(list@),
            items@ == all.take(i as int),
        decreases list@.len() - i,
    {
        items.push(Listed { instrument: list[i].clone() });
        i += 1;
        assert(all.take(i as int) =~= all.take(i - 1).push(all[i - 1]));
    }
    assert(all.take(i as int) =~= all);
    let sorted = sort(items);
    let mut out: Vec<InstrumentDefinition> = Vec::new();
    let mut k: usize = 0;
    while k < sorted.len()
        invariant
            k <= sorted@.len(),
            out@ == unlisted(sorted@).take(k as int),
        decreases sorted@.len() - k,
    {
        out.push(sorted[k].instrument.clone());
        k += 1;
        assert(unlisted(sorted@).take(k as int) =~= unlisted(sorted@).take(k - 1).push(
            unlisted(sorted@)[k - 1],
        ));
    }
    assert(unlisted(sorted@).take(k as int) =~= unlisted(sorted@));
    out
}

fn read_items(source: &str, keys: &Vec<String>, values: &Vec<Json>, numbers: &Numbers) -> (r: Result<
    Vec<InstrumentDefinition>,
    FeedError,
>)
    ensures
        match r {
            Ok(list) => items_in(source@, views(keys@), json_views(values@), numbers@) == Ok::<
                Seq<InstrumentFacts>,
                FeedFault,
            >(instrument_views(list@)),
            Err(e) => items_in(source@, views(keys@), json_views(values@), numbers@) == Err::<
                Seq<InstrumentFacts>,
                FeedFault,
            >(e@),
        },
{
    let ghost names = views(keys@);
    let ghost items = json_views(values@);
    let mut out: Vec<InstrumentDefinition> = Vec::new();
    assert(instrument_views(out@) =~= Seq::empty());
    if keys.len() != values.len() {
        return Ok(out);
    }
    let mut i: usize = 0;
    assert(names.take(0) =~= Seq::empty());
    assert(items.take(0) =~= Seq::empty());
    while i < keys.len()
        invariant
            i <= keys@.len() == values@.len(),
            names == views(keys@),
            items == json_views(values@),
            items_in(source@, names.take(i as int), items.take(i as int), numbers@) == Ok::<
                Seq<InstrumentFacts>,
                FeedFault,
            >(instrument_views(out@)),
        decreases keys@.len() - i,
    {
        let ghost before = instrument_views(out@);
        assert(names.take(i + 1).drop_last() =~= names.take(i as int));
        assert(items.take(i + 1).drop_last() =~= items.take(i as int));
        assert(names.take(i + 1).last() == keys@[i as int]@);
        assert(items.take(i + 1).last() == values@[i as int]@);
        let key = keys[i].as_str();
        let is_object = match &values[i].shape {
            Shape::Object { .. } => true,
            _ => false,
        };
        if !is_object {
            proof {
                reading_items_fails(source@, names, items, i + 1, numbers@);
            }
            let mut message = "FYERS symbol master item ".to_owned();
            message.append(key);
            message.append(" is not an object");
            return Err(FeedError::Parse(message));
        }
        match parse_instrument(source, key, &values[i], numbers) {
            Err(e) => {
                proof {
                    reading_items_fails(source@, names, items, i + 1, numbers@);
                }
                return Err(e);
            },
            Ok(None) => {},
            Ok(Some(one)) => {
                out.push(one);
                assert(instrument_views(out@) =~= before.push(one@));
            },
        }
        i += 1;
    }
    assert(names.take(i as int) =~= names);
    assert(items.take(i as int) =~= items);
    Ok(out)
}

/// The instruments that a master describes.
pub fn parse_master_value(source: &str, value: &Json, numbers: &Numbers) -> (r: Result<
    Vec<InstrumentDefinition>,
    FeedError,
>)
    ensures
        match master_in(source@, value@, numbers@) {
            Err(fault) => r matches Err(e) && e@ == fault,
            Ok(facts) => r matches Ok(list) && lists_all(list@, facts),
        },
{
    match &value.shape {
        Shape::Object { keys, values } => {
            assert(value@.shape->values =~= json_views(values@));
            match read_items(source, keys, values, numbers) {
                Err(e) => Err(e),
                Ok(list) => {
                    let sorted = arrange_listing(&list);
                    assert(is_listing_of(sorted@, list@));
                    Ok(sorted)
                },
            }
        },
        _ => Err(
            FeedError::Parse("FYERS symbol master response must be a JSON object".to_owned()),
        ),
    }
}

/// The instruments that the text of a master describes.
pub fn parse_master_json(source: &str, content: &str, numbers: &Numbers) -> (r: Result<
    Vec<InstrumentDefinition>,
    FeedError,
>)
    ensures
        match parsed_text(content@) {
            Err(error) => r matches Err(e) && e@ == FeedFault::Parse(
                "FYERS "@ + source@ + " JSON parse failed: "@ + error,
            ),
            Ok(json) => match master_in(source@, json, numbers@) {
                Err(fault) => r matches Err(e) && e@ == fault,
                Ok(facts) => r matches Ok(list) && lists_all(list@, facts),
            },
        },
{
    match read_json(content) {
        Err(error) => Err(fetch_failed(source, &FetchFailure::Json(error))),
        Ok(json) => parse_master_value(source, &json, numbers),
    }
}

/// A file of instruments. `content` is what it holds, or why it cannot be read.
#[derive(Debug)]
pub struct MasterFile {
    pub path: String,
    pub content: Result<String, String>,
}

/// A file of instruments, as contracts speak of it.
pub struct MasterFacts {
    pub path: Seq<char>,
    pub content: Result<Seq<char>, Seq<char>>,
}

impl View for MasterFile {
    type V = MasterFacts;

    open spec fn view(&self) -> MasterFacts {
        MasterFacts {
            path: self.path@,
            content: match self.content {
                Ok(content) => Ok(content@),
                Err(error) => Err(error@),
            },
        }
    }
}

pub open spec fn file_views(v: Seq<MasterFile>) -> Seq<MasterFacts> {
    Seq::new(v.len(), |i: int| v[i]@)
}

/// What is chosen: of which underlying, of which kinds, and with which strikes.
pub struct ChoiceFacts {
    pub underlying: Seq<char>,
    pub types: Seq<Seq<char>>,
    pub window: StrikeWindow,
}

/// Whether a kind of instrument is chosen: where kinds are named, one of them.
pub open spec fn is_allowed(kind: InstrumentType, names: Seq<Seq<char>>) -> bool {
    ||| names.len() == 0
    ||| exists|i: int| 0 <= i < names.len() && #[trigger] names[i] == kind_name(kind)
}

fn instrument_type_allowed_definition(kind: InstrumentType, names: &Vec<String>) -> (r: bool)
    ensures
        r == is_allowed(kind, views(names@)),
{
    if names.len() == 0 {
        return true;
    }
    let ghost all = views(names@);
    let mut i: usize = 0;
    while i < names.len()
        invariant
            i <= names@.len(),
            all == views(names@),
            forall|k: int| 0 <= k < i ==> #[trigger] all[k] != kind_name(kind),
        decreases names@.len() - i,
    {
        assert(all[i as int] == names@[i as int]@);
        if same(names[i].as_str(), kind.as_str()) {
            return true;
        }
        i += 1;
    }
    false
}

/// Whether an instrument is chosen.
pub open spec fn is_chosen(i: InstrumentFacts, choice: ChoiceFacts) -> bool {
    &&& i.underlying == choice.underlying
    &&& is_allowed(i.instrument_type, choice.types)
    &&& is_option_type(i.instrument_type) ==> choice.window.admits(i.strike)
}

/// The instrument of a line of a file.
pub open spec fn line_of(
    path: Seq<char>,
    headers: Seq<Seq<char>>,
    line: Seq<char>,
    number: nat,
    numbers: Map<Seq<char>, Decimal>,
) -> Result<InstrumentFacts, FeedFault> {
    let values = cells_of(line);
    if values.len() != headers.len() {
        Err(
            FeedFault::Parse(
                "FYERS master CSV "@ + path + " line "@ + decimal_of(number) + " has "@ + decimal_of(
                    values.len(),
                ) + " fields, expected "@ + decimal_of(headers.len()),
            ),
        )
    } else {
        row_of(headers, values, numbers, "missing FYERS master CSV column "@)
    }
}

fn parse_universal_csv_row(
    path: &str,
    headers: &Vec<String>,
    line: &str,
    number: usize,
    numbers: &Numbers,
) -> (r: Result<InstrumentDefinition, FeedError>)
    ensures
        match r {
            Ok(i) => line_of(path@, views(headers@), line@, number as nat, numbers@) == Ok::<
                InstrumentFacts,
                FeedFault,
            >(i@),
            Err(e) => line_of(path@, views(headers@), line@, number as nat, numbers@) == Err::<
                InstrumentFacts,
                FeedFault,
            >(e@),
        },
{
    let values = cells(line);
    assert(cells_of(line@).len() == values@.len());
    if values.len() != headers.len() {
        let mut message = "FYERS master CSV ".to_owned();
        message.append(path);
        message.append(" line ");
        message.append(decimal(number as u64).as_str());
        message.append(" has ");
        message.append(decimal(values.len() as u64).as_str());
        message.append(" fields, expected ");
        message.append(decimal(headers.len() as u64).as_str());
        return Err(FeedError::Parse(message));
    }
    parse_row(headers, &values, numbers, "missing FYERS master CSV column ")
}

/// The instruments of the lines of a file, behind its columns, that are chosen.
pub open spec fn chosen_of(
    path: Seq<char>,
    headers: Seq<Seq<char>>,
    lines: Seq<Seq<char>>,
    choice: ChoiceFacts,
    numbers: Map<Seq<char>, Decimal>,
) -> Result<Seq<InstrumentFacts>, FeedFault>
    decreases lines.len(),
{
    if lines.len() == 0 {
        Ok(Seq::empty())
    } else {
        match chosen_of(path, headers, lines.drop_last(), choice, numbers) {
            Err(e) => Err(e),
            Ok(before) => if trim_of(lines.last()).len() == 0 {
                Ok(before)
            } else {
                match line_of(path, headers, lines.last(), lines.len() + 1, numbers) {
                    Err(e) => Err(e),
                    Ok(i) => if is_chosen(i, choice) {
                        Ok(before.push(i))
                    } else {
                        Ok(before)
                    },
                }
            },
        }
    }
}

proof fn choosing_fails(
    path: Seq<char>,
    headers: Seq<Seq<char>>,
    lines: Seq<Seq<char>>,
    n: int,
    choice: ChoiceFacts,
    numbers: Map<Seq<char>, Decimal>,
)
    requires
        0 <= n <= lines.len(),
        chosen_of(path, headers, lines.take(n), choice, numbers) is Err,
    ensures
        chosen_of(path, headers, lines, choice, numbers) == chosen_of(
            path,
            headers,
            lines.take(n),
            choice,
            numbers,
        ),
    decreases lines.len(),
{
    if n == lines.len() {
        assert(lines.take(n) =~= lines);
    } else {
        assert(lines.drop_last().take(n) =~= lines.take(n));
        choosing_fails(path, headers, lines.drop_last(), n, choice, numbers);
    }
}

/// The instruments of a file that are chosen.
pub open spec fn matching_in(
    file: MasterFacts,
    choice: ChoiceFacts,
    numbers: Map<Seq<char>, Decimal>,
) -> Result<Seq<InstrumentFacts>, FeedFault> {
    match file.content {
        Err(error) => Err(FeedFault::Io(error)),
        Ok(content) => {
            let all = lines_of(content);
            if all.len() == 0 {
                Err(FeedFault::Parse("FYERS master CSV "@ + file.path + " is empty"@))
            } else {
                chosen_of(file.path, cells_of(all[0]), all.skip(1), choice, numbers)
            }
        },
    }
}

/// The instruments of files that are chosen, one file after another.
pub open spec fn matching_of(
    files: Seq<MasterFacts>,
    choice: ChoiceFacts,
    numbers: Map<Seq<char>, Decimal>,
) -> Result<Seq<InstrumentFacts>, FeedFault>
    decreases files.len(),
{
    if files.len() == 0 {
        Ok(Seq::empty())
    } else {
        match matching_of(files.drop_last(), choice, numbers) {
            Err(e) => Err(e),
            Ok(before) => match matching_in(files.last(), choice, numbers) {
                Err(e) => Err(e),
                Ok(more) => Ok(before + more),
            },
        }
    }
}

proof fn matching_fails(
    files: Seq<MasterFacts>,
    n: int,
    choice: ChoiceFacts,
    numbers: Map<Seq<char>, Decimal>,
)
    requires
        0 <= n <= files.len(),
        matching_of(files.take(n), choice, numbers) is Err,
    ensures
        matching_of(files, choice, numbers) == matching_of(files.take(n), choice, numbers),
    decreases files.len(),
{
    if n == files.len() {
        assert(files.take(n) =~= files);
    } else {
        assert(files.drop_last().take(n) =~= files.take(n));
        matching_fails(files.drop_last(), n, choice, numbers);
    }
}

pub open spec fn choice_of(selection: InstrumentSelection, underlying: Seq<char>, window: StrikeWindow) -> ChoiceFacts {
    ChoiceFacts { underlying, types: views(selection.instrument_types@), window }
}

fn read_matching_fyers_master_csv(
    path: &str,
    content: &str,
    selection: &InstrumentSelection,
    underlying: &str,
    window: &StrikeWindow,
    numbers: &Numbers,
    instruments: &mut Vec<InstrumentDefinition>,
) -> (r: Option<FeedError>)
    ensures
        ({
            let found = matching_in(
                MasterFacts { path: path@, content: Ok(content@) },
                choice_of(*selection, underlying@, *window),
                numbers@,
            );
            match r {
                None => found matches Ok(more) && instrument_views(final(instruments)@)
                    == instrument_views(old(instruments)@) + more,
                Some(e) => found == Err::<Seq<InstrumentFacts>, FeedFault>(e@),
            }
        }),
{
    let ghost start = instrument_views(instruments@);
    let ghost choice = choice_of(*selection, underlying@, *window);
    let all = lines(content);
    let ghost texts = views(all@);
    let count: usize = all.len();
    if count == 0 {
        let mut message = "FYERS master CSV ".to_owned();
        message.append(path);
        message.append(" is empty");
        return Some(FeedError::Parse(message));
    }
    let headers = cells(all[0].as_str());
    assert(texts[0] == all@[0]@);
    let ghost names = views(headers@);
    let ghost rest = texts.skip(1);
    let mut i: usize = 1;
    assert(rest.take(0) =~= Seq::empty());
    assert(instrument_views(instruments@) =~= start + Seq::empty());
    let ghost mut more: Seq<InstrumentFacts> = Seq::empty();
    while i < count
        invariant
            1 <= i <= count == all@.len(),
            texts == views(all@),
            texts == lines_of(content@),
            rest == texts.skip(1),
            names == views(headers@),
            names == cells_of(texts[0]),
            choice == choice_of(*selection, underlying@, *window),
            start == instrument_views(old(instruments)@),
            chosen_of(path@, names, rest.take(i - 1), choice, numbers@) == Ok::<
                Seq<InstrumentFacts>,
                FeedFault,
            >(more),
            instrument_views(instruments@) == start + more,
        decreases count - i,
    {
        assert(rest.take(i as int).drop_last() =~= rest.take(i - 1));
        assert(rest.take(i as int).last() == all@[i as int]@);
        let line = all[i].as_str();
        if !trim(line).as_str().is_empty() {
            match parse_universal_csv_row(path, &headers, line, i + 1, numbers) {
                Err(e) => {
                    proof {
                        choosing_fails(path@, names, rest, i as int, choice, numbers@);
                    }
                    return Some(e);
                },
                Ok(one) => {
                    let chosen = same(one.underlying.as_str(), underlying)
                        && instrument_type_allowed_definition(
                        one.instrument_type,
                        &selection.instrument_types,
                    ) && (!one.instrument_type.is_option() || window.has(&one));
                    assert(chosen == is_chosen(one@, choice));
                    if chosen {
                        let ghost before = instrument_views(instruments@);
                        instruments.push(one);
                        assert(instrument_views(instruments@) =~= before.push(one@));
                        proof {
                            assert(before.push(one@) =~= start + more.push(one@));
                            more = more.push(one@);
                        }
                    }
                },
            }
        }
        i += 1;
    }
    assert(rest.take(i - 1) =~= rest);
    None
}

/// The instruments of files that are chosen.
pub fn read_matching_fyers_master_instruments(
    files: &Vec<MasterFile>,
    selection: &InstrumentSelection,
    underlying: &str,
    window: &StrikeWindow,
    numbers: &Numbers,
) -> (r: Result<Vec<InstrumentDefinition>, FeedError>)
    ensures
        ({
            let found = matching_of(
                file_views(files@),
                choice_of(*selection, underlying@, *window),
                numbers@,
            );
            match r {
                Ok(list) => found == Ok::<Seq<InstrumentFacts>, FeedFault>(instrument_views(list@)),
                Err(e) => found == Err::<Seq<InstrumentFacts>, FeedFault>(e@),
            }
        }),
{
    let ghost choice = choice_of(*selection, underlying@, *window);
    let ghost all = file_views(files@);
    let mut instruments: Vec<InstrumentDefinition> = Vec::new();
    let mut i: usize = 0;
    assert(all.take(0) =~= Seq::empty());
    assert(instrument_views(instruments@) =~= Seq::empty());
    while i < files.len()
        invariant
            i <= files@.len(),
            all == file_views(files@),
            choice == choice_of(*selection, underlying@, *window),
            matching_of(all.take(i as int), choice, numbers@) == Ok::<
                Seq<InstrumentFacts>,
                FeedFault,
            >(instrument_views(instruments@)),
        decreases files@.len() - i,
    {
        assert(all.take(i + 1).drop_last() =~= all.take(i as int));
        assert(all.take(i + 1).last() == files@[i as int]@);
        let path = files[i].path.as_str();
        match &files[i].content {
            Err(error) => {
                proof {
                    matching_fails(all, i + 1, choice, numbers@);
                }
                return Err(FeedError::Io(error.clone()));
            },
            Ok(content) => {
                match read_matching_fyers_master_csv(
                    path,
                    content.as_str(),
                    selection,
                    underlying,
                    window,
                    numbers,
                    &mut instruments,
                ) {
                    None => {},
                    Some(e) => {
                        proof {
                            matching_fails(all, i + 1, choice, numbers@);
                        }
                        return Err(e);
                    },
                }
            },
        }
        i += 1;
    }
    assert(all.take(i as int) =~= all);
    Ok(instruments)
}

/// Tells which instruments are futures.
pub open spec fn is_future() -> spec_fn(InstrumentDefinition) -> bool {
    |i: InstrumentDefinition| i.instrument_type == InstrumentType::Fut
}

fn futures_among(list: &Vec<InstrumentDefinition>) -> (r: Vec<InstrumentDefinition>)
    ensures
        r@ == list@.filter(is_future()),
{
    let ghost f = is_future();
    let mut out: Vec<InstrumentDefinition> = Vec::new();
    let mut i: usize = 0;
    assert(list@.take(0).filter(f) =~= Seq::empty()) by {
        reveal(Seq::filter);
    }
    while i < list.len()
        invariant
            i <= list@.len(),
            f == is_future(),
            out@ == list@.take(i as int).filter(f),
        decreases list@.len() - i,
    {
        proof {
            filter_push(list@.take(i as int), list@[i as int], f);
            assert(list@.take(i + 1) =~= list@.take(i as int).push(list@[i as int]));
        }
        if list[i].instrument_type == InstrumentType::Fut {
            out.push(list[i].clone());
        }
        i += 1;
    }
    assert(list@.take(i as int) =~= list@);
    out
}

/// Whether a summary has the futures of instruments, by their symbols, and the options whose
/// strike is traded, by the distances of the strikes and then by their symbols.
pub open spec fn has_choice_of(
    summary: UniverseSummary,
    list: Seq<InstrumentDefinition>,
    window: StrikeWindow,
) -> bool {
    let sorted = arranged_of(list, Order::Symbol, window);
    &&& summary.futures@ == sorted.filter(is_future())
    &&& summary.atm_options@ == arranged_of(
        sorted.filter(option_within(window)),
        Order::Distance,
        window,
    )
}

/// Whether a summary has the futures and the options among instruments.
pub open spec fn is_choice_among(
    summary: UniverseSummary,
    facts: Seq<InstrumentFacts>,
    window: StrikeWindow,
) -> bool {
    exists|list: Seq<InstrumentDefinition>|
        instrument_views(list) == facts && #[trigger] has_choice_of(summary, list, window)
}

/// The summary of what is traded of an underlying around a price, out of the files of
/// instruments.
pub fn build_fyers_universe_summary_from_master_csvs(
    files: &Vec<MasterFile>,
    selection: &InstrumentSelection,
    underlying: &str,
    reference_symbol: &str,
    reference_price: Real,
    window: &StrikeWindow,
    numbers: &Numbers,
) -> (r: Result<FyersUniverseSummary, FeedError>)
    ensures
        match matching_of(
            file_views(files@),
            choice_of(*selection, underlying@, *window),
            numbers@,
        ) {
            Err(fault) => r matches Err(e) && e@ == fault,
            Ok(matching) => r matches Ok(summary) && {
                &&& summary.selected_underlying@ == underlying@
                &&& summary.reference_symbol@ == reference_symbol@
                &&& summary.reference_price == reference_price
                &&& views(summary.spot_or_index_symbols@) == ascending_of(
                    references_in(matching, reference_symbol@),
                )
                &&& is_choice_among(summary, matching, *window)
            },
        },
{
    let list = match read_matching_fyers_master_instruments(
        files,
        selection,
        underlying,
        window,
        numbers,
    ) {
        Ok(list) => list,
        Err(e) => return Err(e),
    };
    let ghost all = instrument_views(list@);
    let spots = references(&list, reference_symbol);
    let sorted = arrange(&list, Order::Symbol, window);
    let futures = futures_among(&sorted);
    let options = options_among(&sorted, window);
    let atm_options = arrange(&options, Order::Distance, window);
    let items = ascending_items(&spots);
    let spot_or_index_symbols = copy_texts(items);
    let summary = UniverseSummary {
        selected_underlying: underlying.to_owned(),
        reference_symbol: reference_symbol.to_owned(),
        reference_price,
        spot_or_index_symbols,
        futures,
        atm_options,
    };
    assert(has_choice_of(summary, list@, *window));
    assert(is_choice_among(summary, all, *window));
    Ok(summary)
}

/// An instrument of the master tells its item: its symbol and its token, in capitals what it is
/// of, and a strike only where it is more than nothing. It can be traded where its item does not
/// say otherwise.
pub proof fn instruments_tell_their_items(
    source: Seq<char>,
    key: Seq<char>,
    fields: JsonFacts,
    numbers: Map<Seq<char>, Decimal>,
)
    ensures
        text_field(fields, "fyToken"@) is None ==> instrument_in(source, key, fields, numbers) is Err,
        instrument_in(source, key, fields, numbers) matches Ok(Some(i)) ==> {
            &&& text_field(fields, "fyToken"@) == Some(i.instrument_token)
            &&& text_field(fields, "symTicker"@) is Some ==> i.trading_symbol == upper_of(
                text_field(fields, "symTicker"@)->0,
            )
            &&& text_field(fields, "symTicker"@) is None ==> i.trading_symbol == upper_of(key)
            &&& i.instrument_name == i.trading_symbol
            &&& i.broker == "FYERS"@
            &&& i.strike is Some ==> !i.strike->0.value.is_nan() && i.strike->0.value.rank() > 0
                && number_field(fields, "strikePrice"@, numbers) == i.strike
            &&& text_field(fields, "underSym"@) is Some ==> i.underlying == upper_of(
                text_field(fields, "underSym"@)->0,
            )
            &&& whole_field(fields, "tradeStatus"@) == Some(1int) ==> i.tradable
            &&& whole_field(fields, "tradeStatus"@) is None ==> i.tradable
            &&& i.tradable && whole_field(fields, "tradeStatus"@) is Some ==> whole_field(
                fields,
                "tradeStatus"@,
            )->0 == 1
            &&& number_field(fields, "minLotSize"@, numbers) is Some ==> Some(i.lot_size)
                == number_field(fields, "minLotSize"@, numbers)
            &&& number_field(fields, "tickSize"@, numbers) is Some ==> Some(i.tick_size)
                == number_field(fields, "tickSize"@, numbers)
            &&& text_field(fields, "exchangeName"@) is Some ==> i.exchange == upper_of(
                text_field(fields, "exchangeName"@)->0,
            )
        },
{
}

/// What an item says that it is, it is: the kind that it tells comes before the one that the end
/// of its symbol tells, and that before the number of its kind.
pub proof fn told_kinds_come_first(fields: JsonFacts, symbol: Seq<char>)
    ensures
        ({
            let told = text_field(fields, "optType"@);
            &&& told is Some && upper_of(told->0) == "CE"@ ==> kind_in(fields, symbol) == Some(
                InstrumentType::Call,
            )
            &&& told is Some && upper_of(told->0) == "PE"@ ==> kind_in(fields, symbol) == Some(
                InstrumentType::Put,
            )
            &&& told is None && ends(symbol, "CE"@) ==> kind_in(fields, symbol) == Some(
                InstrumentType::Call,
            )
            &&& told is None && ends(symbol, "PE"@) && !ends(symbol, "CE"@) ==> kind_in(
                fields,
                symbol,
            ) == Some(InstrumentType::Put)
            &&& told is None && ends(symbol, "FUT"@) && !ends(symbol, "CE"@) && !ends(symbol, "PE"@)
                ==> kind_in(fields, symbol) == Some(InstrumentType::Fut)
            &&& told is None && !ends(symbol, "FUT"@) && !ends(symbol, "CE"@) && !ends(symbol, "PE"@)
                && whole_field(fields, "exInstType"@) is None ==> kind_in(fields, symbol) == Some(
                InstrumentType::Spot,
            )
        }),
{
    reveal_strlit("CE");
    reveal_strlit("PE");
    reveal_strlit("");
    assert(upper_of(""@).len() == 0);
    assert("CE"@[0] != "PE"@[0]);
}

/// Every instrument that is chosen is of the underlying and of a kind that is allowed, and where
/// it is an option struck within the bounds; and every line that is such an instrument is chosen.
pub proof fn chosen_instruments_fit(
    path: Seq<char>,
    headers: Seq<Seq<char>>,
    lines: Seq<Seq<char>>,
    choice: ChoiceFacts,
    numbers: Map<Seq<char>, Decimal>,
    it: InstrumentFacts,
)
    requires
        chosen_of(path, headers, lines, choice, numbers) is Ok,
    ensures
        chosen_of(path, headers, lines, choice, numbers)->Ok_0.contains(it) <==> {
            let option = it.instrument_type == InstrumentType::Call || it.instrument_type
                == InstrumentType::Put;
            &&& exists|k: int|
                {
                    &&& 0 <= k < lines.len()
                    &&& trim_of(#[trigger] lines[k]).len() > 0
                    &&& cells_of(lines[k]).len() == headers.len()
                    &&& row_of(
                        headers,
                        cells_of(lines[k]),
                        numbers,
                        "missing FYERS master CSV column "@,
                    ) == Ok::<InstrumentFacts, FeedFault>(it)
                }
            &&& it.underlying == choice.underlying
            &&& choice.types.len() > 0 ==> choice.types.contains(kind_name(it.instrument_type))
            &&& option ==> {
                &&& it.strike is Some
                &&& choice.window.lower.le_of(it.strike->0.value)
                &&& it.strike->0.value.le_of(choice.window.upper)
            }
        },
    decreases lines.len(),
{
    let all = chosen_of(path, headers, lines, choice, numbers)->Ok_0;
    let fault = "missing FYERS master CSV column "@;
    if choice.types.contains(kind_name(it.instrument_type)) {
        let k = choose|k: int|
            0 <= k < choice.types.len() && choice.types[k] == kind_name(it.instrument_type);
        assert(is_allowed(it.instrument_type, choice.types));
    }
    if lines.len() > 0 {
        let d = lines.drop_last();
        let n = lines.len() - 1;
        chosen_instruments_fit(path, headers, d, choice, numbers, it);
        let before = chosen_of(path, headers, d, choice, numbers)->Ok_0;
        assert(lines[n] == lines.last());
        assert forall|i: int|
            #![trigger d[i]]
            #![trigger lines[i]]
            0 <= i < n implies d[i] == lines[i] by {}
        if before.contains(it) {
            let k = choose|k: int| 0 <= k < before.len() && before[k] == it;
            assert(all[k] == it);
            let i = choose|k: int|
                {
                    &&& 0 <= k < d.len()
                    &&& trim_of(#[trigger] d[k]).len() > 0
                    &&& cells_of(d[k]).len() == headers.len()
                    &&& row_of(headers, cells_of(d[k]), numbers, fault) == Ok::<
                        InstrumentFacts,
                        FeedFault,
                    >(it)
                };
            assert(lines[i] == d[i]);
        }
        if all.contains(it) && !before.contains(it) {
            let k = choose|k: int| 0 <= k < all.len() && all[k] == it;
            if k < before.len() {
                assert(before[k] == it);
            }
        }
        if all.len() > before.len() {
            assert(all[before.len() as int] == line_of(
                path,
                headers,
                lines[n],
                lines.len() + 1,
                numbers,
            )->Ok_0);
        }
    }
}

/// What matches in several files is what matches in each, one file behind another.
pub proof fn matches_are_those_of_each_file(
    files: Seq<MasterFacts>,
    choice: ChoiceFacts,
    numbers: Map<Seq<char>, Decimal>,
    it: InstrumentFacts,
)
    requires
        matching_of(files, choice, numbers) is Ok,
    ensures
        matching_of(files, choice, numbers)->Ok_0.contains(it) <==> exists|k: int|
            0 <= k < files.len() && (#[trigger] matching_in(files[k], choice, numbers)) is Ok
                && matching_in(files[k], choice, numbers)->Ok_0.contains(it),
        forall|k: int|
            0 <= k < files.len() ==> (#[trigger] matching_in(files[k], choice, numbers)) is Ok,
    decreases files.len(),
{
    let all = matching_of(files, choice, numbers)->Ok_0;
    if files.len() > 0 {
        let d = files.drop_last();
        let n = files.len() - 1;
        matches_are_those_of_each_file(d, choice, numbers, it);
        let before = matching_of(d, choice, numbers)->Ok_0;
        let more = matching_in(files[n], choice, numbers)->Ok_0;
        assert(files[n] == files.last());
        assert forall|i: int|
            #![trigger d[i]]
            #![trigger files[i]]
            0 <= i < n implies d[i] == files[i] by {}
        assert forall|k: int| 0 <= k < files.len() implies (
        #[trigger] matching_in(files[k], choice, numbers)) is Ok by {
            if k < n {
                assert(matching_in(d[k], choice, numbers) is Ok);
            }
        }
        if before.contains(it) {
            let k = choose|k: int| 0 <= k < before.len() && before[k] == it;
            assert(all[k] == it);
            let i = choose|k: int|
                0 <= k < d.len() && (#[trigger] matching_in(d[k], choice, numbers)) is Ok
                    && matching_in(d[k], choice, numbers)->Ok_0.contains(it);
            assert(matching_in(files[i], choice, numbers)->Ok_0.contains(it));
        }
        if more.contains(it) {
            let k = choose|k: int| 0 <= k < more.len() && more[k] == it;
            assert(all[before.len() + k] == it);
            assert(matching_in(files[n], choice, numbers)->Ok_0.contains(it));
        }
        if all.contains(it) {
            let k = choose|k: int| 0 <= k < all.len() && all[k] == it;
            if k < before.len() {
                assert(before[k] == it);
            } else {
                assert(more[k - before.len()] == it);
            }
        }
        if exists|k: int|
            0 <= k < files.len() && (#[trigger] matching_in(files[k], choice, numbers)) is Ok
                && matching_in(files[k], choice, numbers)->Ok_0.contains(it) {
            let k = choose|k: int|
                0 <= k < files.len() && (#[trigger] matching_in(files[k], choice, numbers)) is Ok
                    && matching_in(files[k], choice, numbers)->Ok_0.contains(it);
            if k < n {
                assert(matching_in(d[k], choice, numbers)->Ok_0.contains(it));
            }
        }
    }
}

/// The master lists its instruments by their symbols, and those of one symbol by their tokens,
/// and lists each of them.
pub proof fn listing_is_by_symbol(list: Seq<InstrumentDefinition>, i: int, j: int)
    requires
        0 <= i < j < list.len(),
    ensures
        ({
            let sorted = unlisted(sorted_of(listed_all(list)));
            &&& sorted.len() == list.len()
            &&& !text_lt(sorted[j].trading_symbol@, sorted[i].trading_symbol@)
            &&& sorted[i].trading_symbol@ == sorted[j].trading_symbol@ ==> !text_lt(
                sorted[j].instrument_token@,
                sorted[i].instrument_token@,
            )
            &&& sorted.to_multiset() == list.to_multiset()
        }),
{
    let items = listed_all(list);
    sorting_orders(items);
    let s = sorted_of(items);
    assert(!s[j].ranks_before(&s[i]));
    assert(unlisted(items) =~= list);
    same_items_same_instruments(s, items);
}

proof fn same_items_same_instruments(a: Seq<Listed>, b: Seq<Listed>)
    requires
        a.to_multiset() == b.to_multiset(),
    ensures
        unlisted(a).to_multiset() == unlisted(b).to_multiset(),
    decreases a.len(),
{
    broadcast use vstd::seq_lib::group_to_multiset_ensures;

    if a.len() == 0 {
        assert(b.to_multiset().len() == b.len());
        assert(a.to_multiset().len() == a.len());
        assert(unlisted(a) =~= unlisted(b));
    } else {
        let x = a.last();
        assert(a.to_multiset().count(x) > 0) by {
            assert(a.contains(a[a.len() - 1]));
        }
        let k = choose|k: int| 0 <= k < b.len() && b[k] == x;
        let (c, d) = (a.drop_last(), b.remove(k));
        assert(a =~= c.push(x));
        assert(c.to_multiset() =~= a.to_multiset().remove(x));
        assert(d.to_multiset() =~= b.to_multiset().remove(x));
        same_items_same_instruments(c, d);
        assert(unlisted(a) =~= unlisted(c).push(x.instrument));
        assert(unlisted(b).remove(k) =~= unlisted(d));
        assert(unlisted(b)[k] == x.instrument);
        assert(unlisted(a).to_multiset() =~= unlisted(c).to_multiset().insert(x.instrument));
        assert(unlisted(b).to_multiset() =~= unlisted(d).to_multiset().insert(x.instrument));
    }
}

} // verus!
