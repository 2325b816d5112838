//! The products of Delta, and the derivatives that are chosen among them.
use crate::adapters::live_universe::SpotFacts;
use crate::adapters::universe::{
    all_traded, arrange, arranged_are_the_same, arranged_of, is_nearer, nearer, option_within,
    options_among, references, references_in, traded_in, Order, StrikeWindow, UniverseSummary,
};
use crate::binary64::{
    decimal_facts, find_number, is_text, number_in, text_facts, Decimal, DecimalFacts, Numbers,
    Real,
};
use crate::calendar::{civil_number, days_from_civil};
use crate::config::InstrumentSelection;
use crate::feeder::catalog::{
    cells, cells_of, csv_row_of, flag_text, instrument_views, is_option_type, kind_name, parse_row,
    row_of, InstrumentDefinition, InstrumentFacts, InstrumentType,
    UNIVERSAL_INSTRUMENT_CSV_HEADER,
};
use crate::feeder::error::{FeedError, FeedFault};
use crate::feeder::event::InstrumentName;
use crate::json::{Json, JsonFacts, Shape, ShapeFacts};
use crate::order::{
    ascending_items, ascending_of, ascending_of_holds, filter_push, TextMap, TextSet,
};
use crate::text::{
    byte_len, copy_texts, decimal, decimal_of, ends, ends_with, join, join_of, lines,
    lines_of, lower_of, parse_i64, parse_i64_of, parsed_is_small, plain_text_is_cut_anywhere, same,
    same_ignoring_case, slice, slice_is_short, slice_of, split, split_of, starts, starts_with,
    ten_to, trim, trim_of, views,
};
use vstd::prelude::*;
use vstd::utf8::encode_utf8;

verus! {

/// How many products are asked for at once.
pub const PRODUCTS_PAGE_SIZE: usize = 500;

/// The second of the day, in UTC, at which options are settled.
pub const DELTA_OPTION_SETTLEMENT_UTC_SECONDS: u64 = 43_200;

pub type DeltaUniverseSummary = UniverseSummary;

#[derive(Debug)]
pub struct DeltaAsset {
    pub id: u64,
    pub symbol: String,
}

#[derive(Debug)]
pub struct DeltaSpotIndex {
    pub id: u64,
    pub symbol: String,
    pub tick_size: Option<String>,
    pub index_type: Option<String>,
}

/// A product as it is listed.
#[derive(Debug)]
pub struct DeltaProduct {
    pub id: u64,
    pub symbol: String,
    pub description: Option<String>,
    pub settlement_time: Option<String>,
    pub tick_size: Option<String>,
    pub contract_value: Option<String>,
    pub contract_unit_currency: Option<String>,
    pub state: Option<String>,
    pub trading_status: Option<String>,
    pub contract_type: String,
    pub strike_price: Option<String>,
    pub underlying_asset: Option<DeltaAsset>,
    pub quoting_asset: Option<DeltaAsset>,
    pub settling_asset: Option<DeltaAsset>,
    pub spot_index: Option<DeltaSpotIndex>,
}

/// An underlying and the symbol whose price its derivatives are chosen around.
#[derive(Debug, PartialEq, Eq)]
pub struct DeltaSpotReference {
    pub underlying: String,
    pub spot_symbol: String,
}

impl View for DeltaSpotReference {
    type V = SpotFacts;

    open spec fn view(&self) -> SpotFacts {
        SpotFacts { underlying: self.underlying@, spot_symbol: self.spot_symbol@ }
    }
}

pub open spec fn reference_views(v: Seq<DeltaSpotReference>) -> Seq<SpotFacts> {
    Seq::new(v.len(), |i: int| v[i]@)
}

/// A page of products.
#[derive(Debug)]
pub struct ProductsPage {
    pub success: bool,
    pub result: Vec<DeltaProduct>,
    /// Where the next page begins.
    pub after: Option<String>,
}

/// Takes in a page of products, and tells where the next begins, where there is one.
pub fn take_page(products: &mut Vec<DeltaProduct>, page: ProductsPage) -> (r: Result<
    Option<String>,
    FeedError,
>)
    ensures
        if !page.success {
            final(products)@ == old(products)@ && (r matches Err(e) && e@ == FeedFault::Http(
                "Delta products API returned success=false"@,
            ))
        } else {
            final(products)@ == old(products)@ + page.result@ && (r matches Ok(after) && after
                == match page.after {
                Some(cursor) => if cursor@.len() > 0 {
                    Some(cursor)
                } else {
                    None
                },
                None => None,
            })
        },
{
    if !page.success {
        return Err(FeedError::Http("Delta products API returned success=false".to_owned()));
    }
    let mut result = page.result;
    products.append(&mut result);
    match page.after {
        Some(cursor) => {
            if cursor.as_str().is_empty() {
                Ok(None)
            } else {
                Ok(Some(cursor))
            }
        },
        None => Ok(None),
    }
}

/// The kind of instrument that a sort of contract is.
pub open spec fn contract_kind(contract_type: Seq<char>) -> Option<InstrumentType> {
    if contract_type == "spot"@ {
        Some(InstrumentType::Spot)
    } else if contract_type == "futures"@ {
        Some(InstrumentType::Fut)
    } else if contract_type == "perpetual_futures"@ {
        Some(InstrumentType::PerpFut)
    } else if contract_type == "call_options"@ {
        Some(InstrumentType::Call)
    } else if contract_type == "put_options"@ {
        Some(InstrumentType::Put)
    } else {
        None
    }
}

/// Whether a symbol is one of an option.
pub open spec fn is_option_symbol(symbol: Seq<char>) -> bool {
    starts(symbol, "C-"@) || starts(symbol, "P-"@)
}

/// A part of a symbol, between dashes.
pub open spec fn symbol_part(symbol: Seq<char>, n: int) -> Option<Seq<char>> {
    let parts = split_of(symbol, '-');
    if 0 <= n < parts.len() {
        Some(parts[n])
    } else {
        None
    }
}

fn part_of_symbol(symbol: &str, n: usize) -> (r: Option<String>)
    ensures
        text_facts(r) == symbol_part(symbol@, n as int),
{
    let parts = split(symbol, '-');
    if n < parts.len() {
        assert(views(parts@)[n as int] == parts@[n as int]@);
        Some(parts[n].clone())
    } else {
        None
    }
}

fn option_symbol(symbol: &str) -> (r: bool)
    ensures
        r == is_option_symbol(symbol@),
{
    starts_with(symbol, "C-") || starts_with(symbol, "P-")
}

/// The underlying that a symbol tells.
pub open spec fn underlying_in(symbol: Seq<char>) -> Option<Seq<char>> {
    if is_option_symbol(symbol) {
        symbol_part(symbol, 1)
    } else if starts(symbol, "BTC"@) {
        Some("BTC"@)
    } else if starts(symbol, "ETH"@) {
        Some("ETH"@)
    } else if starts(symbol, "SOL"@) {
        Some("SOL"@)
    } else if starts(symbol, "XRP"@) {
        Some("XRP"@)
    } else if starts(symbol, "BNB"@) {
        Some("BNB"@)
    } else if starts(symbol, "USDT"@) {
        Some("USDT"@)
    } else {
        None
    }
}

pub fn parse_underlying_from_symbol(symbol: &str) -> (r: Option<String>)
    ensures
        text_facts(r) == underlying_in(symbol@),
{
    if option_symbol(symbol) {
        part_of_symbol(symbol, 1)
    } else if starts_with(symbol, "BTC") {
        Some("BTC".to_owned())
    } else if starts_with(symbol, "ETH") {
        Some("ETH".to_owned())
    } else if starts_with(symbol, "SOL") {
        Some("SOL".to_owned())
    } else if starts_with(symbol, "XRP") {
        Some("XRP".to_owned())
    } else if starts_with(symbol, "BNB") {
        Some("BNB".to_owned())
    } else if starts_with(symbol, "USDT") {
        Some("USDT".to_owned())
    } else {
        None
    }
}

/// The value that a text denotes, without the blanks around it.
pub open spec fn value_in(text: Option<Seq<char>>, numbers: Map<Seq<char>, Decimal>) -> Option<
    DecimalFacts,
> {
    match text {
        Some(t) => number_in(numbers, trim_of(t)),
        None => None,
    }
}

fn parse_decimal(text: &Option<String>, numbers: &Numbers) -> (r: Option<Decimal>)
    ensures
        decimal_facts(r) == value_in(text_facts(*text), numbers@),
{
    match text {
        Some(t) => find_number(numbers, trim(t.as_str()).as_str()),
        None => None,
    }
}

/// A date that is written as two bytes each of day, month and year, as `YYYY-MM-DD`.
pub open spec fn long_date_of(value: Seq<char>) -> Option<Seq<char>> {
    if encode_utf8(value).len() != 6 {
        None
    } else {
        match (slice_of(value, 0, 2), slice_of(value, 2, 4), slice_of(value, 4, 6)) {
            (Some(day), Some(month), Some(year)) => Some(
                "20"@ + year + "-"@ + month + "-"@ + day,
            ),
            _ => None,
        }
    }
}

pub fn ddmmyy_to_yyyy_mm_dd(value: &str) -> (r: Option<String>)
    ensures
        text_facts(r) == long_date_of(value@),
{
    if byte_len(value) != 6 {
        return None;
    }
    match (slice(value, 0, 2), slice(value, 2, 4), slice(value, 4, 6)) {
        (Some(day), Some(month), Some(year)) => {
            let mut out = "20".to_owned();
            out.append(year.as_str());
            out.append("-");
            out.append(month.as_str());
            out.append("-");
            out.append(day.as_str());
            Some(out)
        },
        _ => None,
    }
}

/// The day, counted from 1970-01-01, of a date that is written as `YYYY-MM-DD`. What stands
/// between the numbers is not looked at.
pub open spec fn epoch_day_of(value: Seq<char>) -> Option<nat> {
    if encode_utf8(value).len() != 10 {
        None
    } else {
        match (slice_of(value, 0, 4), slice_of(value, 5, 7), slice_of(value, 8, 10)) {
            (Some(y), Some(m), Some(d)) => match (
                parse_i64_of(y),
                parse_i64_of(m),
                parse_i64_of(d),
            ) {
                (Some(year), Some(month), Some(day)) => if civil_number(year, month, day) >= 0 {
                    Some(civil_number(year, month, day) as nat)
                } else {
                    None
                },
                _ => None,
            },
            _ => None,
        }
    }
}

proof fn short_text(value: Seq<char>, from: nat, to: nat)
    requires
        from < to,
        slice_of(value, from, to) is Some,
    ensures
        parse_i64_of(slice_of(value, from, to)->0) matches Some(v) ==> -ten_to(
            (to - from - 1) as nat,
        ) < v < ten_to((to - from) as nat),
{
    slice_is_short(value, from, to);
    parsed_is_small(slice_of(value, from, to)->0, (to - from) as nat);
}

/// The day, counted from 1970-01-01, of a date that is written as `YYYY-MM-DD`.
pub fn yyyy_mm_dd_to_epoch_day(value: &str) -> (r: Option<u64>)
    ensures
        match r {
            Some(day) => epoch_day_of(value@) == Some(day as nat) && day <= 10_000_000,
            None => epoch_day_of(value@) is None,
        },
{
    if byte_len(value) != 10 {
        return None;
    }
    let (year, month, day) = match (slice(value, 0, 4), slice(value, 5, 7), slice(value, 8, 10)) {
        (Some(y), Some(m), Some(d)) => {
            proof {
                short_text(value@, 0, 4);
                short_text(value@, 5, 7);
                short_text(value@, 8, 10);
            }
            (parse_i64(y.as_str()), parse_i64(m.as_str()), parse_i64(d.as_str()))
        },
        _ => return None,
    };
    match (year, month, day) {
        (Some(year), Some(month), Some(day)) => {
            proof {
                assert(ten_to(4) == 10_000 && ten_to(3) == 1_000 && ten_to(2) == 100 && ten_to(1)
                    == 10) by {
                    reveal_with_fuel(ten_to, 5);
                }
            }
            let n: i64 = days_from_civil(year, month, day);
            if n >= 0 {
                Some(n as u64)
            } else {
                None
            }
        },
        _ => None,
    }
}

/// Whether an option with an expiry is not settled yet at a moment. One whose expiry is no
/// date counts as not settled.
pub open spec fn is_unsettled(expiry: Option<Seq<char>>, now: u64) -> bool {
    match expiry {
        Some(text) => match epoch_day_of(text) {
            Some(day) => now < day * 86_400 + DELTA_OPTION_SETTLEMENT_UTC_SECONDS,
            None => true,
        },
        None => true,
    }
}

pub fn delta_expiry_active_at(expiry: &Option<String>, now_unix_seconds: u64) -> (r: bool)
    ensures
        r == is_unsettled(text_facts(*expiry), now_unix_seconds),
{
    match expiry {
        Some(text) => match yyyy_mm_dd_to_epoch_day(text.as_str()) {
            Some(day) => now_unix_seconds < day * 86_400 + DELTA_OPTION_SETTLEMENT_UTC_SECONDS,
            None => true,
        },
        None => true,
    }
}

pub open spec fn is_active(kind: InstrumentType, expiry: Option<Seq<char>>, now: u64) -> bool {
    !is_option_type(kind) || is_unsettled(expiry, now)
}

/// Whether an instrument is traded at a moment.
pub fn delta_instrument_active_at(instrument: &InstrumentDefinition, now_unix_seconds: u64) -> (r:
    bool)
    ensures
        r == is_active(instrument@.instrument_type, instrument@.expiry, now_unix_seconds),
{
    if !instrument.instrument_type.is_option() {
        return true;
    }
    delta_expiry_active_at(&instrument.expiry, now_unix_seconds)
}

/// The underlying of a product.
pub open spec fn underlying_of(product: DeltaProduct) -> Option<Seq<char>> {
    match product.contract_unit_currency {
        Some(currency) => Some(currency@),
        None => underlying_in(product.symbol@),
    }
}

/// The strike of a product.
pub open spec fn strike_of(product: DeltaProduct, numbers: Map<Seq<char>, Decimal>) -> Option<
    DecimalFacts,
> {
    match value_in(text_facts(product.strike_price), numbers) {
        Some(strike) => Some(strike),
        None => if is_option_symbol(product.symbol@) {
            value_in(symbol_part(product.symbol@, 2), numbers)
        } else {
            None
        },
    }
}

/// The expiry that the symbol of a product tells.
pub open spec fn short_expiry_of(product: DeltaProduct) -> Option<Seq<char>> {
    if is_option_symbol(product.symbol@) {
        symbol_part(product.symbol@, 3)
    } else {
        None
    }
}

/// The expiry of a product, as `YYYY-MM-DD`.
pub open spec fn expiry_of(product: DeltaProduct) -> Option<Seq<char>> {
    let settled = match product.settlement_time {
        Some(time) => slice_of(time@, 0, 10),
        None => None,
    };
    match settled {
        Some(date) => Some(date),
        None => match short_expiry_of(product) {
            Some(text) => long_date_of(text),
            None => None,
        },
    }
}

impl DeltaProduct {
    pub fn instrument_type(&self) -> (r: Option<InstrumentType>)
        ensures
            r == contract_kind(self.contract_type@),
    {
        let t = self.contract_type.as_str();
        if same(t, "spot") {
            Some(InstrumentType::Spot)
        } else if same(t, "futures") {
            Some(InstrumentType::Fut)
        } else if same(t, "perpetual_futures") {
            Some(InstrumentType::PerpFut)
        } else if same(t, "call_options") {
            Some(InstrumentType::Call)
        } else if same(t, "put_options") {
            Some(InstrumentType::Put)
        } else {
            None
        }
    }

    pub fn underlying(&self) -> (r: Option<String>)
        ensures
            text_facts(r) == underlying_of(*self),
    {
        match &self.contract_unit_currency {
            Some(currency) => Some(currency.clone()),
            None => parse_underlying_from_symbol(self.symbol.as_str()),
        }
    }

    /// The strike of the product. `numbers` tells what texts denote.
    pub fn strike(&self, numbers: &Numbers) -> (r: Option<Decimal>)
        ensures
            decimal_facts(r) == strike_of(*self, numbers@),
    {
        if let Some(strike) = parse_decimal(&self.strike_price, numbers) {
            return Some(strike);
        }
        if option_symbol(self.symbol.as_str()) {
            parse_decimal(&part_of_symbol(self.symbol.as_str(), 2), numbers)
        } else {
            None
        }
    }

    pub fn expiry_ddmmyy(&self) -> (r: Option<String>)
        ensures
            text_facts(r) == short_expiry_of(*self),
    {
        if option_symbol(self.symbol.as_str()) {
            part_of_symbol(self.symbol.as_str(), 3)
        } else {
            None
        }
    }

    pub fn expiry_yyyy_mm_dd(&self) -> (r: Option<String>)
        ensures
            text_facts(r) == expiry_of(*self),
    {
        let settled = match &self.settlement_time {
            Some(time) => slice(time.as_str(), 0, 10),
            None => None,
        };
        match settled {
            Some(date) => Some(date),
            None => match self.expiry_ddmmyy() {
                Some(text) => ddmmyy_to_yyyy_mm_dd(text.as_str()),
                None => None,
            },
        }
    }

    /// The expiry as it is shown.
    pub fn expiry_display(&self) -> (r: String)
        ensures
            r@ == match expiry_of(*self) {
                Some(date) => date,
                None => match self.settlement_time {
                    Some(time) => time@,
                    None => "-"@,
                },
            },
    {
        match self.expiry_yyyy_mm_dd() {
            Some(date) => date,
            None => match &self.settlement_time {
                Some(time) => time.clone(),
                None => "-".to_owned(),
            },
        }
    }

    pub fn is_option(&self) -> (r: bool)
        ensures
            r == (contract_kind(self.contract_type@) matches Some(kind) && is_option_type(kind)),
    {
        match self.instrument_type() {
            Some(kind) => kind.is_option(),
            None => false,
        }
    }

    pub fn is_future_like(&self) -> (r: bool)
        ensures
            r == (contract_kind(self.contract_type@) == Some(InstrumentType::Fut) || contract_kind(
                self.contract_type@,
            ) == Some(InstrumentType::PerpFut)),
    {
        match self.instrument_type() {
            Some(InstrumentType::Fut) => true,
            Some(InstrumentType::PerpFut) => true,
            _ => false,
        }
    }

    /// Whether the product is traded at a moment.
    pub fn active_at(&self, now_unix_seconds: u64) -> (r: bool)
        ensures
            r == product_is_active(*self, now_unix_seconds),
    {
        if !self.is_option() {
            return true;
        }
        delta_expiry_active_at(&self.expiry_yyyy_mm_dd(), now_unix_seconds)
    }
}

pub open spec fn product_is_active(product: DeltaProduct, now: u64) -> bool {
    contract_kind(product.contract_type@) matches Some(kind) ==> is_active(
        kind,
        expiry_of(product),
        now,
    )
}

/// The last price of a symbol.
#[derive(Debug)]
pub struct DeltaTicker {
    pub symbol: String,
    pub spot_price: Option<String>,
    pub mark_price: Option<String>,
    pub close: Option<Json>,
    pub timestamp: Option<u64>,
}

/// A JSON value as a number.
pub open spec fn json_number(json: JsonFacts, numbers: Map<Seq<char>, Decimal>) -> Option<Real> {
    match json.shape {
        ShapeFacts::Number { value, .. } => value,
        ShapeFacts::Text(t) => match number_in(numbers, trim_of(t)) {
            Some(d) => Some(d.value),
            None => None,
        },
        _ => None,
    }
}

fn parse_json_number(json: &Json, numbers: &Numbers) -> (r: Option<Real>)
    ensures
        r == json_number(json@, numbers@),
{
    match &json.shape {
        Shape::Number { value, .. } => *value,
        Shape::Text(t) => match find_number(numbers, trim(t.as_str()).as_str()) {
            Some(d) => Some(d.value),
            None => None,
        },
        _ => None,
    }
}

/// The price that a ticker tells: of the index, the mark, or the last.
pub open spec fn reference_price_of(ticker: DeltaTicker, numbers: Map<Seq<char>, Decimal>) -> Option<
    Real,
> {
    match value_in(text_facts(ticker.spot_price), numbers) {
        Some(d) => Some(d.value),
        None => match value_in(text_facts(ticker.mark_price), numbers) {
            Some(d) => Some(d.value),
            None => match ticker.close {
                Some(json) => json_number(json@, numbers),
                None => None,
            },
        },
    }
}

impl DeltaTicker {
    pub fn reference_price(&self, numbers: &Numbers) -> (r: Option<Real>)
        ensures
            r == reference_price_of(*self, numbers@),
    {
        if let Some(d) = parse_decimal(&self.spot_price, numbers) {
            return Some(d.value);
        }
        if let Some(d) = parse_decimal(&self.mark_price, numbers) {
            return Some(d.value);
        }
        match &self.close {
            Some(json) => parse_json_number(json, numbers),
            None => None,
        }
    }
}

/// Takes the ticker of an answer, where it is one of success.
pub fn read_ticker(symbol: &str, success: bool, ticker: DeltaTicker) -> (r: Result<
    DeltaTicker,
    FeedError,
>)
    ensures
        if success {
            r == Ok::<DeltaTicker, FeedError>(ticker)
        } else {
            r matches Err(e) && e@ == FeedFault::Http(
                "Delta ticker API returned success=false for "@ + symbol@,
            )
        },
{
    if success {
        Ok(ticker)
    } else {
        Err(
            FeedError::Http(
                "Delta ticker API returned success=false for ".to_owned().concat(symbol),
            ),
        )
    }
}

/// A value, or another where there is none.
pub open spec fn value_or(value: Option<DecimalFacts>, other: DecimalFacts) -> DecimalFacts {
    match value {
        Some(v) => v,
        None => other,
    }
}

/// The value zero.
pub open spec fn zero_facts() -> DecimalFacts {
    DecimalFacts { value: Real { bits: 0 }, text: "0"@ }
}

/// The value one.
pub open spec fn one_facts() -> DecimalFacts {
    DecimalFacts { value: Real { bits: 0x3ff0_0000_0000_0000 }, text: "1"@ }
}

/// The instrument that a product is, where its kind and its underlying are known.
pub open spec fn definition_of(product: DeltaProduct, numbers: Map<Seq<char>, Decimal>) -> Option<
    InstrumentFacts,
> {
    match (contract_kind(product.contract_type@), underlying_of(product)) {
        (Some(kind), Some(underlying)) => Some(
            InstrumentFacts {
                instrument_name: product.symbol@,
                instrument_type: kind,
                strike: strike_of(product, numbers),
                expiry: expiry_of(product),
                broker: "DELTA"@,
                instrument_token: decimal_of(product.id as nat),
                trading_symbol: product.symbol@,
                exchange: "DELTA"@,
                segment: kind_name(kind),
                underlying,
                lot_size: value_or(
                    value_in(text_facts(product.contract_value), numbers),
                    one_facts(),
                ),
                tick_size: value_or(value_in(text_facts(product.tick_size), numbers), zero_facts()),
                tradable: text_facts(product.trading_status) == Some("operational"@) && text_facts(
                    product.state,
                ) == Some("live"@),
            },
        ),
        _ => None,
    }
}

pub open spec fn instrument_option(instrument: Option<InstrumentDefinition>) -> Option<
    InstrumentFacts,
> {
    match instrument {
        Some(i) => Some(i@),
        None => None,
    }
}

/// The instrument that a product is, where its kind and its underlying are known.
pub fn delta_product_to_instrument_definition(product: &DeltaProduct, numbers: &Numbers) -> (r:
    Option<InstrumentDefinition>)
    ensures
        instrument_option(r) == definition_of(*product, numbers@),
{
    let instrument_type = match product.instrument_type() {
        Some(kind) => kind,
        None => return None,
    };
    let underlying = match product.underlying() {
        Some(underlying) => underlying,
        None => return None,
    };
    let tick_size = match parse_decimal(&product.tick_size, numbers) {
        Some(d) => d,
        None => Decimal { value: Real { bits: 0 }, text: "0".to_owned() },
    };
    let lot_size = match parse_decimal(&product.contract_value, numbers) {
        Some(d) => d,
        None => Decimal { value: Real { bits: 0x3ff0_0000_0000_0000 }, text: "1".to_owned() },
    };
    Some(
        InstrumentDefinition {
            instrument_name: InstrumentName::new(product.symbol.as_str()),
            instrument_type,
            strike: product.strike(numbers),
            expiry: product.expiry_yyyy_mm_dd(),
            broker: "DELTA".to_owned(),
            instrument_token: decimal(product.id),
            trading_symbol: product.symbol.clone(),
            exchange: "DELTA".to_owned(),
            segment: instrument_type.segment().to_owned(),
            underlying,
            lot_size,
            tick_size,
            tradable: is_text(&product.trading_status, "operational") && is_text(
                &product.state,
                "live",
            ),
        },
    )
}

/// The instruments that products are.
pub open spec fn definitions_of(products: Seq<DeltaProduct>, numbers: Map<Seq<char>, Decimal>) -> Seq<
    InstrumentFacts,
>
    decreases products.len(),
{
    if products.len() == 0 {
        Seq::empty()
    } else {
        let before = definitions_of(products.drop_last(), numbers);
        match definition_of(products.last(), numbers) {
            Some(i) => before.push(i),
            None => before,
        }
    }
}

/// The instruments that products are.
pub fn definitions(products: &Vec<DeltaProduct>, numbers: &Numbers) -> (r: Vec<
    InstrumentDefinition,
>)
    ensures
        instrument_views(r@) == definitions_of(products@, numbers@),
{
    let mut out: Vec<InstrumentDefinition> = Vec::new();
    let mut i: usize = 0;
    assert(products@.take(0) =~= Seq::empty());
    assert(instrument_views(out@) =~= Seq::empty());
    while i < products.len()
        invariant
            i <= products@.len(),
            instrument_views(out@) == definitions_of(products@.take(i as int), numbers@),
        decreases products@.len() - i,
    {
        let ghost before = instrument_views(out@);
        assert(products@.take(i + 1).drop_last() =~= products@.take(i as int));
        if let Some(one) = delta_product_to_instrument_definition(&products[i], numbers) {
            out.push(one);
            assert(instrument_views(out@) =~= before.push(one@));
        }
        i += 1;
    }
    assert(products@.take(i as int) =~= products@);
    out
}

/// The rows of instruments.
pub open spec fn rows_of(list: Seq<InstrumentFacts>) -> Seq<Seq<char>> {
    Seq::new(list.len(), |i: int| csv_row_of(list[i]))
}

fn push_rows(out: &mut Vec<String>, list: &Vec<InstrumentDefinition>)
    ensures
        views(final(out)@) == views(old(out)@) + rows_of(instrument_views(list@)),
{
    let ghost start = views(out@);
    let ghost rows = rows_of(instrument_views(list@));
    let mut i: usize = 0;
    assert(views(out@) =~= start + rows.take(0));
    while i < list.len()
        invariant
            i <= list@.len(),
            rows == rows_of(instrument_views(list@)),
            views(out@) == start + rows.take(i as int),
        decreases list@.len() - i,
    {
        let ghost before = views(out@);
        let row = list[i].to_csv_row();
        out.push(row);
        assert(views(out@) =~= before.push(row@));
        i += 1;
        assert(views(out@) =~= start + rows.take(i as int));
    }
    assert(rows.take(i as int) =~= rows);
}

/// What a file of instruments holds: its columns, and behind them the rows.
pub open spec fn file_of(rows: Seq<Seq<char>>) -> Seq<char> {
    join_of(seq![UNIVERSAL_INSTRUMENT_CSV_HEADER@] + rows, "\n"@) + "\n"@
}

/// What a file of instruments holds.
pub fn delta_master_csv(instruments: &Vec<InstrumentDefinition>) -> (r: String)
    ensures
        r@ == file_of(rows_of(instrument_views(instruments@))),
{
    let mut rows: Vec<String> = Vec::new();
    rows.push(UNIVERSAL_INSTRUMENT_CSV_HEADER.to_owned());
    push_rows(&mut rows, instruments);
    assert(views(rows@) =~= seq![UNIVERSAL_INSTRUMENT_CSV_HEADER@] + rows_of(
        instrument_views(instruments@),
    ));
    join(&rows, "\n").concat("\n")
}

/// The rows of all that some summaries have.
pub open spec fn all_rows_of(summaries: Seq<UniverseSummary>) -> Seq<Seq<char>>
    decreases summaries.len(),
{
    if summaries.len() == 0 {
        Seq::empty()
    } else {
        all_rows_of(summaries.drop_last()) + rows_of(
            instrument_views(traded_in(summaries.last())),
        )
    }
}

/// What the file of derivatives holds.
pub fn delta_derivatives_csv(summaries: &Vec<DeltaUniverseSummary>) -> (r: String)
    ensures
        r@ == file_of(all_rows_of(summaries@)),
{
    let mut rows: Vec<String> = Vec::new();
    rows.push(UNIVERSAL_INSTRUMENT_CSV_HEADER.to_owned());
    let mut i: usize = 0;
    assert(summaries@.take(0) =~= Seq::empty());
    assert(views(rows@) =~= seq![UNIVERSAL_INSTRUMENT_CSV_HEADER@] + Seq::empty());
    while i < summaries.len()
        invariant
            i <= summaries@.len(),
            views(rows@) == seq![UNIVERSAL_INSTRUMENT_CSV_HEADER@] + all_rows_of(
                summaries@.take(i as int),
            ),
        decreases summaries@.len() - i,
    {
        assert(summaries@.take(i + 1).drop_last() =~= summaries@.take(i as int));
        let all = all_traded(&summaries[i]);
        push_rows(&mut rows, &all);
        i += 1;
        assert(views(rows@) =~= seq![UNIVERSAL_INSTRUMENT_CSV_HEADER@] + all_rows_of(
            summaries@.take(i as int),
        ));
    }
    assert(summaries@.take(i as int) =~= summaries@);
    join(&rows, "\n").concat("\n")
}

/// Whether a kind of instrument is chosen: where kinds are named, one of them.
pub open spec fn is_allowed(kind: Option<InstrumentType>, names: Seq<Seq<char>>) -> bool {
    ||| names.len() == 0
    ||| kind matches Some(k) && exists|i: int|
        0 <= i < names.len() && lower_of(#[trigger] names[i]) == lower_of(kind_name(k))
}

fn instrument_type_allowed(kind: Option<InstrumentType>, names: &Vec<String>) -> (r: bool)
    ensures
        r == is_allowed(kind, views(names@)),
{
    if names.len() == 0 {
        return true;
    }
    let one = match kind {
        Some(one) => one,
        None => return false,
    };
    let ghost all = views(names@);
    let mut i: usize = 0;
    while i < names.len()
        invariant
            i <= names@.len(),
            all == views(names@),
            kind == Some(one),
            forall|k: int| 0 <= k < i ==> lower_of(#[trigger] all[k]) != lower_of(kind_name(one)),
        decreases names@.len() - i,
    {
        assert(all[i as int] == names@[i as int]@);
        if same_ignoring_case(names[i].as_str(), one.as_str()) {
            return true;
        }
        i += 1;
    }
    false
}

/// What is chosen: of which underlying, of which kinds, with which strikes, and when.
pub struct ChoiceFacts {
    pub underlying: Seq<char>,
    pub types: Seq<Seq<char>>,
    pub window: StrikeWindow,
    pub now: u64,
}

/// Whether an instrument is chosen.
pub open spec fn is_chosen(i: InstrumentFacts, choice: ChoiceFacts) -> bool {
    &&& i.underlying == choice.underlying
    &&& is_active(i.instrument_type, i.expiry, choice.now)
    &&& is_allowed(Some(i.instrument_type), choice.types)
    &&& is_option_type(i.instrument_type) ==> choice.window.admits(i.strike)
}

/// The instrument of a line of the master.
pub open spec fn line_of(
    headers: Seq<Seq<char>>,
    line: Seq<char>,
    number: nat,
    numbers: Map<Seq<char>, Decimal>,
) -> Result<InstrumentFacts, FeedFault> {
    let values = cells_of(line);
    if values.len() != headers.len() {
        Err(
            FeedFault::Parse(
                "Delta master CSV line "@ + decimal_of(number) + " has "@ + decimal_of(values.len())
                    + " fields, expected "@ + decimal_of(headers.len()),
            ),
        )
    } else {
        row_of(headers, values, numbers, "missing Delta master CSV column "@)
    }
}

fn parse_master_csv_row(headers: &Vec<String>, line: &str, number: usize, numbers: &Numbers) -> (r:
    Result<InstrumentDefinition, FeedError>)
    ensures
        match r {
            Ok(i) => line_of(views(headers@), line@, number as nat, numbers@) == Ok::<
                InstrumentFacts,
                FeedFault,
            >(i@),
            Err(e) => line_of(views(headers@), line@, number as nat, numbers@) == Err::<
                InstrumentFacts,
                FeedFault,
            >(e@),
        },
{
    let values = cells(line);
    assert(cells_of(line@).len() == values@.len());
    if values.len() != headers.len() {
        let mut message = "Delta master CSV line ".to_owned();
        message.append(decimal(number as u64).as_str());
        message.append(" has ");
        message.append(decimal(values.len() as u64).as_str());
        message.append(" fields, expected ");
        message.append(decimal(headers.len() as u64).as_str());
        return Err(FeedError::Parse(message));
    }
    parse_row(headers, &values, numbers, "missing Delta master CSV column ")
}

/// The instruments of the lines of the master, behind its columns, that are chosen.
pub open spec fn chosen_of(
    headers: Seq<Seq<char>>,
    lines: Seq<Seq<char>>,
    choice: ChoiceFacts,
    numbers: Map<Seq<char>, Decimal>,
) -> Result<Seq<InstrumentFacts>, FeedFault>
    decreases lines.len(),
{
    if lines.len() == 0 {
        Ok(Seq::empty())
    } else {
        match chosen_of(headers, lines.drop_last(), choice, numbers) {
            Err(e) => Err(e),
            Ok(before) => if trim_of(lines.last()).len() == 0 {
                Ok(before)
            } else {
                match line_of(headers, lines.last(), lines.len() + 1, numbers) {
                    Err(e) => Err(e),
                    Ok(i) => if is_chosen(i, choice) {
                        Ok(before.push(i))
                    } else {
                        Ok(before)
                    },
                }
            },
        }
    }
}

proof fn choosing_fails(
    headers: Seq<Seq<char>>,
    lines: Seq<Seq<char>>,
    n: int,
    choice: ChoiceFacts,
    numbers: Map<Seq<char>, Decimal>,
)
    requires
        0 <= n <= lines.len(),
        chosen_of(headers, lines.take(n), choice, numbers) is Err,
    ensures
        chosen_of(headers, lines, choice, numbers) == chosen_of(
            headers,
            lines.take(n),
            choice,
            numbers,
        ),
    decreases lines.len(),
{
    if n == lines.len() {
        assert(lines.take(n) =~= lines);
    } else {
        assert(lines.drop_last().take(n) =~= lines.take(n));
        choosing_fails(headers, lines.drop_last(), n, choice, numbers);
    }
}

/// The instruments of the master that are chosen.
pub open spec fn matching_of(
    content: Seq<char>,
    choice: ChoiceFacts,
    numbers: Map<Seq<char>, Decimal>,
) -> Result<Seq<InstrumentFacts>, FeedFault> {
    let all = lines_of(content);
    if all.len() == 0 {
        Err(FeedFault::Parse("Delta master CSV is empty"@))
    } else {
        chosen_of(cells_of(all[0]), all.skip(1), choice, numbers)
    }
}

/// What reading the master came to, as contracts speak of it.
pub open spec fn list_outcome(r: Result<Vec<InstrumentDefinition>, FeedError>) -> Result<
    Seq<InstrumentFacts>,
    FeedFault,
> {
    match r {
        Ok(list) => Ok(instrument_views(list@)),
        Err(e) => Err(e@),
    }
}

/// The instruments of the master that are chosen.
pub fn read_matching_delta_master_instruments(
    content: &str,
    selection: &InstrumentSelection,
    underlying: &str,
    window: &StrikeWindow,
    now_unix_seconds: u64,
    numbers: &Numbers,
) -> (r: Result<Vec<InstrumentDefinition>, FeedError>)
    ensures
        list_outcome(r) == matching_of(
            content@,
            (ChoiceFacts {
                underlying: underlying@,
                types: views(selection.instrument_types@),
                window: *window,
                now: now_unix_seconds,
            }),
            numbers@,
        ),
{
    let ghost choice = ChoiceFacts {
        underlying: underlying@,
        types: views(selection.instrument_types@),
        window: *window,
        now: now_unix_seconds,
    };
    let all = lines(content);
    let ghost texts = views(all@);
    let count: usize = all.len();
    if count == 0 {
        return Err(FeedError::Parse("Delta master CSV is empty".to_owned()));
    }
    let headers = cells(all[0].as_str());
    assert(texts[0] == all@[0]@);
    let ghost names = views(headers@);
    let ghost rest = texts.skip(1);
    let mut out: Vec<InstrumentDefinition> = Vec::new();
    let mut i: usize = 1;
    assert(rest.take(0) =~= Seq::empty());
    assert(instrument_views(out@) =~= Seq::empty());
    while i < count
        invariant
            1 <= i <= count == all@.len(),
            texts == views(all@),
            texts == lines_of(content@),
            rest == texts.skip(1),
            names == views(headers@),
            names == cells_of(texts[0]),
            choice == (ChoiceFacts {
                underlying: underlying@,
                types: views(selection.instrument_types@),
                window: *window,
                now: now_unix_seconds,
            }),
            chosen_of(names, rest.take(i - 1), choice, numbers@) == Ok::<
                Seq<InstrumentFacts>,
                FeedFault,
            >(instrument_views(out@)),
        decreases count - i,
    {
        let ghost before = instrument_views(out@);
        assert(rest.take(i as int).drop_last() =~= rest.take(i - 1));
        assert(rest.take(i as int).last() == all@[i as int]@);
        let line = all[i].as_str();
        if !trim(line).as_str().is_empty() {
            match parse_master_csv_row(&headers, line, i + 1, numbers) {
                Err(e) => {
                    proof {
                        choosing_fails(names, rest, i as int, choice, numbers@);
                    }
                    return Err(e);
                },
                Ok(one) => {
                    let chosen = same(one.underlying.as_str(), underlying)
                        && delta_instrument_active_at(&one, now_unix_seconds)
                        && instrument_type_allowed(
                        Some(one.instrument_type),
                        &selection.instrument_types,
                    ) && (!one.instrument_type.is_option() || window.has(&one));
                    assert(chosen == is_chosen(one@, choice));
                    if chosen {
                        out.push(one);
                        assert(instrument_views(out@) =~= before.push(one@));
                    }
                },
            }
        }
        i += 1;
    }
    assert(rest.take(i - 1) =~= rest);
    Ok(out)
}

/// Tells which instruments are futures.
pub open spec fn future_like() -> spec_fn(InstrumentDefinition) -> bool {
    |i: InstrumentDefinition|
        i.instrument_type == InstrumentType::Fut || i.instrument_type == InstrumentType::PerpFut
}

fn futures_among(list: &Vec<InstrumentDefinition>) -> (r: Vec<InstrumentDefinition>)
    ensures
        r@ == list@.filter(future_like()),
{
    let ghost f = future_like();
    let mut out: Vec<InstrumentDefinition> = Vec::new();
    let mut i: usize = 0;
    assert(list@.take(0).filter(f) =~= Seq::empty()) by {
        reveal(Seq::filter);
    }
    while i < list.len()
        invariant
            i <= list@.len(),
            f == future_like(),
            out@ == list@.take(i as int).filter(f),
        decreases list@.len() - i,
    {
        proof {
            filter_push(list@.take(i as int), list@[i as int], f);
            assert(list@.take(i + 1) =~= list@.take(i as int).push(list@[i as int]));
        }
        if list[i].instrument_type == InstrumentType::Fut || list[i].instrument_type
            == InstrumentType::PerpFut {
            out.push(list[i].clone());
        }
        i += 1;
    }
    assert(list@.take(i as int) =~= list@);
    out
}

/// Whether a summary has the futures of instruments, by their symbols, and the options whose
/// strike is traded, by the distances of the strikes and then by their symbols.
pub open spec fn has_choice_of(
    summary: UniverseSummary,
    list: Seq<InstrumentDefinition>,
    window: StrikeWindow,
) -> bool {
    let sorted = arranged_of(list, Order::Symbol, window);
    &&& summary.futures@ == sorted.filter(future_like())
    &&& summary.atm_options@ == arranged_of(
        sorted.filter(option_within(window)),
        Order::Distance,
        window,
    )
}

/// Whether a summary has the futures and the options among instruments.
pub open spec fn is_choice_among(
    summary: UniverseSummary,
    facts: Seq<InstrumentFacts>,
    window: StrikeWindow,
) -> bool {
    exists|list: Seq<InstrumentDefinition>|
        instrument_views(list) == facts && #[trigger] has_choice_of(summary, list, window)
}

fn summary_of_choice(
    underlying: &str,
    reference_symbol: &str,
    reference_price: Real,
    spots: &TextSet,
    list: &Vec<InstrumentDefinition>,
    window: &StrikeWindow,
) -> (r: DeltaUniverseSummary)
    ensures
        r.selected_underlying@ == underlying@,
        r.reference_symbol@ == reference_symbol@,
        r.reference_price == reference_price,
        views(r.spot_or_index_symbols@) == ascending_of(spots@),
        has_choice_of(r, list@, *window),
{
    let sorted = arrange(list, Order::Symbol, window);
    let futures = futures_among(&sorted);
    let options = options_among(&sorted, window);
    let atm_options = arrange(&options, Order::Distance, window);
    let items = ascending_items(spots);
    let symbols = copy_texts(items);
    UniverseSummary {
        selected_underlying: underlying.to_owned(),
        reference_symbol: reference_symbol.to_owned(),
        reference_price,
        spot_or_index_symbols: symbols,
        futures,
        atm_options,
    }
}

/// The summary of what is traded of an underlying around a price, out of the master.
pub fn build_delta_universe_summary_from_master_csv(
    content: &str,
    selection: &InstrumentSelection,
    underlying: &str,
    reference_symbol: &str,
    reference_price: Real,
    window: &StrikeWindow,
    now_unix_seconds: u64,
    numbers: &Numbers,
) -> (r: Result<DeltaUniverseSummary, FeedError>)
    ensures
        match matching_of(
            content@,
            (ChoiceFacts {
                underlying: underlying@,
                types: views(selection.instrument_types@),
                window: *window,
                now: now_unix_seconds,
            }),
            numbers@,
        ) {
            Err(fault) => r matches Err(e) && e@ == fault,
            Ok(matching) => r matches Ok(summary) && {
                &&& summary.selected_underlying@ == underlying@
                &&& summary.reference_symbol@ == reference_symbol@
                &&& summary.reference_price == reference_price
                &&& views(summary.spot_or_index_symbols@) == ascending_of(
                    references_in(matching, reference_symbol@),
                )
                &&& is_choice_among(summary, matching, *window)
            },
        },
{
    let list = match read_matching_delta_master_instruments(
        content,
        selection,
        underlying,
        window,
        now_unix_seconds,
        numbers,
    ) {
        Ok(list) => list,
        Err(e) => return Err(e),
    };
    let ghost all = instrument_views(list@);
    let spots = references(&list, reference_symbol);
    let summary = summary_of_choice(
        underlying,
        reference_symbol,
        reference_price,
        &spots,
        &list,
        window,
    );
    assert(is_choice_among(summary, all, *window));
    Ok(summary)
}

/// The products of an underlying that are chosen.
pub open spec fn chosen_products(
    products: Seq<DeltaProduct>,
    underlying: Seq<char>,
    types: Seq<Seq<char>>,
    now: u64,
) -> Seq<DeltaProduct>
    decreases products.len(),
{
    if products.len() == 0 {
        Seq::empty()
    } else {
        let before = chosen_products(products.drop_last(), underlying, types, now);
        let p = products.last();
        if underlying_of(p) == Some(underlying) && product_is_active(p, now) && is_allowed(
            contract_kind(p.contract_type@),
            types,
        ) {
            before.push(p)
        } else {
            before
        }
    }
}

/// The symbols of the indices that products follow.
pub open spec fn indices_of(products: Seq<DeltaProduct>) -> Set<Seq<char>>
    decreases products.len(),
{
    if products.len() == 0 {
        Set::empty()
    } else {
        let before = indices_of(products.drop_last());
        match products.last().spot_index {
            Some(index) => before.insert(index.symbol@),
            None => before,
        }
    }
}

/// The summary of what is traded of an underlying around a price, out of products.
pub fn build_delta_universe_summary(
    products: &Vec<DeltaProduct>,
    selection: &InstrumentSelection,
    underlying: &str,
    reference_symbol: &str,
    reference_price: Real,
    window: &StrikeWindow,
    now_unix_seconds: u64,
    numbers: &Numbers,
) -> (summary: DeltaUniverseSummary)
    ensures
        ({
            let chosen = chosen_products(
                products@,
                underlying@,
                views(selection.instrument_types@),
                now_unix_seconds,
            );
            &&& summary.selected_underlying@ == underlying@
            &&& summary.reference_symbol@ == reference_symbol@
            &&& summary.reference_price == reference_price
            &&& views(summary.spot_or_index_symbols@) == ascending_of(indices_of(chosen))
            &&& is_choice_among(summary, definitions_of(chosen, numbers@), *window)
        }),
{
    let ghost types = views(selection.instrument_types@);
    let mut list: Vec<InstrumentDefinition> = Vec::new();
    let mut spots = TextSet::new();
    let mut i: usize = 0;
    assert(products@.take(0) =~= Seq::empty());
    assert(instrument_views(list@) =~= Seq::empty());
    while i < products.len()
        invariant
            i <= products@.len(),
            types == views(selection.instrument_types@),
            instrument_views(list@) == definitions_of(
                chosen_products(products@.take(i as int), underlying@, types, now_unix_seconds),
                numbers@,
            ),
            spots@ == indices_of(
                chosen_products(products@.take(i as int), underlying@, types, now_unix_seconds),
            ),
        decreases products@.len() - i,
    {
        let ghost chosen = chosen_products(
            products@.take(i as int),
            underlying@,
            types,
            now_unix_seconds,
        );
        let ghost before = instrument_views(list@);
        assert(products@.take(i + 1).drop_last() =~= products@.take(i as int));
        let product = &products[i];
        assert(chosen.push(*product).drop_last() =~= chosen);
        if is_text(&product.underlying(), underlying) && product.active_at(now_unix_seconds)
            && instrument_type_allowed(product.instrument_type(), &selection.instrument_types) {
            if let Some(index) = &product.spot_index {
                let _new = spots.insert(index.symbol.clone());
            }
            if let Some(one) = delta_product_to_instrument_definition(product, numbers) {
                list.push(one);
                assert(instrument_views(list@) =~= before.push(one@));
            }
        }
        i += 1;
    }
    assert(products@.take(i as int) =~= products@);
    let summary = summary_of_choice(
        underlying,
        reference_symbol,
        reference_price,
        &spots,
        &list,
        window,
    );
    assert(has_choice_of(summary, list@, *window));
    summary
}

/// The first text of a list with an ending.
pub open spec fn first_with_ending(list: Seq<Seq<char>>, ending: Seq<char>) -> Option<Seq<char>>
    decreases list.len(),
{
    if list.len() == 0 {
        None
    } else if ends(list[0], ending) {
        Some(list[0])
    } else {
        first_with_ending(list.drop_first(), ending)
    }
}

fn find_ending(list: &Vec<String>, ending: &str) -> (r: Option<String>)
    ensures
        text_facts(r) == first_with_ending(views(list@), ending@),
{
    let ghost all = views(list@);
    let mut i: usize = 0;
    assert(all.skip(0) =~= all);
    while i < list.len()
        invariant
            i <= list@.len(),
            all == views(list@),
            first_with_ending(all, ending@) == first_with_ending(all.skip(i as int), ending@),
        decreases list@.len() - i,
    {
        assert(all.skip(i as int).drop_first() =~= all.skip(i + 1));
        assert(all.skip(i as int)[0] == list@[i as int]@);
        if ends_with(list[i].as_str(), ending) {
            return Some(list[i].clone());
        }
        i += 1;
    }
    None
}

/// The index that is followed, out of some in ascending order: one in dollars, one in
/// tethers, or the first.
pub open spec fn preferred_of(symbols: Seq<Seq<char>>) -> Option<Seq<char>> {
    match first_with_ending(symbols, "USD"@) {
        Some(symbol) => Some(symbol),
        None => match first_with_ending(symbols, "USDT"@) {
            Some(symbol) => Some(symbol),
            None => if symbols.len() > 0 {
                Some(symbols[0])
            } else {
                None
            },
        },
    }
}

fn preferred_spot_index_symbol(symbols: &Vec<String>) -> (r: Option<String>)
    ensures
        text_facts(r) == preferred_of(views(symbols@)),
{
    if let Some(symbol) = find_ending(symbols, "USD") {
        return Some(symbol);
    }
    if let Some(symbol) = find_ending(symbols, "USDT") {
        return Some(symbol);
    }
    if symbols.len() > 0 {
        Some(symbols[0].clone())
    } else {
        None
    }
}

/// The products of an underlying.
pub open spec fn of_underlying(products: Seq<DeltaProduct>, underlying: Seq<char>) -> Seq<
    DeltaProduct,
>
    decreases products.len(),
{
    if products.len() == 0 {
        Seq::empty()
    } else {
        let before = of_underlying(products.drop_last(), underlying);
        if underlying_of(products.last()) == Some(underlying) {
            before.push(products.last())
        } else {
            before
        }
    }
}

fn indices_for(products: &Vec<DeltaProduct>, underlying: &str) -> (r: TextSet)
    ensures
        r@ == indices_of(of_underlying(products@, underlying@)),
{
    let mut set = TextSet::new();
    let mut i: usize = 0;
    assert(products@.take(0) =~= Seq::empty());
    while i < products.len()
        invariant
            i <= products@.len(),
            set@ == indices_of(of_underlying(products@.take(i as int), underlying@)),
        decreases products@.len() - i,
    {
        let ghost before = of_underlying(products@.take(i as int), underlying@);
        assert(products@.take(i + 1).drop_last() =~= products@.take(i as int));
        assert(before.push(products@[i as int]).drop_last() =~= before);
        if is_text(&products[i].underlying(), underlying) {
            if let Some(index) = &products[i].spot_index {
                let _new = set.insert(index.symbol.clone());
            }
        }
        i += 1;
    }
    assert(products@.take(i as int) =~= products@);
    set
}

/// The indices that underlyings are followed by.
pub open spec fn resolved_of(products: Seq<DeltaProduct>, underlyings: Seq<Seq<char>>) -> Result<
    Seq<SpotFacts>,
    FeedFault,
>
    decreases underlyings.len(),
{
    if underlyings.len() == 0 {
        Ok(Seq::empty())
    } else {
        match resolved_of(products, underlyings.drop_last()) {
            Err(e) => Err(e),
            Ok(before) => {
                let underlying = underlyings.last();
                match preferred_of(ascending_of(indices_of(of_underlying(products, underlying)))) {
                    None => Err(
                        FeedFault::Config(
                            "could not resolve Delta spot/index symbol for underlying "@
                                + underlying,
                        ),
                    ),
                    Some(spot_symbol) => Ok(before.push(SpotFacts { underlying, spot_symbol })),
                }
            },
        }
    }
}

proof fn resolving_fails(products: Seq<DeltaProduct>, underlyings: Seq<Seq<char>>, n: int)
    requires
        0 <= n <= underlyings.len(),
        resolved_of(products, underlyings.take(n)) is Err,
    ensures
        resolved_of(products, underlyings) == resolved_of(products, underlyings.take(n)),
    decreases underlyings.len(),
{
    if n == underlyings.len() {
        assert(underlyings.take(n) =~= underlyings);
    } else {
        assert(underlyings.drop_last().take(n) =~= underlyings.take(n));
        resolving_fails(products, underlyings.drop_last(), n);
    }
}

/// The indices that underlyings are followed by.
pub fn resolve_delta_spot_references(
    products: &Vec<DeltaProduct>,
    underlyings: &Vec<String>,
) -> (r: Result<Vec<DeltaSpotReference>, FeedError>)
    ensures
        match r {
            Ok(list) => resolved_of(products@, views(underlyings@)) == Ok::<
                Seq<SpotFacts>,
                FeedFault,
            >(reference_views(list@)),
            Err(e) => resolved_of(products@, views(underlyings@)) == Err::<
                Seq<SpotFacts>,
                FeedFault,
            >(e@),
        },
{
    let ghost all = views(underlyings@);
    let mut out: Vec<DeltaSpotReference> = Vec::new();
    let mut i: usize = 0;
    assert(all.take(0) =~= Seq::empty());
    assert(reference_views(out@) =~= Seq::empty());
    while i < underlyings.len()
        invariant
            i <= underlyings@.len(),
            all == views(underlyings@),
            resolved_of(products@, all.take(i as int)) == Ok::<Seq<SpotFacts>, FeedFault>(
                reference_views(out@),
            ),
        decreases underlyings@.len() - i,
    {
        let ghost before = reference_views(out@);
        assert(all.take(i + 1).drop_last() =~= all.take(i as int));
        assert(all.take(i + 1).last() == underlyings@[i as int]@);
        let underlying = underlyings[i].as_str();
        let set = indices_for(products, underlying);
        match preferred_spot_index_symbol(ascending_items(&set)) {
            None => {
                proof {
                    resolving_fails(products@, all, i + 1);
                }
                return Err(
                    FeedError::Config(
                        "could not resolve Delta spot/index symbol for underlying ".to_owned().concat(
                            underlying,
                        ),
                    ),
                );
            },
            Some(spot_symbol) => {
                let one = DeltaSpotReference { underlying: underlying.to_owned(), spot_symbol };
                out.push(one);
                assert(reference_views(out@) =~= before.push(one@));
            },
        }
        i += 1;
    }
    assert(all.take(i as int) =~= all);
    Ok(out)
}

/// The expiry of an instrument as it is shown.
pub open spec fn shown_expiry(instrument: InstrumentDefinition) -> Seq<char> {
    match instrument.expiry {
        Some(expiry) => expiry@,
        None => "-"@,
    }
}

fn expiry_text(instrument: &InstrumentDefinition) -> (r: String)
    ensures
        r@ == shown_expiry(*instrument),
{
    match &instrument.expiry {
        Some(expiry) => expiry.clone(),
        None => "-".to_owned(),
    }
}

/// The expiries of a list, as they are shown.
pub open spec fn expiries_in(list: Seq<InstrumentDefinition>) -> Set<Seq<char>>
    decreases list.len(),
{
    if list.len() == 0 {
        Set::empty()
    } else {
        expiries_in(list.drop_last()).insert(shown_expiry(list.last()))
    }
}

/// Tells which instruments are of an expiry.
pub open spec fn expires_on(expiry: Seq<char>) -> spec_fn(InstrumentDefinition) -> bool {
    |i: InstrumentDefinition| shown_expiry(i) == expiry
}

/// Tells which instruments have a strike.
pub open spec fn struck_at(strike: Real) -> spec_fn(InstrumentDefinition) -> bool {
    |i: InstrumentDefinition| i.strike matches Some(s) && s.value.eq_of(strike)
}

/// The place of the instrument with a strike that is nearest to the price, the first of
/// several, or -1 where none has a strike.
pub open spec fn nearest_place(list: Seq<InstrumentDefinition>, window: StrikeWindow) -> int
    decreases list.len(),
{
    if list.len() == 0 {
        -1
    } else {
        let best = nearest_place(list.drop_last(), window);
        if list.last().strike is None {
            best
        } else if best < 0 || nearer(
            window.distance_of(list.last()),
            window.distance_of(list[best]),
        ) {
            list.len() - 1
        } else {
            best
        }
    }
}

proof fn nearest_place_bounds(list: Seq<InstrumentDefinition>, window: StrikeWindow)
    ensures
        -1 <= nearest_place(list, window) < list.len(),
        nearest_place(list, window) >= 0 ==> list[nearest_place(list, window)].strike is Some,
    decreases list.len(),
{
    if list.len() > 0 {
        nearest_place_bounds(list.drop_last(), window);
    }
}

fn find_nearest(list: &Vec<InstrumentDefinition>, window: &StrikeWindow) -> (r: Option<usize>)
    ensures
        match r {
            Some(i) => i == nearest_place(list@, *window),
            None => nearest_place(list@, *window) == -1,
        },
{
    let mut best: Option<usize> = None;
    let mut i: usize = 0;
    assert(list@.take(0) =~= Seq::empty());
    while i < list.len()
        invariant
            i <= list@.len(),
            match best {
                Some(b) => b < i && b == nearest_place(list@.take(i as int), *window),
                None => nearest_place(list@.take(i as int), *window) == -1,
            },
        decreases list@.len() - i,
    {
        assert(list@.take(i + 1).drop_last() =~= list@.take(i as int));
        if list[i].strike.is_some() {
            let better = match best {
                None => true,
                Some(b) => is_nearer(window.distance(&list[i]), window.distance(&list[b])),
            };
            if better {
                best = Some(i);
            }
        }
        i += 1;
    }
    assert(list@.take(i as int) =~= list@);
    best
}

fn keep_expiry(list: &Vec<InstrumentDefinition>, expiry: &str) -> (r: Vec<InstrumentDefinition>)
    ensures
        r@ == list@.filter(expires_on(expiry@)),
{
    let ghost f = expires_on(expiry@);
    let mut out: Vec<InstrumentDefinition> = Vec::new();
    let mut i: usize = 0;
    assert(list@.take(0).filter(f) =~= Seq::empty()) by {
        reveal(Seq::filter);
    }
    while i < list.len()
        invariant
            i <= list@.len(),
            f == expires_on(expiry@),
            out@ == list@.take(i as int).filter(f),
        decreases list@.len() - i,
    {
        proof {
            filter_push(list@.take(i as int), list@[i as int], f);
            assert(list@.take(i + 1) =~= list@.take(i as int).push(list@[i as int]));
        }
        if same(expiry_text(&list[i]).as_str(), expiry) {
            out.push(list[i].clone());
        }
        i += 1;
    }
    assert(list@.take(i as int) =~= list@);
    out
}

fn keep_strike(list: &Vec<InstrumentDefinition>, strike: Real) -> (r: Vec<InstrumentDefinition>)
    ensures
        r@ == list@.filter(struck_at(strike)),
{
    let ghost f = struck_at(strike);
    let mut out: Vec<InstrumentDefinition> = Vec::new();
    let mut i: usize = 0;
    assert(list@.take(0).filter(f) =~= Seq::empty()) by {
        reveal(Seq::filter);
    }
    while i < list.len()
        invariant
            i <= list@.len(),
            f == struck_at(strike),
            out@ == list@.take(i as int).filter(f),
        decreases list@.len() - i,
    {
        proof {
            filter_push(list@.take(i as int), list@[i as int], f);
            assert(list@.take(i + 1) =~= list@.take(i as int).push(list@[i as int]));
        }
        let kept = match &list[i].strike {
            Some(s) => s.value.equals(strike),
            None => false,
        };
        if kept {
            out.push(list[i].clone());
        }
        i += 1;
    }
    assert(list@.take(i as int) =~= list@);
    out
}

/// The options of an expiry that are nearest to the price, by their symbols.
pub open spec fn nearest_options_of(
    options: Seq<InstrumentDefinition>,
    expiry: Seq<char>,
    window: StrikeWindow,
) -> Seq<InstrumentDefinition> {
    let group = options.filter(expires_on(expiry));
    let place = nearest_place(group, window);
    if place < 0 {
        Seq::empty()
    } else {
        arranged_of(group.filter(struck_at((group[place].strike->0).value)), Order::Symbol, window)
    }
}

/// Whether an expiry has an option with a strike.
pub open spec fn has_strike(
    options: Seq<InstrumentDefinition>,
    expiry: Seq<char>,
    window: StrikeWindow,
) -> bool {
    nearest_place(options.filter(expires_on(expiry)), window) >= 0
}

/// The options of an expiry that are nearest to the price, where one of them has a strike.
pub fn nearest_options(
    options: &Vec<InstrumentDefinition>,
    expiry: &str,
    window: &StrikeWindow,
) -> (r: Option<Vec<InstrumentDefinition>>)
    ensures
        match r {
            None => !has_strike(options@, expiry@, *window),
            Some(list) => has_strike(options@, expiry@, *window) && list@ == nearest_options_of(
                options@,
                expiry@,
                *window,
            ),
        },
{
    let group = keep_expiry(options, expiry);
    proof {
        nearest_place_bounds(group@, *window);
    }
    match find_nearest(&group, window) {
        None => None,
        Some(place) => match &group[place].strike {
            None => {
                assert(false);
                None
            },
            Some(s) => {
                let list = keep_strike(&group, s.value);
                Some(arrange(&list, Order::Symbol, window))
            },
        },
    }
}

/// A strike with four places behind the point, by a table of such texts.
pub open spec fn shown_strike(
    instrument: InstrumentDefinition,
    four_places: Map<Seq<char>, String>,
) -> Seq<char> {
    match instrument.strike {
        None => "-"@,
        Some(s) => if four_places.contains_key(s.text@) {
            four_places[s.text@]@
        } else {
            s.text@
        },
    }
}

/// What is shown of an option.
pub open spec fn option_line(
    instrument: InstrumentDefinition,
    four_places: Map<Seq<char>, String>,
) -> Seq<char> {
    "    "@ + instrument.trading_symbol@ + " | type="@ + kind_name(instrument.instrument_type)
        + " | strike="@ + shown_strike(instrument, four_places) + " | status="@
        + if instrument.tradable {
        "tradable"@
    } else {
        "not_tradable"@
    }
}

fn show_option(instrument: &InstrumentDefinition, four_places: &TextMap<String>) -> (r: String)
    ensures
        r@ == option_line(*instrument, four_places@),
{
    let strike = match &instrument.strike {
        None => "-".to_owned(),
        Some(s) => match four_places.get(s.text.as_str()) {
            Some(t) => t.clone(),
            None => s.text.clone(),
        },
    };
    let mut line = "    ".to_owned();
    line.append(instrument.trading_symbol.as_str());
    line.append(" | type=");
    line.append(instrument.instrument_type.as_str());
    line.append(" | strike=");
    line.append(strike.as_str());
    line.append(" | status=");
    if instrument.tradable {
        line.append("tradable");
    } else {
        line.append("not_tradable");
    }
    line
}

/// What is shown of a future.
pub open spec fn future_line(instrument: InstrumentDefinition) -> Seq<char> {
    "  "@ + instrument.trading_symbol@ + " | type="@ + kind_name(instrument.instrument_type)
        + " | tradable="@ + flag_text(instrument.tradable) + " | tick_size="@
        + instrument.tick_size.text@ + " | expiry="@ + shown_expiry(instrument)
}

fn show_future(instrument: &InstrumentDefinition) -> (r: String)
    ensures
        r@ == future_line(*instrument),
{
    let mut line = "  ".to_owned();
    line.append(instrument.trading_symbol.as_str());
    line.append(" | type=");
    line.append(instrument.instrument_type.as_str());
    line.append(" | tradable=");
    if instrument.tradable {
        line.append("true");
    } else {
        line.append("false");
    }
    line.append(" | tick_size=");
    line.append(instrument.tick_size.text.as_str());
    line.append(" | expiry=");
    line.append(expiry_text(instrument).as_str());
    line
}

/// What is shown of the options of some expiries.
pub open spec fn group_lines(
    expiries: Seq<Seq<char>>,
    options: Seq<InstrumentDefinition>,
    window: StrikeWindow,
    four_places: Map<Seq<char>, String>,
) -> Seq<Seq<char>>
    decreases expiries.len(),
{
    if expiries.len() == 0 {
        Seq::empty()
    } else {
        let before = group_lines(expiries.drop_last(), options, window, four_places);
        let expiry = expiries.last();
        let list = nearest_options_of(options, expiry, window);
        if has_strike(options, expiry, window) {
            before.push("  expiry="@ + expiry) + Seq::new(
                list.len(),
                |i: int| option_line(list[i], four_places),
            )
        } else {
            before
        }
    }
}

fn push_options(
    out: &mut Vec<String>,
    list: &Vec<InstrumentDefinition>,
    four_places: &TextMap<String>,
)
    ensures
        views(final(out)@) == views(old(out)@) + Seq::new(
            list@.len(),
            |i: int| option_line(list@[i], four_places@),
        ),
{
    let ghost start = views(out@);
    let ghost rows = Seq::new(list@.len(), |i: int| option_line(list@[i], four_places@));
    let mut i: usize = 0;
    assert(views(out@) =~= start + rows.take(0));
    while i < list.len()
        invariant
            i <= list@.len(),
            rows == Seq::new(list@.len(), |i: int| option_line(list@[i], four_places@)),
            views(out@) == start + rows.take(i as int),
        decreases list@.len() - i,
    {
        let ghost before = views(out@);
        let row = show_option(&list[i], four_places);
        out.push(row);
        assert(views(out@) =~= before.push(row@));
        i += 1;
        assert(views(out@) =~= start + rows.take(i as int));
    }
    assert(rows.take(i as int) =~= rows);
}

fn push_futures(out: &mut Vec<String>, list: &Vec<InstrumentDefinition>)
    ensures
        views(final(out)@) == views(old(out)@) + Seq::new(
            list@.len(),
            |i: int| future_line(list@[i]),
        ),
{
    let ghost start = views(out@);
    let ghost rows = Seq::new(list@.len(), |i: int| future_line(list@[i]));
    let mut i: usize = 0;
    assert(views(out@) =~= start + rows.take(0));
    while i < list.len()
        invariant
            i <= list@.len(),
            rows == Seq::new(list@.len(), |i: int| future_line(list@[i])),
            views(out@) == start + rows.take(i as int),
        decreases list@.len() - i,
    {
        let ghost before = views(out@);
        let row = show_future(&list[i]);
        out.push(row);
        assert(views(out@) =~= before.push(row@));
        i += 1;
        assert(views(out@) =~= start + rows.take(i as int));
    }
    assert(rows.take(i as int) =~= rows);
}

fn push_symbols(out: &mut Vec<String>, symbols: &Vec<String>)
    ensures
        views(final(out)@) == views(old(out)@) + Seq::new(
            symbols@.len(),
            |i: int| "  "@ + symbols@[i]@,
        ),
{
    let ghost start = views(out@);
    let ghost rows = Seq::new(symbols@.len(), |i: int| "  "@ + symbols@[i]@);
    let mut i: usize = 0;
    assert(views(out@) =~= start + rows.take(0));
    while i < symbols.len()
        invariant
            i <= symbols@.len(),
            rows == Seq::new(symbols@.len(), |i: int| "  "@ + symbols@[i]@),
            views(out@) == start + rows.take(i as int),
        decreases symbols@.len() - i,
    {
        let ghost before = views(out@);
        let row = "  ".to_owned().concat(symbols[i].as_str());
        out.push(row);
        assert(views(out@) =~= before.push(row@));
        i += 1;
        assert(views(out@) =~= start + rows.take(i as int));
    }
    assert(rows.take(i as int) =~= rows);
}

fn push_line(out: &mut Vec<String>, line: String)
    ensures
        views(final(out)@) == views(old(out)@).push(line@),
{
    let ghost before = views(out@);
    out.push(line);
    assert(views(out@) =~= before.push(line@));
}

/// What is shown of the references of a summary.
pub open spec fn reference_lines(summary: UniverseSummary) -> Seq<Seq<char>> {
    if summary.spot_or_index_symbols@.len() == 0 {
        seq!["  none found in product master"@]
    } else {
        Seq::new(
            summary.spot_or_index_symbols@.len(),
            |i: int| "  "@ + summary.spot_or_index_symbols@[i]@,
        )
    }
}

/// What is shown of the futures of a summary.
pub open spec fn future_lines(summary: UniverseSummary) -> Seq<Seq<char>> {
    if summary.futures@.len() == 0 {
        seq!["  none found"@]
    } else {
        Seq::new(summary.futures@.len(), |i: int| future_line(summary.futures@[i]))
    }
}

/// What is shown of the options of a summary: of each expiry, those nearest to the price.
pub open spec fn option_lines(
    summary: UniverseSummary,
    window: StrikeWindow,
    four_places: Map<Seq<char>, String>,
) -> Seq<Seq<char>> {
    if summary.atm_options@.len() == 0 {
        seq!["  none found within configured strike_distance_pct"@]
    } else {
        group_lines(
            ascending_of(expiries_in(summary.atm_options@)),
            summary.atm_options@,
            window,
            four_places,
        )
    }
}

/// What is shown of a summary.
pub open spec fn summary_lines(
    summary: UniverseSummary,
    price: Seq<char>,
    window: StrikeWindow,
    four_places: Map<Seq<char>, String>,
) -> Seq<Seq<char>> {
    let head = Seq::empty().push("Delta product master loaded"@).push(
        "Underlying: "@ + summary.selected_underlying@ + " | reference: "@
            + summary.reference_symbol@ + " @ "@ + price,
    ).push(""@).push("Spot/index references:"@);
    let futures = (head + reference_lines(summary)).push(""@).push(
        "Futures/perpetual instruments:"@,
    );
    let options = (futures + future_lines(summary)).push(""@).push(
        "ATM option instruments: "@ + decimal_of(summary.atm_options@.len())
            + " within configured strike distance; showing nearest strike by expiry"@,
    );
    options + option_lines(summary, window, four_places)
}

/// What is shown of a summary. `price` is its price and `four_places` has its strikes, with
/// four places behind the point.
pub fn print_delta_universe_summary(
    summary: &DeltaUniverseSummary,
    price: &str,
    window: &StrikeWindow,
    four_places: &TextMap<String>,
) -> (r: Vec<String>)
    ensures
        views(r@) == summary_lines(*summary, price@, *window, four_places@),
{
    let mut out: Vec<String> = Vec::new();
    assert(views(out@) =~= Seq::empty());
    push_line(&mut out, "Delta product master loaded".to_owned());
    let mut line = "Underlying: ".to_owned();
    line.append(summary.selected_underlying.as_str());
    line.append(" | reference: ");
    line.append(summary.reference_symbol.as_str());
    line.append(" @ ");
    line.append(price);
    push_line(&mut out, line);
    push_line(&mut out, "".to_owned());
    push_line(&mut out, "Spot/index references:".to_owned());
    let ghost head = views(out@);
    if summary.spot_or_index_symbols.len() == 0 {
        push_line(&mut out, "  none found in product master".to_owned());
        assert(views(out@) =~= head + reference_lines(*summary));
    } else {
        push_symbols(&mut out, &summary.spot_or_index_symbols);
        assert(views(out@) =~= head + reference_lines(*summary));
    }
    push_line(&mut out, "".to_owned());
    push_line(&mut out, "Futures/perpetual instruments:".to_owned());
    let ghost futures = views(out@);
    if summary.futures.len() == 0 {
        push_line(&mut out, "  none found".to_owned());
        assert(views(out@) =~= futures + future_lines(*summary));
    } else {
        push_futures(&mut out, &summary.futures);
        assert(views(out@) =~= futures + future_lines(*summary));
    }
    push_line(&mut out, "".to_owned());
    let mut line = "ATM option instruments: ".to_owned();
    line.append(decimal(summary.atm_options.len() as u64).as_str());
    line.append(" within configured strike distance; showing nearest strike by expiry");
    push_line(&mut out, line);
    let ghost options = views(out@);
    if summary.atm_options.len() == 0 {
        push_line(&mut out, "  none found within configured strike_distance_pct".to_owned());
        assert(views(out@) =~= options + option_lines(*summary, *window, four_places@));
    } else {
        push_groups(&mut out, &summary.atm_options, window, four_places);
    }
    out
}

fn push_groups(
    out: &mut Vec<String>,
    list: &Vec<InstrumentDefinition>,
    window: &StrikeWindow,
    four_places: &TextMap<String>,
)
    ensures
        views(final(out)@) == views(old(out)@) + group_lines(
            ascending_of(expiries_in(list@)),
            list@,
            *window,
            four_places@,
        ),
{
    let mut set = TextSet::new();
    let mut i: usize = 0;
    assert(list@.take(0) =~= Seq::empty());
    while i < list.len()
        invariant
            i <= list@.len(),
            set@ == expiries_in(list@.take(i as int)),
        decreases list@.len() - i,
    {
        assert(list@.take(i + 1).drop_last() =~= list@.take(i as int));
        let _new = set.insert(expiry_text(&list[i]));
        i += 1;
    }
    assert(list@.take(i as int) =~= list@);
    let expiries = ascending_items(&set);
    let ghost names = views(expiries@);
    let ghost start = views(out@);
    let mut k: usize = 0;
    assert(names.take(0) =~= Seq::empty());
    assert(views(out@) =~= start + group_lines(names.take(0), list@, *window, four_places@));
    while k < expiries.len()
        invariant
            k <= expiries@.len(),
            names == views(expiries@),
            views(out@) == start + group_lines(
                names.take(k as int),
                list@,
                *window,
                four_places@,
            ),
        decreases expiries@.len() - k,
    {
        let ghost before = group_lines(names.take(k as int), list@, *window, four_places@);
        assert(names.take(k + 1).drop_last() =~= names.take(k as int));
        assert(names.take(k + 1).last() == expiries@[k as int]@);
        let expiry = expiries[k].as_str();
        if let Some(nearest) = nearest_options(list, expiry, window) {
            push_line(out, "  expiry=".to_owned().concat(expiry));
            push_options(out, &nearest, four_places);
            assert(views(out@) =~= start + group_lines(
                names.take(k + 1),
                list@,
                *window,
                four_places@,
            ));
        }
        k += 1;
    }
    assert(names.take(k as int) =~= names);
}

/// Every instrument that is chosen is of the underlying, of a kind that is allowed, and where it
/// is an option not settled yet and struck within the bounds; and every line of the master that
/// is such an instrument is chosen.
pub proof fn chosen_instruments_fit(
    headers: Seq<Seq<char>>,
    lines: Seq<Seq<char>>,
    choice: ChoiceFacts,
    numbers: Map<Seq<char>, Decimal>,
    it: InstrumentFacts,
)
    requires
        chosen_of(headers, lines, choice, numbers) is Ok,
    ensures
        chosen_of(headers, lines, choice, numbers)->Ok_0.contains(it) <==> {
            let option = it.instrument_type == InstrumentType::Call || it.instrument_type
                == InstrumentType::Put;
            &&& exists|k: int|
                {
                    &&& 0 <= k < lines.len()
                    &&& trim_of(#[trigger] lines[k]).len() > 0
                    &&& cells_of(lines[k]).len() == headers.len()
                    &&& row_of(
                        headers,
                        cells_of(lines[k]),
                        numbers,
                        "missing Delta master CSV column "@,
                    ) == Ok::<InstrumentFacts, FeedFault>(it)
                }
            &&& it.underlying == choice.underlying
            &&& is_allowed(Some(it.instrument_type), choice.types)
            &&& option ==> is_unsettled(it.expiry, choice.now)
            &&& option ==> {
                &&& it.strike is Some
                &&& choice.window.lower.le_of(it.strike->0.value)
                &&& it.strike->0.value.le_of(choice.window.upper)
            }
        },
    decreases lines.len(),
{
    let all = chosen_of(headers, lines, choice, numbers)->Ok_0;
    let fault = "missing Delta master CSV column "@;
    if lines.len() > 0 {
        let d = lines.drop_last();
        let n = lines.len() - 1;
        chosen_instruments_fit(headers, d, choice, numbers, it);
        let before = chosen_of(headers, d, choice, numbers)->Ok_0;
        assert(lines[n] == lines.last());
        assert forall|i: int|
            #![trigger d[i]]
            #![trigger lines[i]]
            0 <= i < n implies d[i] == lines[i] by {}
        if before.contains(it) {
            let k = choose|k: int| 0 <= k < before.len() && before[k] == it;
            assert(all[k] == it);
            let i = choose|k: int|
                {
                    &&& 0 <= k < d.len()
                    &&& trim_of(#[trigger] d[k]).len() > 0
                    &&& cells_of(d[k]).len() == headers.len()
                    &&& row_of(headers, cells_of(d[k]), numbers, fault) == Ok::<
                        InstrumentFacts,
                        FeedFault,
                    >(it)
                };
            assert(lines[i] == d[i]);
        }
        if all.contains(it) && !before.contains(it) {
            let k = choose|k: int| 0 <= k < all.len() && all[k] == it;
            if k < before.len() {
                assert(before[k] == it);
            }
        }
        if all.len() > before.len() {
            assert(all[before.len() as int] == line_of(
                headers,
                lines[n],
                lines.len() + 1,
                numbers,
            )->Ok_0);
        }
    }
}

/// The products that are chosen are those of the underlying that are active and of a kind that is
/// allowed, and all of them.
pub proof fn chosen_products_fit(
    products: Seq<DeltaProduct>,
    underlying: Seq<char>,
    types: Seq<Seq<char>>,
    now: u64,
    it: DeltaProduct,
)
    ensures
        chosen_products(products, underlying, types, now).contains(it) <==> {
            &&& products.contains(it)
            &&& underlying_of(it) == Some(underlying)
            &&& product_is_active(it, now)
            &&& is_allowed(contract_kind(it.contract_type@), types)
        },
    decreases products.len(),
{
    let all = chosen_products(products, underlying, types, now);
    if products.len() > 0 {
        let d = products.drop_last();
        let n = products.len() - 1;
        chosen_products_fit(d, underlying, types, now, it);
        let before = chosen_products(d, underlying, types, now);
        if before.contains(it) {
            let k = choose|k: int| 0 <= k < before.len() && before[k] == it;
            assert(all[k] == it);
        }
        if d.contains(it) {
            let k = choose|k: int| 0 <= k < d.len() && d[k] == it;
            assert(products[k] == it);
        }
        if products.contains(it) && products.last() != it {
            let k = choose|k: int| 0 <= k < products.len() && products[k] == it;
            assert(d[k] == it);
        }
        assert(products[n] == products.last());
        if all.contains(it) && !before.contains(it) {
            let k = choose|k: int| 0 <= k < all.len() && all[k] == it;
            if k < before.len() {
                assert(before[k] == it);
            }
        }
        if all.len() > before.len() {
            assert(all[before.len() as int] == products.last());
        }
    }
}

/// Kinds are allowed where none is named or where theirs is, whatever the case of its letters.
pub proof fn named_kinds_are_allowed(kind: InstrumentType, names: Seq<Seq<char>>)
    ensures
        names.len() == 0 ==> is_allowed(Some(kind), names) && is_allowed(None, names),
        names.len() > 0 ==> !is_allowed(None, names),
        names.contains(kind_name(kind)) ==> is_allowed(Some(kind), names),
        is_allowed(Some(kind), names) && names.len() > 0 ==> exists|i: int|
            0 <= i < names.len() && lower_of(#[trigger] names[i]) == lower_of(kind_name(kind)),
{
    if names.contains(kind_name(kind)) {
        let i = choose|i: int| 0 <= i < names.len() && names[i] == kind_name(kind);
        assert(lower_of(names[i]) == lower_of(kind_name(kind)));
    }
}

/// An option can be traded until noon, in universal time, of the day that it expires on, and not
/// after.
pub proof fn options_are_settled_at_noon(expiry: Seq<char>, day: nat, now: u64)
    requires
        epoch_day_of(expiry) == Some(day),
    ensures
        is_active(InstrumentType::Call, Some(expiry), now) <==> now < 86_400 * day + 43_200,
        is_active(InstrumentType::Put, Some(expiry), now) <==> now < 86_400 * day + 43_200,
        is_active(InstrumentType::Fut, Some(expiry), now),
        is_active(InstrumentType::PerpFut, Some(expiry), now),
        is_active(InstrumentType::Spot, Some(expiry), now),
{
}

/// The short date in the symbol of an option stands for a day of this century: its day, its month
/// and its year, each of two figures, are told from the year down.
pub proof fn short_dates_are_turned_round(day: Seq<char>, month: Seq<char>, year: Seq<char>)
    requires
        day.len() == 2,
        month.len() == 2,
        year.len() == 2,
        forall|i: int| 0 <= i < 2 ==> (#[trigger] day[i] as u32) < 128,
        forall|i: int| 0 <= i < 2 ==> (#[trigger] month[i] as u32) < 128,
        forall|i: int| 0 <= i < 2 ==> (#[trigger] year[i] as u32) < 128,
    ensures
        long_date_of(day + month + year) == Some("20"@ + year + "-"@ + month + "-"@ + day),
{
    let v = day + month + year;
    plain_text_is_cut_anywhere(v, 0, 2);
    plain_text_is_cut_anywhere(v, 2, 4);
    plain_text_is_cut_anywhere(v, 4, 6);
    assert(v.subrange(0, 2) =~= day);
    assert(v.subrange(2, 4) =~= month);
    assert(v.subrange(4, 6) =~= year);
}

/// An instrument tells its product: it has the product's symbol for its name and its number for
/// its token, it is of what the product is of, and it can be traded only where the product is
/// live and its trading operational.
pub proof fn instruments_tell_their_products(
    product: DeltaProduct,
    numbers: Map<Seq<char>, Decimal>,
)
    ensures
        definition_of(product, numbers) matches Some(i) ==> {
            &&& i.instrument_name == product.symbol@
            &&& i.trading_symbol == product.symbol@
            &&& i.instrument_token == decimal_of(product.id as nat)
            &&& i.broker == "DELTA"@
            &&& i.exchange == "DELTA"@
            &&& product.contract_unit_currency is Some ==> i.underlying
                == product.contract_unit_currency->0@
            &&& i.tradable ==> product.trading_status is Some && product.trading_status->0@
                == "operational"@ && product.state is Some && product.state->0@ == "live"@
            &&& product.trading_status is Some && product.trading_status->0@ == "operational"@
                && product.state is Some && product.state->0@ == "live"@ ==> i.tradable
            &&& product.strike_price is Some && number_in(
                numbers,
                trim_of(product.strike_price->0@),
            ) is Some ==> i.strike == number_in(numbers, trim_of(product.strike_price->0@))
            &&& product.tick_size is Some && number_in(numbers, trim_of(product.tick_size->0@)) is Some
                ==> Some(i.tick_size) == number_in(numbers, trim_of(product.tick_size->0@))
            &&& product.contract_value is Some && number_in(
                numbers,
                trim_of(product.contract_value->0@),
            ) is Some ==> Some(i.lot_size) == number_in(
                numbers,
                trim_of(product.contract_value->0@),
            )
        },
        definition_of(product, numbers) is Some <==> contract_kind(product.contract_type@) is Some
            && (product.contract_unit_currency is Some || underlying_in(product.symbol@) is Some),
{
}

/// Each kind of contract is its own kind of instrument.
pub proof fn contracts_are_of_their_kinds(a: Seq<char>, b: Seq<char>)
    requires
        contract_kind(a) is Some,
        contract_kind(a) == contract_kind(b),
    ensures
        a == b,
        contract_kind(a) == Some(InstrumentType::Call) ==> a == "call_options"@,
        contract_kind(a) == Some(InstrumentType::Put) ==> a == "put_options"@,
        contract_kind(a) == Some(InstrumentType::Fut) ==> a == "futures"@,
        contract_kind(a) == Some(InstrumentType::PerpFut) ==> a == "perpetual_futures"@,
        contract_kind(a) == Some(InstrumentType::Spot) ==> a == "spot"@,
{
}

/// The reference price is the spot price where there is one, else the mark price, else the price
/// that was traded last.
pub proof fn spot_price_comes_first(ticker: DeltaTicker, numbers: Map<Seq<char>, Decimal>)
    ensures
        ({
            let read = |text: Option<String>|
                if text is Some {
                    number_in(numbers, trim_of(text->0@))
                } else {
                    None
                };
            let price = reference_price_of(ticker, numbers);
            &&& read(ticker.spot_price) is Some ==> price == Some(read(ticker.spot_price)->0.value)
            &&& read(ticker.spot_price) is None && read(ticker.mark_price) is Some ==> price == Some(
                read(ticker.mark_price)->0.value,
            )
            &&& read(ticker.spot_price) is None && read(ticker.mark_price) is None && ticker.close is None
                ==> price is None
        }),
{
}

/// The nearest option is one with a strike, and no other with one is nearer; there is none only
/// where none has a strike.
pub proof fn nearest_has_none_nearer(list: Seq<InstrumentDefinition>, window: StrikeWindow)
    ensures
        ({
            let place = nearest_place(list, window);
            &&& -1 <= place < list.len()
            &&& place < 0 ==> forall|i: int|
                0 <= i < list.len() ==> (#[trigger] list[i]).strike is None
            &&& place >= 0 ==> list[place].strike is Some && forall|i: int|
                0 <= i < list.len() && (#[trigger] list[i]).strike is Some ==> !nearer(
                    window.distance_of(list[i]),
                    window.distance_of(list[place]),
                )
        }),
    decreases list.len(),
{
    if list.len() > 0 {
        let d = list.drop_last();
        let n = list.len() - 1;
        nearest_has_none_nearer(d, window);
        assert(list[n] == list.last());
        assert forall|i: int|
            #![trigger d[i]]
            #![trigger list[i]]
            0 <= i < n implies d[i] == list[i] by {}
    }
}

/// The options that are shown of an expiry expire then, and there are some where one that does
/// has a strike that is a number.
pub proof fn shown_options_are_of_their_expiry(
    options: Seq<InstrumentDefinition>,
    expiry: Seq<char>,
    window: StrikeWindow,
    it: InstrumentDefinition,
)
    requires
        nearest_options_of(options, expiry, window).contains(it),
    ensures
        options.contains(it),
        shown_expiry(it) == expiry,
        it.strike is Some,
        exists|k: int|
            {
                &&& 0 <= k < options.len()
                &&& shown_expiry(#[trigger] options[k]) == expiry
                &&& options[k].strike is Some
                &&& it.strike->0.value.eq_of(options[k].strike->0.value)
                &&& forall|i: int|
                    0 <= i < options.len() && shown_expiry(#[trigger] options[i]) == expiry
                        && options[i].strike is Some ==> !nearer(
                        window.distance_of(options[i]),
                        window.distance_of(options[k]),
                    )
            },
{
    let f = expires_on(expiry);
    let group = options.filter(f);
    let place = nearest_place(group, window);
    nearest_has_none_nearer(group, window);
    let g = struck_at((group[place].strike->0).value);
    let struck = group.filter(g);
    arranged_are_the_same(struck, Order::Symbol, window, it);
    group.lemma_filter_contains_rev(g, it);
    let m = choose|m: int| 0 <= m < struck.len() && struck[m] == it;
    group.lemma_filter_pred(g, m);
    options.lemma_filter_contains_rev(f, it);
    let n = choose|n: int| 0 <= n < group.len() && group[n] == it;
    options.lemma_filter_pred(f, n);
    let best = group[place];
    assert(group.contains(best));
    options.lemma_filter_contains_rev(f, best);
    options.lemma_filter_pred(f, place);
    let k = choose|k: int| 0 <= k < options.len() && options[k] == best;
    assert forall|i: int|
        0 <= i < options.len() && shown_expiry(#[trigger] options[i]) == expiry
            && options[i].strike is Some implies !nearer(
        window.distance_of(options[i]),
        window.distance_of(options[k]),
    ) by {
        assert(f(options[i]));
        options.lemma_filter_contains(f, i);
        let j = choose|j: int| 0 <= j < group.len() && group[j] == options[i];
        assert(group[j].strike is Some);
    }
    assert(shown_expiry(options[k]) == expiry);
}

/// The symbol that an underlying is followed by is an index of one of its products; where one of
/// these is told in dollars it is such a one.
pub proof fn spot_symbols_are_indices(
    products: Seq<DeltaProduct>,
    underlyings: Seq<Seq<char>>,
    i: int,
)
    requires
        resolved_of(products, underlyings) is Ok,
        0 <= i < underlyings.len(),
    ensures
        resolved_of(products, underlyings)->Ok_0.len() == underlyings.len(),
        ({
            let spot = resolved_of(products, underlyings)->Ok_0[i];
            &&& spot.underlying == underlyings[i]
            &&& exists|k: int|
                {
                    &&& 0 <= k < products.len()
                    &&& underlying_of(#[trigger] products[k]) == Some(underlyings[i])
                    &&& products[k].spot_index is Some
                    &&& products[k].spot_index->0.symbol@ == spot.spot_symbol
                }
            &&& (exists|k: int|
                {
                    &&& 0 <= k < products.len()
                    &&& underlying_of(#[trigger] products[k]) == Some(underlyings[i])
                    &&& products[k].spot_index is Some
                    &&& ends(products[k].spot_index->0.symbol@, "USD"@)
                }) ==> ends(spot.spot_symbol, "USD"@)
        }),
    decreases underlyings.len(),
{
    let d = underlyings.drop_last();
    let n = underlyings.len() - 1;
    if i < n {
        spot_symbols_are_indices(products, d, i);
        assert(d[i] == underlyings[i]);
    } else {
        let underlying = underlyings[n];
        let of = of_underlying(products, underlying);
        let set = indices_of(of);
        indices_are_finite(of);
        ascending_of_holds(set);
        let symbols = ascending_of(set);
        let spot = preferred_of(symbols)->0;
        first_ending_is_found(symbols, "USD"@);
        first_ending_is_found(symbols, "USDT"@);
        assert(symbols.contains(spot)) by {
            if first_with_ending(symbols, "USD"@) is None && first_with_ending(
                symbols,
                "USDT"@,
            ) is None {
                assert(symbols[0] == spot);
            }
        }
        assert(symbols.to_set().contains(spot));
        index_is_of(products, underlying, spot);
        if exists|k: int|
            {
                &&& 0 <= k < products.len()
                &&& underlying_of(#[trigger] products[k]) == Some(underlying)
                &&& products[k].spot_index is Some
                &&& ends(products[k].spot_index->0.symbol@, "USD"@)
            } {
            let k = choose|k: int|
                {
                    &&& 0 <= k < products.len()
                    &&& underlying_of(#[trigger] products[k]) == Some(underlying)
                    &&& products[k].spot_index is Some
                    &&& ends(products[k].spot_index->0.symbol@, "USD"@)
                };
            let symbol = products[k].spot_index->0.symbol@;
            index_is_of(products, underlying, symbol);
            assert(symbols.to_set().contains(symbol));
            let m = choose|m: int| 0 <= m < symbols.len() && symbols[m] == symbol;
            assert(ends(symbols[m], "USD"@));
        }
    }
    if n > 0 {
        spot_symbols_are_indices(products, d, 0);
    }
}

proof fn indices_are_finite(products: Seq<DeltaProduct>)
    ensures
        indices_of(products).finite(),
    decreases products.len(),
{
    if products.len() > 0 {
        indices_are_finite(products.drop_last());
    }
}

proof fn index_is_of(products: Seq<DeltaProduct>, underlying: Seq<char>, symbol: Seq<char>)
    ensures
        indices_of(of_underlying(products, underlying)).contains(symbol) <==> exists|k: int|
            {
                &&& 0 <= k < products.len()
                &&& underlying_of(#[trigger] products[k]) == Some(underlying)
                &&& products[k].spot_index is Some
                &&& products[k].spot_index->0.symbol@ == symbol
            },
    decreases products.len(),
{
    if products.len() > 0 {
        let d = products.drop_last();
        let n = products.len() - 1;
        index_is_of(d, underlying, symbol);
        assert(products[n] == products.last());
        assert forall|i: int|
            #![trigger d[i]]
            #![trigger products[i]]
            0 <= i < n implies d[i] == products[i] by {}
        let before = of_underlying(d, underlying);
        assert(before.push(products.last()).drop_last() =~= before);
        if indices_of(before).contains(symbol) {
            let k = choose|k: int|
                {
                    &&& 0 <= k < d.len()
                    &&& underlying_of(#[trigger] d[k]) == Some(underlying)
                    &&& d[k].spot_index is Some
                    &&& d[k].spot_index->0.symbol@ == symbol
                };
            assert(products[k] == d[k]);
        }
    }
}

proof fn first_ending_is_found(list: Seq<Seq<char>>, ending: Seq<char>)
    ensures
        match first_with_ending(list, ending) {
            Some(text) => list.contains(text) && ends(text, ending),
            None => forall|i: int| 0 <= i < list.len() ==> !ends(#[trigger] list[i], ending),
        },
    decreases list.len(),
{
    if list.len() > 0 && !ends(list[0], ending) {
        let d = list.drop_first();
        first_ending_is_found(d, ending);
        match first_with_ending(d, ending) {
            Some(text) => {
                let k = choose|k: int| 0 <= k < d.len() && d[k] == text;
                assert(list[k + 1] == text);
            },
            None => {
                assert forall|i: int| 0 <= i < list.len() implies !ends(
                    #[trigger] list[i],
                    ending,
                ) by {
                    if i > 0 {
                        assert(d[i - 1] == list[i]);
                    }
                }
            },
        }
    } else if list.len() > 0 {
        assert(list[0] == first_with_ending(list, ending)->0);
    }
}

} // verus!
