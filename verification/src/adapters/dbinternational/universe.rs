//! The derivatives of DBInternational, and the prices that they are chosen around.
use crate::adapters::dbinternational::master_catalog::{fields, fields_of};
use crate::adapters::live_universe::SpotFacts;
use crate::adapters::universe::{
    derivatives_of, of_underlying, summarize, summary_outcome, StrikeWindow, UniverseSummary,
};
use crate::binary64::{find_number, number_in, text_facts, Decimal, DecimalFacts, Numbers, Real};
use crate::calendar::{chrono_date_millis, date_millis};
use crate::config::InstrumentSelection;
use crate::feeder::catalog::{
    float_fault, float_fault_of, instrument_views, is_option_type, InstrumentDefinition,
    InstrumentFacts, InstrumentType,
};
use crate::feeder::error::{FeedError, FeedFault};
use crate::feeder::event::InstrumentName;
use crate::order::{
    ascending_items, ascending_of, ascending_of_holds, filter_push, sorted_keys, texts_in, TextMap,
    TextSet,
};
use crate::text::{
    byte_len, contains, decimal, decimal_of, fitting, fitting_of, holds, lines, lines_of, same,
    starts, starts_with, trim, trim_of, upper, upper_of, views,
};
use vstd::prelude::*;
use vstd::utf8::encode_utf8;

verus! {

/// What is traded of an underlying of DBInternational.
pub type DbinternationalUniverseSummary = UniverseSummary;

/// An underlying and the symbol whose price its derivatives are chosen around.
#[derive(Debug, PartialEq, Eq)]
pub struct DbinternationalSpotReference {
    pub underlying: String,
    pub spot_symbol: String,
}

impl View for DbinternationalSpotReference {
    type V = SpotFacts;

    open spec fn view(&self) -> SpotFacts {
        SpotFacts { underlying: self.underlying@, spot_symbol: self.spot_symbol@ }
    }
}

impl Clone for DbinternationalSpotReference {
    fn clone(&self) -> (r: DbinternationalSpotReference)
        ensures
            r == *self,
    {
        DbinternationalSpotReference {
            underlying: self.underlying.clone(),
            spot_symbol: self.spot_symbol.clone(),
        }
    }
}

pub open spec fn spot_views(v: Seq<DbinternationalSpotReference>) -> Seq<SpotFacts> {
    Seq::new(v.len(), |i: int| v[i]@)
}

/// Whether a commodity is traded.
pub open spec fn is_mcx_root(root: Seq<char>) -> bool {
    starts(root, "GOLD"@) || starts(root, "SILVER"@) || starts(root, "NATURALGAS"@) || starts(
        root,
        "NATGAS"@,
    ) || starts(root, "CRUDEOIL"@)
}

pub fn allowed_mcx_root(root: &str) -> (r: bool)
    ensures
        r == is_mcx_root(root@),
{
    starts_with(root, "GOLD") || starts_with(root, "SILVER") || starts_with(root, "NATURALGAS")
        || starts_with(root, "NATGAS") || starts_with(root, "CRUDEOIL")
}

/// Whether a stock is none in truth.
pub open spec fn is_test_root(root: Seq<char>) -> bool {
    holds(root, "NSETEST"@) || starts(root, "DUMMY"@)
}

pub fn invalid_nse_stock_root(root: &str) -> (r: bool)
    ensures
        r == is_test_root(root@),
{
    contains(root, "NSETEST") || starts_with(root, "DUMMY")
}

/// The underlying and the symbol of an index that is traded.
pub open spec fn index_of(name: Seq<char>) -> Option<SpotFacts> {
    let n = upper_of(trim_of(name));
    if n == "NIFTY 50"@ {
        Some(SpotFacts { underlying: "NIFTY"@, spot_symbol: "NIFTY50"@ })
    } else if n == "NIFTY BANK"@ {
        Some(SpotFacts { underlying: "BANKNIFTY"@, spot_symbol: "NIFTYBANK"@ })
    } else if n == "NIFTY MID SELECT"@ {
        Some(SpotFacts { underlying: "MIDCPNIFTY"@, spot_symbol: "MIDCPNIFTY"@ })
    } else if n == "SENSEX"@ {
        Some(SpotFacts { underlying: "SENSEX"@, spot_symbol: "SENSEX"@ })
    } else {
        None
    }
}

fn reference(underlying: &str, spot_symbol: &str) -> (r: DbinternationalSpotReference)
    ensures
        r@ == (SpotFacts { underlying: underlying@, spot_symbol: spot_symbol@ }),
{
    DbinternationalSpotReference {
        underlying: underlying.to_owned(),
        spot_symbol: spot_symbol.to_owned(),
    }
}

pub fn index_reference_symbol(name: &str) -> (r: Option<DbinternationalSpotReference>)
    ensures
        match r {
            Some(spot) => index_of(name@) == Some(spot@),
            None => index_of(name@) is None,
        },
{
    let n = upper(trim(name).as_str());
    if same(n.as_str(), "NIFTY 50") {
        Some(reference("NIFTY", "NIFTY50"))
    } else if same(n.as_str(), "NIFTY BANK") {
        Some(reference("BANKNIFTY", "NIFTYBANK"))
    } else if same(n.as_str(), "NIFTY MID SELECT") {
        Some(reference("MIDCPNIFTY", "MIDCPNIFTY"))
    } else if same(n.as_str(), "SENSEX") {
        Some(reference("SENSEX", "SENSEX"))
    } else {
        None
    }
}

/// Whether a text is a date.
pub open spec fn reads_as_date(text: Seq<char>) -> bool {
    chrono_date_millis(text, "%Y-%m-%d"@) is Some
}

fn is_date_text(text: &str) -> (r: bool)
    ensures
        r == reads_as_date(text@),
{
    date_millis(text, "%Y-%m-%d").is_some()
}

/// The first ten bytes of a field, where it has so many and they are a date.
pub open spec fn expiry_where(value: Seq<char>, dated: bool) -> Option<Seq<char>> {
    let v = trim_of(value);
    if encode_utf8(v).len() < 10 || !dated {
        None
    } else {
        Some(fitting_of(v, 10))
    }
}

/// The day that a field begins with.
pub open spec fn expiry_of(value: Seq<char>) -> Option<Seq<char>> {
    expiry_where(value, reads_as_date(fitting_of(trim_of(value), 10)))
}

/// The day that a field begins with.
pub fn expiry_date(value: &str) -> (r: Option<String>)
    ensures
        text_facts(r) == expiry_of(value@),
{
    let v = trim(value);
    let date = fitting(v.as_str(), 10);
    expiry_if(value, is_date_text(date.as_str()))
}

/// The day that a field begins with, given whether its first ten bytes are a date.
pub fn expiry_if(value: &str, dated: bool) -> (r: Option<String>)
    ensures
        text_facts(r) == expiry_where(value@, dated),
{
    let v = trim(value);
    if byte_len(v.as_str()) < 10 || !dated {
        return None;
    }
    Some(fitting(v.as_str(), 10))
}

/// Whether a field says anything.
pub open spec fn is_said(value: Seq<char>) -> bool {
    let v = trim_of(value);
    v.len() > 0 && v != "-1"@ && v != "0"@
}

fn usable_text(value: &str) -> (r: bool)
    ensures
        r == is_said(value@),
{
    let v = trim(value);
    !v.as_str().is_empty() && !same(v.as_str(), "-1") && !same(v.as_str(), "0")
}

/// The exchange that a segment belongs to.
pub open spec fn exchange_of(segment: Seq<char>) -> Seq<char> {
    if segment == "NSECM"@ || segment == "NSEFO"@ {
        "NSE"@
    } else if segment == "BSECM"@ || segment == "BSEFO"@ {
        "BSE"@
    } else if segment == "MCXFO"@ {
        "MCX"@
    } else {
        segment
    }
}

pub fn exchange_name(segment: &str) -> (r: String)
    ensures
        r@ == exchange_of(segment@),
{
    if same(segment, "NSECM") || same(segment, "NSEFO") {
        "NSE".to_owned()
    } else if same(segment, "BSECM") || same(segment, "BSEFO") {
        "BSE".to_owned()
    } else if same(segment, "MCXFO") {
        "MCX".to_owned()
    } else {
        segment.to_owned()
    }
}

/// The field at a place, where there is one.
pub open spec fn field_at(fields: Seq<Seq<char>>, at: int) -> Option<Seq<char>> {
    if 0 <= at < fields.len() {
        Some(fields[at])
    } else {
        None
    }
}

/// The kind of a derivative, where it is one that is traded.
pub open spec fn derivative_type_of(fields: Seq<Seq<char>>) -> Option<InstrumentType> {
    let (segment, product, code) = (fields[0], fields[5], fields[2]);
    if code == "1"@ && (segment == "NSEFO"@ && (product == "FUTIDX"@ || product == "FUTSTK"@)
        || segment == "BSEFO"@ && product == "IF"@ || segment == "MCXFO"@ && product == "FUTCOM"@) {
        Some(InstrumentType::Fut)
    } else if code == "2"@ && (segment == "NSEFO"@ && (product == "OPTIDX"@ || product
        == "OPTSTK"@) || segment == "BSEFO"@ && product == "IO"@ || segment == "MCXFO"@ && product
        == "OPTFUT"@) {
        match field_at(fields, 18) {
            Some(side) => if trim_of(side) == "3"@ {
                Some(InstrumentType::Call)
            } else if trim_of(side) == "4"@ {
                Some(InstrumentType::Put)
            } else {
                None
            },
            None => None,
        }
    } else {
        None
    }
}

fn derivative_instrument_type(cells: &Vec<String>) -> (r: Option<InstrumentType>)
    requires
        cells@.len() >= 7,
    ensures
        r == derivative_type_of(views(cells@)),
{
    let ghost all = views(cells@);
    assert(all[0] == cells@[0]@ && all[5] == cells@[5]@ && all[2] == cells@[2]@);
    let segment = cells[0].as_str();
    let product = cells[5].as_str();
    let code = cells[2].as_str();
    if same(code, "1") && (same(segment, "NSEFO") && (same(product, "FUTIDX") || same(
        product,
        "FUTSTK",
    )) || same(segment, "BSEFO") && same(product, "IF") || same(segment, "MCXFO") && same(
        product,
        "FUTCOM",
    )) {
        return Some(InstrumentType::Fut);
    }
    if same(code, "2") && (same(segment, "NSEFO") && (same(product, "OPTIDX") || same(
        product,
        "OPTSTK",
    )) || same(segment, "BSEFO") && same(product, "IO") || same(segment, "MCXFO") && same(
        product,
        "OPTFUT",
    )) {
        if cells.len() <= 18 {
            return None;
        }
        assert(all[18] == cells@[18]@);
        let side = trim(cells[18].as_str());
        if same(side.as_str(), "3") {
            return Some(InstrumentType::Call);
        }
        if same(side.as_str(), "4") {
            return Some(InstrumentType::Put);
        }
    }
    None
}

/// Whether derivatives of an underlying are traded.
pub open spec fn is_traded_root(segment: Seq<char>, product: Seq<char>, root: Seq<char>) -> bool {
    if segment == "NSEFO"@ && (product == "FUTIDX"@ || product == "OPTIDX"@) {
        root == "NIFTY"@ || root == "BANKNIFTY"@ || root == "MIDCPNIFTY"@
    } else if segment == "NSEFO"@ && (product == "FUTSTK"@ || product == "OPTSTK"@) {
        !is_test_root(root)
    } else if segment == "BSEFO"@ && (product == "IF"@ || product == "IO"@) {
        root == "SENSEX"@
    } else if segment == "MCXFO"@ && (product == "FUTCOM"@ || product == "OPTFUT"@) {
        is_mcx_root(root)
    } else {
        false
    }
}

fn derivative_root_allowed(segment: &str, product: &str, root: &str) -> (r: bool)
    ensures
        r == is_traded_root(segment@, product@, root@),
{
    if same(segment, "NSEFO") && (same(product, "FUTIDX") || same(product, "OPTIDX")) {
        same(root, "NIFTY") || same(root, "BANKNIFTY") || same(root, "MIDCPNIFTY")
    } else if same(segment, "NSEFO") && (same(product, "FUTSTK") || same(product, "OPTSTK")) {
        !invalid_nse_stock_root(root)
    } else if same(segment, "BSEFO") && (same(product, "IF") || same(product, "IO")) {
        same(root, "SENSEX")
    } else if same(segment, "MCXFO") && (same(product, "FUTCOM") || same(product, "OPTFUT")) {
        allowed_mcx_root(root)
    } else {
        false
    }
}

/// What is said of a line that is at fault.
pub open spec fn line_fault(line: nat, rest: Seq<char>) -> FeedFault {
    FeedFault::Parse("DBInternational derivative line "@ + decimal_of(line) + rest)
}

fn line_error(line: usize, rest: &str) -> (r: FeedError)
    ensures
        r@ == line_fault(line as nat, rest@),
{
    let mut message = "DBInternational derivative line ".to_owned();
    message.append(decimal(line as u64).as_str());
    message.append(rest);
    FeedError::Parse(message)
}

/// The number in a field.
pub open spec fn number_at(
    fields: Seq<Seq<char>>,
    at: int,
    name: Seq<char>,
    line: nat,
    numbers: Map<Seq<char>, Decimal>,
) -> Result<DecimalFacts, FeedFault> {
    match field_at(fields, at) {
        None => Err(line_fault(line, " missing "@ + name)),
        Some(value) => match number_in(numbers, value) {
            Some(d) => Ok(d),
            None => Err(
                line_fault(
                    line,
                    " invalid "@ + name + " "@ + value + ": "@ + float_fault_of(value),
                ),
            ),
        },
    }
}

fn parse_number_field(
    cells: &Vec<String>,
    at: usize,
    name: &str,
    line: usize,
    numbers: &Numbers,
) -> (r: Result<Decimal, FeedError>)
    ensures
        match r {
            Ok(d) => number_at(views(cells@), at as int, name@, line as nat, numbers@) == Ok::<
                DecimalFacts,
                FeedFault,
            >(d@),
            Err(e) => number_at(views(cells@), at as int, name@, line as nat, numbers@) == Err::<
                DecimalFacts,
                FeedFault,
            >(e@),
        },
{
    if at >= cells.len() {
        return Err(line_error(line, " missing ".to_owned().concat(name).as_str()));
    }
    assert(views(cells@)[at as int] == cells@[at as int]@);
    let value = cells[at].as_str();
    match find_number(numbers, value) {
        Some(d) => Ok(d),
        None => {
            let mut rest = " invalid ".to_owned();
            rest.append(name);
            rest.append(" ");
            rest.append(value);
            rest.append(": ");
            rest.append(float_fault(value).as_str());
            Err(line_error(line, rest.as_str()))
        },
    }
}

/// The symbol that a derivative is traded under.
pub open spec fn symbol_of(fields: Seq<Seq<char>>) -> Seq<char> {
    if fields.len() > 22 && is_said(fields[22]) {
        fields[22]
    } else {
        fields[4]
    }
}

/// The derivative of a line, where the line is of one that is traded.
pub open spec fn derivative_of(
    fields: Seq<Seq<char>>,
    line: nat,
    numbers: Map<Seq<char>, Decimal>,
) -> Result<Option<InstrumentFacts>, FeedFault> {
    let root = upper_of(fields[3]);
    if fields.len() < 21 || fields[2] == "4"@ || derivative_type_of(fields) is None
        || !is_traded_root(fields[0], fields[5], root) {
        Ok(None)
    } else {
        let kind = derivative_type_of(fields)->0;
        match expiry_of(fields[16]) {
            None => Err(line_fault(line, " missing expiry"@)),
            Some(expiry) => {
                let strike: Result<Option<DecimalFacts>, FeedFault> = if is_option_type(kind) {
                    match number_at(fields, 17, "strike"@, line, numbers) {
                        Ok(d) => Ok(Some(d)),
                        Err(e) => Err(e),
                    }
                } else {
                    Ok(None)
                };
                match strike {
                    Err(e) => Err(e),
                    Ok(strike) => if symbol_of(fields).len() == 0 {
                        Ok(None)
                    } else {
                        match number_at(fields, 11, "tick size"@, line, numbers) {
                            Err(e) => Err(e),
                            Ok(tick_size) => match number_at(
                                fields,
                                12,
                                "lot size"@,
                                line,
                                numbers,
                            ) {
                                Err(e) => Err(e),
                                Ok(lot_size) => Ok(
                                    Some(
                                        InstrumentFacts {
                                            instrument_name: symbol_of(fields),
                                            instrument_type: kind,
                                            strike,
                                            expiry: Some(expiry),
                                            broker: "DBINTERNATIONAL"@,
                                            instrument_token: fields[0] + ":"@ + fields[1],
                                            trading_symbol: symbol_of(fields),
                                            exchange: exchange_of(fields[0]),
                                            segment: fields[5],
                                            underlying: root,
                                            lot_size,
                                            tick_size,
                                            tradable: true,
                                        },
                                    ),
                                ),
                            },
                        }
                    },
                }
            },
        }
    }
}

/// The derivative of a line, where the line is of one that is traded.
pub fn parse_derivative_line(cells: &Vec<String>, line_number: usize, numbers: &Numbers) -> (r:
    Result<Option<InstrumentDefinition>, FeedError>)
    ensures
        match r {
            Ok(Some(i)) => derivative_of(views(cells@), line_number as nat, numbers@) == Ok::<
                Option<InstrumentFacts>,
                FeedFault,
            >(Some(i@)),
            Ok(None) => derivative_of(views(cells@), line_number as nat, numbers@) == Ok::<
                Option<InstrumentFacts>,
                FeedFault,
            >(None),
            Err(e) => derivative_of(views(cells@), line_number as nat, numbers@) == Err::<
                Option<InstrumentFacts>,
                FeedFault,
            >(e@),
        },
{
    if cells.len() < 21 {
        return Ok(None);
    }
    let ghost all = views(cells@);
    assert(all[0] == cells@[0]@ && all[1] == cells@[1]@ && all[2] == cells@[2]@ && all[3]
        == cells@[3]@ && all[4] == cells@[4]@ && all[5] == cells@[5]@ && all[16] == cells@[16]@);
    let root = upper(cells[3].as_str());
    if same(cells[2].as_str(), "4") {
        return Ok(None);
    }
    let instrument_type = match derivative_instrument_type(cells) {
        Some(kind) => kind,
        None => return Ok(None),
    };
    if !derivative_root_allowed(cells[0].as_str(), cells[5].as_str(), root.as_str()) {
        return Ok(None);
    }
    let expiry = match expiry_date(cells[16].as_str()) {
        Some(expiry) => expiry,
        None => return Err(line_error(line_number, " missing expiry")),
    };
    let strike: Option<Decimal> = if instrument_type.is_option() {
        match parse_number_field(cells, 17, "strike", line_number, numbers) {
            Ok(d) => Some(d),
            Err(e) => return Err(e),
        }
    } else {
        None
    };
    let trading_symbol = if cells.len() > 22 && usable_text(cells[22].as_str()) {
        assert(all[22] == cells@[22]@);
        cells[22].clone()
    } else {
        proof {
            if cells@.len() > 22 {
                assert(all[22] == cells@[22]@);
            }
        }
        cells[4].clone()
    };
    assert(trading_symbol@ == symbol_of(all));
    if trading_symbol.as_str().is_empty() {
        return Ok(None);
    }
    let tick_size = match parse_number_field(cells, 11, "tick size", line_number, numbers) {
        Ok(d) => d,
        Err(e) => return Err(e),
    };
    let lot_size = match parse_number_field(cells, 12, "lot size", line_number, numbers) {
        Ok(d) => d,
        Err(e) => return Err(e),
    };
    let mut token = cells[0].clone();
    token.append(":");
    token.append(cells[1].as_str());
    Ok(
        Some(
            InstrumentDefinition {
                instrument_name: InstrumentName::new(trading_symbol.as_str()),
                instrument_type,
                strike,
                expiry: Some(expiry),
                broker: "DBINTERNATIONAL".to_owned(),
                instrument_token: token,
                trading_symbol,
                exchange: exchange_name(cells[0].as_str()),
                segment: cells[5].clone(),
                underlying: root,
                lot_size,
                tick_size,
                tradable: true,
            },
        ),
    )
}

/// Whether an instrument is a derivative of a stock.
pub open spec fn is_stock_derivative(i: InstrumentFacts) -> bool {
    i.exchange == "NSE"@ && (i.segment == "FUTSTK"@ || i.segment == "OPTSTK"@)
}

pub fn is_nse_stock_derivative(i: &InstrumentDefinition) -> (r: bool)
    ensures
        r == is_stock_derivative(i@),
{
    same(i.exchange.as_str(), "NSE") && (same(i.segment.as_str(), "FUTSTK") || same(
        i.segment.as_str(),
        "OPTSTK",
    ))
}

/// What was read of the masters so far: the symbols of stocks and of commodities by their
/// roots, the roots of the stocks that there are derivatives of, the indices, and the
/// derivatives.
pub struct BuilderFacts {
    pub stocks: Map<Seq<char>, Seq<char>>,
    pub derived: Set<Seq<char>>,
    pub commodities: Map<Seq<char>, Seq<char>>,
    pub indices: Seq<SpotFacts>,
    pub derivatives: Seq<InstrumentFacts>,
}

/// A table with one more entry, where there is none under its key.
pub open spec fn first_kept(
    map: Map<Seq<char>, Seq<char>>,
    key: Seq<char>,
    value: Seq<char>,
) -> Map<Seq<char>, Seq<char>> {
    if map.contains_key(key) {
        map
    } else {
        map.insert(key, value)
    }
}

/// What is known after a line of the master.
pub open spec fn after_master(
    known: BuilderFacts,
    text: Seq<char>,
    line: nat,
    numbers: Map<Seq<char>, Decimal>,
) -> Result<BuilderFacts, FeedFault> {
    let fields = fields_of(trim_of(text));
    if trim_of(text).len() == 0 || fields.len() < 7 {
        Ok(known)
    } else {
        let root = upper_of(fields[3]);
        if fields[0] == "NSECM"@ && fields[2] == "8"@ && fields[5] == "EQ"@ {
            Ok(BuilderFacts { stocks: first_kept(known.stocks, root, fields[4]), ..known })
        } else if fields[0] == "MCXFO"@ && fields[2] == "16"@ && fields[5] == "COMDTY"@
            && is_mcx_root(root) {
            Ok(
                BuilderFacts {
                    commodities: first_kept(known.commodities, root, fields[4]),
                    ..known
                },
            )
        } else {
            match derivative_of(fields, line, numbers) {
                Err(e) => Err(e),
                Ok(None) => Ok(known),
                Ok(Some(i)) => Ok(
                    BuilderFacts {
                        derived: if is_stock_derivative(i) {
                            known.derived.insert(i.underlying)
                        } else {
                            known.derived
                        },
                        derivatives: known.derivatives.push(i),
                        ..known
                    },
                ),
            }
        }
    }
}

/// What is known after the lines of a master.
pub open spec fn after_masters(
    texts: Seq<Seq<char>>,
    numbers: Map<Seq<char>, Decimal>,
) -> Result<BuilderFacts, FeedFault>
    decreases texts.len(),
{
    if texts.len() == 0 {
        Ok(
            BuilderFacts {
                stocks: Map::empty(),
                derived: Set::empty(),
                commodities: Map::empty(),
                indices: Seq::empty(),
                derivatives: Seq::empty(),
            },
        )
    } else {
        match after_masters(texts.drop_last(), numbers) {
            Err(e) => Err(e),
            Ok(known) => after_master(known, texts.last(), texts.len(), numbers),
        }
    }
}

/// What is known after a line of the indices.
pub open spec fn after_index(known: BuilderFacts, text: Seq<char>, line: nat) -> Result<
    BuilderFacts,
    FeedFault,
> {
    let fields = fields_of(trim_of(text));
    if trim_of(text).len() == 0 {
        Ok(known)
    } else if fields.len() < 5 {
        Err(
            FeedFault::Parse(
                "DBInternational index line "@ + decimal_of(line) + " has too few fields"@,
            ),
        )
    } else {
        match index_of(fields[3]) {
            None => Ok(known),
            Some(spot) => Ok(BuilderFacts { indices: known.indices.push(spot), ..known }),
        }
    }
}

/// What is known after the lines of the indices.
pub open spec fn after_indices(known: BuilderFacts, texts: Seq<Seq<char>>) -> Result<
    BuilderFacts,
    FeedFault,
>
    decreases texts.len(),
{
    if texts.len() == 0 {
        Ok(known)
    } else {
        match after_indices(known, texts.drop_last()) {
            Err(e) => Err(e),
            Ok(known) => after_index(known, texts.last(), texts.len()),
        }
    }
}

proof fn masters_fail(texts: Seq<Seq<char>>, numbers: Map<Seq<char>, Decimal>, n: int)
    requires
        0 <= n <= texts.len(),
        after_masters(texts.take(n), numbers) is Err,
    ensures
        after_masters(texts, numbers) == after_masters(texts.take(n), numbers),
    decreases texts.len() - n,
{
    if n < texts.len() {
        assert(texts.take(n + 1).drop_last() =~= texts.take(n));
        masters_fail(texts, numbers, n + 1);
    } else {
        assert(texts.take(n) =~= texts);
    }
}

proof fn indices_fail(known: BuilderFacts, texts: Seq<Seq<char>>, n: int)
    requires
        0 <= n <= texts.len(),
        after_indices(known, texts.take(n)) is Err,
    ensures
        after_indices(known, texts) == after_indices(known, texts.take(n)),
    decreases texts.len() - n,
{
    if n < texts.len() {
        assert(texts.take(n + 1).drop_last() =~= texts.take(n));
        indices_fail(known, texts, n + 1);
    } else {
        assert(texts.take(n) =~= texts);
    }
}

/// What was read of the masters so far.
pub struct CatalogBuilder {
    stocks: TextMap<String>,
    derived: TextSet,
    commodities: TextMap<String>,
    indices: Vec<DbinternationalSpotReference>,
    derivatives: Vec<InstrumentDefinition>,
}

impl View for CatalogBuilder {
    type V = BuilderFacts;

    closed spec fn view(&self) -> BuilderFacts {
        BuilderFacts {
            stocks: texts_in(self.stocks@),
            derived: self.derived@,
            commodities: texts_in(self.commodities@),
            indices: spot_views(self.indices@),
            derivatives: instrument_views(self.derivatives@),
        }
    }
}

fn keep_first(map: &mut TextMap<String>, key: String, value: &str)
    ensures
        texts_in(final(map)@) == first_kept(texts_in(old(map)@), key@, value@),
{
    let ghost before = map@;
    let ghost name = key@;
    if !map.contains_key(key.as_str()) {
        map.insert(key, value.to_owned());
        assert(texts_in(map@) =~= texts_in(before).insert(name, value@));
    }
}

impl CatalogBuilder {
    pub fn new() -> (r: CatalogBuilder)
        ensures
            Ok::<BuilderFacts, FeedFault>(r@) == after_masters(
                Seq::empty(),
                Map::<Seq<char>, Decimal>::empty(),
            ),
    {
        let r = CatalogBuilder {
            stocks: TextMap::new(),
            derived: TextSet::new(),
            commodities: TextMap::new(),
            indices: Vec::new(),
            derivatives: Vec::new(),
        };
        assert(r@.stocks =~= Map::empty());
        assert(r@.commodities =~= Map::empty());
        assert(r@.indices =~= Seq::empty());
        assert(r@.derivatives =~= Seq::empty());
        r
    }

    /// Takes in a line of the master.
    pub fn parse_master_line(&mut self, line: &str, line_number: usize, numbers: &Numbers) -> (r:
        Option<FeedError>)
        ensures
            match r {
                None => after_master(old(self)@, line@, line_number as nat, numbers@) == Ok::<
                    BuilderFacts,
                    FeedFault,
                >(final(self)@),
                Some(e) => after_master(old(self)@, line@, line_number as nat, numbers@) == Err::<
                    BuilderFacts,
                    FeedFault,
                >(e@),
            },
    {
        let text = trim(line);
        if text.as_str().is_empty() {
            return None;
        }
        let cells = fields(text.as_str());
        if cells.len() < 7 {
            return None;
        }
        let ghost all = views(cells@);
        assert(all[0] == cells@[0]@ && all[2] == cells@[2]@ && all[3] == cells@[3]@ && all[4]
            == cells@[4]@ && all[5] == cells@[5]@);
        let root = upper(cells[3].as_str());
        if same(cells[0].as_str(), "NSECM") && same(cells[2].as_str(), "8") && same(
            cells[5].as_str(),
            "EQ",
        ) {
            keep_first(&mut self.stocks, root, cells[4].as_str());
            return None;
        }
        if same(cells[0].as_str(), "MCXFO") && same(cells[2].as_str(), "16") && same(
            cells[5].as_str(),
            "COMDTY",
        ) && allowed_mcx_root(root.as_str()) {
            keep_first(&mut self.commodities, root, cells[4].as_str());
            return None;
        }
        match parse_derivative_line(&cells, line_number, numbers) {
            Err(e) => Some(e),
            Ok(None) => None,
            Ok(Some(i)) => {
                if is_nse_stock_derivative(&i) {
                    let _new = self.derived.insert(i.underlying.clone());
                }
                let ghost before = instrument_views(self.derivatives@);
                let ghost facts = i@;
                self.derivatives.push(i);
                assert(instrument_views(self.derivatives@) =~= before.push(facts));
                None
            },
        }
    }

    /// Takes in a line of the indices.
    pub fn parse_index_line(&mut self, line: &str, line_number: usize) -> (r: Option<FeedError>)
        ensures
            match r {
                None => after_index(old(self)@, line@, line_number as nat) == Ok::<
                    BuilderFacts,
                    FeedFault,
                >(final(self)@),
                Some(e) => after_index(old(self)@, line@, line_number as nat) == Err::<
                    BuilderFacts,
                    FeedFault,
                >(e@),
            },
    {
        let text = trim(line);
        if text.as_str().is_empty() {
            return None;
        }
        let cells = fields(text.as_str());
        if cells.len() < 5 {
            let mut message = "DBInternational index line ".to_owned();
            message.append(decimal(line_number as u64).as_str());
            message.append(" has too few fields");
            return Some(FeedError::Parse(message));
        }
        assert(views(cells@)[3] == cells@[3]@);
        match index_reference_symbol(cells[3].as_str()) {
            None => None,
            Some(spot) => {
                let ghost before = spot_views(self.indices@);
                let ghost facts = spot@;
                self.indices.push(spot);
                assert(spot_views(self.indices@) =~= before.push(facts));
                None
            },
        }
    }
}

/// The underlyings by their symbols after some stocks: those that there are derivatives of
/// and whose symbol is known.
pub open spec fn with_stocks(roots: Seq<Seq<char>>, stocks: Map<Seq<char>, Seq<char>>) -> Map<
    Seq<char>,
    Seq<char>,
>
    decreases roots.len(),
{
    if roots.len() == 0 {
        Map::empty()
    } else {
        let before = with_stocks(roots.drop_last(), stocks);
        let root = roots.last();
        if is_test_root(root) || !stocks.contains_key(root) {
            before
        } else {
            before.insert(stocks[root], root)
        }
    }
}

/// The underlyings by their symbols after some indices.
pub open spec fn with_indices(
    spots: Map<Seq<char>, Seq<char>>,
    indices: Seq<SpotFacts>,
) -> Map<Seq<char>, Seq<char>>
    decreases indices.len(),
{
    if indices.len() == 0 {
        spots
    } else {
        with_indices(spots, indices.drop_last()).insert(
            indices.last().spot_symbol,
            indices.last().underlying,
        )
    }
}

/// The underlyings by their symbols after some commodities.
pub open spec fn with_commodities(
    spots: Map<Seq<char>, Seq<char>>,
    roots: Seq<Seq<char>>,
    commodities: Map<Seq<char>, Seq<char>>,
) -> Map<Seq<char>, Seq<char>>
    decreases roots.len(),
{
    if roots.len() == 0 {
        spots
    } else {
        with_commodities(spots, roots.drop_last(), commodities).insert(
            commodities[roots.last()],
            roots.last(),
        )
    }
}

/// The underlyings by the symbols whose prices their derivatives are chosen around.
pub open spec fn spots_of(known: BuilderFacts) -> Map<Seq<char>, Seq<char>> {
    with_commodities(
        with_indices(with_stocks(ascending_of(known.derived), known.stocks), known.indices),
        ascending_of(known.commodities.dom()),
        known.commodities,
    )
}

/// The underlyings with their symbols, in ascending order of the symbols.
pub open spec fn spot_list(spots: Map<Seq<char>, Seq<char>>) -> Seq<SpotFacts> {
    let symbols = ascending_of(spots.dom());
    Seq::new(
        symbols.len(),
        |i: int| SpotFacts { underlying: spots[symbols[i]], spot_symbol: symbols[i] },
    )
}

/// The stocks that there are derivatives of and whose price is known.
pub open spec fn known_roots(spots: Seq<SpotFacts>, derived: Set<Seq<char>>) -> Set<Seq<char>>
    decreases spots.len(),
{
    if spots.len() == 0 {
        Set::empty()
    } else {
        let before = known_roots(spots.drop_last(), derived);
        if derived.contains(spots.last().underlying) {
            before.insert(spots.last().underlying)
        } else {
            before
        }
    }
}

/// Tells which derivatives are kept: not those of stocks whose price is not known.
pub open spec fn kept(roots: Set<Seq<char>>) -> spec_fn(InstrumentFacts) -> bool {
    |i: InstrumentFacts| !is_stock_derivative(i) || roots.contains(i.underlying)
}

/// What can be traded: the underlyings with their symbols, and the derivatives.
pub struct CatalogFacts {
    pub spots: Seq<SpotFacts>,
    pub derivatives: Seq<InstrumentFacts>,
}

/// What can be traded, by what was read of the masters.
pub open spec fn catalog_of(known: BuilderFacts) -> CatalogFacts {
    let spots = spot_list(spots_of(known));
    CatalogFacts {
        spots,
        derivatives: known.derivatives.filter(kept(known_roots(spots, known.derived))),
    }
}

/// What can be traded.
pub struct DbinternationalUniverseCatalog {
    spot_references: Vec<DbinternationalSpotReference>,
    derivatives: Vec<InstrumentDefinition>,
}

impl View for DbinternationalUniverseCatalog {
    type V = CatalogFacts;

    closed spec fn view(&self) -> CatalogFacts {
        CatalogFacts {
            spots: spot_views(self.spot_references@),
            derivatives: instrument_views(self.derivatives@),
        }
    }
}

fn insert_text(map: &mut TextMap<String>, key: String, value: String)
    ensures
        texts_in(final(map)@) == texts_in(old(map)@).insert(key@, value@),
{
    let ghost before = map@;
    let ghost k = key@;
    let ghost v = value@;
    map.insert(key, value);
    assert(texts_in(map@) =~= texts_in(before).insert(k, v));
}

impl CatalogBuilder {
    fn spots(&self) -> (r: TextMap<String>)
        ensures
            texts_in(r@) == spots_of(self@),
    {
        let ghost known = self@;
        let mut spots: TextMap<String> = TextMap::new();
        let roots = ascending_items(&self.derived);
        let ghost names = views(roots@);
        let mut i: usize = 0;
        assert(names.take(0) =~= Seq::empty());
        assert(texts_in(spots@) =~= Map::empty());
        while i < roots.len()
            invariant
                i <= roots@.len(),
                names == views(roots@),
                texts_in(spots@) == with_stocks(names.take(i as int), texts_in(self.stocks@)),
            decreases roots@.len() - i,
        {
            assert(names.take(i + 1).drop_last() =~= names.take(i as int));
            assert(names.take(i + 1).last() == roots@[i as int]@);
            if !invalid_nse_stock_root(roots[i].as_str()) {
                if let Some(symbol) = self.stocks.get(roots[i].as_str()) {
                    insert_text(&mut spots, symbol.clone(), roots[i].clone());
                }
            }
            i += 1;
        }
        assert(names.take(i as int) =~= names);
        let ghost first = texts_in(spots@);
        let ghost indices = spot_views(self.indices@);
        let mut k: usize = 0;
        assert(indices.take(0) =~= Seq::empty());
        while k < self.indices.len()
            invariant
                k <= self.indices@.len(),
                indices == spot_views(self.indices@),
                texts_in(spots@) == with_indices(first, indices.take(k as int)),
            decreases self.indices@.len() - k,
        {
            assert(indices.take(k + 1).drop_last() =~= indices.take(k as int));
            let spot = &self.indices[k];
            insert_text(&mut spots, spot.spot_symbol.clone(), spot.underlying.clone());
            k += 1;
        }
        assert(indices.take(k as int) =~= indices);
        let ghost second = texts_in(spots@);
        let commodities = sorted_keys(&self.commodities);
        let ghost names = views(commodities@);
        assert(texts_in(self.commodities@).dom() =~= self.commodities@.dom());
        let mut m: usize = 0;
        assert(names.take(0) =~= Seq::empty());
        while m < commodities.len()
            invariant
                m <= commodities@.len(),
                names == views(commodities@),
                names.to_set() == self.commodities@.dom(),
                texts_in(spots@) == with_commodities(
                    second,
                    names.take(m as int),
                    texts_in(self.commodities@),
                ),
            decreases commodities@.len() - m,
        {
            assert(names.take(m + 1).drop_last() =~= names.take(m as int));
            assert(names.take(m + 1).last() == commodities@[m as int]@);
            assert(names.to_set().contains(names[m as int]));
            if let Some(symbol) = self.commodities.get(commodities[m].as_str()) {
                insert_text(&mut spots, symbol.clone(), commodities[m].clone());
            }
            m += 1;
        }
        assert(names.take(m as int) =~= names);
        spots
    }

    /// What can be traded.
    pub fn build(&self) -> (r: DbinternationalUniverseCatalog)
        ensures
            r@ == catalog_of(self@),
    {
        let spots = self.spots();
        let ghost table = texts_in(spots@);
        let symbols = sorted_keys(&spots);
        let ghost names = views(symbols@);
        assert(table.dom() =~= spots@.dom());
        let ghost list = spot_list(table);
        let mut references: Vec<DbinternationalSpotReference> = Vec::new();
        let mut roots = TextSet::new();
        let mut i: usize = 0;
        assert(list.take(0) =~= Seq::empty());
        assert(spot_views(references@) =~= Seq::empty());
        while i < symbols.len()
            invariant
                i <= symbols@.len(),
                table == texts_in(spots@),
                names == views(symbols@),
                names == ascending_of(table.dom()),
                names.to_set() == spots@.dom(),
                list == spot_list(table),
                spot_views(references@) == list.take(i as int),
                roots@ == known_roots(list.take(i as int), self.derived@),
            decreases symbols@.len() - i,
        {
            assert(list.take(i + 1).drop_last() =~= list.take(i as int));
            assert(names[i as int] == symbols@[i as int]@);
            assert(names.to_set().contains(names[i as int]));
            let ghost before = spot_views(references@);
            if let Some(underlying) = spots.get(symbols[i].as_str()) {
                if self.derived.contains(underlying.as_str()) {
                    let _new = roots.insert(underlying.clone());
                }
                references.push(
                    DbinternationalSpotReference {
                        underlying: underlying.clone(),
                        spot_symbol: symbols[i].clone(),
                    },
                );
                assert(spot_views(references@) =~= before.push(list[i as int]));
            }
            i += 1;
            assert(list.take(i as int) =~= before.push(list[i - 1]));
        }
        assert(list.take(i as int) =~= list);
        let ghost facts = instrument_views(self.derivatives@);
        let ghost f = kept(roots@);
        let mut derivatives: Vec<InstrumentDefinition> = Vec::new();
        let mut k: usize = 0;
        assert(facts.take(0).filter(f) =~= Seq::empty()) by {
            reveal(Seq::filter);
        }
        assert(instrument_views(derivatives@) =~= Seq::empty());
        while k < self.derivatives.len()
            invariant
                k <= self.derivatives@.len(),
                facts == instrument_views(self.derivatives@),
                f == kept(roots@),
                instrument_views(derivatives@) == facts.take(k as int).filter(f),
            decreases self.derivatives@.len() - k,
        {
            proof {
                filter_push(facts.take(k as int), facts[k as int], f);
                assert(facts.take(k + 1) =~= facts.take(k as int).push(facts[k as int]));
            }
            let ghost before = instrument_views(derivatives@);
            let item = &self.derivatives[k];
            if !is_nse_stock_derivative(item) || roots.contains(item.underlying.as_str()) {
                derivatives.push(item.clone());
                assert(instrument_views(derivatives@) =~= before.push(facts[k as int]));
            }
            k += 1;
        }
        assert(facts.take(k as int) =~= facts);
        DbinternationalUniverseCatalog { spot_references: references, derivatives }
    }
}

/// What can be traded, by the contents of the masters.
pub open spec fn contents_of(
    master: Seq<char>,
    index: Seq<char>,
    numbers: Map<Seq<char>, Decimal>,
) -> Result<CatalogFacts, FeedFault> {
    match after_masters(lines_of(master), numbers) {
        Err(e) => Err(e),
        Ok(known) => match after_indices(known, lines_of(index)) {
            Err(e) => Err(e),
            Ok(known) => Ok(catalog_of(known)),
        },
    }
}

/// What can be traded, by the contents of the masters.
pub fn parse_catalog_contents(master_content: &str, index_content: &str, numbers: &Numbers) -> (r:
    Result<DbinternationalUniverseCatalog, FeedError>)
    ensures
        match r {
            Ok(catalog) => contents_of(master_content@, index_content@, numbers@) == Ok::<
                CatalogFacts,
                FeedFault,
            >(catalog@),
            Err(e) => contents_of(master_content@, index_content@, numbers@) == Err::<
                CatalogFacts,
                FeedFault,
            >(e@),
        },
{
    let mut builder = CatalogBuilder::new();
    let masters = lines(master_content);
    let ghost texts = views(masters@);
    let mut i: usize = 0;
    assert(texts.take(0) =~= Seq::empty());
    while i < masters.len()
        invariant
            i <= masters@.len(),
            texts == views(masters@),
            texts == lines_of(master_content@),
            after_masters(texts.take(i as int), numbers@) == Ok::<BuilderFacts, FeedFault>(
                builder@,
            ),
        decreases masters@.len() - i,
    {
        assert(texts.take(i + 1).drop_last() =~= texts.take(i as int));
        assert(texts.take(i + 1).last() == masters@[i as int]@);
        match builder.parse_master_line(masters[i].as_str(), i + 1, numbers) {
            Some(e) => {
                proof {
                    masters_fail(texts, numbers@, i + 1);
                }
                return Err(e);
            },
            None => {},
        }
        i += 1;
    }
    assert(texts.take(i as int) =~= texts);
    let ghost known = builder@;
    let indices = lines(index_content);
    let ghost more = views(indices@);
    let mut k: usize = 0;
    assert(more.take(0) =~= Seq::empty());
    while k < indices.len()
        invariant
            k <= indices@.len(),
            more == views(indices@),
            more == lines_of(index_content@),
            after_masters(lines_of(master_content@), numbers@) == Ok::<BuilderFacts, FeedFault>(
                known,
            ),
            after_indices(known, more.take(k as int)) == Ok::<BuilderFacts, FeedFault>(builder@),
        decreases indices@.len() - k,
    {
        assert(more.take(k + 1).drop_last() =~= more.take(k as int));
        assert(more.take(k + 1).last() == indices@[k as int]@);
        match builder.parse_index_line(indices[k].as_str(), k + 1) {
            Some(e) => {
                proof {
                    indices_fail(known, more, k + 1);
                }
                return Err(e);
            },
            None => {},
        }
        k += 1;
    }
    assert(more.take(k as int) =~= more);
    Ok(builder.build())
}

impl DbinternationalUniverseCatalog {
    /// The derivatives that can be traded.
    pub closed spec fn derivatives(&self) -> Seq<InstrumentDefinition> {
        self.derivatives@
    }

    /// The derivatives are those that the catalog tells of.
    pub proof fn derivatives_are_told(&self)
        ensures
            self@.derivatives == instrument_views(self.derivatives()),
    {
    }

    pub fn spot_references(&self) -> (r: &Vec<DbinternationalSpotReference>)
        ensures
            spot_views(r@) == self@.spots,
    {
        &self.spot_references
    }

    /// What is traded of an underlying at a price, on a day. `window` gives the strikes
    /// around the price.
    pub fn build_summary_for_date(
        &self,
        selection: &InstrumentSelection,
        underlying: &str,
        reference_symbol: &str,
        reference_price: Real,
        window: &StrikeWindow,
        today: &str,
    ) -> (r: Result<UniverseSummary, FeedError>)
        ensures
            ({
                let list = self.derivatives().filter(of_underlying(underlying@));
                summary_outcome(
                    r,
                    list,
                    list.len() > 0,
                    views(selection.instrument_types@),
                    underlying@,
                    reference_symbol@,
                    reference_price,
                    *window,
                    today@,
                )
            }),
    {
        let list = derivatives_of(&self.derivatives, underlying);
        summarize(
            &list,
            list.len() > 0,
            &selection.instrument_types,
            underlying,
            reference_symbol,
            reference_price,
            window,
            today,
        )
    }
}

/// A derivative tells its line: its number and its segment, what it is of and when it expires.
/// It has a strike where it is an option, and only there, and it is an option of the side that
/// its line says.
pub proof fn derivatives_tell_their_lines(
    fields: Seq<Seq<char>>,
    line: nat,
    numbers: Map<Seq<char>, Decimal>,
)
    ensures
        derivative_of(fields, line, numbers) matches Ok(Some(i)) ==> {
            &&& fields.len() >= 21
            &&& i.instrument_token == fields[0] + ":"@ + fields[1]
            &&& i.underlying == upper_of(fields[3])
            &&& i.trading_symbol == i.instrument_name
            &&& i.trading_symbol.len() > 0
            &&& i.trading_symbol == fields[4] || fields.len() > 22 && i.trading_symbol == fields[22]
            &&& i.tradable
            &&& i.expiry is Some && i.expiry == expiry_of(fields[16])
            &&& i.strike is Some <==> i.instrument_type == InstrumentType::Call || i.instrument_type
                == InstrumentType::Put
            &&& i.strike is Some ==> i.strike == number_in(numbers, fields[17])
            &&& number_in(numbers, fields[11]) == Some(i.tick_size)
            &&& number_in(numbers, fields[12]) == Some(i.lot_size)
            &&& i.instrument_type == InstrumentType::Fut ==> fields[2] == "1"@
            &&& i.instrument_type == InstrumentType::Call ==> fields[2] == "2"@ && trim_of(
                fields[18],
            ) == "3"@
            &&& i.instrument_type == InstrumentType::Put ==> fields[2] == "2"@ && trim_of(
                fields[18],
            ) == "4"@
            &&& i.segment == fields[5]
            &&& !is_test_root(i.underlying) || fields[5] != "FUTSTK"@ && fields[5] != "OPTSTK"@
            &&& fields[0] == "NSEFO"@ ==> i.exchange == "NSE"@
            &&& fields[0] == "BSEFO"@ ==> i.exchange == "BSE"@ && i.underlying == "SENSEX"@
            &&& fields[0] == "MCXFO"@ ==> i.exchange == "MCX"@
        },
{
    reveal_strlit("NSEFO");
    reveal_strlit("BSEFO");
    reveal_strlit("MCXFO");
    reveal_strlit("NSECM");
    reveal_strlit("BSECM");
    reveal_strlit("FUTIDX");
    reveal_strlit("OPTIDX");
    reveal_strlit("FUTSTK");
    reveal_strlit("OPTSTK");
    reveal_strlit("FUTCOM");
    reveal_strlit("OPTFUT");
    reveal_strlit("IF");
    reveal_strlit("IO");
    assert("FUTSTK"@[3] != "FUTIDX"@[3] && "FUTSTK"@[0] != "OPTIDX"@[0] && "FUTSTK"@[3]
        != "FUTCOM"@[3] && "FUTSTK"@[0] != "OPTFUT"@[0]);
    assert("OPTSTK"@[0] != "FUTIDX"@[0] && "OPTSTK"@[3] != "OPTIDX"@[3] && "OPTSTK"@[0]
        != "FUTCOM"@[0] && "OPTSTK"@[3] != "OPTFUT"@[3]);
    assert("NSEFO"@[3] != "NSECM"@[3] && "BSEFO"@[3] != "BSECM"@[3]);
    assert("BSEFO"@[0] != "NSEFO"@[0] && "MCXFO"@[0] != "NSEFO"@[0] && "MCXFO"@[0] != "BSEFO"@[0]);
    assert("BSEFO"@[0] != "NSECM"@[0] && "MCXFO"@[0] != "NSECM"@[0] && "MCXFO"@[0] != "BSECM"@[0]);
}

/// Of two lines that tell the same root the first is kept, and every other root keeps what it
/// had.
pub proof fn first_lines_are_kept(
    map: Map<Seq<char>, Seq<char>>,
    key: Seq<char>,
    value: Seq<char>,
    other: Seq<char>,
)
    ensures
        ({
            let after = first_kept(map, key, value);
            &&& after.contains_key(key)
            &&& map.contains_key(key) ==> after[key] == map[key]
            &&& !map.contains_key(key) ==> after[key] == value
            &&& other != key ==> (after.contains_key(other) <==> map.contains_key(other))
                && after[other] == map[other]
        }),
{
}

/// Every derivative of the catalog is one of the master, and every one of the master is there but
/// for those of stocks without a spot.
pub proof fn catalog_keeps_derivatives(known: BuilderFacts, it: InstrumentFacts)
    ensures
        ({
            let spots = catalog_of(known).spots;
            catalog_of(known).derivatives.contains(it) <==> {
                &&& known.derivatives.contains(it)
                &&& it.exchange == "NSE"@ && (it.segment == "FUTSTK"@ || it.segment == "OPTSTK"@)
                    ==> known.derived.contains(it.underlying) && exists|k: int|
                    0 <= k < spots.len() && (#[trigger] spots[k]).underlying == it.underlying
            }
        }),
{
    let spots = catalog_of(known).spots;
    let roots = known_roots(spots, known.derived);
    let f = kept(roots);
    let all = known.derivatives;
    roots_are_of_spots(spots, known.derived, it.underlying);
    if all.filter(f).contains(it) {
        all.lemma_filter_contains_rev(f, it);
        let k = choose|k: int| 0 <= k < all.filter(f).len() && all.filter(f)[k] == it;
        all.lemma_filter_pred(f, k);
    }
    if all.contains(it) && f(it) {
        let k = choose|k: int| 0 <= k < all.len() && all[k] == it;
        all.lemma_filter_contains(f, k);
    }
}

proof fn roots_are_of_spots(spots: Seq<SpotFacts>, derived: Set<Seq<char>>, root: Seq<char>)
    ensures
        known_roots(spots, derived).contains(root) <==> derived.contains(root) && exists|k: int|
            0 <= k < spots.len() && (#[trigger] spots[k]).underlying == root,
    decreases spots.len(),
{
    if spots.len() > 0 {
        let d = spots.drop_last();
        let n = spots.len() - 1;
        roots_are_of_spots(d, derived, root);
        assert(spots[n] == spots.last());
        assert forall|i: int|
            #![trigger d[i]]
            #![trigger spots[i]]
            0 <= i < n implies d[i] == spots[i] by {}
        if known_roots(d, derived).contains(root) {
            let k = choose|k: int| 0 <= k < d.len() && (#[trigger] d[k]).underlying == root;
            assert(spots[k] == d[k]);
        }
    }
}

/// The spots of the catalog are those of the stocks that derivatives are of, of the indices and
/// of the commodities, and each of these has a spot that is found under its symbol.
pub proof fn spots_are_of_stocks_indices_and_commodities(known: BuilderFacts, symbol: Seq<char>)
    requires
        known.derived.finite(),
        known.commodities.dom().finite(),
    ensures
        spots_of(known).contains_key(symbol) <==> {
            ||| exists|root: Seq<char>| #[trigger]
                known.derived.contains(root) && !is_test_root(root) && known.stocks.contains_key(
                    root,
                ) && known.stocks[root] == symbol
            ||| exists|k: int|
                0 <= k < known.indices.len() && (#[trigger] known.indices[k]).spot_symbol == symbol
            ||| exists|root: Seq<char>| #[trigger]
                known.commodities.contains_key(root) && known.commodities[root] == symbol
        },
{
    let derived = ascending_of(known.derived);
    let roots = ascending_of(known.commodities.dom());
    ascending_of_holds(known.derived);
    ascending_of_holds(known.commodities.dom());
    let stocks = with_stocks(derived, known.stocks);
    let spots = with_indices(stocks, known.indices);
    stocks_are_spots(derived, known.stocks, symbol);
    indices_are_spots(stocks, known.indices, symbol);
    commodities_are_spots(spots, roots, known.commodities, symbol);
    if stocks.contains_key(symbol) {
        let k = choose|k: int|
            {
                &&& 0 <= k < derived.len()
                &&& !is_test_root(#[trigger] derived[k])
                &&& known.stocks.contains_key(derived[k])
                &&& known.stocks[derived[k]] == symbol
            };
        assert(derived.to_set().contains(derived[k]));
        assert(known.derived.contains(derived[k]));
    }
    if exists|root: Seq<char>| #[trigger]
        known.derived.contains(root) && !is_test_root(root) && known.stocks.contains_key(root)
            && known.stocks[root] == symbol {
        let root = choose|root: Seq<char>| #[trigger]
            known.derived.contains(root) && !is_test_root(root) && known.stocks.contains_key(root)
                && known.stocks[root] == symbol;
        assert(derived.to_set().contains(root));
        let k = choose|k: int| 0 <= k < derived.len() && derived[k] == root;
        assert(!is_test_root(derived[k]));
    }
    if exists|k: int| 0 <= k < roots.len() && known.commodities[#[trigger] roots[k]] == symbol {
        let k = choose|k: int|
            0 <= k < roots.len() && known.commodities[#[trigger] roots[k]] == symbol;
        assert(roots.to_set().contains(roots[k]));
        assert(known.commodities.contains_key(roots[k]));
    }
    if exists|root: Seq<char>| #[trigger]
        known.commodities.contains_key(root) && known.commodities[root] == symbol {
        let root = choose|root: Seq<char>| #[trigger]
            known.commodities.contains_key(root) && known.commodities[root] == symbol;
        assert(roots.to_set().contains(root));
        let k = choose|k: int| 0 <= k < roots.len() && roots[k] == root;
        assert(known.commodities[roots[k]] == symbol);
    }
}

proof fn stocks_are_spots(
    roots: Seq<Seq<char>>,
    stocks: Map<Seq<char>, Seq<char>>,
    symbol: Seq<char>,
)
    ensures
        with_stocks(roots, stocks).contains_key(symbol) <==> exists|k: int|
            {
                &&& 0 <= k < roots.len()
                &&& !is_test_root(#[trigger] roots[k])
                &&& stocks.contains_key(roots[k])
                &&& stocks[roots[k]] == symbol
            },
    decreases roots.len(),
{
    if roots.len() > 0 {
        let d = roots.drop_last();
        let n = roots.len() - 1;
        stocks_are_spots(d, stocks, symbol);
        assert(roots[n] == roots.last());
        assert forall|i: int|
            #![trigger d[i]]
            #![trigger roots[i]]
            0 <= i < n implies d[i] == roots[i] by {}
        if with_stocks(d, stocks).contains_key(symbol) {
            let k = choose|k: int|
                {
                    &&& 0 <= k < d.len()
                    &&& !is_test_root(#[trigger] d[k])
                    &&& stocks.contains_key(d[k])
                    &&& stocks[d[k]] == symbol
                };
            assert(!is_test_root(roots[k]));
        }
        if exists|k: int|
            {
                &&& 0 <= k < roots.len()
                &&& !is_test_root(#[trigger] roots[k])
                &&& stocks.contains_key(roots[k])
                &&& stocks[roots[k]] == symbol
            } {
            let k = choose|k: int|
                {
                    &&& 0 <= k < roots.len()
                    &&& !is_test_root(#[trigger] roots[k])
                    &&& stocks.contains_key(roots[k])
                    &&& stocks[roots[k]] == symbol
                };
            if k < n {
                assert(!is_test_root(d[k]));
            }
        }
    }
}

proof fn indices_are_spots(
    spots: Map<Seq<char>, Seq<char>>,
    indices: Seq<SpotFacts>,
    symbol: Seq<char>,
)
    ensures
        with_indices(spots, indices).contains_key(symbol) <==> spots.contains_key(symbol) || exists|
            k: int,
        |
            0 <= k < indices.len() && (#[trigger] indices[k]).spot_symbol == symbol,
    decreases indices.len(),
{
    if indices.len() > 0 {
        let d = indices.drop_last();
        let n = indices.len() - 1;
        indices_are_spots(spots, d, symbol);
        assert(indices[n] == indices.last());
        assert forall|i: int|
            #![trigger d[i]]
            #![trigger indices[i]]
            0 <= i < n implies d[i] == indices[i] by {}
        if exists|k: int| 0 <= k < d.len() && (#[trigger] d[k]).spot_symbol == symbol {
            let k = choose|k: int| 0 <= k < d.len() && (#[trigger] d[k]).spot_symbol == symbol;
            assert(indices[k] == d[k]);
        }
    }
}

proof fn commodities_are_spots(
    spots: Map<Seq<char>, Seq<char>>,
    roots: Seq<Seq<char>>,
    commodities: Map<Seq<char>, Seq<char>>,
    symbol: Seq<char>,
)
    ensures
        with_commodities(spots, roots, commodities).contains_key(symbol) <==> spots.contains_key(
            symbol,
        ) || exists|k: int| 0 <= k < roots.len() && commodities[#[trigger] roots[k]] == symbol,
    decreases roots.len(),
{
    if roots.len() > 0 {
        let d = roots.drop_last();
        let n = roots.len() - 1;
        commodities_are_spots(spots, d, commodities, symbol);
        assert(roots[n] == roots.last());
        assert forall|i: int|
            #![trigger d[i]]
            #![trigger roots[i]]
            0 <= i < n implies d[i] == roots[i] by {}
        if exists|k: int| 0 <= k < d.len() && commodities[#[trigger] d[k]] == symbol {
            let k = choose|k: int| 0 <= k < d.len() && commodities[#[trigger] d[k]] == symbol;
            assert(commodities[roots[k]] == symbol);
        }
    }
}

} // verus!
