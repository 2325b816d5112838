//! Instruments: what they are, how a file lists them, and how some are chosen.
use crate::binary64::{
    copy_decimal, copy_text, decimal_facts, find_number, is_text, number_in, text_facts, Decimal,
    DecimalFacts, Numbers,
};
use crate::feeder::error::{outcome, FeedError, FeedFault};
use crate::feeder::event::{name_views, InstrumentName};
use crate::order::{ascending, keys_of, map_of, TextMap};
use crate::text::{
    decimal, decimal_of, join, join_of, lines, lines_of, same, split, split_of, trim, trim_of,
    upper, upper_of, views,
};
use vstd::prelude::*;

verus! {

/// The columns of a file of instruments.
pub const UNIVERSAL_INSTRUMENT_CSV_HEADER: &'static str =
    "instrument_name,instrument_type,strike,expiry,broker,instrument_token,trading_symbol,exchange,segment,underlying,lot_size,tick_size,tradable";

#[derive(Clone, Copy, Debug, PartialEq, Eq, Hash, Structural)]
pub enum InstrumentType {
    Spot,
    Fut,
    PerpFut,
    Call,
    Put,
}

/// The name of a kind of instrument.
pub open spec fn kind_name(kind: InstrumentType) -> Seq<char> {
    match kind {
        InstrumentType::Spot => "SPOT"@,
        InstrumentType::Fut => "FUT"@,
        InstrumentType::PerpFut => "PERP_FUT"@,
        InstrumentType::Call => "CALL"@,
        InstrumentType::Put => "PUT"@,
    }
}

impl InstrumentType {
    pub fn as_str(self) -> (r: &'static str)
        ensures
            r@ == kind_name(self),
    {
        match self {
            InstrumentType::Spot => "SPOT",
            InstrumentType::Fut => "FUT",
            InstrumentType::PerpFut => "PERP_FUT",
            InstrumentType::Call => "CALL",
            InstrumentType::Put => "PUT",
        }
    }

    /// The segment that instruments of the kind trade in.
    pub fn segment(self) -> (r: &'static str)
        ensures
            r@ == kind_name(self),
    {
        match self {
            InstrumentType::Spot => "SPOT",
            InstrumentType::Fut => "FUT",
            InstrumentType::PerpFut => "PERP_FUT",
            InstrumentType::Call => "CALL",
            InstrumentType::Put => "PUT",
        }
    }

    pub fn is_derivative(self) -> (r: bool)
        ensures
            r == (self != InstrumentType::Spot),
    {
        match self {
            InstrumentType::Spot => false,
            _ => true,
        }
    }

    pub fn is_option(self) -> (r: bool)
        ensures
            r == is_option_type(self),
    {
        match self {
            InstrumentType::Call => true,
            InstrumentType::Put => true,
            _ => false,
        }
    }
}

pub open spec fn is_option_type(kind: InstrumentType) -> bool {
    kind == InstrumentType::Call || kind == InstrumentType::Put
}

/// The kind of instrument that a text names.
pub open spec fn instrument_type_of(value: Seq<char>) -> Result<InstrumentType, FeedFault> {
    let v = upper_of(trim_of(value));
    if v == "SPOT"@ {
        Ok(InstrumentType::Spot)
    } else if v == "FUT"@ {
        Ok(InstrumentType::Fut)
    } else if v == "PERP_FUT"@ {
        Ok(InstrumentType::PerpFut)
    } else if v == "CALL"@ {
        Ok(InstrumentType::Call)
    } else if v == "PUT"@ {
        Ok(InstrumentType::Put)
    } else {
        Err(FeedFault::Parse("unsupported instrument_type "@ + value))
    }
}

pub fn parse_instrument_type(value: &str) -> (r: Result<InstrumentType, FeedError>)
    ensures
        match r {
            Ok(kind) => instrument_type_of(value@) == Ok::<InstrumentType, FeedFault>(kind),
            Err(e) => instrument_type_of(value@) == Err::<InstrumentType, FeedFault>(e@),
        },
{
    let v = upper(trim(value).as_str());
    if same(v.as_str(), "SPOT") {
        Ok(InstrumentType::Spot)
    } else if same(v.as_str(), "FUT") {
        Ok(InstrumentType::Fut)
    } else if same(v.as_str(), "PERP_FUT") {
        Ok(InstrumentType::PerpFut)
    } else if same(v.as_str(), "CALL") {
        Ok(InstrumentType::Call)
    } else if same(v.as_str(), "PUT") {
        Ok(InstrumentType::Put)
    } else {
        Err(FeedError::Parse("unsupported instrument_type ".to_owned().concat(value)))
    }
}

/// Naming a kind and reading the name gives the kind back.
pub proof fn kind_name_reads_back(kind: InstrumentType)
    ensures
        instrument_type_of(kind_name(kind)) == Ok::<InstrumentType, FeedFault>(kind),
{
    reveal_strlit("SPOT");
    reveal_strlit("FUT");
    reveal_strlit("PERP_FUT");
    reveal_strlit("CALL");
    reveal_strlit("PUT");
    let s = kind_name(kind);
    assert(trim_of(s) == s);
    assert(upper_of(s) =~= s);
    assert("FUT"@ != "PUT"@) by {
        assert("FUT"@[0] != "PUT"@[0]);
    }
    assert("SPOT"@ != "CALL"@) by {
        assert("SPOT"@[0] != "CALL"@[0]);
    }
}

/// An instrument.
#[derive(Debug, PartialEq, Eq)]
pub struct InstrumentDefinition {
    pub instrument_name: InstrumentName,
    pub instrument_type: InstrumentType,
    pub strike: Option<Decimal>,
    pub expiry: Option<String>,
    pub broker: String,
    pub instrument_token: String,
    pub trading_symbol: String,
    pub exchange: String,
    pub segment: String,
    pub underlying: String,
    pub lot_size: Decimal,
    pub tick_size: Decimal,
    pub tradable: bool,
}

/// An instrument as contracts speak of it.
pub struct InstrumentFacts {
    pub instrument_name: Seq<char>,
    pub instrument_type: InstrumentType,
    pub strike: Option<DecimalFacts>,
    pub expiry: Option<Seq<char>>,
    pub broker: Seq<char>,
    pub instrument_token: Seq<char>,
    pub trading_symbol: Seq<char>,
    pub exchange: Seq<char>,
    pub segment: Seq<char>,
    pub underlying: Seq<char>,
    pub lot_size: DecimalFacts,
    pub tick_size: DecimalFacts,
    pub tradable: bool,
}

impl View for InstrumentDefinition {
    type V = InstrumentFacts;

    open spec fn view(&self) -> InstrumentFacts {
        InstrumentFacts {
            instrument_name: self.instrument_name@,
            instrument_type: self.instrument_type,
            strike: decimal_facts(self.strike),
            expiry: text_facts(self.expiry),
            broker: self.broker@,
            instrument_token: self.instrument_token@,
            trading_symbol: self.trading_symbol@,
            exchange: self.exchange@,
            segment: self.segment@,
            underlying: self.underlying@,
            lot_size: self.lot_size@,
            tick_size: self.tick_size@,
            tradable: self.tradable,
        }
    }
}

impl Clone for InstrumentDefinition {
    fn clone(&self) -> (r: InstrumentDefinition)
        ensures
            r == *self,
    {
        InstrumentDefinition {
            instrument_name: self.instrument_name.clone(),
            instrument_type: self.instrument_type,
            strike: copy_decimal(&self.strike),
            expiry: copy_text(&self.expiry),
            broker: self.broker.clone(),
            instrument_token: self.instrument_token.clone(),
            trading_symbol: self.trading_symbol.clone(),
            exchange: self.exchange.clone(),
            segment: self.segment.clone(),
            underlying: self.underlying.clone(),
            lot_size: self.lot_size.clone(),
            tick_size: self.tick_size.clone(),
            tradable: self.tradable,
        }
    }
}

/// The instruments of a list, as contracts speak of them.
pub open spec fn instrument_views(v: Seq<InstrumentDefinition>) -> Seq<InstrumentFacts> {
    Seq::new(v.len(), |i: int| v[i]@)
}

/// A truth value as a file writes it.
pub open spec fn flag_text(value: bool) -> Seq<char> {
    if value {
        "true"@
    } else {
        "false"@
    }
}

/// The cells of the line of a file of instruments that is for one of them.
pub open spec fn csv_cells_of(i: InstrumentFacts) -> Seq<Seq<char>> {
    seq![
        i.instrument_name,
        kind_name(i.instrument_type),
        (match i.strike {
            Some(strike) => strike.text,
            None => Seq::empty(),
        }),
        (match i.expiry {
            Some(expiry) => expiry,
            None => Seq::empty(),
        }),
        i.broker,
        i.instrument_token,
        i.trading_symbol,
        i.exchange,
        i.segment,
        i.underlying,
        i.lot_size.text,
        i.tick_size.text,
        flag_text(i.tradable),
    ]
}

/// The line of a file of instruments that is for one of them.
pub open spec fn csv_row_of(i: InstrumentFacts) -> Seq<char> {
    join_of(csv_cells_of(i), ","@)
}

impl InstrumentDefinition {
    pub fn is_derivative(&self) -> (r: bool)
        ensures
            r == (self.instrument_type != InstrumentType::Spot),
    {
        self.instrument_type.is_derivative()
    }

    pub fn to_csv_row(&self) -> (r: String)
        ensures
            r@ == csv_row_of(self@),
    {
        let strike = match &self.strike {
            Some(strike) => strike.text.clone(),
            None => String::new(),
        };
        let expiry = match &self.expiry {
            Some(expiry) => expiry.clone(),
            None => String::new(),
        };
        let tradable = if self.tradable {
            "true".to_owned()
        } else {
            "false".to_owned()
        };
        let cells: Vec<String> = vec![
            self.instrument_name.to_text(),
            self.instrument_type.as_str().to_owned(),
            strike,
            expiry,
            self.broker.clone(),
            self.instrument_token.clone(),
            self.trading_symbol.clone(),
            self.exchange.clone(),
            self.segment.clone(),
            self.underlying.clone(),
            self.lot_size.text.clone(),
            self.tick_size.text.clone(),
            tradable,
        ];
        assert(views(cells@) =~= csv_cells_of(self@));
        join(&cells, ",")
    }
}

/// The instruments of a list under their names; of several with one name, the last.
pub open spec fn named_of(list: Seq<InstrumentDefinition>) -> Map<Seq<char>, InstrumentDefinition>
    decreases list.len(),
{
    if list.len() == 0 {
        Map::empty()
    } else {
        named_of(list.drop_last()).insert(list.last().instrument_name@, list.last())
    }
}

/// The names of the instruments of a list.
pub open spec fn names_of(list: Seq<InstrumentDefinition>) -> Seq<Seq<char>> {
    Seq::new(list.len(), |i: int| list[i].instrument_name@)
}

/// Instruments, each under its name.
pub struct InstrumentCatalog {
    by_name: TextMap<InstrumentDefinition>,
}

impl View for InstrumentCatalog {
    type V = Map<Seq<char>, InstrumentDefinition>;

    closed spec fn view(&self) -> Map<Seq<char>, InstrumentDefinition> {
        self.by_name@
    }
}

impl InstrumentCatalog {
    #[verifier::type_invariant]
    closed spec fn well_named(self) -> bool {
        forall|k: Seq<char>| #[trigger]
            self.by_name@.contains_key(k) ==> self.by_name@[k].instrument_name@ == k
    }

    /// The instruments in the order of their names.
    pub closed spec fn list(&self) -> Seq<InstrumentDefinition> {
        Seq::new(self.by_name.entries().len(), |i: int| self.by_name.entries()[i].1)
    }

    pub fn new(instruments: Vec<InstrumentDefinition>) -> (r: InstrumentCatalog)
        ensures
            r@ == named_of(instruments@),
    {
        let mut by_name: TextMap<InstrumentDefinition> = TextMap::new();
        let mut i: usize = 0;
        assert(instruments@.take(0) =~= Seq::empty());
        while i < instruments.len()
            invariant
                i <= instruments@.len(),
                by_name@ == named_of(instruments@.take(i as int)),
                forall|k: Seq<char>| #[trigger]
                    by_name@.contains_key(k) ==> by_name@[k].instrument_name@ == k,
            decreases instruments@.len() - i,
        {
            assert(instruments@.take(i + 1).drop_last() =~= instruments@.take(i as int));
            let instrument = &instruments[i];
            by_name.insert(instrument.instrument_name.to_text(), instrument.clone());
            i += 1;
        }
        assert(instruments@.take(i as int) =~= instruments@);
        InstrumentCatalog { by_name }
    }

    pub fn get(&self, name: &InstrumentName) -> (r: Option<&InstrumentDefinition>)
        ensures
            match r {
                Some(instrument) => self@.contains_key(name@) && *instrument == self@[name@],
                None => !self@.contains_key(name@),
            },
    {
        self.by_name.get(name.as_str())
    }

    /// The instruments in the order of their names.
    pub fn instruments(&self) -> (r: Vec<InstrumentDefinition>)
        ensures
            r@ == self.list(),
            ascending(names_of(self.list())),
            names_of(self.list()).to_set() == self@.dom(),
            forall|i: int|
                0 <= i < r@.len() ==> self@.contains_key((#[trigger] r@[i]).instrument_name@)
                    && self@[r@[i].instrument_name@] == r@[i],
    {
        proof {
            use_type_invariant(self);
        }
        let n: usize = self.by_name.len();
        let ghost entries = self.by_name.entries();
        let mut out: Vec<InstrumentDefinition> = Vec::new();
        let mut i: usize = 0;
        while i < n
            invariant
                entries == self.by_name.entries(),
                n == entries.len(),
                i <= n,
                out@ =~= self.list().take(i as int),
                forall|k: Seq<char>| #[trigger]
                    self.by_name@.contains_key(k) ==> self.by_name@[k].instrument_name@ == k,
                forall|j: int|
                    0 <= j < i ==> self@.contains_key((#[trigger] entries[j]).0)
                        && self@[entries[j].0] == entries[j].1,
            decreases n - i,
        {
            out.push(self.by_name.value_at(i).clone());
            i += 1;
        }
        proof {
            let list = self.list();
            assert(list.take(list.len() as int) =~= list);
            assert(names_of(list) =~= keys_of(entries));
            assert forall|k: Seq<char>| names_of(list).to_set().contains(k) == self@.dom().contains(
                k,
            ) by {
                if names_of(list).to_set().contains(k) {
                    let j = names_of(list).index_of(k);
                    assert(entries[j].0 == k);
                }
                if self@.dom().contains(k) {
                    assert(map_of(entries).contains_key(k));
                    let j = choose|j: int| 0 <= j < entries.len() && (#[trigger] entries[j]).0 == k;
                    assert(names_of(list)[j] == k);
                }
            }
            assert(names_of(list).to_set() =~= self@.dom());
            assert forall|j: int| 0 <= j < out@.len() implies self@.contains_key(
                (#[trigger] out@[j]).instrument_name@,
            ) && self@[out@[j].instrument_name@] == out@[j] by {
                assert(self@.contains_key(entries[j].0));
            }
        }
        out
    }

    /// The names of the instruments that a filter accepts, in their order.
    pub fn select(&self, filter: &UniverseFilter) -> (r: InstrumentUniverse)
        ensures
            r.list() == names_of(self.list().filter(filter.acceptance())),
    {
        let all = self.instruments();
        let mut chosen: Vec<InstrumentDefinition> = Vec::new();
        let mut i: usize = 0;
        assert(all@.take(0).filter(filter.acceptance()) =~= Seq::empty()) by {
            reveal(Seq::filter);
        }
        while i < all.len()
            invariant
                i <= all@.len(),
                chosen@ == all@.take(i as int).filter(filter.acceptance()),
            decreases all@.len() - i,
        {
            assert(all@.take(i + 1).drop_last() =~= all@.take(i as int));
            reveal(Seq::filter);
            if filter.matches(&all[i]) {
                chosen.push(all[i].clone());
            }
            i += 1;
        }
        assert(all@.take(all@.len() as int) =~= all@);
        InstrumentUniverse::new(chosen)
    }
}

/// Which instruments are wanted.
#[derive(Debug, PartialEq, Eq)]
pub struct UniverseFilter {
    pub broker: Option<String>,
    pub underlyings: Vec<String>,
    pub instrument_types: Vec<InstrumentType>,
    pub tradable_only: bool,
}

impl UniverseFilter {
    /// Whether an instrument is wanted. What the filter leaves empty does not narrow it.
    pub open spec fn accepts(&self, instrument: InstrumentDefinition) -> bool {
        &&& self.broker is Some ==> text_facts(self.broker) == Some(instrument.broker@)
        &&& self.underlyings@.len() == 0 || views(self.underlyings@).contains(
            instrument.underlying@,
        )
        &&& self.instrument_types@.len() == 0 || self.instrument_types@.contains(
            instrument.instrument_type,
        )
        &&& !self.tradable_only || instrument.tradable
    }

    /// Tells which instruments are wanted.
    pub open spec fn acceptance(&self) -> spec_fn(InstrumentDefinition) -> bool {
        |instrument: InstrumentDefinition| self.accepts(instrument)
    }

    pub fn matches(&self, instrument: &InstrumentDefinition) -> (r: bool)
        ensures
            r == self.accepts(*instrument),
    {
        let broker_matches = self.broker.is_none() || is_text(
            &self.broker,
            instrument.broker.as_str(),
        );
        let underlying_matches = self.underlyings.len() == 0 || holds_text(
            &self.underlyings,
            instrument.underlying.as_str(),
        );
        let type_matches = self.instrument_types.len() == 0 || holds_type(
            &self.instrument_types,
            instrument.instrument_type,
        );
        let tradable_matches = !self.tradable_only || instrument.tradable;
        broker_matches && underlying_matches && type_matches && tradable_matches
    }
}

/// Whether a text is in a list.
pub fn holds_text(list: &Vec<String>, text: &str) -> (r: bool)
    ensures
        r == views(list@).contains(text@),
{
    let mut i: usize = 0;
    while i < list.len()
        invariant
            i <= list@.len(),
            forall|k: int| 0 <= k < i ==> (#[trigger] views(list@)[k]) != text@,
        decreases list@.len() - i,
    {
        assert(views(list@)[i as int] == list@[i as int]@);
        if same(list[i].as_str(), text) {
            return true;
        }
        i += 1;
    }
    false
}

/// Whether a kind is in a list.
pub fn holds_type(list: &Vec<InstrumentType>, kind: InstrumentType) -> (r: bool)
    ensures
        r == list@.contains(kind),
{
    let mut i: usize = 0;
    while i < list.len()
        invariant
            i <= list@.len(),
            forall|k: int| 0 <= k < i ==> (#[trigger] list@[k]) != kind,
        decreases list@.len() - i,
    {
        if list[i] == kind {
            return true;
        }
        i += 1;
    }
    false
}

/// The names of chosen instruments.
#[derive(Debug, PartialEq, Eq)]
pub struct InstrumentUniverse {
    instruments: Vec<InstrumentName>,
}

impl InstrumentUniverse {
    pub closed spec fn list(&self) -> Seq<Seq<char>> {
        name_views(self.instruments@)
    }

    pub fn new(instruments: Vec<InstrumentDefinition>) -> (r: InstrumentUniverse)
        ensures
            r.list() == names_of(instruments@),
    {
        let mut names: Vec<InstrumentName> = Vec::new();
        let mut i: usize = 0;
        while i < instruments.len()
            invariant
                i <= instruments@.len(),
                names@.len() == i,
                forall|k: int| 0 <= k < i ==> names@[k]@ == instruments@[k].instrument_name@,
            decreases instruments@.len() - i,
        {
            names.push(instruments[i].instrument_name.clone());
            i += 1;
        }
        let r = InstrumentUniverse { instruments: names };
        assert(r.list() =~= names_of(instruments@));
        r
    }

    pub fn names(&self) -> (r: &[InstrumentName])
        ensures
            name_views(r@) == self.list(),
    {
        self.instruments.as_slice()
    }
}

/// The cells of a line: its parts between commas, without white space around them.
pub open spec fn cells_of(line: Seq<char>) -> Seq<Seq<char>> {
    Seq::new(split_of(line, ',').len(), |i: int| trim_of(split_of(line, ',')[i]))
}

pub fn cells(line: &str) -> (r: Vec<String>)
    ensures
        views(r@) == cells_of(line@),
{
    let parts = split(line, ',');
    let mut out: Vec<String> = Vec::new();
    let mut i: usize = 0;
    while i < parts.len()
        invariant
            i <= parts@.len(),
            out@.len() == i,
            views(parts@) == split_of(line@, ','),
            forall|k: int| 0 <= k < i ==> out@[k]@ == trim_of(views(parts@)[k]),
        decreases parts@.len() - i,
    {
        out.push(trim(parts[i].as_str()));
        i += 1;
    }
    assert(views(out@) =~= cells_of(line@));
    out
}

/// The place of the first column of a name, or the number of columns where none has it.
pub open spec fn column_of(headers: Seq<Seq<char>>, name: Seq<char>) -> int
    decreases headers.len(),
{
    if headers.len() == 0 || headers[0] == name {
        0
    } else {
        1 + column_of(headers.skip(1), name)
    }
}

/// The cell of a named column. `missing` begins what is said of a column that is not there.
pub open spec fn cell_of(
    headers: Seq<Seq<char>>,
    values: Seq<Seq<char>>,
    name: Seq<char>,
    missing: Seq<char>,
) -> Result<Seq<char>, FeedFault> {
    let i = column_of(headers, name);
    if i < headers.len() {
        Ok(values[i])
    } else {
        Err(FeedFault::Parse(missing + name))
    }
}

fn find_cell(headers: &Vec<String>, values: &Vec<String>, name: &str, missing: &str) -> (r: Result<
    String,
    FeedError,
>)
    requires
        headers@.len() == values@.len(),
    ensures
        outcome(r) == cell_of(views(headers@), views(values@), name@, missing@),
{
    let mut i: usize = 0;
    let ghost h = views(headers@);
    assert(h.skip(0) =~= h);
    while i < headers.len()
        invariant
            h == views(headers@),
            headers@.len() == values@.len(),
            i <= headers@.len(),
            column_of(h, name@) == i + column_of(h.skip(i as int), name@),
        decreases headers@.len() - i,
    {
        assert(h.skip(i as int).skip(1) =~= h.skip(i + 1));
        assert(h.skip(i as int)[0] == headers@[i as int]@);
        if same(headers[i].as_str(), name) {
            assert(views(values@)[i as int] == values@[i as int]@);
            return Ok(values[i].clone());
        }
        i += 1;
    }
    Err(FeedError::Parse(missing.to_owned().concat(name)))
}

/// An empty text stands for none.
pub open spec fn optional_text_of(value: Seq<char>) -> Option<Seq<char>> {
    if value.len() == 0 {
        None
    } else {
        Some(value)
    }
}

pub fn parse_optional_string(value: &str) -> (r: Option<String>)
    ensures
        text_facts(r) == optional_text_of(value@),
{
    if value.is_empty() {
        None
    } else {
        Some(value.to_owned())
    }
}

/// Why a text denotes no floating-point value.
pub open spec fn float_fault_of(value: Seq<char>) -> Seq<char> {
    if value.len() == 0 {
        "cannot parse float from empty string"@
    } else {
        "invalid float literal"@
    }
}

pub fn float_fault(value: &str) -> (r: String)
    ensures
        r@ == float_fault_of(value@),
{
    if value.is_empty() {
        "cannot parse float from empty string".to_owned()
    } else {
        "invalid float literal".to_owned()
    }
}

/// The value that a text has to denote.
pub open spec fn required_number_of(numbers: Map<Seq<char>, Decimal>, value: Seq<char>) -> Result<
    DecimalFacts,
    FeedFault,
> {
    match number_in(numbers, value) {
        Some(number) => Ok(number),
        None => Err(FeedFault::Parse("invalid f64 "@ + value + ": "@ + float_fault_of(value))),
    }
}

/// The value that a text denotes, where it is not empty.
pub open spec fn optional_number_of(numbers: Map<Seq<char>, Decimal>, value: Seq<char>) -> Result<
    Option<DecimalFacts>,
    FeedFault,
> {
    if value.len() == 0 {
        Ok(None)
    } else {
        match required_number_of(numbers, value) {
            Ok(number) => Ok(Some(number)),
            Err(e) => Err(e),
        }
    }
}

pub fn parse_required_number(numbers: &Numbers, value: &str) -> (r: Result<Decimal, FeedError>)
    ensures
        outcome(r) == required_number_of(numbers@, value@),
{
    match find_number(numbers, value) {
        Some(number) => Ok(number),
        None => {
            let mut message = "invalid f64 ".to_owned();
            message.append(value);
            message.append(": ");
            message.append(float_fault(value).as_str());
            Err(FeedError::Parse(message))
        },
    }
}

pub fn parse_optional_number(numbers: &Numbers, value: &str) -> (r: Result<
    Option<Decimal>,
    FeedError,
>)
    ensures
        match r {
            Ok(number) => optional_number_of(numbers@, value@) == Ok::<
                Option<DecimalFacts>,
                FeedFault,
            >(decimal_facts(number)),
            Err(e) => optional_number_of(numbers@, value@) == Err::<
                Option<DecimalFacts>,
                FeedFault,
            >(e@),
        },
{
    if value.is_empty() {
        Ok(None)
    } else {
        match parse_required_number(numbers, value) {
            Ok(number) => Ok(Some(number)),
            Err(e) => Err(e),
        }
    }
}

/// The truth value that a text denotes.
pub open spec fn flag_of(value: Seq<char>) -> Result<bool, FeedFault> {
    if value == "true"@ {
        Ok(true)
    } else if value == "false"@ {
        Ok(false)
    } else {
        Err(FeedFault::Parse("invalid bool "@ + value))
    }
}

pub fn parse_bool(value: &str) -> (r: Result<bool, FeedError>)
    ensures
        outcome(r) == flag_of(value@),
{
    if same(value, "true") {
        Ok(true)
    } else if same(value, "false") {
        Ok(false)
    } else {
        Err(FeedError::Parse("invalid bool ".to_owned().concat(value)))
    }
}

/// The type that a cell names.
pub open spec fn kind_in(cell: Result<Seq<char>, FeedFault>) -> Result<InstrumentType, FeedFault> {
    match cell {
        Err(e) => Err(e),
        Ok(text) => instrument_type_of(text),
    }
}

/// The number in a cell that may be empty.
pub open spec fn optional_number_in(
    cell: Result<Seq<char>, FeedFault>,
    numbers: Map<Seq<char>, Decimal>,
) -> Result<Option<DecimalFacts>, FeedFault> {
    match cell {
        Err(e) => Err(e),
        Ok(text) => optional_number_of(numbers, text),
    }
}

/// The number in a cell.
pub open spec fn required_number_in(
    cell: Result<Seq<char>, FeedFault>,
    numbers: Map<Seq<char>, Decimal>,
) -> Result<DecimalFacts, FeedFault> {
    match cell {
        Err(e) => Err(e),
        Ok(text) => required_number_of(numbers, text),
    }
}

/// Whether a cell says yes.
pub open spec fn flag_in(cell: Result<Seq<char>, FeedFault>) -> Result<bool, FeedFault> {
    match cell {
        Err(e) => Err(e),
        Ok(text) => flag_of(text),
    }
}

/// The instrument that the cells of a line describe, or what is wrong with the first cell
/// that something is wrong with. `missing` begins what is said of a column that is not
/// there.
pub open spec fn row_of(
    headers: Seq<Seq<char>>,
    values: Seq<Seq<char>>,
    numbers: Map<Seq<char>, Decimal>,
    missing: Seq<char>,
) -> Result<InstrumentFacts, FeedFault> {
    let instrument_name = cell_of(headers, values, "instrument_name"@, missing);
    let instrument_type = kind_in(cell_of(headers, values, "instrument_type"@, missing));
    let strike = optional_number_in(cell_of(headers, values, "strike"@, missing), numbers);
    let expiry = cell_of(headers, values, "expiry"@, missing);
    let broker = cell_of(headers, values, "broker"@, missing);
    let instrument_token = cell_of(headers, values, "instrument_token"@, missing);
    let trading_symbol = cell_of(headers, values, "trading_symbol"@, missing);
    let exchange = cell_of(headers, values, "exchange"@, missing);
    let segment = cell_of(headers, values, "segment"@, missing);
    let underlying = cell_of(headers, values, "underlying"@, missing);
    let lot_size = required_number_in(cell_of(headers, values, "lot_size"@, missing), numbers);
    let tick_size = required_number_in(cell_of(headers, values, "tick_size"@, missing), numbers);
    let tradable = flag_in(cell_of(headers, values, "tradable"@, missing));
    if instrument_name is Err {
        Err(instrument_name->Err_0)
    } else if instrument_type is Err {
        Err(instrument_type->Err_0)
    } else if strike is Err {
        Err(strike->Err_0)
    } else if expiry is Err {
        Err(expiry->Err_0)
    } else if broker is Err {
        Err(broker->Err_0)
    } else if instrument_token is Err {
        Err(instrument_token->Err_0)
    } else if trading_symbol is Err {
        Err(trading_symbol->Err_0)
    } else if exchange is Err {
        Err(exchange->Err_0)
    } else if segment is Err {
        Err(segment->Err_0)
    } else if underlying is Err {
        Err(underlying->Err_0)
    } else if lot_size is Err {
        Err(lot_size->Err_0)
    } else if tick_size is Err {
        Err(tick_size->Err_0)
    } else if tradable is Err {
        Err(tradable->Err_0)
    } else {
        Ok(
            InstrumentFacts {
                instrument_name: instrument_name->Ok_0,
                instrument_type: instrument_type->Ok_0,
                strike: strike->Ok_0,
                expiry: optional_text_of(expiry->Ok_0),
                broker: broker->Ok_0,
                instrument_token: instrument_token->Ok_0,
                trading_symbol: trading_symbol->Ok_0,
                exchange: exchange->Ok_0,
                segment: segment->Ok_0,
                underlying: underlying->Ok_0,
                lot_size: lot_size->Ok_0,
                tick_size: tick_size->Ok_0,
                tradable: tradable->Ok_0,
            },
        )
    }
}

/// Reads the instrument that the cells of a line describe.
pub fn parse_row(headers: &Vec<String>, values: &Vec<String>, numbers: &Numbers, missing: &str) -> (r:
    Result<InstrumentDefinition, FeedError>)
    requires
        headers@.len() == values@.len(),
    ensures
        outcome(r) == row_of(views(headers@), views(values@), numbers@, missing@),
{
    let instrument_name_text = match find_cell(headers, values, "instrument_name", missing) {
        Ok(v) => v,
        Err(e) => return Err(e),
    };
    let instrument_name = InstrumentName::new(instrument_name_text.as_str());
    let instrument_type_text = match find_cell(headers, values, "instrument_type", missing) {
        Ok(v) => v,
        Err(e) => return Err(e),
    };
    let instrument_type = match parse_instrument_type(instrument_type_text.as_str()) {
        Ok(v) => v,
        Err(e) => return Err(e),
    };
    let strike_text = match find_cell(headers, values, "strike", missing) {
        Ok(v) => v,
        Err(e) => return Err(e),
    };
    let strike = match parse_optional_number(numbers, strike_text.as_str()) {
        Ok(v) => v,
        Err(e) => return Err(e),
    };
    let expiry_text = match find_cell(headers, values, "expiry", missing) {
        Ok(v) => v,
        Err(e) => return Err(e),
    };
    let expiry = parse_optional_string(expiry_text.as_str());
    let broker_text = match find_cell(headers, values, "broker", missing) {
        Ok(v) => v,
        Err(e) => return Err(e),
    };
    let instrument_token_text = match find_cell(headers, values, "instrument_token", missing) {
        Ok(v) => v,
        Err(e) => return Err(e),
    };
    let trading_symbol_text = match find_cell(headers, values, "trading_symbol", missing) {
        Ok(v) => v,
        Err(e) => return Err(e),
    };
    let exchange_text = match find_cell(headers, values, "exchange", missing) {
        Ok(v) => v,
        Err(e) => return Err(e),
    };
    let segment_text = match find_cell(headers, values, "segment", missing) {
        Ok(v) => v,
        Err(e) => return Err(e),
    };
    let underlying_text = match find_cell(headers, values, "underlying", missing) {
        Ok(v) => v,
        Err(e) => return Err(e),
    };
    let lot_size_text = match find_cell(headers, values, "lot_size", missing) {
        Ok(v) => v,
        Err(e) => return Err(e),
    };
    let lot_size = match parse_required_number(numbers, lot_size_text.as_str()) {
        Ok(v) => v,
        Err(e) => return Err(e),
    };
    let tick_size_text = match find_cell(headers, values, "tick_size", missing) {
        Ok(v) => v,
        Err(e) => return Err(e),
    };
    let tick_size = match parse_required_number(numbers, tick_size_text.as_str()) {
        Ok(v) => v,
        Err(e) => return Err(e),
    };
    let tradable_text = match find_cell(headers, values, "tradable", missing) {
        Ok(v) => v,
        Err(e) => return Err(e),
    };
    let tradable = match parse_bool(tradable_text.as_str()) {
        Ok(v) => v,
        Err(e) => return Err(e),
    };
    Ok(InstrumentDefinition {
        instrument_name,
        instrument_type,
        strike,
        expiry,
        broker: broker_text,
        instrument_token: instrument_token_text,
        trading_symbol: trading_symbol_text,
        exchange: exchange_text,
        segment: segment_text,
        underlying: underlying_text,
        lot_size,
        tick_size,
        tradable,
    })
}

/// The lines that are not blank.
pub open spec fn inked_lines_of(content: Seq<char>) -> Seq<Seq<char>> {
    lines_of(content).filter(|line: Seq<char>| trim_of(line).len() > 0)
}

pub fn inked_lines(content: &str) -> (r: Vec<String>)
    ensures
        views(r@) == inked_lines_of(content@),
{
    let all = lines(content);
    let ghost ink = |line: Seq<char>| trim_of(line).len() > 0;
    let ghost s = lines_of(content@);
    let mut out: Vec<String> = Vec::new();
    let mut i: usize = 0;
    reveal(Seq::filter);
    assert(views(out@) =~= s.take(0).filter(ink));
    while i < all.len()
        invariant
            s == views(all@),
            ink == (|line: Seq<char>| trim_of(line).len() > 0),
            i <= all@.len(),
            views(out@) == s.take(i as int).filter(ink),
        decreases all@.len() - i,
    {
        assert(s.take(i + 1).drop_last() =~= s.take(i as int));
        assert(s[i as int] == all@[i as int]@);
        reveal(Seq::filter);
        let ghost before = views(out@);
        if !trim(all[i].as_str()).as_str().is_empty() {
            out.push(all[i].clone());
            assert(views(out@) =~= before.push(s[i as int]));
        }
        i += 1;
    }
    assert(s.take(s.len() as int) =~= s);
    out
}

/// What is said of a line with the wrong number of cells.
pub open spec fn width_fault_of(line: nat, found: nat, expected: nat) -> FeedFault {
    FeedFault::Parse(
        "line "@ + decimal_of(line) + " has "@ + decimal_of(found) + " fields, expected "@
            + decimal_of(expected),
    )
}

/// The instruments that lines describe, the first of which is the given line of the file.
pub open spec fn rows_of(
    headers: Seq<Seq<char>>,
    rows: Seq<Seq<char>>,
    numbers: Map<Seq<char>, Decimal>,
) -> Result<Seq<InstrumentFacts>, FeedFault>
    decreases rows.len(),
{
    if rows.len() == 0 {
        Ok(Seq::empty())
    } else {
        match rows_of(headers, rows.drop_last(), numbers) {
            Err(e) => Err(e),
            Ok(list) => {
                let values = cells_of(rows.last());
                if values.len() != headers.len() {
                    Err(width_fault_of((rows.len() + 1) as nat, values.len(), headers.len()))
                } else {
                    match row_of(headers, values, numbers, "missing csv column "@) {
                        Err(e) => Err(e),
                        Ok(instrument) => Ok(list.push(instrument)),
                    }
                }
            },
        }
    }
}

proof fn rows_fail(
    headers: Seq<Seq<char>>,
    rows: Seq<Seq<char>>,
    numbers: Map<Seq<char>, Decimal>,
    n: int,
)
    requires
        0 <= n <= rows.len(),
        rows_of(headers, rows.take(n), numbers) is Err,
    ensures
        rows_of(headers, rows, numbers) == rows_of(headers, rows.take(n), numbers),
    decreases rows.len() - n,
{
    if n < rows.len() {
        assert(rows.take(n + 1).drop_last() =~= rows.take(n));
        rows_fail(headers, rows, numbers, n + 1);
    } else {
        assert(rows.take(n) =~= rows);
    }
}

/// The instruments that a file lists, in its order.
pub open spec fn listed_of(content: Seq<char>, numbers: Map<Seq<char>, Decimal>) -> Result<
    Seq<InstrumentFacts>,
    FeedFault,
> {
    let all = inked_lines_of(content);
    if all.len() == 0 {
        Err(FeedFault::Parse("instrument csv is empty"@))
    } else {
        rows_of(cells_of(all[0]), all.skip(1), numbers)
    }
}

/// Reads the instruments that a file lists, in its order.
pub fn parse_listed(content: &str, numbers: &Numbers) -> (r: Result<
    Vec<InstrumentDefinition>,
    FeedError,
>)
    ensures
        match r {
            Ok(list) => listed_of(content@, numbers@) == Ok::<Seq<InstrumentFacts>, FeedFault>(
                instrument_views(list@),
            ),
            Err(e) => listed_of(content@, numbers@) == Err::<Seq<InstrumentFacts>, FeedFault>(e@),
        },
{
    let all = inked_lines(content);
    if all.len() == 0 {
        return Err(FeedError::Parse("instrument csv is empty".to_owned()));
    }
    let headers = cells(all[0].as_str());
    let ghost h = views(headers@);
    let ghost rows = views(all@).skip(1);
    let mut list: Vec<InstrumentDefinition> = Vec::new();
    let mut i: usize = 1;
    assert(instrument_views(list@) =~= Seq::empty());
    assert(rows.take(0) =~= Seq::empty());
    while i < all.len()
        invariant
            1 <= i <= all@.len(),
            views(all@) == inked_lines_of(content@),
            rows == views(all@).skip(1),
            h == views(headers@),
            h == cells_of(views(all@)[0]),
            rows_of(h, rows.take(i - 1), numbers@) == Ok::<Seq<InstrumentFacts>, FeedFault>(
                instrument_views(list@),
            ),
        decreases all@.len() - i,
    {
        let ghost before = instrument_views(list@);
        let values = cells(all[i].as_str());
        assert(rows.take(i as int).drop_last() =~= rows.take(i - 1));
        assert(rows.take(i as int).last() == all@[i as int]@);
        assert(views(values@).len() == values@.len());
        if values.len() != headers.len() {
            let mut message = "line ".to_owned();
            message.append(decimal((i + 1) as u64).as_str());
            message.append(" has ");
            message.append(decimal(values.len() as u64).as_str());
            message.append(" fields, expected ");
            message.append(decimal(headers.len() as u64).as_str());
            proof {
                rows_fail(h, rows, numbers@, i as int);
            }
            return Err(FeedError::Parse(message));
        }
        match parse_row(&headers, &values, numbers, "missing csv column ") {
            Ok(instrument) => {
                let ghost facts = instrument@;
                list.push(instrument);
                assert(instrument_views(list@) =~= before.push(facts));
            },
            Err(e) => {
                proof {
                    rows_fail(h, rows, numbers@, i as int);
                }
                return Err(e);
            },
        }
        i += 1;
    }
    assert(rows.take(rows.len() as int) =~= rows);
    Ok(list)
}

/// The instruments of a list under their names, as contracts speak of them; of several
/// with one name, the last.
pub open spec fn named_facts_of(list: Seq<InstrumentFacts>) -> Map<Seq<char>, InstrumentFacts>
    decreases list.len(),
{
    if list.len() == 0 {
        Map::empty()
    } else {
        named_facts_of(list.drop_last()).insert(list.last().instrument_name, list.last())
    }
}

/// Naming instruments and naming what is known of them agree.
pub proof fn named_agree(list: Seq<InstrumentDefinition>)
    ensures
        named_facts_of(instrument_views(list)).dom() == named_of(list).dom(),
        forall|k: Seq<char>| #[trigger]
            named_of(list).contains_key(k) ==> named_facts_of(instrument_views(list))[k]
                == named_of(list)[k]@,
    decreases list.len(),
{
    if list.len() > 0 {
        named_agree(list.drop_last());
        assert(instrument_views(list).drop_last() =~= instrument_views(list.drop_last()));
    }
    assert(named_facts_of(instrument_views(list)).dom() =~= named_of(list).dom());
}

/// Reads a file of instruments.
pub fn parse_catalog_csv(content: &str, numbers: &Numbers) -> (r: Result<
    InstrumentCatalog,
    FeedError,
>)
    ensures
        match r {
            Ok(catalog) => listed_of(content@, numbers@) matches Ok(list) && catalog@.dom()
                == named_facts_of(list).dom() && (forall|k: Seq<char>| #[trigger]
                catalog@.contains_key(k) ==> catalog@[k]@ == named_facts_of(list)[k]),
            Err(e) => listed_of(content@, numbers@) == Err::<Seq<InstrumentFacts>, FeedFault>(e@),
        },
{
    match parse_listed(content, numbers) {
        Ok(list) => {
            proof {
                named_agree(list@);
            }
            Ok(InstrumentCatalog::new(list))
        },
        Err(e) => Err(e),
    }
}

/// Calls and puts are options, and nothing else is.
pub proof fn calls_and_puts_are_options(kind: InstrumentType)
    ensures
        is_option_type(kind) <==> !(kind == InstrumentType::Spot || kind == InstrumentType::Fut || kind
            == InstrumentType::PerpFut),
{
}

} // verus!
