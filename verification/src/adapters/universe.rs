//! Which derivatives are traded around a price.
use crate::binary64::{copy_text, decimal_facts, text_facts, DecimalFacts, Real};
use crate::feeder::catalog::{
    csv_row_of, holds_type, instrument_type_of, instrument_views, is_option_type,
    parse_instrument_type,
    InstrumentDefinition, InstrumentFacts, InstrumentType, UNIVERSAL_INSTRUMENT_CSV_HEADER,
};
use crate::feeder::error::{FeedError, FeedFault};
use crate::order::{
    ascending_items, ascending_of, ascending_of_holds, filter_push, sort, sorted_of, sorting_keeps, sorting_orders, text_before, text_lt,
    text_order_is_total, text_order_is_transitive, Ranked, TextMap, TextSet,
};
use crate::text::{same, views};
use vstd::prelude::*;

verus! {

/// What is traded of an underlying around a price.
#[derive(Debug)]
pub struct UniverseSummary {
    pub selected_underlying: String,
    pub reference_symbol: String,
    pub reference_price: Real,
    pub spot_or_index_symbols: Vec<String>,
    pub futures: Vec<InstrumentDefinition>,
    pub atm_options: Vec<InstrumentDefinition>,
}

impl Clone for UniverseSummary {
    fn clone(&self) -> (r: UniverseSummary)
        ensures
            r.selected_underlying == self.selected_underlying,
            r.reference_symbol == self.reference_symbol,
            r.reference_price == self.reference_price,
            r.spot_or_index_symbols@ == self.spot_or_index_symbols@,
            r.futures@ == self.futures@,
            r.atm_options@ == self.atm_options@,
    {
        UniverseSummary {
            selected_underlying: self.selected_underlying.clone(),
            reference_symbol: self.reference_symbol.clone(),
            reference_price: self.reference_price,
            spot_or_index_symbols: same_texts(&self.spot_or_index_symbols),
            futures: same_instruments(&self.futures),
            atm_options: same_instruments(&self.atm_options),
        }
    }
}

fn same_texts(v: &Vec<String>) -> (r: Vec<String>)
    ensures
        r@ == v@,
{
    let mut out: Vec<String> = Vec::new();
    let mut i: usize = 0;
    while i < v.len()
        invariant
            i <= v@.len(),
            out@ == v@.take(i as int),
        decreases v@.len() - i,
    {
        out.push(v[i].clone());
        i += 1;
        assert(v@.take(i as int) =~= v@.take(i - 1).push(v@[i - 1]));
    }
    assert(v@.take(i as int) =~= v@);
    out
}

pub fn same_instruments(v: &Vec<InstrumentDefinition>) -> (r: Vec<InstrumentDefinition>)
    ensures
        r@ == v@,
{
    let mut out: Vec<InstrumentDefinition> = Vec::new();
    let mut i: usize = 0;
    while i < v.len()
        invariant
            i <= v@.len(),
            out@ == v@.take(i as int),
        decreases v@.len() - i,
    {
        out.push(v[i].clone());
        i += 1;
        assert(v@.take(i as int) =~= v@.take(i - 1).push(v@[i - 1]));
    }
    assert(v@.take(i as int) =~= v@);
    out
}

/// The strikes around a price: the least and the greatest that are traded, and how far
/// strikes are from the price, by the texts that they are written as. Under the empty text
/// stands the distance of an instrument without a strike; a strike that is not among them
/// counts as the farthest.
pub struct StrikeWindow {
    pub lower: Real,
    pub upper: Real,
    pub distances: TextMap<Real>,
}

impl StrikeWindow {
    /// Whether a strike is traded.
    pub open spec fn admits(&self, strike: Option<DecimalFacts>) -> bool {
        strike matches Some(s) && self.lower.le_of(s.value) && s.value.le_of(self.upper)
    }

    /// How far an instrument's strike is from the price.
    pub open spec fn distance_of(&self, instrument: InstrumentDefinition) -> Option<Real> {
        let text = match instrument.strike {
            Some(s) => s.text@,
            None => ""@,
        };
        if self.distances@.contains_key(text) {
            Some(self.distances@[text])
        } else {
            None
        }
    }

    pub fn has(&self, instrument: &InstrumentDefinition) -> (r: bool)
        ensures
            r == self.admits(instrument@.strike),
    {
        match &instrument.strike {
            Some(s) => self.lower.at_most(s.value) && s.value.at_most(self.upper),
            None => false,
        }
    }

    pub fn distance(&self, instrument: &InstrumentDefinition) -> (r: Option<Real>)
        ensures
            r == self.distance_of(*instrument),
    {
        let text = match &instrument.strike {
            Some(s) => s.text.as_str(),
            None => "",
        };
        match self.distances.get(text) {
            Some(d) => Some(*d),
            None => None,
        }
    }
}

/// An instrument with what it is ordered by: its expiry, the distance of its strike, its
/// expiry where that comes behind the distance, and last its symbol.
pub struct Placed {
    pub instrument: InstrumentDefinition,
    pub expiry: Option<String>,
    pub distance: Option<Real>,
    pub later: Option<String>,
}

/// Whether one of two texts that may be missing comes before the other. A missing one
/// comes first.
pub open spec fn option_before(a: Option<Seq<char>>, b: Option<Seq<char>>) -> bool {
    match (a, b) {
        (None, Some(_)) => true,
        (Some(x), Some(y)) => text_lt(x, y),
        _ => false,
    }
}

/// Whether one of two distances that may be missing comes before the other. A missing one
/// comes last.
pub open spec fn nearer(a: Option<Real>, b: Option<Real>) -> bool {
    match (a, b) {
        (Some(_), None) => true,
        (Some(x), Some(y)) => x.total_rank() < y.total_rank(),
        _ => false,
    }
}

proof fn option_order(a: Option<Seq<char>>, b: Option<Seq<char>>, c: Option<Seq<char>>)
    ensures
        option_before(a, b) || a == b || option_before(b, a),
        option_before(a, b) ==> a != b && !option_before(b, a),
        option_before(a, b) && option_before(b, c) ==> option_before(a, c),
{
    if a is Some && b is Some {
        text_order_is_total(a->0, b->0);
    }
    if a is Some && b is Some && c is Some && option_before(a, b) && option_before(b, c) {
        text_order_is_transitive(a->0, b->0, c->0);
    }
}

proof fn nearness_order(a: Option<Real>, b: Option<Real>)
    ensures
        nearer(a, b) || nearer(b, a) || same_distance(a, b),
{
}

spec fn same_distance(a: Option<Real>, b: Option<Real>) -> bool {
    match (a, b) {
        (None, None) => true,
        (Some(x), Some(y)) => x.total_rank() == y.total_rank(),
        _ => false,
    }
}

impl Placed {
    pub open spec fn expiry_text(&self) -> Option<Seq<char>> {
        text_facts(self.expiry)
    }

    pub open spec fn later_text(&self) -> Option<Seq<char>> {
        text_facts(self.later)
    }

    /// Whether two instruments are of the same expiry and the same distance.
    pub open spec fn level_with(&self, other: &Placed) -> bool {
        self.expiry_text() == other.expiry_text() && !nearer(self.distance, other.distance)
            && !nearer(other.distance, self.distance)
    }
}

fn earlier(a: &Option<String>, b: &Option<String>) -> (r: bool)
    ensures
        r == option_before(text_facts(*a), text_facts(*b)),
{
    match a {
        None => b.is_some(),
        Some(x) => match b {
            None => false,
            Some(y) => text_before(x.as_str(), y.as_str()),
        },
    }
}

pub fn is_nearer(a: Option<Real>, b: Option<Real>) -> (r: bool)
    ensures
        r == nearer(a, b),
{
    match a {
        None => false,
        Some(x) => match b {
            None => true,
            Some(y) => x.is_before_in_total_order(y),
        },
    }
}

impl Ranked for Placed {
    open spec fn ranks_before(&self, other: &Placed) -> bool {
        ||| option_before(self.expiry_text(), other.expiry_text())
        ||| self.expiry_text() == other.expiry_text() && nearer(self.distance, other.distance)
        ||| self.level_with(other) && option_before(self.later_text(), other.later_text())
        ||| self.level_with(other) && self.later_text() == other.later_text() && text_lt(
            self.instrument.trading_symbol@,
            other.instrument.trading_symbol@,
        )
    }

    proof fn rank_is_asymmetric(a: &Placed, b: &Placed) {
        option_order(a.expiry_text(), b.expiry_text(), a.expiry_text());
        option_order(b.expiry_text(), a.expiry_text(), b.expiry_text());
        option_order(a.later_text(), b.later_text(), a.later_text());
        option_order(b.later_text(), a.later_text(), b.later_text());
        text_order_is_total(a.instrument.trading_symbol@, b.instrument.trading_symbol@);
        text_order_is_total(b.instrument.trading_symbol@, a.instrument.trading_symbol@);
    }

    proof fn rank_is_transitive(a: &Placed, b: &Placed, c: &Placed) {
        let (ea, eb, ec) = (a.expiry_text(), b.expiry_text(), c.expiry_text());
        option_order(ea, eb, ec);
        option_order(eb, ec, ea);
        option_order(ec, ea, eb);
        option_order(ea, ec, eb);
        option_order(eb, ea, ec);
        option_order(ec, eb, ea);
        let (la, lb, lc) = (a.later_text(), b.later_text(), c.later_text());
        option_order(la, lb, lc);
        option_order(lb, lc, la);
        option_order(lc, la, lb);
        option_order(la, lc, lb);
        option_order(lb, la, lc);
        option_order(lc, lb, la);
        nearness_order(a.distance, b.distance);
        nearness_order(b.distance, c.distance);
        let (sa, sb, sc) = (
            a.instrument.trading_symbol@,
            b.instrument.trading_symbol@,
            c.instrument.trading_symbol@,
        );
        text_order_is_total(sa, sb);
        text_order_is_total(sb, sc);
        text_order_is_total(sa, sc);
        text_order_is_total(sb, sa);
        text_order_is_total(sc, sb);
        text_order_is_total(sc, sa);
        if text_lt(sa, sb) && text_lt(sb, sc) {
            text_order_is_transitive(sa, sb, sc);
        }
        if text_lt(sc, sa) && text_lt(sa, sb) {
            text_order_is_transitive(sc, sa, sb);
        }
        if text_lt(sb, sc) && text_lt(sc, sa) {
            text_order_is_transitive(sb, sc, sa);
        }
    }

    fn is_before(&self, other: &Placed) -> (r: bool) {
        proof {
            option_order(self.expiry_text(), other.expiry_text(), self.expiry_text());
            option_order(self.later_text(), other.later_text(), self.later_text());
        }
        if earlier(&self.expiry, &other.expiry) {
            true
        } else if earlier(&other.expiry, &self.expiry) {
            false
        } else if is_nearer(self.distance, other.distance) {
            true
        } else if is_nearer(other.distance, self.distance) {
            false
        } else if earlier(&self.later, &other.later) {
            true
        } else if earlier(&other.later, &self.later) {
            false
        } else {
            text_before(
                self.instrument.trading_symbol.as_str(),
                other.instrument.trading_symbol.as_str(),
            )
        }
    }
}

/// What instruments are ordered by.
#[derive(Clone, Copy, Debug, PartialEq, Eq, Structural)]
pub enum Order {
    /// By their symbols.
    Symbol,
    /// By their expiries, and then by their symbols.
    Expiry,
    /// By the distances of their strikes, and then by their symbols.
    Distance,
    /// By their expiries, then by the distances of their strikes, and then by their
    /// symbols.
    ExpiryAndDistance,
    /// By the distances of their strikes, then by their expiries, and then by their
    /// symbols.
    DistanceAndExpiry,
}

pub open spec fn placed_of(
    instrument: InstrumentDefinition,
    order: Order,
    window: StrikeWindow,
) -> Placed {
    Placed {
        instrument,
        expiry: if order == Order::Expiry || order == Order::ExpiryAndDistance {
            instrument.expiry
        } else {
            None
        },
        distance: if order == Order::Distance || order == Order::ExpiryAndDistance || order
            == Order::DistanceAndExpiry {
            window.distance_of(instrument)
        } else {
            None
        },
        later: if order == Order::DistanceAndExpiry {
            instrument.expiry
        } else {
            None
        },
    }
}

pub open spec fn placed_all(
    list: Seq<InstrumentDefinition>,
    order: Order,
    window: StrikeWindow,
) -> Seq<Placed> {
    Seq::new(list.len(), |i: int| placed_of(list[i], order, window))
}

pub open spec fn unplaced(list: Seq<Placed>) -> Seq<InstrumentDefinition> {
    Seq::new(list.len(), |i: int| list[i].instrument)
}

/// Instruments in an order.
pub open spec fn arranged_of(
    list: Seq<InstrumentDefinition>,
    order: Order,
    window: StrikeWindow,
) -> Seq<InstrumentDefinition> {
    unplaced(sorted_of(placed_all(list, order, window)))
}

/// Instruments in an order.
pub fn arrange(list: &Vec<InstrumentDefinition>, order: Order, window: &StrikeWindow) -> (r: Vec<
    InstrumentDefinition,
>)
    ensures
        r@ == arranged_of(list@, order, *window),
{
    let ghost all = placed_all(list@, order, *window);
    let mut items: Vec<Placed> = Vec::new();
    let mut i: usize = 0;
    while i < list.len()
        invariant
            i <= list@.len(),
            all == placed_all(list@, order, *window),
            items@ == all.take(i as int),
        decreases list@.len() - i,
    {
        let instrument = list[i].clone();
        let expiry = match order {
            Order::Expiry => copy_text(&list[i].expiry),
            Order::ExpiryAndDistance => copy_text(&list[i].expiry),
            _ => None,
        };
        let distance: Option<Real> = match order {
            Order::Distance => window.distance(&list[i]),
            Order::ExpiryAndDistance => window.distance(&list[i]),
            Order::DistanceAndExpiry => window.distance(&list[i]),
            _ => None,
        };
        let later = match order {
            Order::DistanceAndExpiry => copy_text(&list[i].expiry),
            _ => None,
        };
        items.push(Placed { instrument, expiry, distance, later });
        i += 1;
        assert(all.take(i as int) =~= all.take(i - 1).push(all[i - 1]));
    }
    assert(all.take(i as int) =~= all);
    let sorted = sort(items);
    let mut out: Vec<InstrumentDefinition> = Vec::new();
    let mut k: usize = 0;
    while k < sorted.len()
        invariant
            k <= sorted@.len(),
            out@ == unplaced(sorted@).take(k as int),
        decreases sorted@.len() - k,
    {
        out.push(sorted[k].instrument.clone());
        k += 1;
        assert(unplaced(sorted@).take(k as int) =~= unplaced(sorted@).take(k - 1).push(
            unplaced(sorted@)[k - 1],
        ));
    }
    assert(unplaced(sorted@).take(k as int) =~= unplaced(sorted@));
    out
}

/// The kinds of instruments that texts name, or what is wrong with the first that names
/// none.
pub open spec fn types_of(names: Seq<Seq<char>>) -> Result<Seq<InstrumentType>, FeedFault>
    decreases names.len(),
{
    if names.len() == 0 {
        Ok(Seq::empty())
    } else {
        match types_of(names.drop_last()) {
            Err(e) => Err(e),
            Ok(known) => match instrument_type_of(names.last()) {
                Err(e) => Err(e),
                Ok(kind) => Ok(known.push(kind)),
            },
        }
    }
}

proof fn types_fail(names: Seq<Seq<char>>, n: int)
    requires
        0 <= n <= names.len(),
        types_of(names.take(n)) is Err,
    ensures
        types_of(names) == types_of(names.take(n)),
    decreases names.len() - n,
{
    if n < names.len() {
        assert(names.take(n + 1).drop_last() =~= names.take(n));
        types_fail(names, n + 1);
    } else {
        assert(names.take(n) =~= names);
    }
}

/// The kinds of instruments that are chosen.
pub fn selection_types(names: &Vec<String>) -> (r: Result<Vec<InstrumentType>, FeedError>)
    ensures
        match r {
            Ok(types) => types_of(views(names@)) == Ok::<Seq<InstrumentType>, FeedFault>(types@),
            Err(e) => types_of(views(names@)) == Err::<Seq<InstrumentType>, FeedFault>(e@),
        },
{
    let ghost all = views(names@);
    let mut out: Vec<InstrumentType> = Vec::new();
    let mut i: usize = 0;
    assert(all.take(0) =~= Seq::empty());
    while i < names.len()
        invariant
            i <= names@.len(),
            all == views(names@),
            types_of(all.take(i as int)) == Ok::<Seq<InstrumentType>, FeedFault>(out@),
        decreases names@.len() - i,
    {
        assert(all.take(i + 1).drop_last() =~= all.take(i as int));
        assert(all.take(i + 1).last() == names@[i as int]@);
        match parse_instrument_type(names[i].as_str()) {
            Ok(kind) => out.push(kind),
            Err(e) => {
                proof {
                    types_fail(all, i + 1);
                }
                return Err(e);
            },
        }
        i += 1;
    }
    assert(all.take(i as int) =~= all);
    Ok(out)
}

/// Whether an instrument is an option, or else a future.
pub open spec fn is_of_sort(instrument: InstrumentDefinition, options: bool) -> bool {
    if options {
        is_option_type(instrument.instrument_type)
    } else {
        instrument.instrument_type == InstrumentType::Fut
    }
}

fn of_sort(instrument: &InstrumentDefinition, options: bool) -> (r: bool)
    ensures
        r == is_of_sort(*instrument, options),
{
    if options {
        instrument.instrument_type.is_option()
    } else {
        match instrument.instrument_type {
            InstrumentType::Fut => true,
            _ => false,
        }
    }
}

/// The expiries from a day on.
pub open spec fn expiries_of(
    list: Seq<InstrumentDefinition>,
    options: bool,
    today: Seq<char>,
) -> Set<Seq<char>>
    decreases list.len(),
{
    if list.len() == 0 {
        Set::empty()
    } else {
        let before = expiries_of(list.drop_last(), options, today);
        let last = list.last();
        if is_of_sort(last, options) && last.expiry is Some && !text_lt(last.expiry->0@, today) {
            before.insert(last.expiry->0@)
        } else {
            before
        }
    }
}

/// The first two of a list.
pub open spec fn first_two(s: Seq<Seq<char>>) -> Seq<Seq<char>> {
    if s.len() > 2 {
        s.take(2)
    } else {
        s
    }
}

/// The current expiry and the one after it, of futures or of options.
pub fn current_and_next_expiries(
    list: &Vec<InstrumentDefinition>,
    options: bool,
    today: &str,
) -> (r: Vec<String>)
    ensures
        views(r@) == first_two(ascending_of(expiries_of(list@, options, today@))),
{
    let mut set = TextSet::new();
    let mut i: usize = 0;
    assert(list@.take(0) =~= Seq::empty());
    while i < list.len()
        invariant
            i <= list@.len(),
            set@ == expiries_of(list@.take(i as int), options, today@),
        decreases list@.len() - i,
    {
        assert(list@.take(i + 1).drop_last() =~= list@.take(i as int));
        if of_sort(&list[i], options) {
            if let Some(expiry) = &list[i].expiry {
                if !text_before(expiry.as_str(), today) {
                    let _new = set.insert(expiry.clone());
                }
            }
        }
        i += 1;
    }
    assert(list@.take(i as int) =~= list@);
    let items = ascending_items(&set);
    let ghost all = views(items@);
    let mut out: Vec<String> = Vec::new();
    let mut k: usize = 0;
    while k < items.len() && k < 2
        invariant
            k <= items@.len(),
            k <= 2,
            all == views(items@),
            views(out@) == all.take(k as int),
        decreases items@.len() - k,
    {
        let ghost before = views(out@);
        out.push(items[k].clone());
        assert(views(out@) =~= before.push(all[k as int]));
        k += 1;
        assert(all.take(k as int) =~= before.push(all[k - 1]));
    }
    if items.len() > 2 {
        assert(views(out@) == first_two(all));
    } else {
        assert(all.take(k as int) =~= all);
    }
    out
}

/// Tells which futures, or which options, are traded: those of the chosen kinds that
/// expire on one of some days, and of options those whose strike is traded.
pub open spec fn choice(
    options: bool,
    types: Seq<InstrumentType>,
    expiries: Seq<Seq<char>>,
    window: StrikeWindow,
) -> spec_fn(InstrumentDefinition) -> bool {
    |instrument: InstrumentDefinition|
        {
            &&& is_of_sort(instrument, options)
            &&& types.contains(instrument.instrument_type)
            &&& instrument.expiry is Some && expiries.contains(instrument.expiry->0@)
            &&& options ==> window.admits(instrument@.strike)
        }
}

fn holds_expiry(expiries: &Vec<String>, expiry: &str) -> (r: bool)
    ensures
        r == views(expiries@).contains(expiry@),
{
    let mut i: usize = 0;
    while i < expiries.len()
        invariant
            i <= expiries@.len(),
            forall|k: int| 0 <= k < i ==> #[trigger] views(expiries@)[k] != expiry@,
        decreases expiries@.len() - i,
    {
        assert(views(expiries@)[i as int] == expiries@[i as int]@);
        if same(expiries[i].as_str(), expiry) {
            assert(views(expiries@).contains(expiry@));
            return true;
        }
        i += 1;
    }
    false
}

fn choose_instruments(
    list: &Vec<InstrumentDefinition>,
    options: bool,
    types: &Vec<InstrumentType>,
    expiries: &Vec<String>,
    window: &StrikeWindow,
) -> (r: Vec<InstrumentDefinition>)
    ensures
        r@ == list@.filter(choice(options, types@, views(expiries@), *window)),
{
    let ghost f = choice(options, types@, views(expiries@), *window);
    let mut out: Vec<InstrumentDefinition> = Vec::new();
    let mut i: usize = 0;
    assert(list@.take(0).filter(f) =~= Seq::empty()) by {
        reveal(Seq::filter);
    }
    while i < list.len()
        invariant
            i <= list@.len(),
            f == choice(options, types@, views(expiries@), *window),
            out@ == list@.take(i as int).filter(f),
        decreases list@.len() - i,
    {
        proof {
            filter_push(list@.take(i as int), list@[i as int], f);
            assert(list@.take(i + 1) =~= list@.take(i as int).push(list@[i as int]));
        }
        let item = &list[i];
        let expires = match &item.expiry {
            Some(expiry) => holds_expiry(expiries, expiry.as_str()),
            None => false,
        };
        if of_sort(item, options) && holds_type(types, item.instrument_type) && expires && (
        !options || window.has(item)) {
            out.push(item.clone());
        }
        i += 1;
    }
    assert(list@.take(i as int) =~= list@);
    out
}

/// What is traded of some derivatives of one underlying: of the chosen kinds, the futures
/// and the options that expire at the current date for them or the one after it, the
/// options only around the price.
pub open spec fn traded_of(
    list: Seq<InstrumentDefinition>,
    options: bool,
    types: Seq<InstrumentType>,
    window: StrikeWindow,
    today: Seq<char>,
) -> Seq<InstrumentDefinition> {
    arranged_of(
        list.filter(
            choice(
                options,
                types,
                first_two(ascending_of(expiries_of(list, options, today))),
                window,
            ),
        ),
        if options {
            Order::ExpiryAndDistance
        } else {
            Order::Expiry
        },
        window,
    )
}

/// What is traded of some derivatives of one underlying.
pub fn traded(
    list: &Vec<InstrumentDefinition>,
    options: bool,
    types: &Vec<InstrumentType>,
    window: &StrikeWindow,
    today: &str,
) -> (r: Vec<InstrumentDefinition>)
    ensures
        r@ == traded_of(list@, options, types@, *window, today@),
{
    let expiries = current_and_next_expiries(list, options, today);
    let chosen = choose_instruments(list, options, types, &expiries, window);
    if options {
        arrange(&chosen, Order::ExpiryAndDistance, window)
    } else {
        arrange(&chosen, Order::Expiry, window)
    }
}

/// The summary of an underlying whose derivatives are given, at a price.
pub open spec fn is_summary_of(
    summary: UniverseSummary,
    underlying: Seq<char>,
    reference_symbol: Seq<char>,
    reference_price: Real,
    futures: Seq<InstrumentDefinition>,
    options: Seq<InstrumentDefinition>,
) -> bool {
    &&& summary.selected_underlying@ == underlying
    &&& summary.reference_symbol@ == reference_symbol
    &&& summary.reference_price == reference_price
    &&& summary.spot_or_index_symbols@.len() == 0
    &&& summary.futures@ == futures
    &&& summary.atm_options@ == options
}

/// What a summary of derivatives has to be. Where there is none of an underlying, the
/// kinds that are chosen are not looked at.
pub open spec fn summary_outcome(
    r: Result<UniverseSummary, FeedError>,
    list: Seq<InstrumentDefinition>,
    known: bool,
    type_names: Seq<Seq<char>>,
    underlying: Seq<char>,
    reference_symbol: Seq<char>,
    reference_price: Real,
    window: StrikeWindow,
    today: Seq<char>,
) -> bool {
    if !known {
        r matches Ok(summary) && is_summary_of(
            summary,
            underlying,
            reference_symbol,
            reference_price,
            Seq::empty(),
            Seq::empty(),
        )
    } else {
        match types_of(type_names) {
            Err(fault) => r matches Err(e) && e@ == fault,
            Ok(types) => r matches Ok(summary) && is_summary_of(
                summary,
                underlying,
                reference_symbol,
                reference_price,
                traded_of(list, false, types, window, today),
                traded_of(list, true, types, window, today),
            ),
        }
    }
}

/// The summary of the derivatives of an underlying at a price. `known` tells whether there
/// are derivatives of it at all.
pub fn summarize(
    list: &Vec<InstrumentDefinition>,
    known: bool,
    type_names: &Vec<String>,
    underlying: &str,
    reference_symbol: &str,
    reference_price: Real,
    window: &StrikeWindow,
    today: &str,
) -> (r: Result<UniverseSummary, FeedError>)
    ensures
        summary_outcome(
            r,
            list@,
            known,
            views(type_names@),
            underlying@,
            reference_symbol@,
            reference_price,
            *window,
            today@,
        ),
{
    if !known {
        return Ok(
            UniverseSummary {
                selected_underlying: underlying.to_owned(),
                reference_symbol: reference_symbol.to_owned(),
                reference_price,
                spot_or_index_symbols: Vec::new(),
                futures: Vec::new(),
                atm_options: Vec::new(),
            },
        );
    }
    let types = match selection_types(type_names) {
        Ok(types) => types,
        Err(e) => return Err(e),
    };
    let futures = traded(list, false, &types, window, today);
    let atm_options = traded(list, true, &types, window, today);
    Ok(
        UniverseSummary {
            selected_underlying: underlying.to_owned(),
            reference_symbol: reference_symbol.to_owned(),
            reference_price,
            spot_or_index_symbols: Vec::new(),
            futures,
            atm_options,
        },
    )
}

/// The symbols of the instruments of a list that can be traded.
pub open spec fn tradable_symbols(list: Seq<InstrumentDefinition>) -> Set<Seq<char>>
    decreases list.len(),
{
    if list.len() == 0 {
        Set::empty()
    } else {
        let before = tradable_symbols(list.drop_last());
        if list.last().tradable {
            before.insert(list.last().trading_symbol@)
        } else {
            before
        }
    }
}

/// All that is traded of a summary.
pub open spec fn traded_in(summary: UniverseSummary) -> Seq<InstrumentDefinition> {
    summary.futures@ + summary.atm_options@
}

pub fn all_traded(summary: &UniverseSummary) -> (r: Vec<InstrumentDefinition>)
    ensures
        r@ == traded_in(*summary),
{
    let mut all = same_instruments(&summary.futures);
    let mut more = same_instruments(&summary.atm_options);
    all.append(&mut more);
    all
}

/// The symbols that a summary asks for.
pub fn selected_trading_symbols(summary: &UniverseSummary) -> (r: TextSet)
    ensures
        r@ == tradable_symbols(traded_in(*summary)),
{
    let all = all_traded(summary);
    let mut set = TextSet::new();
    let mut i: usize = 0;
    assert(all@.take(0) =~= Seq::empty());
    while i < all.len()
        invariant
            i <= all@.len(),
            set@ == tradable_symbols(all@.take(i as int)),
        decreases all@.len() - i,
    {
        assert(all@.take(i + 1).drop_last() =~= all@.take(i as int));
        if all[i].tradable {
            let _new = set.insert(all[i].trading_symbol.clone());
        }
        i += 1;
    }
    assert(all@.take(i as int) =~= all@);
    set
}

/// Tells which instruments have one of some symbols.
pub open spec fn has_symbol_of(symbols: Seq<Seq<char>>) -> spec_fn(InstrumentDefinition) -> bool {
    |instrument: InstrumentDefinition| symbols.contains(instrument.trading_symbol@)
}

/// The instruments of a summary that have one of some symbols.
pub fn selected_instruments_for_symbols(summary: &UniverseSummary, symbols: &Vec<String>) -> (r:
    Vec<InstrumentDefinition>)
    ensures
        r@ == traded_in(*summary).filter(has_symbol_of(views(symbols@))),
{
    let all = all_traded(summary);
    let ghost f = has_symbol_of(views(symbols@));
    let mut out: Vec<InstrumentDefinition> = Vec::new();
    let mut i: usize = 0;
    assert(all@.take(0).filter(f) =~= Seq::empty()) by {
        reveal(Seq::filter);
    }
    while i < all.len()
        invariant
            i <= all@.len(),
            f == has_symbol_of(views(symbols@)),
            out@ == all@.take(i as int).filter(f),
        decreases all@.len() - i,
    {
        proof {
            filter_push(all@.take(i as int), all@[i as int], f);
            assert(all@.take(i + 1) =~= all@.take(i as int).push(all@[i as int]));
        }
        if holds_expiry(symbols, all[i].trading_symbol.as_str()) {
            out.push(all[i].clone());
        }
        i += 1;
    }
    assert(all@.take(i as int) =~= all@);
    out
}

/// The rows of the instruments of a list that can be traded.
pub open spec fn tradable_rows(list: Seq<InstrumentDefinition>) -> Set<Seq<char>>
    decreases list.len(),
{
    if list.len() == 0 {
        Set::empty()
    } else {
        let before = tradable_rows(list.drop_last());
        if list.last().tradable {
            before.insert(csv_row_of(list.last()@))
        } else {
            before
        }
    }
}

/// The rows of all that is traded of some summaries.
pub open spec fn summary_rows(summaries: Seq<UniverseSummary>) -> Set<Seq<char>>
    decreases summaries.len(),
{
    if summaries.len() == 0 {
        Set::empty()
    } else {
        summary_rows(summaries.drop_last()) + tradable_rows(traded_in(summaries.last()))
    }
}

/// Lines, each with an end.
pub open spec fn ended_lines(lines: Seq<Seq<char>>) -> Seq<char>
    decreases lines.len(),
{
    if lines.len() == 0 {
        Seq::empty()
    } else {
        ended_lines(lines.drop_last()) + lines.last() + "\n"@
    }
}

/// What the file of derivatives holds: its columns, and behind them each row once, in
/// ascending order.
pub open spec fn derivatives_file_of(summaries: Seq<UniverseSummary>) -> Seq<char> {
    UNIVERSAL_INSTRUMENT_CSV_HEADER@ + "\n"@ + ended_lines(ascending_of(summary_rows(summaries)))
}

/// What the file of derivatives holds.
pub fn derivatives_csv(summaries: &Vec<UniverseSummary>) -> (r: String)
    ensures
        r@ == derivatives_file_of(summaries@),
{
    let mut rows = TextSet::new();
    let mut i: usize = 0;
    assert(summaries@.take(0) =~= Seq::empty());
    while i < summaries.len()
        invariant
            i <= summaries@.len(),
            rows@ == summary_rows(summaries@.take(i as int)),
        decreases summaries@.len() - i,
    {
        let all = all_traded(&summaries[i]);
        let ghost before = rows@;
        let mut k: usize = 0;
        assert(all@.take(0) =~= Seq::empty());
        assert(before + Set::<Seq<char>>::empty() =~= before);
        while k < all.len()
            invariant
                k <= all@.len(),
                rows@ == before + tradable_rows(all@.take(k as int)),
            decreases all@.len() - k,
        {
            assert(all@.take(k + 1).drop_last() =~= all@.take(k as int));
            if all[k].tradable {
                let row = all[k].to_csv_row();
                let ghost text = row@;
                let _new = rows.insert(row);
                assert((before + tradable_rows(all@.take(k as int))).insert(text) =~= before
                    + tradable_rows(all@.take(k as int)).insert(text));
            }
            k += 1;
        }
        assert(all@.take(k as int) =~= all@);
        i += 1;
        assert(summaries@.take(i as int).drop_last() =~= summaries@.take(i - 1));
    }
    assert(summaries@.take(i as int) =~= summaries@);
    let items = ascending_items(&rows);
    let ghost lines = views(items@);
    let mut out = UNIVERSAL_INSTRUMENT_CSV_HEADER.to_owned();
    out.append("\n");
    let ghost head = out@;
    let mut k: usize = 0;
    assert(lines.take(0) =~= Seq::empty());
    assert(head + Seq::<char>::empty() =~= head);
    while k < items.len()
        invariant
            k <= items@.len(),
            lines == views(items@),
            out@ == head + ended_lines(lines.take(k as int)),
        decreases items@.len() - k,
    {
        assert(lines.take(k + 1).drop_last() =~= lines.take(k as int));
        assert(lines.take(k + 1).last() == items@[k as int]@);
        out.append(items[k].as_str());
        out.append("\n");
        assert(out@ =~= head + ended_lines(lines.take(k + 1)));
        k += 1;
    }
    assert(lines.take(k as int) =~= lines);
    out
}

/// Everything that a summary trades comes from the derivatives it was made of, is of a
/// chosen kind, expires on one of the two soonest days from today on, and of options has a
/// strike that is traded. What expires sooner comes first, of options with the same expiry
/// the one whose strike is nearer, and of what is tied the one whose symbol comes first.
pub proof fn traded_is_chosen(
    list: Seq<InstrumentDefinition>,
    options: bool,
    types: Seq<InstrumentType>,
    window: StrikeWindow,
    today: Seq<char>,
    i: int,
)
    requires
        0 <= i < traded_of(list, options, types, window, today).len(),
    ensures
        ({
            let all = traded_of(list, options, types, window, today);
            let instrument = all[i];
            &&& list.contains(instrument)
            &&& is_of_sort(instrument, options)
            &&& types.contains(instrument.instrument_type)
            &&& instrument.expiry is Some
            &&& !text_lt(instrument.expiry->0@, today)
            &&& first_two(ascending_of(expiries_of(list, options, today))).contains(
                instrument.expiry->0@,
            )
            &&& options ==> window.admits(instrument@.strike)
            &&& forall|j: int|
                i < j < all.len() ==> stands_ahead(instrument, #[trigger] all[j], options, window)
        }),
{
    let expiries = first_two(ascending_of(expiries_of(list, options, today)));
    let f = choice(options, types, expiries, window);
    let chosen = list.filter(f);
    let order = if options {
        Order::ExpiryAndDistance
    } else {
        Order::Expiry
    };
    let all = traded_of(list, options, types, window, today);
    let items = placed_all(chosen, order, window);
    let sorted = sorted_of(items);
    sorting_orders(items);
    let k = sorted_is_placed(chosen, order, window, i);
    chosen_comes_from(list, f, k);
    expiry_is_from_today_on(list, options, today, all[i].expiry->0@);
    assert forall|j: int| i < j < all.len() implies stands_ahead(
        all[i],
        #[trigger] all[j],
        options,
        window,
    ) by {
        let m = sorted_is_placed(chosen, order, window, j);
        chosen_comes_from(list, f, m);
        assert(!sorted[j].ranks_before(&sorted[i]));
        let (a, b) = (all[i].expiry->0@, all[j].expiry->0@);
        text_order_is_total(a, b);
        text_order_is_total(all[i].trading_symbol@, all[j].trading_symbol@);
    }
}

/// Whether one derivative may stand ahead of another: it expires sooner, or on the same day
/// and of options nearer, or is tied with it and its symbol does not come behind.
pub open spec fn stands_ahead(
    a: InstrumentDefinition,
    b: InstrumentDefinition,
    options: bool,
    window: StrikeWindow,
) -> bool {
    ||| text_lt(a.expiry->0@, b.expiry->0@)
    ||| a.expiry->0@ == b.expiry->0@ && options && nearer(
        window.distance_of(a),
        window.distance_of(b),
    )
    ||| {
        &&& a.expiry->0@ == b.expiry->0@
        &&& options ==> !nearer(window.distance_of(b), window.distance_of(a))
        &&& !text_lt(b.trading_symbol@, a.trading_symbol@)
    }
}

proof fn sorted_is_placed(
    chosen: Seq<InstrumentDefinition>,
    order: Order,
    window: StrikeWindow,
    i: int,
) -> (k: int)
    requires
        0 <= i < arranged_of(chosen, order, window).len(),
    ensures
        0 <= k < chosen.len(),
        arranged_of(chosen, order, window)[i] == chosen[k],
        sorted_of(placed_all(chosen, order, window))[i] == placed_of(chosen[k], order, window),
{
    let items = placed_all(chosen, order, window);
    sorting_orders(items);
    let item = sorted_of(items)[i];
    assert(items.contains(item)) by {
        broadcast use vstd::seq_lib::group_to_multiset_ensures;

        assert(sorted_of(items).contains(item));
        assert(sorted_of(items).to_multiset().count(item) > 0);
    }
    choose|k: int| 0 <= k < items.len() && items[k] == item
}

proof fn expiry_is_from_today_on(
    list: Seq<InstrumentDefinition>,
    options: bool,
    today: Seq<char>,
    expiry: Seq<char>,
)
    requires
        first_two(ascending_of(expiries_of(list, options, today))).contains(expiry),
    ensures
        !text_lt(expiry, today),
{
    let set = expiries_of(list, options, today);
    expiries_are_from_today_on(list, options, today);
    ascending_of_holds(set);
    let all = ascending_of(set);
    let k = first_two(all).index_of(expiry);
    assert(all[k] == expiry);
    assert(all.to_set().contains(expiry));
}

proof fn expiries_are_from_today_on(
    list: Seq<InstrumentDefinition>,
    options: bool,
    today: Seq<char>,
)
    ensures
        expiries_of(list, options, today).finite(),
        forall|x: Seq<char>| #[trigger]
            expiries_of(list, options, today).contains(x) ==> !text_lt(x, today),
    decreases list.len(),
{
    if list.len() > 0 {
        expiries_are_from_today_on(list.drop_last(), options, today);
    }
}

proof fn chosen_comes_from(
    list: Seq<InstrumentDefinition>,
    f: spec_fn(InstrumentDefinition) -> bool,
    i: int,
)
    requires
        0 <= i < list.filter(f).len(),
    ensures
        f(list.filter(f)[i]),
        list.contains(list.filter(f)[i]),
    decreases list.len(),
{
    reveal(Seq::filter);
    if list.len() > 0 {
        let d = list.drop_last();
        if i < d.filter(f).len() {
            chosen_comes_from(d, f, i);
            let k = d.index_of(d.filter(f)[i]);
            assert(list[k] == d.filter(f)[i]);
        } else {
            assert(list[list.len() - 1] == list.filter(f)[i]);
        }
    }
}

/// Tells which derivatives are of an underlying.
pub open spec fn of_underlying(underlying: Seq<char>) -> spec_fn(InstrumentDefinition) -> bool {
    |i: InstrumentDefinition| i.underlying@ == underlying
}

/// The derivatives of an underlying.
pub fn derivatives_of(list: &Vec<InstrumentDefinition>, underlying: &str) -> (r: Vec<
    InstrumentDefinition,
>)
    ensures
        r@ == list@.filter(of_underlying(underlying@)),
{
    let ghost f = of_underlying(underlying@);
    let mut out: Vec<InstrumentDefinition> = Vec::new();
    let mut i: usize = 0;
    assert(list@.take(0).filter(f) =~= Seq::empty()) by {
        reveal(Seq::filter);
    }
    while i < list.len()
        invariant
            i <= list@.len(),
            f == of_underlying(underlying@),
            out@ == list@.take(i as int).filter(f),
        decreases list@.len() - i,
    {
        proof {
            filter_push(list@.take(i as int), list@[i as int], f);
            assert(list@.take(i + 1) =~= list@.take(i as int).push(list@[i as int]));
        }
        if same(list[i].underlying.as_str(), underlying) {
            out.push(list[i].clone());
        }
        i += 1;
    }
    assert(list@.take(i as int) =~= list@);
    out
}

/// Tells which instruments are options whose strike is traded.
pub open spec fn option_within(window: StrikeWindow) -> spec_fn(InstrumentDefinition) -> bool {
    |i: InstrumentDefinition|
        is_option_type(i.instrument_type) && window.admits(decimal_facts(i.strike))
}

pub fn options_among(list: &Vec<InstrumentDefinition>, window: &StrikeWindow) -> (r: Vec<
    InstrumentDefinition,
>)
    ensures
        r@ == list@.filter(option_within(*window)),
{
    let ghost f = option_within(*window);
    let mut out: Vec<InstrumentDefinition> = Vec::new();
    let mut i: usize = 0;
    assert(list@.take(0).filter(f) =~= Seq::empty()) by {
        reveal(Seq::filter);
    }
    while i < list.len()
        invariant
            i <= list@.len(),
            f == option_within(*window),
            out@ == list@.take(i as int).filter(f),
        decreases list@.len() - i,
    {
        proof {
            filter_push(list@.take(i as int), list@[i as int], f);
            assert(list@.take(i + 1) =~= list@.take(i as int).push(list@[i as int]));
        }
        if list[i].instrument_type.is_option() && window.has(&list[i]) {
            out.push(list[i].clone());
        }
        i += 1;
    }
    assert(list@.take(i as int) =~= list@);
    out
}

/// The symbols of the instruments of a list that are not derivatives.
pub open spec fn spots_in(list: Seq<InstrumentFacts>) -> Set<Seq<char>>
    decreases list.len(),
{
    if list.len() == 0 {
        Set::empty()
    } else {
        let before = spots_in(list.drop_last());
        if list.last().instrument_type == InstrumentType::Spot {
            before.insert(list.last().trading_symbol)
        } else {
            before
        }
    }
}

/// The symbols that the summary of instruments names as its references.
pub open spec fn references_in(list: Seq<InstrumentFacts>, reference_symbol: Seq<char>) -> Set<
    Seq<char>,
> {
    if spots_in(list) == Set::<Seq<char>>::empty() {
        set![reference_symbol]
    } else {
        spots_in(list)
    }
}

/// The symbols that the summary of instruments names as its references.
pub fn references(list: &Vec<InstrumentDefinition>, reference_symbol: &str) -> (r: TextSet)
    ensures
        r@ == references_in(instrument_views(list@), reference_symbol@),
{
    let ghost all = instrument_views(list@);
    let mut spots = TextSet::new();
    let mut i: usize = 0;
    assert(all.take(0) =~= Seq::empty());
    while i < list.len()
        invariant
            i <= list@.len(),
            all == instrument_views(list@),
            spots@ == spots_in(all.take(i as int)),
        decreases list@.len() - i,
    {
        assert(all.take(i + 1).drop_last() =~= all.take(i as int));
        assert(all.take(i + 1).last() == list@[i as int]@);
        if !list[i].is_derivative() {
            let _new = spots.insert(list[i].trading_symbol.clone());
        }
        i += 1;
    }
    assert(all.take(i as int) =~= all);
    if spots.is_empty() {
        let _new = spots.insert(reference_symbol.to_owned());
        assert(spots@ =~= set![reference_symbol@]);
    }
    spots
}

proof fn filter_has(list: Seq<InstrumentDefinition>, f: spec_fn(InstrumentDefinition) -> bool, k: int)
    requires
        0 <= k < list.len(),
        f(list[k]),
    ensures
        list.filter(f).contains(list[k]),
    decreases list.len(),
{
    let d = list.drop_last();
    filter_push(d, list.last(), f);
    assert(list =~= d.push(list.last()));
    if k < d.len() {
        filter_has(d, f, k);
        let m = choose|m: int| 0 <= m < d.filter(f).len() && d.filter(f)[m] == d[k];
        assert(list.filter(f)[m] == list[k]);
    } else {
        assert(list.filter(f)[d.filter(f).len() as int] == list[k]);
    }
}

/// Every derivative that fits is traded: one of the chosen kinds that expires on one of the two
/// soonest days, an option only where its strike is no less than the least and no greater than
/// the greatest that are traded.
pub proof fn all_that_fits_is_traded(
    list: Seq<InstrumentDefinition>,
    options: bool,
    types: Seq<InstrumentType>,
    window: StrikeWindow,
    today: Seq<char>,
    k: int,
)
    requires
        0 <= k < list.len(),
        types.contains(list[k].instrument_type),
        if options {
            list[k].instrument_type == InstrumentType::Call || list[k].instrument_type
                == InstrumentType::Put
        } else {
            list[k].instrument_type == InstrumentType::Fut
        },
        list[k].expiry is Some,
        first_two(ascending_of(expiries_of(list, options, today))).contains(list[k].expiry->0@),
        options ==> {
            &&& list[k].strike is Some
            &&& !list[k].strike->0.value.is_nan()
            &&& !window.lower.is_nan()
            &&& !window.upper.is_nan()
            &&& window.lower.rank() <= list[k].strike->0.value.rank() <= window.upper.rank()
        },
    ensures
        traded_of(list, options, types, window, today).contains(list[k]),
{
    let f = choice(
        options,
        types,
        first_two(ascending_of(expiries_of(list, options, today))),
        window,
    );
    let chosen = list.filter(f);
    let order = if options {
        Order::ExpiryAndDistance
    } else {
        Order::Expiry
    };
    let items = placed_all(chosen, order, window);
    let sorted = sorted_of(items);
    assert(f(list[k]));
    filter_has(list, f, k);
    let m = choose|m: int| 0 <= m < chosen.len() && chosen[m] == list[k];
    sorting_orders(items);
    assert(sorted.contains(items[m])) by {
        broadcast use vstd::seq_lib::group_to_multiset_ensures;

        assert(items.contains(items[m]));
        assert(items.to_multiset().count(items[m]) > 0);
    }
    let j = choose|j: int| 0 <= j < sorted.len() && sorted[j] == items[m];
    assert(traded_of(list, options, types, window, today)[j] == list[k]);
}

/// What a summary trades is what it is for: its futures are futures and its options options, of
/// the kinds that are chosen, none of them expires before today, and the strike of an option is
/// no less than the least and no greater than the greatest that are traded.
pub proof fn summary_is_within_its_bounds(
    r: Result<UniverseSummary, FeedError>,
    list: Seq<InstrumentDefinition>,
    known: bool,
    type_names: Seq<Seq<char>>,
    underlying: Seq<char>,
    reference_symbol: Seq<char>,
    reference_price: Real,
    window: StrikeWindow,
    today: Seq<char>,
)
    requires
        summary_outcome(
            r,
            list,
            known,
            type_names,
            underlying,
            reference_symbol,
            reference_price,
            window,
            today,
        ),
    ensures
        !known ==> r is Ok,
        r matches Ok(summary) ==> {
            &&& summary.selected_underlying@ == underlying
            &&& summary.reference_symbol@ == reference_symbol
            &&& summary.reference_price == reference_price
            &&& !known ==> summary.futures@.len() == 0 && summary.atm_options@.len() == 0
            &&& forall|i: int|
                0 <= i < summary.futures@.len() ==> {
                    let one = #[trigger] summary.futures@[i];
                    &&& list.contains(one)
                    &&& one.instrument_type == InstrumentType::Fut
                    &&& one.expiry matches Some(expiry) && !text_lt(expiry@, today)
                }
            &&& forall|i: int|
                0 <= i < summary.atm_options@.len() ==> {
                    let one = #[trigger] summary.atm_options@[i];
                    &&& list.contains(one)
                    &&& one.instrument_type == InstrumentType::Call || one.instrument_type
                        == InstrumentType::Put
                    &&& one.expiry matches Some(expiry) && !text_lt(expiry@, today)
                    &&& one.strike matches Some(strike) && {
                        &&& !strike.value.is_nan()
                        &&& !window.lower.is_nan()
                        &&& !window.upper.is_nan()
                        &&& window.lower.rank() <= strike.value.rank() <= window.upper.rank()
                    }
                }
        },
{
    if let Ok(summary) = r {
        if known {
            let types = types_of(type_names)->Ok_0;
            assert forall|i: int| 0 <= i < summary.futures@.len() implies {
                let one = #[trigger] summary.futures@[i];
                &&& list.contains(one)
                &&& one.instrument_type == InstrumentType::Fut
                &&& one.expiry matches Some(expiry) && !text_lt(expiry@, today)
            } by {
                traded_is_chosen(list, false, types, window, today, i);
            }
            assert forall|i: int| 0 <= i < summary.atm_options@.len() implies {
                let one = #[trigger] summary.atm_options@[i];
                &&& list.contains(one)
                &&& one.instrument_type == InstrumentType::Call || one.instrument_type
                    == InstrumentType::Put
                &&& one.expiry matches Some(expiry) && !text_lt(expiry@, today)
                &&& one.strike matches Some(strike) && {
                    &&& !strike.value.is_nan()
                    &&& !window.lower.is_nan()
                    &&& !window.upper.is_nan()
                    &&& window.lower.rank() <= strike.value.rank() <= window.upper.rank()
                }
            } by {
                traded_is_chosen(list, true, types, window, today, i);
            }
        }
    }
}

/// The expiries that are looked at are those of the futures, or of the options, that do not
/// expire before today.
pub proof fn expiries_are_of_what_can_be_traded(
    list: Seq<InstrumentDefinition>,
    options: bool,
    today: Seq<char>,
    expiry: Seq<char>,
)
    ensures
        expiries_of(list, options, today).contains(expiry) <==> !text_lt(expiry, today) && exists|
            i: int,
        |
            0 <= i < list.len() && {
                let one = #[trigger] list[i];
                &&& one.expiry is Some
                &&& one.expiry->0@ == expiry
                &&& if options {
                    one.instrument_type == InstrumentType::Call || one.instrument_type
                        == InstrumentType::Put
                } else {
                    one.instrument_type == InstrumentType::Fut
                }
            },
    decreases list.len(),
{
    if list.len() > 0 {
        let d = list.drop_last();
        expiries_are_of_what_can_be_traded(d, options, today, expiry);
        assert(list[list.len() - 1] == list.last());
        assert forall|i: int|
            #![trigger d[i]]
            #![trigger list[i]]
            0 <= i < d.len() implies d[i] == list[i] by {}
        if expiries_of(d, options, today).contains(expiry) {
            let i = choose|i: int|
                0 <= i < d.len() && {
                    let one = #[trigger] d[i];
                    &&& one.expiry is Some
                    &&& one.expiry->0@ == expiry
                    &&& if options {
                        one.instrument_type == InstrumentType::Call || one.instrument_type
                            == InstrumentType::Put
                    } else {
                        one.instrument_type == InstrumentType::Fut
                    }
                };
            assert(list[i] == d[i]);
        }
    }
}

/// The expiries that are traded are the current one and the next: no other that is looked at is
/// sooner than one of them, and there are two of them where there are two to look at.
pub proof fn traded_expiries_are_the_soonest(
    list: Seq<InstrumentDefinition>,
    options: bool,
    today: Seq<char>,
)
    ensures
        ({
            let all = expiries_of(list, options, today);
            let chosen = first_two(ascending_of(all));
            &&& chosen.len() == if all.len() < 2 {
                all.len()
            } else {
                2
            }
            &&& forall|i: int| 0 <= i < chosen.len() ==> all.contains(#[trigger] chosen[i])
            &&& chosen.len() == 2 ==> text_lt(chosen[0], chosen[1])
            &&& forall|x: Seq<char>, i: int|
                all.contains(x) && !chosen.contains(x) && 0 <= i < chosen.len() ==> #[trigger]
                    text_lt(chosen[i], x)
        }),
{
    let all = expiries_of(list, options, today);
    expiries_are_from_today_on(list, options, today);
    ascending_of_holds(all);
    let s = ascending_of(all);
    let chosen = first_two(s);
    crate::order::ascending_is_distinct(s);
    s.unique_seq_to_set();
    assert forall|i: int| 0 <= i < chosen.len() implies all.contains(#[trigger] chosen[i]) by {
        assert(s[i] == chosen[i]);
        assert(s.to_set().contains(s[i]));
    }
    assert forall|x: Seq<char>, i: int|
        all.contains(x) && !chosen.contains(x) && 0 <= i < chosen.len() implies #[trigger] text_lt(
        chosen[i],
        x,
    ) by {
        assert(s.to_set().contains(x));
        let k = s.index_of(x);
        assert(s[k] == x);
        if k < chosen.len() {
            assert(chosen[k] == x);
        }
        assert(text_lt(s[i], s[k]));
    }
}

/// The symbols that a summary asks for are those of what it trades and can be traded, and of
/// nothing else.
pub proof fn asked_symbols_can_be_traded(list: Seq<InstrumentDefinition>, symbol: Seq<char>)
    ensures
        tradable_symbols(list).contains(symbol) <==> exists|i: int|
            0 <= i < list.len() && (#[trigger] list[i]).trading_symbol@ == symbol
                && list[i].tradable,
    decreases list.len(),
{
    if list.len() > 0 {
        let d = list.drop_last();
        asked_symbols_can_be_traded(d, symbol);
        assert(list[list.len() - 1] == list.last());
        assert forall|i: int|
            #![trigger d[i]]
            #![trigger list[i]]
            0 <= i < d.len() implies d[i] == list[i] by {}
        if tradable_symbols(d).contains(symbol) {
            let i = choose|i: int|
                0 <= i < d.len() && (#[trigger] d[i]).trading_symbol@ == symbol && d[i].tradable;
            assert(list[i] == d[i]);
        }
    }
}

/// The rows of the file of derivatives are those of all that some summaries trade and that can
/// be traded, and no others.
pub proof fn file_rows_are_of_what_is_traded(summaries: Seq<UniverseSummary>, row: Seq<char>)
    ensures
        summary_rows(summaries).contains(row) <==> exists|i: int, k: int|
            {
                &&& 0 <= i < summaries.len()
                &&& 0 <= k < (#[trigger] summaries[i]).futures@.len()
                    + summaries[i].atm_options@.len()
                &&& (#[trigger] (summaries[i].futures@ + summaries[i].atm_options@)[k]).tradable
                &&& csv_row_of((summaries[i].futures@ + summaries[i].atm_options@)[k]@) == row
            },
    decreases summaries.len(),
{
    if summaries.len() > 0 {
        let d = summaries.drop_last();
        let n = summaries.len() - 1;
        file_rows_are_of_what_is_traded(d, row);
        let last = summaries.last();
        assert(summaries[n] == last);
        let all = last.futures@ + last.atm_options@;
        rows_are_of_what_can_be_traded(all, row);
        assert forall|i: int| 0 <= i < d.len() implies #[trigger] d[i] == summaries[i] by {}
        if summary_rows(d).contains(row) {
            let (i, k) = choose|i: int, k: int|
                {
                    &&& 0 <= i < d.len()
                    &&& 0 <= k < (#[trigger] d[i]).futures@.len() + d[i].atm_options@.len()
                    &&& (#[trigger] (d[i].futures@ + d[i].atm_options@)[k]).tradable
                    &&& csv_row_of((d[i].futures@ + d[i].atm_options@)[k]@) == row
                };
            assert(d[i] == summaries[i]);
            assert((summaries[i].futures@ + summaries[i].atm_options@)[k].tradable);
        }
        if tradable_rows(all).contains(row) {
            let k = choose|k: int|
                0 <= k < all.len() && (#[trigger] all[k]).tradable && csv_row_of(all[k]@) == row;
            assert((summaries[n].futures@ + summaries[n].atm_options@)[k].tradable);
        }
        assert forall|i: int, k: int|
            {
                &&& 0 <= i < summaries.len()
                &&& 0 <= k < (#[trigger] summaries[i]).futures@.len()
                    + summaries[i].atm_options@.len()
                &&& (#[trigger] (summaries[i].futures@ + summaries[i].atm_options@)[k]).tradable
                &&& csv_row_of((summaries[i].futures@ + summaries[i].atm_options@)[k]@) == row
            } implies summary_rows(summaries).contains(row) by {
            if i < n {
                assert(d[i] == summaries[i]);
                assert((d[i].futures@ + d[i].atm_options@)[k].tradable);
            } else {
                assert(all[k].tradable);
            }
        }
    }
}

proof fn rows_are_of_what_can_be_traded(list: Seq<InstrumentDefinition>, row: Seq<char>)
    ensures
        tradable_rows(list).contains(row) <==> exists|k: int|
            0 <= k < list.len() && (#[trigger] list[k]).tradable && csv_row_of(list[k]@) == row,
    decreases list.len(),
{
    if list.len() > 0 {
        let d = list.drop_last();
        rows_are_of_what_can_be_traded(d, row);
        assert(list[list.len() - 1] == list.last());
        assert forall|i: int|
            #![trigger d[i]]
            #![trigger list[i]]
            0 <= i < d.len() implies d[i] == list[i] by {}
        if tradable_rows(d).contains(row) {
            let k = choose|k: int|
                0 <= k < d.len() && (#[trigger] d[k]).tradable && csv_row_of(d[k]@) == row;
            assert(list[k] == d[k]);
        }
    }
}

/// The symbols that are named as references are those of the instruments that are no
/// derivatives, or else the given one.
pub proof fn references_are_no_derivatives(
    list: Seq<InstrumentFacts>,
    reference_symbol: Seq<char>,
    symbol: Seq<char>,
)
    ensures
        (exists|i: int|
            0 <= i < list.len() && (#[trigger] list[i]).instrument_type == InstrumentType::Spot)
            ==> (references_in(list, reference_symbol).contains(symbol) <==> exists|i: int|
            0 <= i < list.len() && (#[trigger] list[i]).instrument_type == InstrumentType::Spot
                && list[i].trading_symbol == symbol),
        (forall|i: int|
            0 <= i < list.len() ==> (#[trigger] list[i]).instrument_type != InstrumentType::Spot)
            ==> (references_in(list, reference_symbol).contains(symbol) <==> symbol
            == reference_symbol),
{
    spots_are_no_derivatives(list, symbol);
    if exists|i: int|
        0 <= i < list.len() && (#[trigger] list[i]).instrument_type == InstrumentType::Spot {
        let i = choose|i: int|
            0 <= i < list.len() && (#[trigger] list[i]).instrument_type == InstrumentType::Spot;
        spots_are_no_derivatives(list, list[i].trading_symbol);
        assert(spots_in(list).contains(list[i].trading_symbol));
    } else {
        assert forall|x: Seq<char>| !spots_in(list).contains(x) by {
            spots_are_no_derivatives(list, x);
        }
        assert(spots_in(list) =~= Set::<Seq<char>>::empty());
    }
}

proof fn spots_are_no_derivatives(list: Seq<InstrumentFacts>, symbol: Seq<char>)
    ensures
        spots_in(list).contains(symbol) <==> exists|i: int|
            0 <= i < list.len() && (#[trigger] list[i]).instrument_type == InstrumentType::Spot
                && list[i].trading_symbol == symbol,
    decreases list.len(),
{
    if list.len() > 0 {
        let d = list.drop_last();
        spots_are_no_derivatives(d, symbol);
        assert(list[list.len() - 1] == list.last());
        assert forall|i: int|
            #![trigger d[i]]
            #![trigger list[i]]
            0 <= i < d.len() implies d[i] == list[i] by {}
        if spots_in(d).contains(symbol) {
            let i = choose|i: int|
                0 <= i < d.len() && (#[trigger] d[i]).instrument_type == InstrumentType::Spot
                    && d[i].trading_symbol == symbol;
            assert(list[i] == d[i]);
        }
    }
}

/// To put instruments in an order loses none and adds none.
pub proof fn arranged_are_the_same(
    list: Seq<InstrumentDefinition>,
    order: Order,
    window: StrikeWindow,
    instrument: InstrumentDefinition,
)
    ensures
        arranged_of(list, order, window).len() == list.len(),
        arranged_of(list, order, window).contains(instrument) <==> list.contains(instrument),
{
    let items = placed_all(list, order, window);
    let sorted = sorted_of(items);
    let all = arranged_of(list, order, window);
    sorting_orders(items);
    if all.contains(instrument) {
        let i = choose|i: int| 0 <= i < all.len() && all[i] == instrument;
        sorting_keeps(items, i);
        let k = choose|k: int| 0 <= k < items.len() && items[k] == sorted[i];
        assert(list[k] == instrument);
    }
    if list.contains(instrument) {
        let k = choose|k: int| 0 <= k < list.len() && list[k] == instrument;
        assert(sorted.contains(items[k])) by {
            broadcast use vstd::seq_lib::group_to_multiset_ensures;

            assert(items.contains(items[k]));
            assert(items.to_multiset().count(items[k]) > 0);
        }
        let j = choose|j: int| 0 <= j < sorted.len() && sorted[j] == items[k];
        assert(all[j] == instrument);
    }
}

/// Of two instruments in an order the one in front is no later, no farther and no later by its
/// symbol than the other, in the turn that the order says.
pub proof fn arranged_stand_in_order(
    list: Seq<InstrumentDefinition>,
    order: Order,
    window: StrikeWindow,
    i: int,
    j: int,
)
    requires
        0 <= i < j < arranged_of(list, order, window).len(),
    ensures
        ({
            let a = arranged_of(list, order, window)[i];
            let b = arranged_of(list, order, window)[j];
            let later = a.expiry is Some && (b.expiry is Some ==> text_lt(
                b.expiry->0@,
                a.expiry->0@,
            ));
            let same_day = text_facts(a.expiry) == text_facts(b.expiry);
            let farther = nearer(window.distance_of(b), window.distance_of(a));
            let as_far = !farther && !nearer(window.distance_of(a), window.distance_of(b));
            let behind = text_lt(b.trading_symbol@, a.trading_symbol@);
            &&& order == Order::Symbol ==> !behind
            &&& order == Order::Expiry ==> !later && (same_day ==> !behind)
            &&& order == Order::Distance ==> !farther && (as_far ==> !behind)
            &&& order == Order::ExpiryAndDistance ==> !later && (same_day ==> !farther && (as_far
                ==> !behind))
            &&& order == Order::DistanceAndExpiry ==> !farther && (as_far ==> !later && (same_day
                ==> !behind))
        }),
{
    let items = placed_all(list, order, window);
    let sorted = sorted_of(items);
    sorting_orders(items);
    sorting_keeps(items, i);
    sorting_keeps(items, j);
    let (a, b) = (sorted[i], sorted[j]);
    assert(!b.ranks_before(&a));
    let m = choose|m: int| 0 <= m < items.len() && items[m] == a;
    let n = choose|n: int| 0 <= n < items.len() && items[n] == b;
    assert(a == placed_of(list[m], order, window));
    assert(b == placed_of(list[n], order, window));
    nearness_order(a.distance, b.distance);
    option_order(text_facts(a.instrument.expiry), text_facts(b.instrument.expiry), None);
    option_order(text_facts(b.instrument.expiry), text_facts(a.instrument.expiry), None);
}

} // verus!
