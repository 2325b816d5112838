//! The latest prices of an underlying and of the derivatives nearest to it.
use crate::adapters::universe::{
    arrange, arranged_are_the_same, arranged_of, arranged_stand_in_order, nearer, Order,
    StrikeWindow, UniverseSummary,
};
use crate::binary64::{copy_decimal, decimal_facts, is_text, text_facts, Decimal, DecimalFacts};
use crate::feeder::catalog::{InstrumentDefinition, InstrumentType};
use crate::order::{filter_push, text_lt, text_order_is_total, TextMap};
use crate::text::{chars_of, find_char, first_of, strip_end, strip_end_of, sub_text};
use vstd::prelude::*;

verus! {

/// A price after the next one came in.
pub open spec fn price_after(
    current: Option<DecimalFacts>,
    next: DecimalFacts,
) -> Option<DecimalFacts> {
    if same_price(current, next) {
        current
    } else {
        Some(next)
    }
}

/// Whether a price is the next one already.
pub open spec fn same_price(current: Option<DecimalFacts>, next: DecimalFacts) -> bool {
    current matches Some(c) && c.value.eq_of(next.value)
}

/// Takes in the next price, and tells whether it is another.
pub fn update_price(current: &mut Option<Decimal>, next: &Decimal) -> (r: bool)
    ensures
        decimal_facts(*final(current)) == price_after(decimal_facts(*old(current)), next@),
        r == !same_price(decimal_facts(*old(current)), next@),
{
    let known = match &*current {
        Some(c) => c.value.equals(next.value),
        None => false,
    };
    if known {
        return false;
    }
    *current = Some(next.clone());
    true
}

/// An option whose price is followed: its symbol, its strike, and the strike as a text
/// with four places behind the point.
#[derive(Debug)]
pub struct OptionTarget {
    pub symbol: String,
    pub strike: Option<Decimal>,
    pub told: Option<String>,
}

/// An option whose price is followed, as contracts speak of it.
pub struct TargetFacts {
    pub symbol: Seq<char>,
    pub strike: Option<DecimalFacts>,
    pub told: Option<Seq<char>>,
}

impl View for OptionTarget {
    type V = TargetFacts;

    open spec fn view(&self) -> TargetFacts {
        TargetFacts {
            symbol: self.symbol@,
            strike: decimal_facts(self.strike),
            told: text_facts(self.told),
        }
    }
}

/// What is followed in one place: a symbol, of an option its strike, and the latest price.
#[derive(Debug)]
pub struct PriceSlot {
    pub symbol: Option<String>,
    pub strike: Option<Decimal>,
    pub told: Option<String>,
    pub price: Option<Decimal>,
}

/// What is followed in one place, as contracts speak of it.
pub struct SlotFacts {
    pub symbol: Option<Seq<char>>,
    pub strike: Option<DecimalFacts>,
    pub told: Option<Seq<char>>,
    pub price: Option<DecimalFacts>,
}

impl View for PriceSlot {
    type V = SlotFacts;

    open spec fn view(&self) -> SlotFacts {
        SlotFacts {
            symbol: text_facts(self.symbol),
            strike: decimal_facts(self.strike),
            told: text_facts(self.told),
            price: decimal_facts(self.price),
        }
    }
}

/// Nothing is followed.
pub open spec fn no_slot() -> SlotFacts {
    SlotFacts { symbol: None, strike: None, told: None, price: None }
}

/// Whether two strikes that may be missing are the same.
pub open spec fn same_strike(a: Option<DecimalFacts>, b: Option<DecimalFacts>) -> bool {
    match (a, b) {
        (None, None) => true,
        (Some(x), Some(y)) => x.value.eq_of(y.value),
        _ => false,
    }
}

/// What is followed in a place that a target is set for. A new one has no price yet.
pub open spec fn slot_for(slot: SlotFacts, next: Option<TargetFacts>) -> SlotFacts {
    if is_target(slot, next) {
        slot
    } else {
        match next {
            Some(t) => SlotFacts {
                symbol: Some(t.symbol),
                strike: t.strike,
                told: t.told,
                price: None,
            },
            None => no_slot(),
        }
    }
}

/// Whether a target is followed already.
pub open spec fn is_target(slot: SlotFacts, next: Option<TargetFacts>) -> bool {
    match next {
        Some(t) => slot.symbol == Some(t.symbol) && same_strike(slot.strike, t.strike),
        None => slot.symbol is None && slot.strike is None,
    }
}

fn strikes_agree(a: &Option<Decimal>, b: &Option<Decimal>) -> (r: bool)
    ensures
        r == same_strike(decimal_facts(*a), decimal_facts(*b)),
{
    match a {
        None => b.is_none(),
        Some(x) => match b {
            None => false,
            Some(y) => x.value.equals(y.value),
        },
    }
}

pub open spec fn target_option(target: Option<OptionTarget>) -> Option<TargetFacts> {
    match target {
        Some(t) => Some(t@),
        None => None,
    }
}

impl PriceSlot {
    pub fn new() -> (r: PriceSlot)
        ensures
            r@ == no_slot(),
    {
        PriceSlot { symbol: None, strike: None, told: None, price: None }
    }

    /// Follows a target, and tells whether it is another.
    pub fn retarget(&mut self, next: Option<OptionTarget>) -> (r: bool)
        ensures
            final(self)@ == slot_for(old(self)@, target_option(next)),
            r == !is_target(old(self)@, target_option(next)),
    {
        match next {
            Some(t) => {
                if is_text(&self.symbol, t.symbol.as_str()) && strikes_agree(
                    &self.strike,
                    &t.strike,
                ) {
                    return false;
                }
                *self = PriceSlot {
                    symbol: Some(t.symbol),
                    strike: t.strike,
                    told: t.told,
                    price: None,
                };
                true
            },
            None => {
                if self.symbol.is_none() && self.strike.is_none() {
                    return false;
                }
                *self = PriceSlot::new();
                true
            },
        }
    }

    /// Takes in a price of a symbol, and tells whether that changes anything.
    pub fn tick(&mut self, symbol: &str, price: &Decimal) -> (r: bool)
        ensures
            final(self)@ == slot_ticked(old(self)@, symbol@, price@),
            r == slot_changes(old(self)@, symbol@, price@),
    {
        if is_text(&self.symbol, symbol) {
            update_price(&mut self.price, price)
        } else {
            false
        }
    }
}

/// What is followed in a place after a price of a symbol.
pub open spec fn slot_ticked(slot: SlotFacts, symbol: Seq<char>, price: DecimalFacts) -> SlotFacts {
    if slot.symbol == Some(symbol) {
        SlotFacts { price: price_after(slot.price, price), ..slot }
    } else {
        slot
    }
}

/// Whether a price of a symbol changes anything in a place.
pub open spec fn slot_changes(slot: SlotFacts, symbol: Seq<char>, price: DecimalFacts) -> bool {
    slot.symbol == Some(symbol) && !same_price(slot.price, price)
}

/// A number with places behind the point, without the zeros at its end.
pub open spec fn bare_number(s: Seq<char>) -> Seq<char> {
    let t = if first_of(s, '.') < s.len() {
        strip_end_of(s, '0')
    } else {
        s
    };
    if t.len() > 0 && t.last() == '.' {
        t.drop_last()
    } else {
        t
    }
}

/// A number with places behind the point, without the zeros at its end.
pub fn format_strike(fixed: &str) -> (r: String)
    ensures
        r@ == bare_number(fixed@),
{
    let v = chars_of(fixed);
    let t = if find_char(&v, '.') < v.len() {
        strip_end(fixed, '0')
    } else {
        fixed.to_owned()
    };
    let w = chars_of(t.as_str());
    let n: usize = w.len();
    if n > 0 && w[n - 1] == '.' {
        let r = sub_text(&w, 0, n - 1);
        assert(r@ =~= t@.drop_last());
        r
    } else {
        t
    }
}

/// A price as it is told.
pub open spec fn told_price(price: Option<DecimalFacts>) -> Seq<char> {
    match price {
        Some(p) => p.text,
        None => "-"@,
    }
}

fn price_text(price: &Option<Decimal>) -> (r: String)
    ensures
        r@ == told_price(decimal_facts(*price)),
{
    match price {
        Some(p) => p.text.clone(),
        None => "-".to_owned(),
    }
}

/// A strike as it is told.
pub open spec fn told_strike(slot: SlotFacts) -> Seq<char> {
    match slot.told {
        Some(t) => bare_number(t),
        None => "-"@,
    }
}

fn strike_text(slot: &PriceSlot) -> (r: String)
    ensures
        r@ == told_strike(slot@),
{
    match &slot.told {
        Some(t) => format_strike(t.as_str()),
        None => "-".to_owned(),
    }
}

/// The latest prices of an underlying, of a future, and of the call and the put nearest to
/// its price. The texts of the prices have four places behind the point.
#[derive(Debug)]
pub struct LatestPrices {
    pub underlying: String,
    pub spot: PriceSlot,
    pub future: PriceSlot,
    pub call: PriceSlot,
    pub put: PriceSlot,
}

/// The latest prices, as contracts speak of them.
pub struct PricesFacts {
    pub underlying: Seq<char>,
    pub spot: SlotFacts,
    pub future: SlotFacts,
    pub call: SlotFacts,
    pub put: SlotFacts,
}

impl View for LatestPrices {
    type V = PricesFacts;

    open spec fn view(&self) -> PricesFacts {
        PricesFacts {
            underlying: self.underlying@,
            spot: self.spot@,
            future: self.future@,
            call: self.call@,
            put: self.put@,
        }
    }
}

/// Nothing of an underlying is followed.
pub open spec fn no_prices(underlying: Seq<char>) -> PricesFacts {
    PricesFacts {
        underlying,
        spot: no_slot(),
        future: no_slot(),
        call: no_slot(),
        put: no_slot(),
    }
}

/// The latest prices after a price of a symbol.
pub open spec fn ticked(p: PricesFacts, symbol: Seq<char>, price: DecimalFacts) -> PricesFacts {
    PricesFacts {
        underlying: p.underlying,
        spot: slot_ticked(p.spot, symbol, price),
        future: slot_ticked(p.future, symbol, price),
        call: slot_ticked(p.call, symbol, price),
        put: slot_ticked(p.put, symbol, price),
    }
}

/// Whether a price of a symbol changes anything.
pub open spec fn tick_changes(p: PricesFacts, symbol: Seq<char>, price: DecimalFacts) -> bool {
    slot_changes(p.spot, symbol, price) || slot_changes(p.future, symbol, price) || slot_changes(
        p.call,
        symbol,
        price,
    ) || slot_changes(p.put, symbol, price)
}

/// The target of a symbol that is no option's.
pub open spec fn plain_target(symbol: Seq<char>) -> TargetFacts {
    TargetFacts { symbol, strike: None, told: None }
}

pub open spec fn plain_option(symbol: Option<Seq<char>>) -> Option<TargetFacts> {
    match symbol {
        Some(s) => Some(plain_target(s)),
        None => None,
    }
}

/// What the file holds of an underlying. `future` is what a future is called.
pub open spec fn block_of(p: PricesFacts, future: Seq<char>) -> Seq<char> {
    p.underlying + " Spot: "@ + told_price(p.spot.price) + "\n"@ + p.underlying + future
        + told_price(p.future.price) + "\n"@ + p.underlying + " ATM CALL: "@ + told_strike(p.call)
        + " -> "@ + told_price(p.call.price) + "\n"@ + p.underlying + " ATM PUT: "@ + told_strike(
        p.put,
    ) + " -> "@ + told_price(p.put.price) + "\n"@
}

fn plain(symbol: Option<String>) -> (r: Option<OptionTarget>)
    ensures
        target_option(r) == plain_option(text_facts(symbol)),
{
    match symbol {
        Some(s) => Some(OptionTarget { symbol: s, strike: None, told: None }),
        None => None,
    }
}

impl LatestPrices {
    pub fn new(underlying: &str) -> (r: LatestPrices)
        ensures
            r@ == no_prices(underlying@),
    {
        LatestPrices {
            underlying: underlying.to_owned(),
            spot: PriceSlot::new(),
            future: PriceSlot::new(),
            call: PriceSlot::new(),
            put: PriceSlot::new(),
        }
    }

    /// Follows a symbol as the underlying's own, and tells whether it is another.
    pub fn set_spot_symbol(&mut self, symbol: &str) -> (r: bool)
        ensures
            final(self)@ == (PricesFacts {
                spot: if old(self)@.spot.symbol == Some(symbol@) {
                    old(self)@.spot
                } else {
                    SlotFacts { symbol: Some(symbol@), ..no_slot() }
                },
                ..old(self)@
            }),
            r == (old(self)@.spot.symbol != Some(symbol@)),
    {
        if is_text(&self.spot.symbol, symbol) {
            return false;
        }
        self.spot = PriceSlot {
            symbol: Some(symbol.to_owned()),
            strike: None,
            told: None,
            price: None,
        };
        true
    }

    /// Follows a future, a call and a put, and tells whether one of them is another.
    pub fn set_targets(
        &mut self,
        future: Option<String>,
        call: Option<OptionTarget>,
        put: Option<OptionTarget>,
    ) -> (r: bool)
        ensures
            final(self)@ == (PricesFacts {
                future: slot_for(old(self)@.future, plain_option(text_facts(future))),
                call: slot_for(old(self)@.call, target_option(call)),
                put: slot_for(old(self)@.put, target_option(put)),
                ..old(self)@
            }),
            r == !(is_target(old(self)@.future, plain_option(text_facts(future))) && is_target(
                old(self)@.call,
                target_option(call),
            ) && is_target(old(self)@.put, target_option(put))),
    {
        let a = self.future.retarget(plain(future));
        let b = self.call.retarget(call);
        let c = self.put.retarget(put);
        a || b || c
    }

    /// Takes in a price of a symbol, and tells whether that changes anything.
    pub fn update_tick(&mut self, symbol: &str, price: &Decimal) -> (r: bool)
        ensures
            final(self)@ == ticked(old(self)@, symbol@, price@),
            r == tick_changes(old(self)@, symbol@, price@),
    {
        let a = self.spot.tick(symbol, price);
        let b = self.future.tick(symbol, price);
        let c = self.call.tick(symbol, price);
        let d = self.put.tick(symbol, price);
        a || b || c || d
    }

    /// What the file holds of the underlying.
    pub fn to_file_block(&self, future: &str) -> (r: String)
        ensures
            r@ == block_of(self@, future@),
    {
        let mut out = self.underlying.clone();
        out.append(" Spot: ");
        out.append(price_text(&self.spot.price).as_str());
        out.append("\n");
        out.append(self.underlying.as_str());
        out.append(future);
        out.append(price_text(&self.future.price).as_str());
        out.append("\n");
        out.append(self.underlying.as_str());
        out.append(" ATM CALL: ");
        out.append(strike_text(&self.call).as_str());
        out.append(" -> ");
        out.append(price_text(&self.call.price).as_str());
        out.append("\n");
        out.append(self.underlying.as_str());
        out.append(" ATM PUT: ");
        out.append(strike_text(&self.put).as_str());
        out.append(" -> ");
        out.append(price_text(&self.put.price).as_str());
        out.append("\n");
        out
    }
}

/// Tells which instruments are of a kind and can be traded.
pub open spec fn tradable_of(kind: InstrumentType) -> spec_fn(InstrumentDefinition) -> bool {
    |i: InstrumentDefinition| i.instrument_type == kind && i.tradable
}

/// The instruments of a kind that can be traded.
pub fn tradable_only(list: &Vec<InstrumentDefinition>, kind: InstrumentType) -> (r: Vec<
    InstrumentDefinition,
>)
    ensures
        r@ == list@.filter(tradable_of(kind)),
{
    let ghost f = tradable_of(kind);
    let mut out: Vec<InstrumentDefinition> = Vec::new();
    let mut i: usize = 0;
    assert(list@.take(0).filter(f) =~= Seq::empty()) by {
        reveal(Seq::filter);
    }
    while i < list.len()
        invariant
            i <= list@.len(),
            f == tradable_of(kind),
            out@ == list@.take(i as int).filter(f),
        decreases list@.len() - i,
    {
        proof {
            filter_push(list@.take(i as int), list@[i as int], f);
            assert(list@.take(i + 1) =~= list@.take(i as int).push(list@[i as int]));
        }
        if list[i].instrument_type == kind && list[i].tradable {
            out.push(list[i].clone());
        }
        i += 1;
    }
    assert(list@.take(i as int) =~= list@);
    out
}

/// The strike of an instrument as a text with four places, by a table of such texts.
pub open spec fn told_of(instrument: InstrumentDefinition, four_places: Map<Seq<char>, String>) -> Option<
    Seq<char>,
> {
    match instrument.strike {
        None => None,
        Some(s) => if four_places.contains_key(s.text@) {
            Some(four_places[s.text@]@)
        } else {
            Some(s.text@)
        },
    }
}

/// The option nearest to the price, where there is one: the first by distance, by expiry
/// and by symbol.
pub open spec fn nearest_of(
    options: Seq<InstrumentDefinition>,
    kind: InstrumentType,
    window: StrikeWindow,
    four_places: Map<Seq<char>, String>,
) -> Option<TargetFacts> {
    let list = arranged_of(options.filter(tradable_of(kind)), Order::DistanceAndExpiry, window);
    if list.len() == 0 {
        None
    } else {
        Some(
            TargetFacts {
                symbol: list[0].trading_symbol@,
                strike: decimal_facts(list[0].strike),
                told: told_of(list[0], four_places),
            },
        )
    }
}

/// The option nearest to the price. `four_places` gives the strikes as texts with four
/// places behind the point, by the texts that they are written as.
pub fn nearest_option_target(
    summary: &UniverseSummary,
    kind: InstrumentType,
    window: &StrikeWindow,
    four_places: &TextMap<String>,
) -> (r: Option<OptionTarget>)
    ensures
        target_option(r) == nearest_of(summary.atm_options@, kind, *window, four_places@),
{
    let options = tradable_only(&summary.atm_options, kind);
    let list = arrange(&options, Order::DistanceAndExpiry, window);
    if list.len() == 0 {
        return None;
    }
    let told = match &list[0].strike {
        None => None,
        Some(s) => match four_places.get(s.text.as_str()) {
            Some(t) => Some(t.clone()),
            None => Some(s.text.clone()),
        },
    };
    Some(
        OptionTarget {
            symbol: list[0].trading_symbol.clone(),
            strike: copy_decimal(&list[0].strike),
            told,
        },
    )
}

/// The future that expires first, where there is one.
pub open spec fn next_future_of(
    futures: Seq<InstrumentDefinition>,
    window: StrikeWindow,
) -> Option<Seq<char>> {
    let list = arranged_of(
        futures.filter(tradable_of(InstrumentType::Fut)),
        Order::Expiry,
        window,
    );
    if list.len() == 0 {
        None
    } else {
        Some(list[0].trading_symbol@)
    }
}

/// The future that expires first, where there is one.
pub fn next_future_symbol(summary: &UniverseSummary, window: &StrikeWindow) -> (r: Option<String>)
    ensures
        text_facts(r) == next_future_of(summary.futures@, *window),
{
    let futures = tradable_only(&summary.futures, InstrumentType::Fut);
    let list = arrange(&futures, Order::Expiry, window);
    if list.len() == 0 {
        None
    } else {
        Some(list[0].trading_symbol.clone())
    }
}

/// The first future of a kind that can be traded, where there is one.
pub open spec fn first_future_of(
    futures: Seq<InstrumentDefinition>,
    kind: InstrumentType,
) -> Option<Seq<char>> {
    let list = futures.filter(tradable_of(kind));
    if list.len() == 0 {
        None
    } else {
        Some(list[0].trading_symbol@)
    }
}

/// The first future of a kind that can be traded, where there is one.
pub fn first_future_symbol(summary: &UniverseSummary, kind: InstrumentType) -> (r: Option<String>)
    ensures
        text_facts(r) == first_future_of(summary.futures@, kind),
{
    let futures = tradable_only(&summary.futures, kind);
    if futures.len() == 0 {
        None
    } else {
        Some(futures[0].trading_symbol.clone())
    }
}

/// A price that came in is the one that is told, until the next of its symbol comes in.
pub proof fn tick_is_told(slot: SlotFacts, symbol: Seq<char>, price: DecimalFacts)
    requires
        slot.symbol == Some(symbol),
    ensures
        slot_ticked(slot, symbol, price).price matches Some(p) && (p == price || p.value.eq_of(
            price.value,
        )),
        !price.value.is_nan() ==> !slot_changes(slot_ticked(slot, symbol, price), symbol, price),
{
}

/// A tick changes no price but those of its own symbol, and those to its own price. Something
/// is said to have changed where something has.
pub proof fn ticks_change_their_own_symbol(
    p: PricesFacts,
    symbol: Seq<char>,
    price: DecimalFacts,
)
    ensures
        ({
            let after = ticked(p, symbol, price);
            &&& after.underlying == p.underlying
            &&& p.spot.symbol != Some(symbol) ==> after.spot == p.spot
            &&& p.future.symbol != Some(symbol) ==> after.future == p.future
            &&& p.call.symbol != Some(symbol) ==> after.call == p.call
            &&& p.put.symbol != Some(symbol) ==> after.put == p.put
            &&& after.spot.symbol == p.spot.symbol && after.spot.strike == p.spot.strike
            &&& after.future.symbol == p.future.symbol && after.future.strike == p.future.strike
            &&& after.call.symbol == p.call.symbol && after.call.strike == p.call.strike
            &&& after.put.symbol == p.put.symbol && after.put.strike == p.put.strike
            &&& p.spot.symbol == Some(symbol) ==> after.spot.price is Some && (
            after.spot.price->0.value.eq_of(price.value) || after.spot.price->0 == price)
            &&& p.future.symbol == Some(symbol) ==> after.future.price is Some && (
            after.future.price->0.value.eq_of(price.value) || after.future.price->0 == price)
            &&& p.call.symbol == Some(symbol) ==> after.call.price is Some && (
            after.call.price->0.value.eq_of(price.value) || after.call.price->0 == price)
            &&& p.put.symbol == Some(symbol) ==> after.put.price is Some && (
            after.put.price->0.value.eq_of(price.value) || after.put.price->0 == price)
            &&& !price.value.is_nan() ==> (tick_changes(p, symbol, price) <==> after != p)
        }),
{
}

/// A line that is for another instrument now tells no price of the one that it was for, and one
/// that is for the same keeps its price.
pub proof fn prices_are_of_their_instrument(slot: SlotFacts, next: Option<TargetFacts>)
    ensures
        ({
            let after = slot_for(slot, next);
            &&& next is Some ==> after.symbol == Some(next->0.symbol)
            &&& next is None ==> after.symbol is None && after.strike is None
            &&& after.symbol != slot.symbol ==> after.price is None
            &&& next is Some && slot.symbol == Some(next->0.symbol) && slot.strike is None
                && next->0.strike is None ==> after == slot
            &&& next is Some && slot.symbol == Some(next->0.symbol) && slot.strike is Some
                && next->0.strike is Some ==> if slot.strike->0.value.eq_of(
                next->0.strike->0.value,
            ) {
                after == slot
            } else {
                after.price is None && after.strike == next->0.strike
            }
            &&& slot_for(after, next) == after || (next is Some && next->0.strike is Some
                && next->0.strike->0.value.is_nan())
        }),
{
}

/// The option at the money is one that can be traded, of its kind, and no other such option is
/// nearer. There is none only where there is no such option.
pub proof fn no_option_is_nearer(
    options: Seq<InstrumentDefinition>,
    kind: InstrumentType,
    window: StrikeWindow,
    four_places: Map<Seq<char>, String>,
)
    ensures
        match nearest_of(options, kind, window, four_places) {
            None => forall|i: int|
                0 <= i < options.len() ==> !((#[trigger] options[i]).tradable
                    && options[i].instrument_type == kind),
            Some(t) => exists|k: int|
                {
                    let it = #[trigger] options[k];
                    &&& 0 <= k < options.len()
                    &&& it.tradable
                    &&& it.instrument_type == kind
                    &&& it.trading_symbol@ == t.symbol
                    &&& decimal_facts(it.strike) == t.strike
                    &&& forall|i: int|
                        0 <= i < options.len() && (#[trigger] options[i]).tradable
                            && options[i].instrument_type == kind ==> !nearer(
                            window.distance_of(options[i]),
                            window.distance_of(it),
                        )
                },
        },
{
    let f = tradable_of(kind);
    let chosen = options.filter(f);
    let list = arranged_of(chosen, Order::DistanceAndExpiry, window);
    arranged_are_the_same(chosen, Order::DistanceAndExpiry, window, list[0]);
    if list.len() == 0 {
        assert forall|i: int| 0 <= i < options.len() implies !((#[trigger] options[i]).tradable
            && options[i].instrument_type == kind) by {
            if f(options[i]) {
                kept_by(options, f, options[i]);
                assert(chosen.contains(options[i]));
            }
        }
    } else {
        let it = list[0];
        assert(list.contains(list[0]));
        kept_by(options, f, it);
        let k = choose|k: int| 0 <= k < options.len() && options[k] == it;
        assert forall|i: int|
            0 <= i < options.len() && (#[trigger] options[i]).tradable
                && options[i].instrument_type == kind implies !nearer(
            window.distance_of(options[i]),
            window.distance_of(it),
        ) by {
            assert(f(options[i]));
            kept_by(options, f, options[i]);
            arranged_are_the_same(chosen, Order::DistanceAndExpiry, window, options[i]);
            let j = choose|j: int| 0 <= j < list.len() && list[j] == options[i];
            if j > 0 {
                arranged_stand_in_order(chosen, Order::DistanceAndExpiry, window, 0, j);
            }
        }
        assert(options[k] == it);
    }
}

proof fn kept_by(
    list: Seq<InstrumentDefinition>,
    f: spec_fn(InstrumentDefinition) -> bool,
    it: InstrumentDefinition,
)
    ensures
        list.filter(f).contains(it) <==> list.contains(it) && f(it),
    decreases list.len(),
{
    reveal(Seq::filter);
    if list.len() > 0 {
        let d = list.drop_last();
        let n = list.len() - 1;
        kept_by(d, f, it);
        filter_push(d, list.last(), f);
        assert(list =~= d.push(list.last()));
        let before = d.filter(f);
        let all = list.filter(f);
        if before.contains(it) {
            let i = choose|i: int| 0 <= i < before.len() && before[i] == it;
            assert(all[i] == it);
            let k = choose|k: int| 0 <= k < d.len() && d[k] == it;
            assert(list[k] == it);
        }
        if all.contains(it) && !before.contains(it) {
            let i = choose|i: int| 0 <= i < all.len() && all[i] == it;
            if i < before.len() {
                assert(before[i] == it);
            }
            assert(list[n] == it);
        }
        if list.contains(it) && f(it) && !before.contains(it) {
            let k = choose|k: int| 0 <= k < list.len() && list[k] == it;
            if k < n {
                assert(d[k] == it);
            }
            assert(all[before.len() as int] == it);
        }
    }
}

/// The next future is one that can be traded, and no other that can be expires sooner. There is
/// none only where there is no such future.
pub proof fn no_future_is_sooner(futures: Seq<InstrumentDefinition>, window: StrikeWindow)
    ensures
        match next_future_of(futures, window) {
            None => forall|i: int|
                0 <= i < futures.len() ==> !((#[trigger] futures[i]).tradable
                    && futures[i].instrument_type == InstrumentType::Fut),
            Some(symbol) => exists|k: int|
                {
                    let it = #[trigger] futures[k];
                    &&& 0 <= k < futures.len()
                    &&& it.tradable
                    &&& it.instrument_type == InstrumentType::Fut
                    &&& it.trading_symbol@ == symbol
                    &&& forall|i: int|
                        0 <= i < futures.len() && (#[trigger] futures[i]).tradable
                            && futures[i].instrument_type == InstrumentType::Fut
                            && futures[i].expiry is Some && it.expiry is Some ==> !text_lt(
                            futures[i].expiry->0@,
                            it.expiry->0@,
                        )
                },
        },
{
    let f = tradable_of(InstrumentType::Fut);
    let chosen = futures.filter(f);
    let list = arranged_of(chosen, Order::Expiry, window);
    arranged_are_the_same(chosen, Order::Expiry, window, list[0]);
    if list.len() == 0 {
        assert forall|i: int| 0 <= i < futures.len() implies !((#[trigger] futures[i]).tradable
            && futures[i].instrument_type == InstrumentType::Fut) by {
            if f(futures[i]) {
                kept_by(futures, f, futures[i]);
                assert(chosen.contains(futures[i]));
            }
        }
    } else {
        let it = list[0];
        assert(list.contains(list[0]));
        kept_by(futures, f, it);
        let k = choose|k: int| 0 <= k < futures.len() && futures[k] == it;
        assert forall|i: int|
            0 <= i < futures.len() && (#[trigger] futures[i]).tradable
                && futures[i].instrument_type == InstrumentType::Fut && futures[i].expiry is Some
                && it.expiry is Some implies !text_lt(
            futures[i].expiry->0@,
            it.expiry->0@,
        ) by {
            assert(f(futures[i]));
            kept_by(futures, f, futures[i]);
            arranged_are_the_same(chosen, Order::Expiry, window, futures[i]);
            let j = choose|j: int| 0 <= j < list.len() && list[j] == futures[i];
            if j > 0 {
                arranged_stand_in_order(chosen, Order::Expiry, window, 0, j);
            } else {
                text_order_is_total(it.expiry->0@, it.expiry->0@);
            }
        }
        assert(futures[k] == it);
    }
}

/// The first future of a kind is the first of the list that is of it and can be traded.
pub proof fn first_future_is_the_first(futures: Seq<InstrumentDefinition>, kind: InstrumentType)
    ensures
        match first_future_of(futures, kind) {
            None => forall|i: int|
                0 <= i < futures.len() ==> !((#[trigger] futures[i]).tradable
                    && futures[i].instrument_type == kind),
            Some(symbol) => exists|k: int|
                {
                    let it = #[trigger] futures[k];
                    &&& 0 <= k < futures.len()
                    &&& it.tradable
                    &&& it.instrument_type == kind
                    &&& it.trading_symbol@ == symbol
                    &&& forall|i: int|
                        0 <= i < k ==> !((#[trigger] futures[i]).tradable
                            && futures[i].instrument_type == kind)
                },
        },
    decreases futures.len(),
{
    let f = tradable_of(kind);
    reveal(Seq::filter);
    if futures.len() > 0 {
        let d = futures.drop_last();
        let n = futures.len() - 1;
        first_future_is_the_first(d, kind);
        filter_push(d, futures.last(), f);
        assert(futures =~= d.push(futures.last()));
        assert forall|i: int|
            #![trigger d[i]]
            #![trigger futures[i]]
            0 <= i < n implies d[i] == futures[i] by {}
        assert(futures[n] == futures.last());
        match first_future_of(d, kind) {
            Some(symbol) => {
                let k = choose|k: int|
                    {
                        let it = #[trigger] d[k];
                        &&& 0 <= k < d.len()
                        &&& it.tradable
                        &&& it.instrument_type == kind
                        &&& it.trading_symbol@ == symbol
                        &&& forall|i: int|
                            0 <= i < k ==> !((#[trigger] d[i]).tradable && d[i].instrument_type
                                == kind)
                    };
                assert(futures[k] == d[k]);
            },
            None => {
                assert(d.filter(f).len() == 0);
                if f(futures.last()) {
                    assert(futures.filter(f)[0] == futures.last());
                }
            },
        }
    }
}

} // verus!
