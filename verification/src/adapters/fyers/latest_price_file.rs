//! The file of the latest prices of the underlyings at FYERS.
use crate::adapters::latest_prices::{
    block_of, is_target, nearest_of, nearest_option_target, next_future_of, next_future_symbol,
    no_prices, no_slot, plain_option, prices_are_of_their_instrument, slot_for, tick_changes,
    ticked, ticks_change_their_own_symbol, LatestPrices, PricesFacts, SlotFacts,
};
use crate::adapters::universe::{StrikeWindow, UniverseSummary};
use crate::binary64::{text_facts, Decimal, DecimalFacts};
use crate::feeder::catalog::InstrumentType;
use crate::order::{
    ascending_is_distinct, ascending_of, ascending_of_holds, sorted_keys, take_to_set, TextMap,
};
use crate::text::views;
use vstd::prelude::*;

verus! {

/// The latest prices of underlyings. What changes them tells what the file is to hold.
#[derive(Debug)]
pub struct FyersLatestPriceFile {
    underlyings: TextMap<LatestPrices>,
}

/// The latest prices of a table.
pub open spec fn prices_in(map: Map<Seq<char>, LatestPrices>) -> Map<Seq<char>, PricesFacts> {
    Map::new(|k: Seq<char>| map.contains_key(k), |k: Seq<char>| map[k]@)
}

/// What the file holds of some underlyings.
pub open spec fn blocks_of(keys: Seq<Seq<char>>, prices: Map<Seq<char>, PricesFacts>) -> Seq<char>
    decreases keys.len(),
{
    if keys.len() == 0 {
        Seq::empty()
    } else {
        blocks_of(keys.drop_last(), prices) + block_of(prices[keys.last()], " FUT: "@)
    }
}

/// What the file holds.
pub open spec fn file_of(prices: Map<Seq<char>, PricesFacts>) -> Seq<char> {
    blocks_of(ascending_of(prices.dom()), prices)
}

/// Whether a result tells what the file holds just where something changed.
pub open spec fn is_written(
    written: Option<String>,
    changed: bool,
    prices: Map<Seq<char>, PricesFacts>,
) -> bool {
    text_facts(written) == if changed {
        Some(file_of(prices))
    } else {
        None
    }
}

/// The latest prices of an underlying, where none came in yet nothing.
pub open spec fn prices_for(prices: Map<Seq<char>, PricesFacts>, underlying: Seq<char>) -> PricesFacts {
    if prices.contains_key(underlying) {
        prices[underlying]
    } else {
        no_prices(underlying)
    }
}

/// The latest prices after a symbol is followed as the underlying's own.
pub open spec fn with_spot(prices: PricesFacts, symbol: Seq<char>) -> PricesFacts {
    PricesFacts {
        spot: if prices.spot.symbol == Some(symbol) {
            prices.spot
        } else {
            SlotFacts { symbol: Some(symbol), ..no_slot() }
        },
        ..prices
    }
}

/// The latest prices after the future, the call and the put of a summary are followed.
pub open spec fn retargeted(
    prices: PricesFacts,
    summary: UniverseSummary,
    window: StrikeWindow,
    four_places: Map<Seq<char>, String>,
) -> PricesFacts {
    PricesFacts {
        future: slot_for(prices.future, plain_option(next_future_of(summary.futures@, window))),
        call: slot_for(
            prices.call,
            nearest_of(summary.atm_options@, InstrumentType::Call, window, four_places),
        ),
        put: slot_for(
            prices.put,
            nearest_of(summary.atm_options@, InstrumentType::Put, window, four_places),
        ),
        ..prices
    }
}

/// Whether the future, the call and the put of a summary are those that are followed.
pub open spec fn is_targeted(
    prices: PricesFacts,
    summary: UniverseSummary,
    window: StrikeWindow,
    four_places: Map<Seq<char>, String>,
) -> bool {
    &&& is_target(prices.future, plain_option(next_future_of(summary.futures@, window)))
    &&& is_target(
        prices.call,
        nearest_of(summary.atm_options@, InstrumentType::Call, window, four_places),
    )
    &&& is_target(
        prices.put,
        nearest_of(summary.atm_options@, InstrumentType::Put, window, four_places),
    )
}

/// The latest prices after a price of a symbol came in for the underlyings of a set.
pub open spec fn ticked_among(
    prices: Map<Seq<char>, PricesFacts>,
    done: Set<Seq<char>>,
    symbol: Seq<char>,
    price: DecimalFacts,
) -> Map<Seq<char>, PricesFacts> {
    Map::new(
        |k: Seq<char>| prices.contains_key(k),
        |k: Seq<char>|
            if done.contains(k) {
                ticked(prices[k], symbol, price)
            } else {
                prices[k]
            },
    )
}

/// The latest prices after a price of a symbol.
pub open spec fn all_ticked(
    prices: Map<Seq<char>, PricesFacts>,
    symbol: Seq<char>,
    price: DecimalFacts,
) -> Map<Seq<char>, PricesFacts> {
    Map::new(
        |k: Seq<char>| prices.contains_key(k),
        |k: Seq<char>| ticked(prices[k], symbol, price),
    )
}

/// Whether a price of a symbol changes anything.
pub open spec fn any_changes(
    prices: Map<Seq<char>, PricesFacts>,
    symbol: Seq<char>,
    price: DecimalFacts,
) -> bool {
    exists|k: Seq<char>| #[trigger]
        prices.contains_key(k) && tick_changes(prices[k], symbol, price)
}

impl View for FyersLatestPriceFile {
    type V = Map<Seq<char>, PricesFacts>;

    closed spec fn view(&self) -> Map<Seq<char>, PricesFacts> {
        prices_in(self.underlyings@)
    }
}

impl FyersLatestPriceFile {
    pub fn new() -> (r: FyersLatestPriceFile)
        ensures
            r@ == Map::<Seq<char>, PricesFacts>::empty(),
    {
        let r = FyersLatestPriceFile { underlyings: TextMap::new() };
        assert(r@ =~= Map::empty());
        r
    }

    /// What the file holds.
    pub fn content(&self) -> (r: String)
        ensures
            r@ == file_of(self@),
    {
        let keys = sorted_keys(&self.underlyings);
        let ghost names = views(keys@);
        assert(self@.dom() =~= self.underlyings@.dom());
        let mut out: String = String::new();
        let mut i: usize = 0;
        assert(names.take(0) =~= Seq::empty());
        assert(out@ =~= Seq::empty());
        while i < keys.len()
            invariant
                i <= keys@.len(),
                names == views(keys@),
                names.to_set() == self.underlyings@.dom(),
                out@ == blocks_of(names.take(i as int), self@),
            decreases keys@.len() - i,
        {
            assert(names.take(i + 1).drop_last() =~= names.take(i as int));
            assert(names.take(i + 1).last() == keys@[i as int]@);
            assert(names.to_set().contains(names[i as int]));
            match self.underlyings.get(keys[i].as_str()) {
                Some(prices) => {
                    out.append(prices.to_file_block(" FUT: ").as_str());
                },
                None => {
                    assert(false);
                },
            }
            i += 1;
        }
        assert(names.take(i as int) =~= names);
        out
    }

    fn written(&self, changed: bool) -> (r: Option<String>)
        ensures
            is_written(r, changed, self@),
    {
        if changed {
            Some(self.content())
        } else {
            None
        }
    }

    fn take(&mut self, underlying: &str) -> (r: LatestPrices)
        ensures
            r@ == prices_for(old(self)@, underlying@),
            final(self)@ == old(self)@.remove(underlying@),
    {
        let ghost before = self.underlyings@;
        let prices = match self.underlyings.remove(underlying) {
            Some(prices) => prices,
            None => LatestPrices::new(underlying),
        };
        assert(prices_in(self.underlyings@) =~= prices_in(before).remove(underlying@));
        prices
    }

    fn put(&mut self, underlying: &str, prices: LatestPrices)
        ensures
            final(self)@ == old(self)@.insert(underlying@, prices@),
    {
        let ghost before = self.underlyings@;
        self.underlyings.insert(underlying.to_owned(), prices);
        assert(prices_in(self.underlyings@) =~= prices_in(before).insert(underlying@, prices@));
    }

    /// Follows a symbol as an underlying's own.
    pub fn set_spot_symbol(&mut self, underlying: &str, symbol: &str) -> (r: Option<String>)
        ensures
            final(self)@ == old(self)@.insert(
                underlying@,
                with_spot(prices_for(old(self)@, underlying@), symbol@),
            ),
            is_written(
                r,
                prices_for(old(self)@, underlying@).spot.symbol != Some(symbol@),
                final(self)@,
            ),
    {
        let mut prices = self.take(underlying);
        let changed = prices.set_spot_symbol(symbol);
        self.put(underlying, prices);
        assert(self@ =~= old(self)@.insert(
            underlying@,
            with_spot(prices_for(old(self)@, underlying@), symbol@),
        ));
        self.written(changed)
    }

    /// Follows the future, the call and the put of a summary.
    pub fn update_targets_from_summary(
        &mut self,
        summary: &UniverseSummary,
        window: &StrikeWindow,
        four_places: &TextMap<String>,
    ) -> (r: Option<String>)
        ensures
            ({
                let before = prices_for(old(self)@, summary.selected_underlying@);
                &&& final(self)@ == old(self)@.insert(
                    summary.selected_underlying@,
                    retargeted(before, *summary, *window, four_places@),
                )
                &&& is_written(
                    r,
                    !is_targeted(before, *summary, *window, four_places@),
                    final(self)@,
                )
            }),
    {
        let underlying = summary.selected_underlying.as_str();
        let mut prices = self.take(underlying);
        let ghost before = prices@;
        let future = next_future_symbol(summary, window);
        let call = nearest_option_target(summary, InstrumentType::Call, window, four_places);
        let put = nearest_option_target(summary, InstrumentType::Put, window, four_places);
        let changed = prices.set_targets(future, call, put);
        self.put(underlying, prices);
        assert(self@ =~= old(self)@.insert(
            underlying@,
            retargeted(before, *summary, *window, four_places@),
        ));
        self.written(changed)
    }

    /// Takes in a price of a symbol.
    pub fn update_tick(&mut self, symbol: &str, price: &Decimal) -> (r: Option<String>)
        ensures
            final(self)@ == all_ticked(old(self)@, symbol@, price@),
            is_written(r, any_changes(old(self)@, symbol@, price@), final(self)@),
    {
        let ghost start = self@;
        let keys = sorted_keys(&self.underlyings);
        let ghost names = views(keys@);
        assert(start.dom() =~= self.underlyings@.dom());
        let mut changed = false;
        let mut i: usize = 0;
        assert(self@ =~= ticked_among(start, names.take(0).to_set(), symbol@, price@));
        while i < keys.len()
            invariant
                i <= keys@.len(),
                start == old(self)@,
                names == views(keys@),
                names.no_duplicates(),
                names.to_set() == start.dom(),
                self@ == ticked_among(start, names.take(i as int).to_set(), symbol@, price@),
                changed == exists|k: int|
                    0 <= k < i && tick_changes(start[#[trigger] names[k]], symbol@, price@),
            decreases keys@.len() - i,
        {
            let ghost before = self@;
            let ghost key = names[i as int];
            assert(key == keys@[i as int]@);
            assert(names.to_set().contains(key));
            let ghost done = names.take(i as int).to_set();
            let ghost after = names.take(i + 1).to_set();
            assert(!done.contains(key)) by {
                if done.contains(key) {
                    let j = choose|j: int|
                        0 <= j < names.take(i as int).len() && names.take(i as int)[j] == key;
                    assert(names[j] == names[i as int]);
                }
            }
            assert(after =~= done.insert(key)) by {
                take_to_set(names, i as int);
            }
            let mut prices = self.take(keys[i].as_str());
            assert(prices@ == start[key]);
            if prices.update_tick(symbol, price) {
                changed = true;
            }
            self.put(keys[i].as_str(), prices);
            assert(self@ =~= ticked_among(start, after, symbol@, price@));
            i += 1;
        }
        assert(names.take(i as int) =~= names);
        assert(self@ =~= all_ticked(start, symbol@, price@));
        proof {
            if changed {
                let k = choose|k: int|
                    0 <= k < i && tick_changes(start[#[trigger] names[k]], symbol@, price@);
                assert(names.to_set().contains(names[k]));
                assert(start.contains_key(names[k]));
            }
            if any_changes(start, symbol@, price@) {
                let k = choose|k: Seq<char>| #[trigger]
                    start.contains_key(k) && tick_changes(start[k], symbol@, price@);
                assert(names.to_set().contains(k));
                let j = choose|j: int| 0 <= j < names.len() && names[j] == k;
                assert(tick_changes(start[names[j]], symbol@, price@));
            }
        }
        self.written(changed)
    }
}

/// A tick reaches every underlying that its symbol is told of, and no other; something has changed
/// where one of them has.
pub proof fn ticks_reach_every_underlying(
    prices: Map<Seq<char>, PricesFacts>,
    symbol: Seq<char>,
    price: DecimalFacts,
    underlying: Seq<char>,
)
    requires
        !price.value.is_nan(),
    ensures
        ({
            let after = all_ticked(prices, symbol, price);
            &&& after.dom() == prices.dom()
            &&& prices.contains_key(underlying) ==> {
                let (a, b) = (prices[underlying], after[underlying]);
                &&& b.underlying == a.underlying
                &&& a.spot.symbol != Some(symbol) ==> b.spot == a.spot
                &&& a.future.symbol != Some(symbol) ==> b.future == a.future
                &&& a.call.symbol != Some(symbol) ==> b.call == a.call
                &&& a.put.symbol != Some(symbol) ==> b.put == a.put
                &&& a.spot.symbol == Some(symbol) ==> b.spot.price is Some
                    && b.spot.price->0.value.eq_of(price.value)
                &&& a.future.symbol == Some(symbol) ==> b.future.price is Some
                    && b.future.price->0.value.eq_of(price.value)
                &&& a.call.symbol == Some(symbol) ==> b.call.price is Some
                    && b.call.price->0.value.eq_of(price.value)
                &&& a.put.symbol == Some(symbol) ==> b.put.price is Some
                    && b.put.price->0.value.eq_of(price.value)
            }
            &&& any_changes(prices, symbol, price) <==> after != prices
        }),
{
    let after = all_ticked(prices, symbol, price);
    assert(after.dom() =~= prices.dom());
    assert(price.value.eq_of(price.value));
    if prices.contains_key(underlying) {
        ticks_change_their_own_symbol(prices[underlying], symbol, price);
    }
    assert forall|k: Seq<char>| #[trigger] prices.contains_key(k) implies (tick_changes(
        prices[k],
        symbol,
        price,
    ) <==> after[k] != prices[k]) by {
        ticks_change_their_own_symbol(prices[k], symbol, price);
    }
    if !any_changes(prices, symbol, price) {
        assert(after =~= prices);
    }
}

/// A spot that is told is the one that was asked for last: another one begins without a price.
pub proof fn another_spot_has_no_price(prices: PricesFacts, symbol: Seq<char>)
    ensures
        ({
            let after = with_spot(prices, symbol);
            &&& after.spot.symbol == Some(symbol)
            &&& prices.spot.symbol == Some(symbol) ==> after == prices
            &&& prices.spot.symbol != Some(symbol) ==> after.spot.price is None
            &&& after.underlying == prices.underlying && after.future == prices.future && after.call
                == prices.call && after.put == prices.put
        }),
{
}

/// The underlyings of the file are all that there are, each once.
pub proof fn file_has_every_underlying(prices: Map<Seq<char>, PricesFacts>)
    requires
        prices.dom().finite(),
    ensures
        ascending_of(prices.dom()).to_set() == prices.dom(),
        ascending_of(prices.dom()).no_duplicates(),
        file_of(prices) == blocks_of(ascending_of(prices.dom()), prices),
{
    ascending_of_holds(prices.dom());
    ascending_is_distinct(ascending_of(prices.dom()));
}

/// The file tells its underlyings one behind another.
pub proof fn file_tells_every_underlying(
    prices: Map<Seq<char>, PricesFacts>,
    a: Seq<Seq<char>>,
    b: Seq<Seq<char>>,
)
    ensures
        blocks_of(a + b, prices) == blocks_of(a, prices) + blocks_of(b, prices),
        a.len() == 1 ==> blocks_of(a, prices) == block_of(prices[a[0]], " FUT: "@),
    decreases b.len(),
{
    if a.len() == 1 {
        assert(a.drop_last().len() == 0);
        assert(blocks_of(a.drop_last(), prices) =~= Seq::empty());
        assert(Seq::<char>::empty() + block_of(prices[a[0]], " FUT: "@) =~= block_of(
            prices[a[0]],
            " FUT: "@,
        ));
    }
    if b.len() > 0 {
        file_tells_every_underlying(prices, a, b.drop_last());
        assert((a + b).drop_last() =~= a + b.drop_last());
        assert((a + b).last() == b.last());
        let last = block_of(prices[b.last()], " FUT: "@);
        assert(blocks_of(a, prices) + (blocks_of(b.drop_last(), prices) + last) =~= (blocks_of(
            a,
            prices,
        ) + blocks_of(b.drop_last(), prices)) + last);
    } else {
        assert(a + b =~= a);
        assert(blocks_of(a, prices) + Seq::<char>::empty() =~= blocks_of(a, prices));
    }
}

/// What is told is the next future and the options at the money of what is traded now; an
/// instrument that stays keeps its price and another begins without one. The spot stays.
pub proof fn told_instruments_are_traded_now(
    prices: PricesFacts,
    summary: UniverseSummary,
    window: StrikeWindow,
    four_places: Map<Seq<char>, String>,
)
    ensures
        ({
            let after = retargeted(prices, summary, window, four_places);
            let future = next_future_of(summary.futures@, window);
            let call = nearest_of(summary.atm_options@, InstrumentType::Call, window, four_places);
            let put = nearest_of(summary.atm_options@, InstrumentType::Put, window, four_places);
            &&& after.spot == prices.spot
            &&& after.underlying == prices.underlying
            &&& after.future.symbol == future
            &&& call is Some ==> after.call.symbol == Some(call->0.symbol)
            &&& call is None ==> after.call.symbol is None
            &&& put is Some ==> after.put.symbol == Some(put->0.symbol)
            &&& put is None ==> after.put.symbol is None
            &&& after.future.symbol != prices.future.symbol ==> after.future.price is None
            &&& after.call.symbol != prices.call.symbol ==> after.call.price is None
            &&& after.put.symbol != prices.put.symbol ==> after.put.price is None
            &&& is_targeted(prices, summary, window, four_places) ==> after == prices
        }),
{
    prices_are_of_their_instrument(
        prices.future,
        plain_option(next_future_of(summary.futures@, window)),
    );
    prices_are_of_their_instrument(
        prices.call,
        nearest_of(summary.atm_options@, InstrumentType::Call, window, four_places),
    );
    prices_are_of_their_instrument(
        prices.put,
        nearest_of(summary.atm_options@, InstrumentType::Put, window, four_places),
    );
}

} // verus!
