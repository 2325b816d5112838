//! The file of the latest prices of an underlying at Delta.
use crate::adapters::delta::product_master::DeltaUniverseSummary;
use crate::adapters::latest_prices::{
    block_of, first_future_of, first_future_symbol, is_target, nearest_of, nearest_option_target,
    no_prices, no_slot, plain_option, prices_are_of_their_instrument, slot_for, tick_changes,
    ticked, LatestPrices, PricesFacts, SlotFacts,
};
use crate::adapters::universe::{StrikeWindow, UniverseSummary};
use crate::binary64::{text_facts, Decimal};
use crate::feeder::catalog::InstrumentType;
use crate::order::TextMap;
use crate::text::same;
use vstd::prelude::*;

verus! {

/// The latest prices of an underlying. What changes them tells what the file is to hold.
#[derive(Debug)]
pub struct DeltaLatestPriceFile {
    prices: LatestPrices,
}

/// What the file holds.
pub open spec fn file_of(prices: PricesFacts) -> Seq<char> {
    block_of(prices, " Perp FUT: "@)
}

/// Whether a result tells what the file holds just where something changed.
pub open spec fn is_written(written: Option<String>, changed: bool, prices: PricesFacts) -> bool {
    text_facts(written) == if changed {
        Some(file_of(prices))
    } else {
        None
    }
}

/// The latest prices after the future, the call and the put of a summary are followed.
pub open spec fn retargeted(
    prices: PricesFacts,
    summary: UniverseSummary,
    window: StrikeWindow,
    four_places: Map<Seq<char>, String>,
) -> PricesFacts {
    PricesFacts {
        future: slot_for(
            prices.future,
            plain_option(first_future_of(summary.futures@, InstrumentType::PerpFut)),
        ),
        call: slot_for(
            prices.call,
            nearest_of(summary.atm_options@, InstrumentType::Call, window, four_places),
        ),
        put: slot_for(
            prices.put,
            nearest_of(summary.atm_options@, InstrumentType::Put, window, four_places),
        ),
        ..prices
    }
}

/// Whether the future, the call and the put of a summary are those that are followed.
pub open spec fn is_targeted(
    prices: PricesFacts,
    summary: UniverseSummary,
    window: StrikeWindow,
    four_places: Map<Seq<char>, String>,
) -> bool {
    &&& is_target(
        prices.future,
        plain_option(first_future_of(summary.futures@, InstrumentType::PerpFut)),
    )
    &&& is_target(
        prices.call,
        nearest_of(summary.atm_options@, InstrumentType::Call, window, four_places),
    )
    &&& is_target(
        prices.put,
        nearest_of(summary.atm_options@, InstrumentType::Put, window, four_places),
    )
}

impl View for DeltaLatestPriceFile {
    type V = PricesFacts;

    closed spec fn view(&self) -> PricesFacts {
        self.prices@
    }
}

impl DeltaLatestPriceFile {
    pub fn new(underlying: &str) -> (r: DeltaLatestPriceFile)
        ensures
            r@ == no_prices(underlying@),
    {
        DeltaLatestPriceFile { prices: LatestPrices::new(underlying) }
    }

    /// What the file holds.
    pub fn content(&self) -> (r: String)
        ensures
            r@ == file_of(self@),
    {
        self.prices.to_file_block(" Perp FUT: ")
    }

    fn written(&self, changed: bool) -> (r: Option<String>)
        ensures
            is_written(r, changed, self@),
    {
        if changed {
            Some(self.content())
        } else {
            None
        }
    }

    /// Follows a symbol as the underlying's own.
    pub fn set_spot_symbol(&mut self, symbol: &str) -> (r: Option<String>)
        ensures
            final(self)@ == (PricesFacts {
                spot: if old(self)@.spot.symbol == Some(symbol@) {
                    old(self)@.spot
                } else {
                    SlotFacts { symbol: Some(symbol@), ..no_slot() }
                },
                ..old(self)@
            }),
            is_written(r, old(self)@.spot.symbol != Some(symbol@), final(self)@),
    {
        let changed = self.prices.set_spot_symbol(symbol);
        self.written(changed)
    }

    /// Follows the future, the call and the put of a summary, where it is one of the
    /// underlying.
    pub fn update_targets_from_summary(
        &mut self,
        summary: &DeltaUniverseSummary,
        window: &StrikeWindow,
        four_places: &TextMap<String>,
    ) -> (r: Option<String>)
        ensures
            if summary.selected_underlying@ != old(self)@.underlying {
                final(self)@ == old(self)@ && r is None
            } else {
                &&& final(self)@ == retargeted(old(self)@, *summary, *window, four_places@)
                &&& is_written(
                    r,
                    !is_targeted(old(self)@, *summary, *window, four_places@),
                    final(self)@,
                )
            },
    {
        if !same(summary.selected_underlying.as_str(), self.prices.underlying.as_str()) {
            return None;
        }
        let future = first_future_symbol(summary, InstrumentType::PerpFut);
        let call = nearest_option_target(summary, InstrumentType::Call, window, four_places);
        let put = nearest_option_target(summary, InstrumentType::Put, window, four_places);
        let changed = self.prices.set_targets(future, call, put);
        self.written(changed)
    }

    /// Takes in a price of a symbol.
    pub fn update_tick(&mut self, symbol: &str, price: &Decimal) -> (r: Option<String>)
        ensures
            final(self)@ == ticked(old(self)@, symbol@, price@),
            is_written(r, tick_changes(old(self)@, symbol@, price@), final(self)@),
    {
        let changed = self.prices.update_tick(symbol, price);
        self.written(changed)
    }
}

/// What is told is the perpetual future and the options at the money of what is traded now; an
/// instrument that stays keeps its price and another begins without one. The spot stays.
pub proof fn told_instruments_are_traded_now(
    prices: PricesFacts,
    summary: UniverseSummary,
    window: StrikeWindow,
    four_places: Map<Seq<char>, String>,
)
    ensures
        ({
            let after = retargeted(prices, summary, window, four_places);
            let future = first_future_of(summary.futures@, InstrumentType::PerpFut);
            let call = nearest_of(summary.atm_options@, InstrumentType::Call, window, four_places);
            let put = nearest_of(summary.atm_options@, InstrumentType::Put, window, four_places);
            &&& after.spot == prices.spot
            &&& after.underlying == prices.underlying
            &&& after.future.symbol == future
            &&& call is Some ==> after.call.symbol == Some(call->0.symbol)
            &&& call is None ==> after.call.symbol is None
            &&& put is Some ==> after.put.symbol == Some(put->0.symbol)
            &&& put is None ==> after.put.symbol is None
            &&& after.future.symbol != prices.future.symbol ==> after.future.price is None
            &&& after.call.symbol != prices.call.symbol ==> after.call.price is None
            &&& after.put.symbol != prices.put.symbol ==> after.put.price is None
            &&& is_targeted(prices, summary, window, four_places) ==> after == prices
        }),
{
    prices_are_of_their_instrument(
        prices.future,
        plain_option(first_future_of(summary.futures@, InstrumentType::PerpFut)),
    );
    prices_are_of_their_instrument(
        prices.call,
        nearest_of(summary.atm_options@, InstrumentType::Call, window, four_places),
    );
    prices_are_of_their_instrument(
        prices.put,
        nearest_of(summary.atm_options@, InstrumentType::Put, window, four_places),
    );
}

} // verus!
