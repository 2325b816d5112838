//! Following the market data of Delta.
use crate::adapters::delta::product_master::{
    all_rows_of, delta_derivatives_csv, file_of, reference_views, DeltaSpotReference,
};
use crate::adapters::live_universe::{
    anchored_of, chosen_price, decision_of, fresh_states, listed, one_more, same_summaries,
    same_summary, symbols_of, underlyings_of, LiveUniverse, SpotFacts, StateFacts,
};
use crate::adapters::universe::{tradable_symbols, traded_in, UniverseSummary};
use crate::binary64::Real;
use crate::feeder::catalog::{InstrumentCatalog, InstrumentDefinition, InstrumentType};
use crate::feeder::error::{FeedError, FeedFault};
use crate::feeder::universe::{leads, RefreshDecision, SubscriptionDiff};
use crate::order::{ascending_of, filter_push, texts_in, TextMap};
use vstd::prelude::*;

verus! {

/// Tells which instruments are no derivatives and can be traded.
pub open spec fn traded_spot() -> spec_fn(InstrumentDefinition) -> bool {
    |i: InstrumentDefinition| i.instrument_type == InstrumentType::Spot && i.tradable
}

/// The underlyings and symbols of instruments.
pub open spec fn spots_of(list: Seq<InstrumentDefinition>) -> Seq<SpotFacts> {
    Seq::new(
        list.len(),
        |i: int|
            SpotFacts { underlying: list[i].underlying@, spot_symbol: list[i].trading_symbol@ },
    )
}

/// The instruments of a catalog that derivatives are chosen around.
pub fn spot_references_from_base_catalog(catalog: &InstrumentCatalog) -> (r: Result<
    Vec<DeltaSpotReference>,
    FeedError,
>)
    ensures
        match r {
            Err(e) => catalog.list().filter(traded_spot()).len() == 0 && e@ == FeedFault::Config(
                "Delta base_instruments_csv must contain at least one tradable SPOT row"@,
            ),
            Ok(references) => references@.len() > 0 && reference_views(references@) == spots_of(
                catalog.list().filter(traded_spot()),
            ),
        },
{
    let list = catalog.instruments();
    let ghost f = traded_spot();
    let mut out: Vec<DeltaSpotReference> = Vec::new();
    let mut i: usize = 0;
    assert(list@.take(0).filter(f) =~= Seq::empty()) by {
        reveal(Seq::filter);
    }
    assert(reference_views(out@) =~= spots_of(list@.take(0).filter(f)));
    while i < list.len()
        invariant
            i <= list@.len(),
            f == traded_spot(),
            reference_views(out@) == spots_of(list@.take(i as int).filter(f)),
        decreases list@.len() - i,
    {
        let ghost kept = list@.take(i as int).filter(f);
        let ghost before = reference_views(out@);
        proof {
            filter_push(list@.take(i as int), list@[i as int], f);
            assert(list@.take(i + 1) =~= list@.take(i as int).push(list@[i as int]));
        }
        if !list[i].is_derivative() && list[i].tradable {
            let one = DeltaSpotReference {
                underlying: list[i].underlying.clone(),
                spot_symbol: list[i].trading_symbol.clone(),
            };
            out.push(one);
            assert(reference_views(out@) =~= before.push(one@));
            assert(spots_of(kept.push(list@[i as int])) =~= before.push(one@));
        }
        i += 1;
    }
    assert(list@.take(i as int) =~= list@);
    if out.len() == 0 {
        assert(reference_views(out@).len() == 0);
        return Err(
            FeedError::Config(
                "Delta base_instruments_csv must contain at least one tradable SPOT row".to_owned(),
            ),
        );
    }
    assert(reference_views(out@).len() == out@.len());
    Ok(out)
}

proof fn same_rows(a: Seq<UniverseSummary>, b: Seq<UniverseSummary>)
    requires
        same_summaries(a, b),
    ensures
        all_rows_of(a) == all_rows_of(b),
    decreases a.len(),
{
    if a.len() > 0 {
        let n = a.len() - 1;
        assert(same_summary(a[n], b[n]));
        assert forall|i: int| 0 <= i < n implies same_summary(
            #[trigger] a.drop_last()[i],
            b.drop_last()[i],
        ) by {
            assert(same_summary(a[i], b[i]));
        }
        same_rows(a.drop_last(), b.drop_last());
        assert(traded_in(a.last()) == traded_in(b.last()));
    }
}

/// What a tick leads to.
#[derive(Debug)]
pub enum TickStep {
    /// Nothing but that it is told.
    Told,
    /// The derivatives of an underlying are chosen anew, around a price of its symbol.
    Choose { underlying: String, spot_symbol: String, price: Real, decision: RefreshDecision },
}

/// What changes when derivatives are chosen anew.
pub struct SubscriptionPlan {
    pub diff: SubscriptionDiff,
    /// What the file of derivatives holds.
    pub derivatives_csv: String,
}

/// Following the market data.
pub struct DeltaLive {
    live: LiveUniverse,
    underlyings: TextMap<String>,
    symbols: TextMap<String>,
    seen: usize,
    max_events: usize,
}

impl DeltaLive {
    /// The derivatives that are followed.
    pub closed spec fn universe(&self) -> LiveUniverse {
        self.live
    }

    /// The underlyings of the symbols whose prices derivatives are chosen around.
    pub closed spec fn underlyings(&self) -> Map<Seq<char>, Seq<char>> {
        texts_in(self.underlyings@)
    }

    /// The symbols of the underlyings.
    pub closed spec fn symbols(&self) -> Map<Seq<char>, Seq<char>> {
        texts_in(self.symbols@)
    }

    /// How many ticks were told since every underlying has derivatives.
    pub closed spec fn seen(&self) -> nat {
        self.seen as nat
    }

    /// How many of them are told at most; 0 for any number.
    pub closed spec fn limit(&self) -> nat {
        self.max_events as nat
    }

    /// Whether the derivatives of some underlying were not chosen yet.
    pub open spec fn is_waiting(&self) -> bool {
        ascending_of(self.universe().summaries().dom()).len() < ascending_of(
            self.universe().states().dom(),
        ).len()
    }

    /// Follows underlyings, of which nothing is known yet.
    pub fn start(
        references: &Vec<DeltaSpotReference>,
        refresh_trigger_pct: Real,
        max_events: usize,
    ) -> (r: DeltaLive)
        ensures
            r.universe().in_step(),
            r.universe().states() == fresh_states(
                reference_views(references@),
                refresh_trigger_pct,
            ),
            r.universe().summaries() == Map::<Seq<char>, UniverseSummary>::empty(),
            r.underlyings() == underlyings_of(reference_views(references@)),
            r.symbols() == symbols_of(reference_views(references@)),
            r.seen() == 0,
            r.limit() == max_events,
    {
        let ghost spots = reference_views(references@);
        let mut live = LiveUniverse::new();
        let mut underlyings: TextMap<String> = TextMap::new();
        let mut symbols: TextMap<String> = TextMap::new();
        let mut i: usize = 0;
        assert(spots.take(0) =~= Seq::empty());
        assert(texts_in(underlyings@) =~= Map::empty());
        assert(texts_in(symbols@) =~= Map::empty());
        while i < references.len()
            invariant
                i <= references@.len(),
                spots == reference_views(references@),
                live.in_step(),
                live.states() == fresh_states(spots.take(i as int), refresh_trigger_pct),
                live.summaries() == Map::<Seq<char>, UniverseSummary>::empty(),
                texts_in(underlyings@) == underlyings_of(spots.take(i as int)),
                texts_in(symbols@) == symbols_of(spots.take(i as int)),
            decreases references@.len() - i,
        {
            assert(spots.take(i + 1).drop_last() =~= spots.take(i as int));
            assert(spots.take(i + 1).last() == references@[i as int]@);
            let reference = &references[i];
            let ghost a = underlyings@;
            let ghost b = symbols@;
            live.follow(reference.underlying.as_str(), refresh_trigger_pct);
            underlyings.insert(reference.spot_symbol.clone(), reference.underlying.clone());
            symbols.insert(reference.underlying.clone(), reference.spot_symbol.clone());
            assert(texts_in(underlyings@) =~= texts_in(a).insert(
                reference.spot_symbol@,
                reference.underlying@,
            ));
            assert(texts_in(symbols@) =~= texts_in(b).insert(
                reference.underlying@,
                reference.spot_symbol@,
            ));
            i += 1;
        }
        assert(spots.take(i as int) =~= spots);
        DeltaLive { live, underlyings, symbols, seen: 0, max_events }
    }

    /// Whether the derivatives of some underlying were not chosen yet.
    pub fn waits_for_anchors(&self) -> (r: bool)
        ensures
            r == self.is_waiting(),
    {
        self.live.summary_count() < self.live.len()
    }

    /// Whether another tick is waited for.
    pub fn goes_on(&self) -> (r: bool)
        ensures
            r == (self.is_waiting() || self.limit() == 0 || self.seen() < self.limit()),
    {
        self.waits_for_anchors() || self.max_events == 0 || self.seen < self.max_events
    }

    /// The price at which the derivatives around a symbol were last chosen.
    pub fn anchor_for(&self, symbol: &str) -> (r: Option<Real>)
        ensures
            r == if self.underlyings().contains_key(symbol@)
                && self.universe().states().contains_key(self.underlyings()[symbol@]) {
                self.universe().states()[self.underlyings()[symbol@]].anchor
            } else {
                None
            },
    {
        match self.underlyings.get(symbol) {
            Some(underlying) => self.live.anchor(underlying.as_str()),
            None => None,
        }
    }

    /// Takes in a tick of a symbol, whose price is so many percent away from the one at
    /// which derivatives were last chosen around it. It counts where the derivatives of every
    /// underlying were chosen before.
    pub fn on_tick(&mut self, symbol: &str, price: Real, movement_pct: Real) -> (r: Result<
        TickStep,
        FeedError,
    >)
        ensures
            final(self).seen() == if old(self).is_waiting() {
                old(self).seen()
            } else {
                one_more(old(self).seen())
            },
            final(self).limit() == old(self).limit(),
            final(self).underlyings() == old(self).underlyings(),
            final(self).symbols() == old(self).symbols(),
            final(self).universe().summaries() == old(self).universe().summaries(),
            old(self).universe().in_step() ==> final(self).universe().in_step(),
            if !old(self).underlyings().contains_key(symbol@) {
                r matches Ok(TickStep::Told) && final(self).universe().states() == old(self).universe().states()
            } else {
                let underlying = old(self).underlyings()[symbol@];
                let states = old(self).universe().states();
                if !states.contains_key(underlying) || !old(self).symbols().contains_key(
                    underlying,
                ) {
                    &&& r matches Err(e) && e@ == FeedFault::Config(
                        "missing runtime for underlying "@ + underlying,
                    )
                    &&& final(self).universe().states() == states
                } else {
                    let decision = decision_of(states[underlying], price, movement_pct);
                    &&& final(self).universe().states() == states.insert(
                        underlying,
                        anchored_of(states[underlying], price, movement_pct),
                    )
                    &&& match chosen_price(decision) {
                        None => r matches Ok(TickStep::Told),
                        Some(p) => r matches Ok(
                            TickStep::Choose { underlying: u, spot_symbol, price: at, decision: d },
                        ) && u@ == underlying && spot_symbol@ == old(self).symbols()[underlying]
                            && at == p && d == decision,
                    }
                }
            },
    {
        if !self.waits_for_anchors() {
            self.seen = self.seen.saturating_add(1);
        }
        let underlying = match self.underlyings.get(symbol) {
            None => return Ok(TickStep::Told),
            Some(underlying) => underlying.clone(),
        };
        let missing = FeedError::Config(
            "missing runtime for underlying ".to_owned().concat(underlying.as_str()),
        );
        let spot_symbol = match self.symbols.get(underlying.as_str()) {
            None => return Err(missing),
            Some(spot_symbol) => spot_symbol.clone(),
        };
        match self.live.on_price(underlying.as_str(), price, movement_pct) {
            None => Err(missing),
            Some(decision) => match decision {
                RefreshDecision::Initialized { anchor_price } => Ok(
                    TickStep::Choose { underlying, spot_symbol, price: anchor_price, decision },
                ),
                RefreshDecision::Refresh { new_anchor_price, .. } => Ok(
                    TickStep::Choose {
                        underlying,
                        spot_symbol,
                        price: new_anchor_price,
                        decision,
                    },
                ),
                RefreshDecision::Hold { .. } => Ok(TickStep::Told),
            },
        }
    }

    /// Follows what a summary of an underlying asks for, and tells what changes.
    pub fn apply_summary(&mut self, underlying: &str, summary: &UniverseSummary) -> (r: Option<
        SubscriptionPlan,
    >)
        ensures
            final(self).seen() == old(self).seen(),
            final(self).limit() == old(self).limit(),
            final(self).underlyings() == old(self).underlyings(),
            final(self).symbols() == old(self).symbols(),
            old(self).universe().in_step() ==> final(self).universe().in_step(),
            match r {
                None => {
                    &&& !old(self).universe().states().contains_key(underlying@)
                    &&& final(self).universe().states() == old(self).universe().states()
                    &&& final(self).universe().summaries() == old(self).universe().summaries()
                },
                Some(plan) => {
                    let wanted = tradable_symbols(traded_in(*summary));
                    let before = old(self).universe();
                    let after = final(self).universe();
                    &&& before.states().contains_key(underlying@)
                    &&& leads(plan.diff, before.states()[underlying@].symbols, wanted)
                    &&& after.states() == before.states().insert(
                        underlying@,
                        StateFacts { symbols: wanted, ..before.states()[underlying@] },
                    )
                    &&& after.summaries().dom() == before.summaries().dom().insert(underlying@)
                    &&& same_summary(after.summaries()[underlying@], *summary)
                    &&& forall|k: Seq<char>|
                        k != underlying@ && #[trigger] before.summaries().contains_key(k)
                            ==> after.summaries()[k] == before.summaries()[k]
                    &&& plan.derivatives_csv@ == file_of(all_rows_of(listed(after.summaries())))
                },
            },
    {
        match self.live.apply(underlying, summary) {
            None => None,
            Some((diff, _)) => {
                let list = self.live.summary_list();
                proof {
                    same_rows(list@, listed(self.live.summaries()));
                }
                let derivatives_csv = delta_derivatives_csv(&list);
                Some(SubscriptionPlan { diff, derivatives_csv })
            },
        }
    }
}

} // verus!
