//! The derivatives of AngelOne that are followed.
use crate::adapters::universe::{
    all_traded, derivatives_of, of_underlying, summarize, summary_outcome, traded_in, StrikeWindow,
    UniverseSummary,
};
use crate::binary64::Real;
use crate::config::InstrumentSelection;
use crate::feeder::catalog::{InstrumentCatalog, InstrumentDefinition, InstrumentType};
use crate::feeder::error::{FeedError, FeedFault};
use crate::feeder::market_session::{exchange_key, exchange_key_of};
use crate::order::{filter_push, TextMap, TextSet};
use crate::text::views;
use vstd::prelude::*;

verus! {

pub type AngeloneUniverseSummary = UniverseSummary;

/// An instrument whose price derivatives are chosen around.
#[derive(Debug)]
pub struct AngeloneSpotReference {
    pub underlying: String,
    pub spot_symbol: String,
    pub instrument: InstrumentDefinition,
}

/// The derivatives that can be traded.
pub struct AngeloneUniverseCatalog {
    derivatives: Vec<InstrumentDefinition>,
}

/// Tells which instruments are derivatives that can be traded.
pub open spec fn traded_derivative() -> spec_fn(InstrumentDefinition) -> bool {
    |i: InstrumentDefinition| i.instrument_type != InstrumentType::Spot && i.tradable
}

/// Tells which instruments trade at an exchange of a set, where there is one.
pub open spec fn at_exchange(allowed: Option<Set<Seq<char>>>) -> spec_fn(
    InstrumentDefinition,
) -> bool {
    |i: InstrumentDefinition|
        match allowed {
            None => true,
            Some(set) => set.contains(exchange_key_of(i.exchange@)),
        }
}

/// An optional set, as contracts speak of it.
pub open spec fn set_option(set: Option<&TextSet>) -> Option<Set<Seq<char>>> {
    match set {
        Some(s) => Some(s@),
        None => None,
    }
}

fn exchange_allowed(instrument: &InstrumentDefinition, allowed: Option<&TextSet>) -> (r: bool)
    ensures
        r == at_exchange(set_option(allowed))(*instrument),
{
    match allowed {
        None => true,
        Some(set) => set.contains(exchange_key(instrument.exchange.as_str()).as_str()),
    }
}

impl AngeloneUniverseCatalog {
    /// The derivatives that can be traded.
    pub closed spec fn derivatives(&self) -> Seq<InstrumentDefinition> {
        self.derivatives@
    }

    pub fn from_instruments(instruments: &Vec<InstrumentDefinition>) -> (r: AngeloneUniverseCatalog)
        ensures
            r.derivatives() == instruments@.filter(traded_derivative()),
    {
        let ghost f = traded_derivative();
        let mut out: Vec<InstrumentDefinition> = Vec::new();
        let mut i: usize = 0;
        assert(instruments@.take(0).filter(f) =~= Seq::empty()) by {
            reveal(Seq::filter);
        }
        while i < instruments.len()
            invariant
                i <= instruments@.len(),
                f == traded_derivative(),
                out@ == instruments@.take(i as int).filter(f),
            decreases instruments@.len() - i,
        {
            proof {
                filter_push(instruments@.take(i as int), instruments@[i as int], f);
                assert(instruments@.take(i + 1) =~= instruments@.take(i as int).push(
                    instruments@[i as int],
                ));
            }
            if instruments[i].is_derivative() && instruments[i].tradable {
                out.push(instruments[i].clone());
            }
            i += 1;
        }
        assert(instruments@.take(i as int) =~= instruments@);
        AngeloneUniverseCatalog { derivatives: out }
    }

    /// The derivatives of an underlying that are traded on a day, around a price: at the
    /// exchanges of a set, where there is one.
    pub fn build_summary_for_date(
        &self,
        selection: &InstrumentSelection,
        underlying: &str,
        reference_symbol: &str,
        reference_price: Real,
        window: &StrikeWindow,
        today: &str,
        allowed_exchanges: Option<&TextSet>,
    ) -> (r: Result<AngeloneUniverseSummary, FeedError>)
        ensures
            ({
                let list = self.derivatives().filter(of_underlying(underlying@));
                summary_outcome(
                    r,
                    list.filter(at_exchange(set_option(allowed_exchanges))),
                    list.len() > 0,
                    views(selection.instrument_types@),
                    underlying@,
                    reference_symbol@,
                    reference_price,
                    *window,
                    today@,
                )
            }),
    {
        let list = derivatives_of(&self.derivatives, underlying);
        let ghost f = at_exchange(set_option(allowed_exchanges));
        let mut allowed: Vec<InstrumentDefinition> = Vec::new();
        let mut i: usize = 0;
        assert(list@.take(0).filter(f) =~= Seq::empty()) by {
            reveal(Seq::filter);
        }
        while i < list.len()
            invariant
                i <= list@.len(),
                f == at_exchange(set_option(allowed_exchanges)),
                allowed@ == list@.take(i as int).filter(f),
            decreases list@.len() - i,
        {
            proof {
                filter_push(list@.take(i as int), list@[i as int], f);
                assert(list@.take(i + 1) =~= list@.take(i as int).push(list@[i as int]));
            }
            if exchange_allowed(&list[i], allowed_exchanges) {
                allowed.push(list[i].clone());
            }
            i += 1;
        }
        assert(list@.take(i as int) =~= list@);
        summarize(
            &allowed,
            list.len() > 0,
            &selection.instrument_types,
            underlying,
            reference_symbol,
            reference_price,
            window,
            today,
        )
    }
}

/// Tells which instruments can be traded.
pub open spec fn is_tradable() -> spec_fn(InstrumentDefinition) -> bool {
    |i: InstrumentDefinition| i.tradable
}

/// Whether references are for the instruments of a list, one each.
pub open spec fn refer_to(
    references: Seq<AngeloneSpotReference>,
    list: Seq<InstrumentDefinition>,
) -> bool {
    references.len() == list.len() && forall|i: int|
        0 <= i < list.len() ==> {
            &&& #[trigger] references[i].instrument == list[i]
            &&& references[i].underlying@ == list[i].underlying@
            &&& references[i].spot_symbol@ == list[i].trading_symbol@
        }
}

/// The instruments of a catalog that derivatives are chosen around: those that can be traded.
pub fn spot_references_from_base_catalog(catalog: &InstrumentCatalog) -> (r: Result<
    Vec<AngeloneSpotReference>,
    FeedError,
>)
    ensures
        match r {
            Err(e) => catalog.list().filter(is_tradable()).len() == 0 && e@ == FeedFault::Config(
                "AngelOne base_instruments_csv must contain at least one tradable row"@,
            ),
            Ok(references) => references@.len() > 0 && refer_to(
                references@,
                catalog.list().filter(is_tradable()),
            ),
        },
{
    let list = catalog.instruments();
    let ghost f = is_tradable();
    let mut out: Vec<AngeloneSpotReference> = Vec::new();
    let mut i: usize = 0;
    assert(list@.take(0).filter(f) =~= Seq::empty()) by {
        reveal(Seq::filter);
    }
    while i < list.len()
        invariant
            i <= list@.len(),
            f == is_tradable(),
            refer_to(out@, list@.take(i as int).filter(f)),
        decreases list@.len() - i,
    {
        proof {
            filter_push(list@.take(i as int), list@[i as int], f);
            assert(list@.take(i + 1) =~= list@.take(i as int).push(list@[i as int]));
        }
        if list[i].tradable {
            let ghost before = out@;
            out.push(
                AngeloneSpotReference {
                    underlying: list[i].underlying.clone(),
                    spot_symbol: list[i].trading_symbol.clone(),
                    instrument: list[i].clone(),
                },
            );
            assert(forall|k: int| 0 <= k < before.len() ==> out@[k] == before[k]);
        }
        i += 1;
    }
    assert(list@.take(i as int) =~= list@);
    if out.len() == 0 {
        return Err(
            FeedError::Config(
                "AngelOne base_instruments_csv must contain at least one tradable row".to_owned(),
            ),
        );
    }
    Ok(out)
}

/// The instruments of a list that can be traded, under their symbols; of several with one
/// symbol, the last.
pub open spec fn under_symbols(list: Seq<InstrumentDefinition>) -> Map<
    Seq<char>,
    InstrumentDefinition,
>
    decreases list.len(),
{
    if list.len() == 0 {
        Map::empty()
    } else {
        let before = under_symbols(list.drop_last());
        if list.last().tradable {
            before.insert(list.last().trading_symbol@, list.last())
        } else {
            before
        }
    }
}

/// The instruments that a summary asks for, under their symbols.
pub fn selected_instruments_by_symbol(summary: &AngeloneUniverseSummary) -> (r: TextMap<
    InstrumentDefinition,
>)
    ensures
        r@ == under_symbols(traded_in(*summary)),
{
    let all = all_traded(summary);
    let mut map: TextMap<InstrumentDefinition> = TextMap::new();
    let mut i: usize = 0;
    assert(all@.take(0) =~= Seq::empty());
    while i < all.len()
        invariant
            i <= all@.len(),
            map@ == under_symbols(all@.take(i as int)),
        decreases all@.len() - i,
    {
        assert(all@.take(i + 1).drop_last() =~= all@.take(i as int));
        if all[i].tradable {
            map.insert(all[i].trading_symbol.clone(), all[i].clone());
        }
        i += 1;
    }
    assert(all@.take(i as int) =~= all@);
    map
}

/// Under a symbol stands the last instrument of that symbol that can be traded, and under no
/// other symbol any.
pub proof fn symbols_are_of_what_can_be_traded(list: Seq<InstrumentDefinition>, symbol: Seq<char>)
    ensures
        under_symbols(list).contains_key(symbol) <==> exists|i: int|
            0 <= i < list.len() && (#[trigger] list[i]).tradable && list[i].trading_symbol@
                == symbol,
        under_symbols(list).contains_key(symbol) ==> exists|i: int|
            {
                &&& 0 <= i < list.len()
                &&& #[trigger] list[i] == under_symbols(list)[symbol]
                &&& list[i].tradable
                &&& list[i].trading_symbol@ == symbol
                &&& forall|k: int|
                    i < k < list.len() && (#[trigger] list[k]).tradable ==> list[k].trading_symbol@
                        != symbol
            },
    decreases list.len(),
{
    if list.len() > 0 {
        let d = list.drop_last();
        let n = list.len() - 1;
        symbols_are_of_what_can_be_traded(d, symbol);
        assert(list[n] == list.last());
        assert forall|i: int|
            #![trigger d[i]]
            #![trigger list[i]]
            0 <= i < n implies d[i] == list[i] by {}
        if list.last().tradable && list.last().trading_symbol@ == symbol {
            assert(list[n] == under_symbols(list)[symbol]);
        } else if under_symbols(d).contains_key(symbol) {
            let i = choose|i: int|
                {
                    &&& 0 <= i < d.len()
                    &&& #[trigger] d[i] == under_symbols(d)[symbol]
                    &&& d[i].tradable
                    &&& d[i].trading_symbol@ == symbol
                    &&& forall|k: int|
                        i < k < d.len() && (#[trigger] d[k]).tradable ==> d[k].trading_symbol@
                            != symbol
                };
            assert(list[i] == d[i]);
        }
    }
}

/// What is kept of a list are the derivatives that can be traded, and of those at some exchanges
/// the ones that trade there.
pub proof fn kept_derivatives_can_be_traded(
    list: Seq<InstrumentDefinition>,
    allowed: Option<Set<Seq<char>>>,
    i: int,
)
    ensures
        0 <= i < list.filter(traded_derivative()).len() ==> {
            let it = list.filter(traded_derivative())[i];
            &&& list.contains(it)
            &&& it.tradable
            &&& it.instrument_type != InstrumentType::Spot
        },
        0 <= i < list.filter(at_exchange(allowed)).len() ==> {
            let it = list.filter(at_exchange(allowed))[i];
            &&& list.contains(it)
            &&& allowed is Some ==> allowed->0.contains(exchange_key_of(it.exchange@))
        },
        forall|k: int|
            0 <= k < list.len() ==> {
                &&& (#[trigger] list[k]).tradable && list[k].instrument_type
                    != InstrumentType::Spot ==> list.filter(traded_derivative()).contains(list[k])
                &&& allowed is None || allowed->0.contains(exchange_key_of(list[k].exchange@))
                    ==> list.filter(at_exchange(allowed)).contains(list[k])
            },
{
    let (f, g) = (traded_derivative(), at_exchange(allowed));
    if 0 <= i < list.filter(f).len() {
        list.lemma_filter_pred(f, i);
        assert(list.filter(f).contains(list.filter(f)[i]));
        list.lemma_filter_contains_rev(f, list.filter(f)[i]);
    }
    if 0 <= i < list.filter(g).len() {
        list.lemma_filter_pred(g, i);
        assert(list.filter(g).contains(list.filter(g)[i]));
        list.lemma_filter_contains_rev(g, list.filter(g)[i]);
    }
    assert forall|k: int| 0 <= k < list.len() implies {
        &&& (#[trigger] list[k]).tradable && list[k].instrument_type != InstrumentType::Spot
            ==> list.filter(f).contains(list[k])
        &&& allowed is None || allowed->0.contains(exchange_key_of(list[k].exchange@))
            ==> list.filter(g).contains(list[k])
    } by {
        if f(list[k]) {
            list.lemma_filter_contains(f, k);
        }
        if g(list[k]) {
            list.lemma_filter_contains(g, k);
        }
    }
}

} // verus!
