//! The derivatives that are followed while prices come in.
use crate::adapters::universe::{
    derivatives_csv, derivatives_file_of, selected_trading_symbols, summary_rows, tradable_symbols,
    traded_in, UniverseSummary,
};
use crate::binary64::Real;
use crate::feeder::universe::{
    leads, RefreshDecision, SubscriptionDiff, UniverseRefreshState,
};
use crate::order::{ascending_of, sorted_keys, take_to_set, TextMap, TextSet};
use crate::text::views;
use vstd::prelude::*;

verus! {

/// A count with one more in it. It stays at the most that there can be.
pub open spec fn one_more(count: nat) -> nat {
    if count < usize::MAX {
        count + 1
    } else {
        count
    }
}

/// What is known of an underlying, as contracts speak of it: by how many percent its price
/// has to move, the price at which its derivatives were last chosen, and their symbols.
pub struct StateFacts {
    pub trigger: Real,
    pub anchor: Option<Real>,
    pub symbols: Set<Seq<char>>,
}

pub open spec fn state_facts(state: UniverseRefreshState) -> StateFacts {
    StateFacts { trigger: state.trigger(), anchor: state.anchor(), symbols: state.active() }
}

pub open spec fn state_table(states: Map<Seq<char>, UniverseRefreshState>) -> Map<
    Seq<char>,
    StateFacts,
> {
    Map::new(|k: Seq<char>| states.contains_key(k), |k: Seq<char>| state_facts(states[k]))
}

/// What a price leads to.
pub open spec fn decision_of(state: StateFacts, price: Real, movement_pct: Real) -> RefreshDecision {
    match state.anchor {
        None => RefreshDecision::Initialized { anchor_price: price },
        Some(anchor) => if state.trigger.le_of(movement_pct) {
            RefreshDecision::Refresh {
                previous_anchor_price: anchor,
                new_anchor_price: price,
                movement_pct,
            }
        } else {
            RefreshDecision::Hold { anchor_price: anchor, current_price: price, movement_pct }
        },
    }
}

/// What is known of an underlying after a price.
pub open spec fn anchored_of(state: StateFacts, price: Real, movement_pct: Real) -> StateFacts {
    if state.anchor is Some && !state.trigger.le_of(movement_pct) {
        state
    } else {
        StateFacts { anchor: Some(price), ..state }
    }
}

/// The underlyings that are followed, by their keys, with the summaries that their
/// derivatives were last chosen by.
pub struct LiveUniverse {
    states: TextMap<UniverseRefreshState>,
    summaries: TextMap<UniverseSummary>,
}

impl LiveUniverse {
    /// What is known of each underlying.
    pub closed spec fn states(&self) -> Map<Seq<char>, StateFacts> {
        state_table(self.states@)
    }

    /// The summaries that derivatives were last chosen by.
    pub closed spec fn summaries(&self) -> Map<Seq<char>, UniverseSummary> {
        self.summaries@
    }

    /// Whether the symbols that are followed are those that the summaries ask for: of an
    /// underlying with a summary, all of them, and of one without, none.
    pub open spec fn in_step(&self) -> bool {
        &&& forall|k: Seq<char>| #[trigger]
            self.summaries().contains_key(k) ==> self.states().contains_key(k)
        &&& forall|k: Seq<char>| #[trigger]
            self.states().contains_key(k) ==> self.states()[k].symbols
                == if self.summaries().contains_key(k) {
                tradable_symbols(traded_in(self.summaries()[k]))
            } else {
                Set::empty()
            }
    }

    /// No underlying is followed.
    pub fn new() -> (r: LiveUniverse)
        ensures
            r.states() == Map::<Seq<char>, StateFacts>::empty(),
            r.summaries() == Map::<Seq<char>, UniverseSummary>::empty(),
            r.in_step(),
    {
        let r = LiveUniverse { states: TextMap::new(), summaries: TextMap::new() };
        assert(r.states() =~= Map::empty());
        r
    }

    /// Follows an underlying, of which nothing is known yet.
    pub fn follow(&mut self, key: &str, refresh_trigger_pct: Real)
        requires
            !old(self).summaries().contains_key(key@),
        ensures
            final(self).states() == old(self).states().insert(
                key@,
                StateFacts {
                    trigger: refresh_trigger_pct,
                    anchor: None,
                    symbols: Set::empty(),
                },
            ),
            final(self).summaries() == old(self).summaries(),
            old(self).in_step() ==> final(self).in_step(),
    {
        let ghost before = self.states@;
        let state = UniverseRefreshState::new(refresh_trigger_pct);
        let ghost facts = state_facts(state);
        self.states.insert(key.to_owned(), state);
        assert(state_table(self.states@) =~= state_table(before).insert(key@, facts));
    }

    /// How many underlyings are followed.
    pub fn len(&self) -> (r: usize)
        ensures
            r == ascending_of(self.states().dom()).len(),
    {
        assert(self.states().dom() =~= self.states@.dom());
        sorted_keys(&self.states).len()
    }

    /// How many underlyings have a summary.
    pub fn summary_count(&self) -> (r: usize)
        ensures
            r == ascending_of(self.summaries().dom()).len(),
    {
        sorted_keys(&self.summaries).len()
    }

    /// The price at which the derivatives of an underlying were last chosen.
    pub fn anchor(&self, key: &str) -> (r: Option<Real>)
        ensures
            r == if self.states().contains_key(key@) {
                self.states()[key@].anchor
            } else {
                None
            },
    {
        match self.states.get(key) {
            Some(state) => state.anchor_price(),
            None => None,
        }
    }

    /// Takes in a price of an underlying, which is so many percent away from the one at
    /// which its derivatives were last chosen. Nothing comes of it where the underlying is
    /// not followed.
    pub fn on_price(&mut self, key: &str, price: Real, movement_pct: Real) -> (r: Option<
        RefreshDecision,
    >)
        ensures
            final(self).summaries() == old(self).summaries(),
            old(self).in_step() ==> final(self).in_step(),
            match r {
                None => !old(self).states().contains_key(key@) && final(self).states() == old(self).states(),
                Some(decision) => {
                    &&& old(self).states().contains_key(key@)
                    &&& decision == decision_of(old(self).states()[key@], price, movement_pct)
                    &&& final(self).states() == old(self).states().insert(
                        key@,
                        anchored_of(old(self).states()[key@], price, movement_pct),
                    )
                },
            },
    {
        let ghost before = self.states@;
        match self.states.remove(key) {
            None => {
                assert(before.remove(key@) =~= before);
                assert(self.states() =~= old(self).states());
                assert(self.summaries() =~= old(self).summaries());
                assert(old(self).in_step() ==> self.in_step());
                None
            },
            Some(state) => {
                let mut state = state;
                let ghost first = state_facts(state);
                let decision = state.on_underlying_price(price, movement_pct);
                let ghost facts = state_facts(state);
                assert(facts == anchored_of(first, price, movement_pct));
                self.states.insert(key.to_owned(), state);
                assert(state_table(self.states@) =~= state_table(before).insert(key@, facts));
                Some(decision)
            },
        }
    }

    /// Follows what a summary of an underlying asks for, in place of what was followed, and
    /// tells what changes, with the summary that gives way. Nothing comes of it where the
    /// underlying is not followed.
    pub fn apply(&mut self, key: &str, summary: &UniverseSummary) -> (r: Option<
        (SubscriptionDiff, Option<UniverseSummary>),
    >)
        ensures
            old(self).in_step() ==> final(self).in_step(),
            match r {
                None => !old(self).states().contains_key(key@) && final(self).states() == old(self).states() && final(self).summaries() == old(self).summaries(),
                Some((diff, previous)) => {
                    let wanted = tradable_symbols(traded_in(*summary));
                    &&& old(self).states().contains_key(key@)
                    &&& leads(diff, old(self).states()[key@].symbols, wanted)
                    &&& final(self).states() == old(self).states().insert(
                        key@,
                        StateFacts { symbols: wanted, ..old(self).states()[key@] },
                    )
                    &&& final(self).summaries().dom() == old(self).summaries().dom().insert(key@)
                    &&& same_summary(final(self).summaries()[key@], *summary)
                    &&& forall|k: Seq<char>|
                        k != key@ && #[trigger] old(self).summaries().contains_key(k) ==> final(self).summaries()[k] == old(self).summaries()[k]
                    &&& match previous {
                        Some(p) => old(self).summaries().contains_key(key@) && p == old(self).summaries()[key@],
                        None => !old(self).summaries().contains_key(key@),
                    }
                },
            },
    {
        let ghost before = self.states@;
        let ghost first = self.summaries@;
        match self.states.remove(key) {
            None => {
                assert(before.remove(key@) =~= before);
                assert(self.states() =~= old(self).states());
                assert(self.summaries() =~= old(self).summaries());
                assert(old(self).in_step() ==> self.in_step());
                None
            },
            Some(state) => {
                let mut state = state;
                let diff = state.apply_symbols(selected_trading_symbols(summary));
                let ghost facts = state_facts(state);
                self.states.insert(key.to_owned(), state);
                assert(state_table(self.states@) =~= state_table(before).insert(key@, facts));
                let previous = self.summaries.remove(key);
                let copy = summary.clone();
                assert(traded_in(copy) == traded_in(*summary));
                self.summaries.insert(key.to_owned(), copy);
                assert(self.summaries().dom() =~= first.dom().insert(key@));
                assert(self.summaries() =~= first.insert(key@, copy));
                proof {
                    if old(self).in_step() {
                        assert forall|k: Seq<char>| #[trigger]
                            self.summaries().contains_key(k) implies self.states().contains_key(
                            k,
                        ) by {
                            if k != key@ {
                                assert(old(self).summaries().contains_key(k));
                            }
                        }
                        assert forall|k: Seq<char>| #[trigger]
                            self.states().contains_key(k) implies self.states()[k].symbols
                            == if self.summaries().contains_key(k) {
                            tradable_symbols(traded_in(self.summaries()[k]))
                        } else {
                            Set::empty()
                        } by {
                            if k != key@ {
                                assert(old(self).states().contains_key(k));
                            }
                        }
                    }
                }
                assert(old(self).in_step() ==> self.in_step());
                Some((diff, previous))
            },
        }
    }

    /// Follows nothing of an underlying any longer, and tells what changes. Nothing comes of
    /// it where the underlying is not followed.
    pub fn close(&mut self, key: &str) -> (r: Option<SubscriptionDiff>)
        ensures
            old(self).in_step() ==> final(self).in_step(),
            match r {
                None => !old(self).states().contains_key(key@) && final(self).states() == old(self).states() && final(self).summaries() == old(self).summaries(),
                Some(diff) => {
                    &&& old(self).states().contains_key(key@)
                    &&& leads(diff, old(self).states()[key@].symbols, Set::empty())
                    &&& final(self).states() == old(self).states().insert(
                        key@,
                        StateFacts {
                            trigger: old(self).states()[key@].trigger,
                            anchor: None,
                            symbols: Set::empty(),
                        },
                    )
                    &&& final(self).summaries() == old(self).summaries().remove(key@)
                },
            },
    {
        let ghost before = self.states@;
        match self.states.remove(key) {
            None => {
                assert(before.remove(key@) =~= before);
                assert(self.states() =~= old(self).states());
                assert(self.summaries() =~= old(self).summaries());
                assert(old(self).in_step() ==> self.in_step());
                None
            },
            Some(state) => {
                let mut state = state;
                let diff = state.reset();
                let ghost facts = state_facts(state);
                self.states.insert(key.to_owned(), state);
                assert(state_table(self.states@) =~= state_table(before).insert(key@, facts));
                let _gone = self.summaries.remove(key);
                proof {
                    if old(self).in_step() {
                        assert forall|k: Seq<char>| #[trigger]
                            self.summaries().contains_key(k) implies self.states().contains_key(
                            k,
                        ) by {
                            if k != key@ {
                                assert(old(self).summaries().contains_key(k));
                            }
                        }
                        assert forall|k: Seq<char>| #[trigger]
                            self.states().contains_key(k) implies self.states()[k].symbols
                            == if self.summaries().contains_key(k) {
                            tradable_symbols(traded_in(self.summaries()[k]))
                        } else {
                            Set::empty()
                        } by {
                            if k != key@ {
                                assert(old(self).states().contains_key(k));
                            }
                        }
                    }
                }
                Some(diff)
            },
        }
    }

    /// The summaries in ascending order of the underlyings' keys.
    pub fn summary_list(&self) -> (r: Vec<UniverseSummary>)
        ensures
            same_summaries(r@, listed(self.summaries())),
    {
        let keys = sorted_keys(&self.summaries);
        let ghost names = views(keys@);
        let ghost all = listed(self.summaries());
        let mut out: Vec<UniverseSummary> = Vec::new();
        let mut i: usize = 0;
        while i < keys.len()
            invariant
                i <= keys@.len(),
                names == views(keys@),
                names == ascending_of(self.summaries@.dom()),
                names.to_set() == self.summaries@.dom(),
                all == listed(self.summaries()),
                out@.len() == i,
                forall|k: int| 0 <= k < i ==> same_summary(#[trigger] out@[k], all[k]),
            decreases keys@.len() - i,
        {
            assert(names[i as int] == keys@[i as int]@);
            assert(names.to_set().contains(names[i as int]));
            match self.summaries.get(keys[i].as_str()) {
                Some(summary) => out.push(summary.clone()),
                None => {
                    assert(false);
                },
            }
            i += 1;
        }
        out
    }
}

/// Whether two summaries ask for the same.
pub open spec fn same_summary(a: UniverseSummary, b: UniverseSummary) -> bool {
    &&& a.selected_underlying == b.selected_underlying
    &&& a.reference_symbol == b.reference_symbol
    &&& a.reference_price == b.reference_price
    &&& a.spot_or_index_symbols@ == b.spot_or_index_symbols@
    &&& a.futures@ == b.futures@
    &&& a.atm_options@ == b.atm_options@
}

/// Whether two lists of summaries ask for the same.
pub open spec fn same_summaries(a: Seq<UniverseSummary>, b: Seq<UniverseSummary>) -> bool {
    a.len() == b.len() && forall|i: int| 0 <= i < a.len() ==> same_summary(#[trigger] a[i], b[i])
}

/// The summaries of a table in ascending order of its keys.
pub open spec fn listed(summaries: Map<Seq<char>, UniverseSummary>) -> Seq<UniverseSummary> {
    let keys = ascending_of(summaries.dom());
    Seq::new(keys.len(), |i: int| summaries[keys[i]])
}

/// Summaries that ask for the same make the same rows.
pub proof fn same_rows(a: Seq<UniverseSummary>, b: Seq<UniverseSummary>)
    requires
        same_summaries(a, b),
    ensures
        summary_rows(a) == summary_rows(b),
        wanted_symbols(a) == wanted_symbols(b),
    decreases a.len(),
{
    if a.len() > 0 {
        assert(same_summary(a[a.len() - 1], b[a.len() - 1]));
        assert forall|i: int| 0 <= i < a.len() - 1 implies same_summary(
            #[trigger] a.drop_last()[i],
            b.drop_last()[i],
        ) by {
            assert(same_summary(a[i], b[i]));
        }
        same_rows(a.drop_last(), b.drop_last());
        assert(traded_in(a.last()) == traded_in(b.last()));
    }
}

/// The symbols that some summaries ask for.
pub open spec fn wanted_symbols(summaries: Seq<UniverseSummary>) -> Set<Seq<char>>
    decreases summaries.len(),
{
    if summaries.len() == 0 {
        Set::empty()
    } else {
        wanted_symbols(summaries.drop_last()) + tradable_symbols(traded_in(summaries.last()))
    }
}

impl LiveUniverse {
    /// What the file of the derivatives that are followed holds.
    pub fn active_derivatives_csv(&self) -> (r: String)
        ensures
            r@ == derivatives_file_of(listed(self.summaries())),
    {
        let list = self.summary_list();
        proof {
            same_rows(list@, listed(self.summaries()));
        }
        derivatives_csv(&list)
    }

    /// Adds the symbols that the summaries ask for to a set.
    pub fn add_wanted(&self, set: &mut TextSet)
        ensures
            final(set)@ == old(set)@ + wanted_symbols(listed(self.summaries())),
    {
        let list = self.summary_list();
        let ghost before = set@;
        let mut i: usize = 0;
        assert(list@.take(0) =~= Seq::empty());
        assert(before + Set::<Seq<char>>::empty() =~= before);
        while i < list.len()
            invariant
                i <= list@.len(),
                set@ == before + wanted_symbols(list@.take(i as int)),
            decreases list@.len() - i,
        {
            let symbols = selected_trading_symbols(&list[i]);
            let items = symbols.items();
            let ghost all = views(items@);
            let ghost first = set@;
            let mut k: usize = 0;
            assert(all.take(0).to_set() =~= Set::empty());
            assert(first + Set::<Seq<char>>::empty() =~= first);
            while k < items.len()
                invariant
                    k <= items@.len(),
                    all == views(items@),
                    set@ == first + all.take(k as int).to_set(),
                decreases items@.len() - k,
            {
                let _new = set.insert(items[k].clone());
                proof {
                    take_to_set(all, k as int);
                    assert((first + all.take(k as int).to_set()).insert(all[k as int]) =~= first
                        + all.take(k as int).to_set().insert(all[k as int]));
                }
                k += 1;
            }
            assert(all.take(k as int) =~= all);
            i += 1;
            assert(list@.take(i as int).drop_last() =~= list@.take(i - 1));
            assert(set@ =~= before + wanted_symbols(list@.take(i as int)));
        }
        assert(list@.take(i as int) =~= list@);
        proof {
            same_rows(list@, listed(self.summaries()));
        }
    }
}

/// An underlying and its symbol, as contracts speak of them.
pub struct SpotFacts {
    pub underlying: Seq<char>,
    pub spot_symbol: Seq<char>,
}

/// The price around which derivatives are chosen, where they are.
pub open spec fn chosen_price(decision: RefreshDecision) -> Option<Real> {
    match decision {
        RefreshDecision::Initialized { anchor_price } => Some(anchor_price),
        RefreshDecision::Refresh { new_anchor_price, .. } => Some(new_anchor_price),
        RefreshDecision::Hold { .. } => None,
    }
}

/// The underlyings of symbols. A symbol that occurs again goes to the last.
pub open spec fn underlyings_of(references: Seq<SpotFacts>) -> Map<Seq<char>, Seq<char>>
    decreases references.len(),
{
    if references.len() == 0 {
        Map::empty()
    } else {
        underlyings_of(references.drop_last()).insert(
            references.last().spot_symbol,
            references.last().underlying,
        )
    }
}

/// The symbols of underlyings. An underlying that occurs again has the last.
pub open spec fn symbols_of(references: Seq<SpotFacts>) -> Map<Seq<char>, Seq<char>>
    decreases references.len(),
{
    if references.len() == 0 {
        Map::empty()
    } else {
        symbols_of(references.drop_last()).insert(
            references.last().underlying,
            references.last().spot_symbol,
        )
    }
}

/// What is known of underlyings that are followed anew.
pub open spec fn fresh_states(references: Seq<SpotFacts>, trigger: Real) -> Map<
    Seq<char>,
    StateFacts,
>
    decreases references.len(),
{
    if references.len() == 0 {
        Map::empty()
    } else {
        fresh_states(references.drop_last(), trigger).insert(
            references.last().underlying,
            StateFacts { trigger, anchor: None, symbols: Set::empty() },
        )
    }
}

/// Derivatives are chosen at the first price of an underlying, and again where the price has
/// moved by no less than it has to, and then around that price; the underlying is from then on
/// looked at from that price. Else nothing changes.
pub proof fn derivatives_are_chosen_where_the_price_moves(
    state: StateFacts,
    price: Real,
    movement_pct: Real,
)
    ensures
        ({
            let decision = decision_of(state, price, movement_pct);
            let after = anchored_of(state, price, movement_pct);
            let chosen = chosen_price(decision);
            &&& chosen == Some(price) <==> state.anchor is None || (!state.trigger.is_nan()
                && !movement_pct.is_nan() && state.trigger.rank() <= movement_pct.rank())
            &&& chosen is None || chosen == Some(price)
            &&& chosen == Some(price) ==> after.anchor == Some(price)
            &&& chosen is None ==> after == state
            &&& decision matches RefreshDecision::Initialized { anchor_price } ==> anchor_price
                == price && state.anchor is None
            &&& decision matches RefreshDecision::Refresh {
                previous_anchor_price,
                new_anchor_price,
                movement_pct: moved,
            } ==> state.anchor == Some(previous_anchor_price) && new_anchor_price == price && moved
                == movement_pct
            &&& decision matches RefreshDecision::Hold {
                anchor_price,
                current_price,
                movement_pct: moved,
            } ==> state.anchor == Some(anchor_price) && current_price == price && moved
                == movement_pct
            &&& after.trigger == state.trigger
            &&& after.symbols == state.symbols
        }),
{
}

/// The symbols that some summaries ask for are those that each of them asks for, all of them.
pub proof fn wanted_symbols_are_those_of_each(summaries: Seq<UniverseSummary>, symbol: Seq<char>)
    ensures
        wanted_symbols(summaries).contains(symbol) <==> exists|i: int|
            0 <= i < summaries.len() && tradable_symbols(
                (#[trigger] summaries[i]).futures@ + summaries[i].atm_options@,
            ).contains(symbol),
    decreases summaries.len(),
{
    if summaries.len() > 0 {
        let d = summaries.drop_last();
        let n = summaries.len() - 1;
        wanted_symbols_are_those_of_each(d, symbol);
        assert(summaries[n] == summaries.last());
        assert forall|i: int|
            #![trigger d[i]]
            #![trigger summaries[i]]
            0 <= i < n implies d[i] == summaries[i] by {}
        if wanted_symbols(d).contains(symbol) {
            let i = choose|i: int|
                0 <= i < d.len() && tradable_symbols(
                    (#[trigger] d[i]).futures@ + d[i].atm_options@,
                ).contains(symbol);
            assert(summaries[i] == d[i]);
        }
    }
}

/// Where no symbol and no underlying is named twice, each symbol stands for its underlying and
/// each underlying has its symbol, and each underlying is followed with nothing known of it.
pub proof fn references_go_both_ways(references: Seq<SpotFacts>, trigger: Real, i: int)
    requires
        0 <= i < references.len(),
        forall|a: int, b: int|
            0 <= a < b < references.len() ==> (#[trigger] references[a]).spot_symbol != (
            #[trigger] references[b]).spot_symbol && references[a].underlying
                != references[b].underlying,
    ensures
        ({
            let one = references[i];
            let state = fresh_states(references, trigger)[one.underlying];
            &&& underlyings_of(references).contains_key(one.spot_symbol)
            &&& underlyings_of(references)[one.spot_symbol] == one.underlying
            &&& symbols_of(references).contains_key(one.underlying)
            &&& symbols_of(references)[one.underlying] == one.spot_symbol
            &&& fresh_states(references, trigger).contains_key(one.underlying)
            &&& state.trigger == trigger
            &&& state.anchor is None
            &&& state.symbols == Set::<Seq<char>>::empty()
        }),
    decreases references.len(),
{
    let d = references.drop_last();
    if i < d.len() {
        assert forall|a: int, b: int| 0 <= a < b < d.len() implies (#[trigger] d[a]).spot_symbol
            != (#[trigger] d[b]).spot_symbol && d[a].underlying != d[b].underlying by {
            assert(d[a] == references[a] && d[b] == references[b]);
        }
        references_go_both_ways(d, trigger, i);
        assert(references[i].spot_symbol != references[references.len() - 1].spot_symbol);
    }
}

} // verus!
