//! Following the market data of AngelOne.
use crate::adapters::angelone::universe::{
    selected_instruments_by_symbol, under_symbols, AngeloneSpotReference,
};
use crate::adapters::live_universe::{
    anchored_of, chosen_price, decision_of, listed, one_more, same_summaries, same_summary,
    LiveUniverse, StateFacts,
};
use crate::adapters::universe::{
    all_traded, derivatives_file_of, tradable_symbols, traded_in, UniverseSummary,
};
use crate::binary64::Real;
use crate::feeder::catalog::{InstrumentCatalog, InstrumentDefinition};
use crate::feeder::error::{FeedError, FeedFault};
use crate::feeder::market_session::{is_exchange_open, MarketSessionSchedule, PolicyFacts};
use crate::feeder::universe::{difference, leads, RefreshDecision, SubscriptionDiff};
use crate::order::{
    ascending_of, ascending_of_holds, ascending_of_is, texts_in, TextMap, TextSet,
};
use crate::text::{same, views};
use vstd::prelude::*;

verus! {

/// The key that a reference is followed under.
pub open spec fn reference_key_of(reference: AngeloneSpotReference) -> Seq<char> {
    reference.instrument.instrument_name@
}

/// The keys of the references whose exchange may be followed at a moment.
pub open spec fn active_keys_of(
    references: Seq<AngeloneSpotReference>,
    policies: Seq<PolicyFacts>,
    now: u64,
) -> Set<Seq<char>>
    decreases references.len(),
{
    if references.len() == 0 {
        Set::empty()
    } else {
        let before = active_keys_of(references.drop_last(), policies, now);
        if is_exchange_open(policies, references.last().instrument.exchange@, now) {
            before.insert(reference_key_of(references.last()))
        } else {
            before
        }
    }
}

/// The keys of the references whose exchange may be followed at a moment.
pub fn active_reference_keys_for(
    references: &Vec<AngeloneSpotReference>,
    schedule: &MarketSessionSchedule,
    now_utc: u64,
) -> (r: TextSet)
    ensures
        r@ == active_keys_of(references@, schedule.policies(), now_utc),
{
    let mut set = TextSet::new();
    let mut i: usize = 0;
    assert(references@.take(0) =~= Seq::empty());
    while i < references.len()
        invariant
            i <= references@.len(),
            set@ == active_keys_of(references@.take(i as int), schedule.policies(), now_utc),
        decreases references@.len() - i,
    {
        assert(references@.take(i + 1).drop_last() =~= references@.take(i as int));
        let instrument = &references[i].instrument;
        if schedule.is_exchange_active(instrument.exchange.as_str(), now_utc) {
            let _new = set.insert(instrument.instrument_name.to_text());
        }
        i += 1;
    }
    assert(references@.take(i as int) =~= references@);
    set
}

/// The place of the first reference with a key, or how many there are where none has it.
pub open spec fn reference_place(references: Seq<AngeloneSpotReference>, key: Seq<char>) -> int
    decreases references.len(),
{
    if references.len() == 0 || reference_key_of(references[0]) == key {
        0
    } else {
        1 + reference_place(references.skip(1), key)
    }
}

proof fn reference_place_is(references: Seq<AngeloneSpotReference>, key: Seq<char>, i: int)
    requires
        0 <= i <= references.len(),
        forall|k: int| 0 <= k < i ==> reference_key_of(#[trigger] references[k]) != key,
        i < references.len() ==> reference_key_of(references[i]) == key,
    ensures
        reference_place(references, key) == i,
    decreases references.len(),
{
    if references.len() > 0 && reference_key_of(references[0]) != key {
        assert forall|k: int| 0 <= k < i - 1 implies reference_key_of(
            #[trigger] references.skip(1)[k],
        ) != key by {
            assert(reference_key_of(references[k + 1]) != key);
        }
        reference_place_is(references.skip(1), key, i - 1);
    }
}

/// The place of the first reference with a key, where one has it.
pub fn spot_reference_by_key(references: &Vec<AngeloneSpotReference>, key: &str) -> (r: Option<
    usize,
>)
    ensures
        match r {
            Some(i) => i == reference_place(references@, key@) && i < references@.len(),
            None => reference_place(references@, key@) == references@.len(),
        },
{
    let mut i: usize = 0;
    while i < references.len()
        invariant
            i <= references@.len(),
            forall|k: int| 0 <= k < i ==> reference_key_of(#[trigger] references@[k]) != key@,
        decreases references@.len() - i,
    {
        if same(references[i].instrument.instrument_name.as_str(), key) {
            proof {
                reference_place_is(references@, key@, i as int);
            }
            return Some(i);
        }
        i += 1;
    }
    proof {
        reference_place_is(references@, key@, i as int);
    }
    None
}

/// What is known of references that are followed anew.
pub open spec fn fresh_states(references: Seq<AngeloneSpotReference>, trigger: Real) -> Map<
    Seq<char>,
    StateFacts,
>
    decreases references.len(),
{
    if references.len() == 0 {
        Map::empty()
    } else {
        fresh_states(references.drop_last(), trigger).insert(
            reference_key_of(references.last()),
            StateFacts { trigger, anchor: None, symbols: Set::empty() },
        )
    }
}

/// The names under which instruments are known to a strategy, by their symbols; of several
/// with one symbol, the last.
pub open spec fn strategy_names_of(list: Seq<InstrumentDefinition>) -> Map<Seq<char>, Seq<char>>
    decreases list.len(),
{
    if list.len() == 0 {
        Map::empty()
    } else {
        strategy_names_of(list.drop_last()).insert(
            list.last().trading_symbol@,
            list.last().instrument_name@,
        )
    }
}

/// The names under which the instruments of a catalog are known to a strategy.
pub fn strategy_instrument_names(catalog: &InstrumentCatalog) -> (r: TextMap<String>)
    ensures
        texts_in(r@) == strategy_names_of(catalog.list()),
{
    let list = catalog.instruments();
    let mut map: TextMap<String> = TextMap::new();
    let mut i: usize = 0;
    assert(list@.take(0) =~= Seq::empty());
    assert(texts_in(map@) =~= Map::empty());
    while i < list.len()
        invariant
            i <= list@.len(),
            texts_in(map@) == strategy_names_of(list@.take(i as int)),
        decreases list@.len() - i,
    {
        let ghost before = map@;
        assert(list@.take(i + 1).drop_last() =~= list@.take(i as int));
        let one = &list[i];
        map.insert(one.trading_symbol.clone(), one.instrument_name.to_text());
        assert(texts_in(map@) =~= texts_in(before).insert(
            one.trading_symbol@,
            one.instrument_name@,
        ));
        i += 1;
    }
    assert(list@.take(i as int) =~= list@);
    map
}

/// The names of the instruments of a list.
pub open spec fn names_in(list: Seq<InstrumentDefinition>) -> Seq<Seq<char>> {
    Seq::new(list.len(), |i: int| list[i].instrument_name@)
}

/// The names of all that some summaries ask for.
pub open spec fn summary_names(summaries: Seq<UniverseSummary>) -> Seq<Seq<char>>
    decreases summaries.len(),
{
    if summaries.len() == 0 {
        Seq::empty()
    } else {
        summary_names(summaries.drop_last()) + names_in(traded_in(summaries.last()))
    }
}

/// The names of the references whose keys are in a set.
pub open spec fn active_names(references: Seq<AngeloneSpotReference>, active: Set<Seq<char>>) -> Seq<
    Seq<char>,
>
    decreases references.len(),
{
    if references.len() == 0 {
        Seq::empty()
    } else {
        let before = active_names(references.drop_last(), active);
        if active.contains(reference_key_of(references.last())) {
            before.push(reference_key_of(references.last()))
        } else {
            before
        }
    }
}

/// The names whose ticks are taken in: those of the references that are followed, and of the
/// derivatives around them.
pub open spec fn tracked_of(
    references: Seq<AngeloneSpotReference>,
    active: Set<Seq<char>>,
    summaries: Map<Seq<char>, UniverseSummary>,
) -> Seq<Seq<char>> {
    active_names(references, active) + summary_names(listed(summaries))
}

proof fn same_names(a: Seq<UniverseSummary>, b: Seq<UniverseSummary>)
    requires
        same_summaries(a, b),
    ensures
        summary_names(a) == summary_names(b),
    decreases a.len(),
{
    if a.len() > 0 {
        let n = a.len() - 1;
        assert(same_summary(a[n], b[n]));
        assert forall|i: int| 0 <= i < n implies same_summary(
            #[trigger] a.drop_last()[i],
            b.drop_last()[i],
        ) by {
            assert(same_summary(a[i], b[i]));
        }
        same_names(a.drop_last(), b.drop_last());
        assert(traded_in(a.last()) == traded_in(b.last()));
    }
}

fn tracked_symbols(
    references: &Vec<AngeloneSpotReference>,
    active: &TextSet,
    live: &LiveUniverse,
) -> (r: Vec<String>)
    ensures
        views(r@) == tracked_of(references@, active@, live.summaries()),
{
    let mut out: Vec<String> = Vec::new();
    let mut i: usize = 0;
    assert(references@.take(0) =~= Seq::empty());
    assert(views(out@) =~= Seq::empty());
    while i < references.len()
        invariant
            i <= references@.len(),
            views(out@) == active_names(references@.take(i as int), active@),
        decreases references@.len() - i,
    {
        let ghost before = views(out@);
        assert(references@.take(i + 1).drop_last() =~= references@.take(i as int));
        let name = references[i].instrument.instrument_name.to_text();
        if active.contains(name.as_str()) {
            out.push(name);
            assert(views(out@) =~= before.push(name@));
        }
        i += 1;
    }
    assert(references@.take(i as int) =~= references@);
    let ghost first = views(out@);
    let list = live.summary_list();
    let mut k: usize = 0;
    assert(list@.take(0) =~= Seq::empty());
    assert(views(out@) =~= first + summary_names(list@.take(0)));
    while k < list.len()
        invariant
            k <= list@.len(),
            views(out@) == first + summary_names(list@.take(k as int)),
        decreases list@.len() - k,
    {
        assert(list@.take(k + 1).drop_last() =~= list@.take(k as int));
        push_names(&mut out, &list[k]);
        assert(views(out@) =~= first + summary_names(list@.take(k + 1)));
        k += 1;
    }
    assert(list@.take(k as int) =~= list@);
    proof {
        same_names(list@, listed(live.summaries()));
    }
    out
}

fn push_names(out: &mut Vec<String>, summary: &UniverseSummary)
    ensures
        views(final(out)@) == views(old(out)@) + names_in(traded_in(*summary)),
{
    let ghost first = views(out@);
    let all = all_traded(summary);
    let ghost names = names_in(all@);
    let mut i: usize = 0;
    assert(views(out@) =~= first + names.take(0));
    while i < all.len()
        invariant
            i <= all@.len(),
            names == names_in(all@),
            views(out@) == first + names.take(i as int),
        decreases all@.len() - i,
    {
        let ghost before = views(out@);
        let name = all[i].instrument_name.to_text();
        out.push(name);
        assert(views(out@) =~= before.push(name@));
        i += 1;
        assert(views(out@) =~= first + names.take(i as int));
    }
    assert(names.take(i as int) =~= names);
}

/// What is known of underlyings after those with some keys are no longer followed.
pub open spec fn closed_states(states: Map<Seq<char>, StateFacts>, keys: Seq<Seq<char>>) -> Map<
    Seq<char>,
    StateFacts,
>
    decreases keys.len(),
{
    if keys.len() == 0 {
        states
    } else {
        let before = closed_states(states, keys.drop_last());
        if before.contains_key(keys.last()) {
            before.insert(
                keys.last(),
                StateFacts {
                    trigger: before[keys.last()].trigger,
                    anchor: None,
                    symbols: Set::empty(),
                },
            )
        } else {
            before
        }
    }
}

/// The summaries that stay after underlyings with some keys are no longer followed.
pub open spec fn closed_summaries(
    summaries: Map<Seq<char>, UniverseSummary>,
    states: Map<Seq<char>, StateFacts>,
    keys: Seq<Seq<char>>,
) -> Map<Seq<char>, UniverseSummary>
    decreases keys.len(),
{
    if keys.len() == 0 {
        summaries
    } else {
        let before = closed_summaries(summaries, states, keys.drop_last());
        if states.contains_key(keys.last()) {
            before.remove(keys.last())
        } else {
            before
        }
    }
}

proof fn closing_keeps_keys(states: Map<Seq<char>, StateFacts>, keys: Seq<Seq<char>>)
    ensures
        closed_states(states, keys).dom() == states.dom(),
    decreases keys.len(),
{
    if keys.len() > 0 {
        closing_keeps_keys(states, keys.drop_last());
        assert(closed_states(states, keys).dom() =~= states.dom());
    }
}

/// The symbols that are no longer asked for when underlyings with some keys are no longer
/// followed, as they are told, one group after another: for each, those of its derivatives,
/// and its own.
pub open spec fn left_of(
    keys: Seq<Seq<char>>,
    states: Map<Seq<char>, StateFacts>,
    references: Seq<AngeloneSpotReference>,
) -> Seq<Seq<Seq<char>>>
    decreases keys.len(),
{
    if keys.len() == 0 {
        Seq::empty()
    } else {
        let before = left_of(keys.drop_last(), states, references);
        let key = keys.last();
        let now = closed_states(states, keys.drop_last());
        let place = reference_place(references, key);
        before + (if now.contains_key(key) {
            seq![ascending_of(now[key].symbols)]
        } else {
            Seq::empty()
        }) + (if place < references.len() {
            seq![seq![references[place].spot_symbol@]]
        } else {
            Seq::empty()
        })
    }
}

/// The instruments of the references with some keys.
pub open spec fn instruments_under(keys: Seq<Seq<char>>, references: Seq<AngeloneSpotReference>) -> Seq<
    InstrumentDefinition,
>
    decreases keys.len(),
{
    if keys.len() == 0 {
        Seq::empty()
    } else {
        let before = instruments_under(keys.drop_last(), references);
        let place = reference_place(references, keys.last());
        if place < references.len() {
            before.push(references[place].instrument)
        } else {
            before
        }
    }
}

fn opening_instruments(keys: &Vec<String>, references: &Vec<AngeloneSpotReference>) -> (r: Vec<
    InstrumentDefinition,
>)
    ensures
        r@ == instruments_under(views(keys@), references@),
{
    let ghost all = views(keys@);
    let mut out: Vec<InstrumentDefinition> = Vec::new();
    let mut i: usize = 0;
    assert(all.take(0) =~= Seq::empty());
    while i < keys.len()
        invariant
            i <= keys@.len(),
            all == views(keys@),
            out@ == instruments_under(all.take(i as int), references@),
        decreases keys@.len() - i,
    {
        assert(all.take(i + 1).drop_last() =~= all.take(i as int));
        assert(all.take(i + 1).last() == keys@[i as int]@);
        if let Some(place) = spot_reference_by_key(references, keys[i].as_str()) {
            out.push(references[place].instrument.clone());
        }
        i += 1;
    }
    assert(all.take(i as int) =~= all);
    out
}

/// The groups of a list, as contracts speak of them.
pub open spec fn group_views(groups: Seq<Vec<String>>) -> Seq<Seq<Seq<char>>> {
    Seq::new(groups.len(), |i: int| views(groups[i]@))
}

/// What changes when the exchanges that may be followed change.
pub struct SessionPlan {
    pub opening: Vec<String>,
    pub closing: Vec<String>,
    /// The symbols that are no longer asked for, one group after another.
    pub leave: Vec<Vec<String>>,
    /// The instruments that are asked for.
    pub subscribe: Vec<InstrumentDefinition>,
    /// What the file of derivatives holds.
    pub derivatives_csv: String,
    /// The names whose ticks are taken in.
    pub watched: Vec<String>,
}

/// What changes when derivatives are chosen anew.
pub struct SubscriptionPlan {
    pub diff: SubscriptionDiff,
    /// The instruments that are asked for.
    pub subscribe: Vec<InstrumentDefinition>,
    /// What the file of derivatives holds.
    pub derivatives_csv: String,
    /// The names whose ticks are taken in.
    pub watched: Vec<String>,
}

/// What a tick leads to.
#[derive(Debug)]
pub enum TickStep {
    /// Nothing: it is not taken in.
    Skipped,
    /// Nothing but that it is told.
    Told,
    /// Derivatives are chosen anew, around a price of a reference.
    Choose { place: usize, price: Real, decision: RefreshDecision },
}

/// The instruments of symbols, in the order of the symbols.
pub open spec fn picked_of(symbols: Seq<Seq<char>>, table: Map<Seq<char>, InstrumentDefinition>) -> Seq<
    InstrumentDefinition,
>
    decreases symbols.len(),
{
    if symbols.len() == 0 {
        Seq::empty()
    } else {
        let before = picked_of(symbols.drop_last(), table);
        if table.contains_key(symbols.last()) {
            before.push(table[symbols.last()])
        } else {
            before
        }
    }
}

fn pick(symbols: &Vec<String>, table: &TextMap<InstrumentDefinition>) -> (r: Vec<
    InstrumentDefinition,
>)
    ensures
        r@ == picked_of(views(symbols@), table@),
{
    let ghost all = views(symbols@);
    let mut out: Vec<InstrumentDefinition> = Vec::new();
    let mut i: usize = 0;
    assert(all.take(0) =~= Seq::empty());
    while i < symbols.len()
        invariant
            i <= symbols@.len(),
            all == views(symbols@),
            out@ == picked_of(all.take(i as int), table@),
        decreases symbols@.len() - i,
    {
        assert(all.take(i + 1).drop_last() =~= all.take(i as int));
        assert(all.take(i + 1).last() == symbols@[i as int]@);
        if let Some(one) = table.get(symbols[i].as_str()) {
            out.push(one.clone());
        }
        i += 1;
    }
    assert(all.take(i as int) =~= all);
    out
}

/// Following the market data.
pub struct AngeloneLive {
    references: Vec<AngeloneSpotReference>,
    live: LiveUniverse,
    active: TextSet,
    watched: TextSet,
    seen: usize,
    max_events: usize,
}

impl AngeloneLive {
    /// The references that derivatives are chosen around.
    pub closed spec fn references(&self) -> Seq<AngeloneSpotReference> {
        self.references@
    }

    /// The derivatives that are followed.
    pub closed spec fn universe(&self) -> LiveUniverse {
        self.live
    }

    /// The keys of the references that are followed.
    pub closed spec fn active(&self) -> Set<Seq<char>> {
        self.active@
    }

    /// The names whose ticks are taken in.
    pub closed spec fn watched(&self) -> Set<Seq<char>> {
        self.watched@
    }

    /// How many ticks were told.
    pub closed spec fn seen(&self) -> nat {
        self.seen as nat
    }

    /// How many ticks are told at most; 0 for any number.
    pub closed spec fn limit(&self) -> nat {
        self.max_events as nat
    }

    /// Whether the ticks that are taken in are those of the references that are followed and
    /// of the derivatives around them.
    pub open spec fn in_step(&self) -> bool {
        &&& self.universe().in_step()
        &&& self.watched() == tracked_of(
            self.references(),
            self.active(),
            self.universe().summaries(),
        ).to_set()
    }

    /// Follows references, of which nothing is known yet, and none of which is followed.
    pub fn start(
        references: Vec<AngeloneSpotReference>,
        refresh_trigger_pct: Real,
        max_events: usize,
    ) -> (r: AngeloneLive)
        ensures
            r.references() == references@,
            r.universe().states() == fresh_states(references@, refresh_trigger_pct),
            r.universe().summaries() == Map::<Seq<char>, UniverseSummary>::empty(),
            r.active() == Set::<Seq<char>>::empty(),
            r.watched() == Set::<Seq<char>>::empty(),
            r.seen() == 0,
            r.limit() == max_events,
            r.universe().in_step(),
    {
        let mut live = LiveUniverse::new();
        let mut i: usize = 0;
        assert(references@.take(0) =~= Seq::empty());
        while i < references.len()
            invariant
                i <= references@.len(),
                live.in_step(),
                live.states() == fresh_states(references@.take(i as int), refresh_trigger_pct),
                live.summaries() == Map::<Seq<char>, UniverseSummary>::empty(),
            decreases references@.len() - i,
        {
            assert(references@.take(i + 1).drop_last() =~= references@.take(i as int));
            live.follow(
                references[i].instrument.instrument_name.as_str(),
                refresh_trigger_pct,
            );
            i += 1;
        }
        assert(references@.take(i as int) =~= references@);
        AngeloneLive {
            references,
            live,
            active: TextSet::new(),
            watched: TextSet::new(),
            seen: 0,
            max_events,
        }
    }

    /// Whether another tick is waited for.
    pub fn goes_on(&self) -> (r: bool)
        ensures
            r == (self.limit() == 0 || self.seen() < self.limit()),
    {
        self.max_events == 0 || self.seen < self.max_events
    }

    /// A reference, by its place.
    pub fn reference(&self, place: usize) -> (r: &AngeloneSpotReference)
        requires
            place < self.references().len(),
        ensures
            *r == self.references()[place as int],
    {
        &self.references[place]
    }

    /// The price at which the derivatives around a reference were last chosen.
    pub fn anchor_for(&self, name: &str) -> (r: Option<Real>)
        ensures
            r == if self.universe().states().contains_key(name@) {
                self.universe().states()[name@].anchor
            } else {
                None
            },
    {
        self.live.anchor(name)
    }

    /// The name under which a tick is handed to a strategy, and whether it is one of a
    /// reference. `names` holds the names of the instruments whose symbols ticks go by.
    pub fn strategy_instrument(&self, names: &TextMap<String>, name: &str) -> (r: (String, bool))
        ensures
            r.0@ == if texts_in(names@).contains_key(name@) {
                texts_in(names@)[name@]
            } else {
                name@
            },
            r.1 == (reference_place(self.references(), name@) < self.references().len()),
    {
        let instrument = match names.get(name) {
            Some(known) => known.clone(),
            None => name.to_owned(),
        };
        (instrument, spot_reference_by_key(&self.references, name).is_some())
    }

    /// Follows the references whose exchange may be followed at a moment, and no others, and
    /// tells what changes, where something does.
    pub fn apply_session_state(&mut self, schedule: &MarketSessionSchedule, now_utc: u64) -> (r:
        Option<SessionPlan>)
        ensures
            final(self).references() == old(self).references(),
            final(self).seen() == old(self).seen(),
            final(self).limit() == old(self).limit(),
            final(self).active() == active_keys_of(
                old(self).references(),
                schedule.policies(),
                now_utc,
            ),
            old(self).universe().in_step() ==> final(self).universe().in_step(),
            old(self).in_step() ==> final(self).in_step(),
            match r {
                None => *final(self) == *old(self),
                Some(plan) => {
                    let closing = old(self).active() - final(self).active();
                    let states = old(self).universe().states();
                    &&& old(self).active() != final(self).active()
                    &&& views(plan.closing@) == ascending_of(closing)
                    &&& views(plan.opening@) == ascending_of(
                        final(self).active() - old(self).active(),
                    )
                    &&& group_views(plan.leave@) == left_of(
                        ascending_of(closing),
                        states,
                        old(self).references(),
                    )
                    &&& plan.subscribe@ == instruments_under(
                        views(plan.opening@),
                        old(self).references(),
                    )
                    &&& final(self).universe().states() == closed_states(
                        states,
                        ascending_of(closing),
                    )
                    &&& final(self).universe().summaries() == closed_summaries(
                        old(self).universe().summaries(),
                        states,
                        ascending_of(closing),
                    )
                    &&& plan.derivatives_csv@ == derivatives_file_of(
                        listed(final(self).universe().summaries()),
                    )
                    &&& views(plan.watched@) == tracked_of(
                        final(self).references(),
                        final(self).active(),
                        final(self).universe().summaries(),
                    )
                    &&& final(self).watched() == views(plan.watched@).to_set()
                },
            },
    {
        let next = active_reference_keys_for(&self.references, schedule, now_utc);
        if next.same_as(&self.active) {
            return None;
        }
        let closing = difference(&self.active, &next);
        let opening = difference(&next, &self.active);
        let ghost keys = views(closing@);
        proof {
            ascending_of_is(keys);
            ascending_of_is(views(opening@));
        }
        let ghost states = self.live.states();
        let ghost summaries = self.live.summaries();
        let ghost stepped = self.live.in_step();
        let mut leave: Vec<Vec<String>> = Vec::new();
        let mut i: usize = 0;
        assert(keys.take(0) =~= Seq::empty());
        assert(group_views(leave@) =~= Seq::empty());
        while i < closing.len()
            invariant
                i <= closing@.len(),
                keys == views(closing@),
                self.references@ == old(self).references(),
                self.active@ == old(self).active(),
                self.seen() == old(self).seen(),
                self.limit() == old(self).limit(),
                stepped ==> self.live.in_step(),
                self.live.states() == closed_states(states, keys.take(i as int)),
                self.live.summaries() == closed_summaries(summaries, states, keys.take(i as int)),
                group_views(leave@) == left_of(keys.take(i as int), states, self.references@),
            decreases closing@.len() - i,
        {
            let ghost before = group_views(leave@);
            let ghost now = self.live.states();
            assert(keys.take(i + 1).drop_last() =~= keys.take(i as int));
            assert(keys.take(i + 1).last() == closing@[i as int]@);
            proof {
                closing_keeps_keys(states, keys.take(i as int));
            }
            let key = closing[i].as_str();
            if let Some(diff) = self.live.close(key) {
                proof {
                    assert(now[key@].symbols.difference(Set::empty()) =~= now[key@].symbols);
                    ascending_of_is(views(diff.unsubscribe@));
                }
                leave.push(diff.unsubscribe);
                assert(group_views(leave@) =~= before + seq![ascending_of(now[key@].symbols)]);
            } else {
                assert(group_views(leave@) =~= before + Seq::empty());
            }
            let ghost middle = group_views(leave@);
            if let Some(place) = spot_reference_by_key(&self.references, key) {
                let mut one: Vec<String> = Vec::new();
                one.push(self.references[place].spot_symbol.clone());
                assert(views(one@) =~= seq![self.references@[place as int].spot_symbol@]);
                leave.push(one);
                assert(group_views(leave@) =~= middle + seq![
                    seq![self.references@[place as int].spot_symbol@],
                ]);
            } else {
                assert(group_views(leave@) =~= middle + Seq::empty());
            }
            i += 1;
        }
        assert(keys.take(i as int) =~= keys);
        let subscribe = opening_instruments(&opening, &self.references);
        self.active = next;
        let derivatives_csv = self.live.active_derivatives_csv();
        let watched = tracked_symbols(&self.references, &self.active, &self.live);
        self.watched = TextSet::from_list(&watched);
        Some(SessionPlan { opening, closing, leave, subscribe, derivatives_csv, watched })
    }

    /// Takes in a tick, whose price is so many percent away from the one at which derivatives
    /// were last chosen around its instrument.
    pub fn on_tick(&mut self, name: &str, price: Real, movement_pct: Real) -> (r: Result<
        TickStep,
        FeedError,
    >)
        ensures
            final(self).references() == old(self).references(),
            final(self).limit() == old(self).limit(),
            final(self).active() == old(self).active(),
            final(self).watched() == old(self).watched(),
            final(self).universe().summaries() == old(self).universe().summaries(),
            old(self).in_step() ==> final(self).in_step(),
            final(self).seen() == if old(self).watched().contains(name@) {
                one_more(old(self).seen())
            } else {
                old(self).seen()
            },
            ({
                let states = old(self).universe().states();
                let place = reference_place(old(self).references(), name@);
                if !old(self).watched().contains(name@) {
                    r matches Ok(TickStep::Skipped) && final(self).universe().states() == states
                } else if place == old(self).references().len() || !old(self).active().contains(
                    name@,
                ) {
                    r matches Ok(TickStep::Told) && final(self).universe().states() == states
                } else if !states.contains_key(name@) {
                    &&& r matches Err(e) && e@ == FeedFault::Config(
                        "missing AngelOne runtime for reference "@ + name@,
                    )
                    &&& final(self).universe().states() == states
                } else {
                    let decision = decision_of(states[name@], price, movement_pct);
                    &&& final(self).universe().states() == states.insert(
                        name@,
                        anchored_of(states[name@], price, movement_pct),
                    )
                    &&& match chosen_price(decision) {
                        None => r matches Ok(TickStep::Told),
                        Some(p) => r matches Ok(
                            TickStep::Choose { place: at, price: around, decision: d },
                        ) && at == place && around == p && d == decision,
                    }
                }
            }),
    {
        if !self.watched.contains(name) {
            return Ok(TickStep::Skipped);
        }
        self.seen = self.seen.saturating_add(1);
        let place = match spot_reference_by_key(&self.references, name) {
            None => return Ok(TickStep::Told),
            Some(place) => place,
        };
        if !self.active.contains(name) {
            return Ok(TickStep::Told);
        }
        match self.live.on_price(name, price, movement_pct) {
            None => Err(
                FeedError::Config("missing AngelOne runtime for reference ".to_owned().concat(name)),
            ),
            Some(decision) => match decision {
                RefreshDecision::Initialized { anchor_price } => Ok(
                    TickStep::Choose { place, price: anchor_price, decision },
                ),
                RefreshDecision::Refresh { new_anchor_price, .. } => Ok(
                    TickStep::Choose { place, price: new_anchor_price, decision },
                ),
                RefreshDecision::Hold { .. } => Ok(TickStep::Told),
            },
        }
    }

    /// Follows what a summary around a reference asks for, and tells what changes.
    pub fn apply_summary(&mut self, key: &str, summary: &UniverseSummary) -> (r: Option<
        SubscriptionPlan,
    >)
        ensures
            final(self).references() == old(self).references(),
            final(self).seen() == old(self).seen(),
            final(self).limit() == old(self).limit(),
            final(self).active() == old(self).active(),
            old(self).universe().in_step() ==> final(self).universe().in_step(),
            old(self).in_step() ==> final(self).in_step(),
            match r {
                None => {
                    &&& !old(self).universe().states().contains_key(key@)
                    &&& final(self).universe().states() == old(self).universe().states()
                    &&& final(self).universe().summaries() == old(self).universe().summaries()
                    &&& final(self).watched() == old(self).watched()
                },
                Some(plan) => {
                    let wanted = tradable_symbols(traded_in(*summary));
                    let before = old(self).universe();
                    let after = final(self).universe();
                    &&& before.states().contains_key(key@)
                    &&& leads(plan.diff, before.states()[key@].symbols, wanted)
                    &&& after.states() == before.states().insert(
                        key@,
                        StateFacts { symbols: wanted, ..before.states()[key@] },
                    )
                    &&& after.summaries().dom() == before.summaries().dom().insert(key@)
                    &&& same_summary(after.summaries()[key@], *summary)
                    &&& forall|k: Seq<char>|
                        k != key@ && #[trigger] before.summaries().contains_key(k)
                            ==> after.summaries()[k] == before.summaries()[k]
                    &&& plan.subscribe@ == picked_of(
                        views(plan.diff.subscribe@),
                        under_symbols(traded_in(*summary)),
                    )
                    &&& plan.derivatives_csv@ == derivatives_file_of(listed(after.summaries()))
                    &&& views(plan.watched@) == tracked_of(
                        final(self).references(),
                        final(self).active(),
                        after.summaries(),
                    )
                    &&& final(self).watched() == views(plan.watched@).to_set()
                },
            },
    {
        match self.live.apply(key, summary) {
            None => None,
            Some((diff, _)) => {
                let table = selected_instruments_by_symbol(summary);
                let subscribe = pick(&diff.subscribe, &table);
                let derivatives_csv = self.live.active_derivatives_csv();
                let watched = tracked_symbols(&self.references, &self.active, &self.live);
                self.watched = TextSet::from_list(&watched);
                Some(SubscriptionPlan { diff, subscribe, derivatives_csv, watched })
            },
        }
    }
}

proof fn names_are_told(summaries: Seq<UniverseSummary>, n: int, i: int)
    requires
        0 <= n < summaries.len(),
        0 <= i < traded_in(summaries[n]).len(),
    ensures
        summary_names(summaries).contains(traded_in(summaries[n])[i].instrument_name@),
    decreases summaries.len(),
{
    let name = traded_in(summaries[n])[i].instrument_name@;
    let before = summary_names(summaries.drop_last());
    let all = summary_names(summaries);
    if n < summaries.len() - 1 {
        names_are_told(summaries.drop_last(), n, i);
        let k = choose|k: int| 0 <= k < before.len() && before[k] == name;
        assert(all[k] == name);
    } else {
        assert(all[before.len() + i] == name);
    }
}

/// The ticks of what a summary that is followed asks for are taken in.
pub proof fn chosen_is_watched(
    references: Seq<AngeloneSpotReference>,
    active: Set<Seq<char>>,
    summaries: Map<Seq<char>, UniverseSummary>,
    key: Seq<char>,
    summary: UniverseSummary,
    i: int,
)
    requires
        summaries.dom().finite(),
        summaries.contains_key(key),
        same_summary(summaries[key], summary),
        0 <= i < traded_in(summary).len(),
    ensures
        tracked_of(references, active, summaries).to_set().contains(
            traded_in(summary)[i].instrument_name@,
        ),
{
    let keys = ascending_of(summaries.dom());
    let all = listed(summaries);
    let name = traded_in(summary)[i].instrument_name@;
    ascending_of_holds(summaries.dom());
    assert(keys.to_set().contains(key));
    let n = choose|n: int| 0 <= n < keys.len() && keys[n] == key;
    assert(all[n] == summaries[key]);
    names_are_told(all, n, i);
    let names = summary_names(all);
    let k = choose|k: int| 0 <= k < names.len() && names[k] == name;
    assert(tracked_of(references, active, summaries)[active_names(references, active).len() + k]
        == name);
}

/// The references that are active are those whose exchange is open.
pub proof fn active_references_are_open(
    references: Seq<AngeloneSpotReference>,
    policies: Seq<PolicyFacts>,
    now: u64,
    key: Seq<char>,
)
    ensures
        active_keys_of(references, policies, now).contains(key) <==> exists|i: int|
            {
                &&& 0 <= i < references.len()
                &&& (#[trigger] references[i]).instrument.instrument_name@ == key
                &&& is_exchange_open(policies, references[i].instrument.exchange@, now)
            },
    decreases references.len(),
{
    if references.len() > 0 {
        let d = references.drop_last();
        let n = references.len() - 1;
        active_references_are_open(d, policies, now, key);
        assert(references[n] == references.last());
        assert forall|i: int|
            #![trigger d[i]]
            #![trigger references[i]]
            0 <= i < n implies d[i] == references[i] by {}
        if active_keys_of(d, policies, now).contains(key) {
            let i = choose|i: int|
                {
                    &&& 0 <= i < d.len()
                    &&& (#[trigger] d[i]).instrument.instrument_name@ == key
                    &&& is_exchange_open(policies, d[i].instrument.exchange@, now)
                };
            assert(references[i] == d[i]);
        }
    }
}

/// A reference is found at the first place where its name stands, and behind all of them where it
/// stands nowhere.
pub proof fn references_are_found_by_name(references: Seq<AngeloneSpotReference>, key: Seq<char>)
    ensures
        0 <= reference_place(references, key) <= references.len(),
        reference_place(references, key) < references.len() ==> references[reference_place(
            references,
            key,
        )].instrument.instrument_name@ == key,
        forall|i: int|
            0 <= i < reference_place(references, key) ==> (
            #[trigger] references[i]).instrument.instrument_name@ != key,
    decreases references.len(),
{
    if references.len() > 0 && reference_key_of(references[0]) != key {
        references_are_found_by_name(references.skip(1), key);
        let place = reference_place(references, key);
        assert forall|i: int| 0 <= i < place implies (
        #[trigger] references[i]).instrument.instrument_name@ != key by {
            if i > 0 {
                assert(references.skip(1)[i - 1] == references[i]);
            }
        }
        if place < references.len() {
            assert(references.skip(1)[place - 1] == references[place]);
        }
    }
}

/// A symbol is told by the name of its last instrument, and one without an instrument by none.
pub proof fn symbols_are_told_by_their_names(list: Seq<InstrumentDefinition>, symbol: Seq<char>)
    ensures
        strategy_names_of(list).contains_key(symbol) <==> exists|i: int|
            0 <= i < list.len() && (#[trigger] list[i]).trading_symbol@ == symbol,
        strategy_names_of(list).contains_key(symbol) ==> exists|i: int|
            {
                &&& 0 <= i < list.len()
                &&& (#[trigger] list[i]).trading_symbol@ == symbol
                &&& list[i].instrument_name@ == strategy_names_of(list)[symbol]
                &&& forall|k: int|
                    i < k < list.len() ==> (#[trigger] list[k]).trading_symbol@ != symbol
            },
    decreases list.len(),
{
    if list.len() > 0 {
        let d = list.drop_last();
        let n = list.len() - 1;
        symbols_are_told_by_their_names(d, symbol);
        assert(list[n] == list.last());
        assert forall|i: int|
            #![trigger d[i]]
            #![trigger list[i]]
            0 <= i < n implies d[i] == list[i] by {}
        if list.last().trading_symbol@ != symbol && strategy_names_of(d).contains_key(symbol) {
            let i = choose|i: int|
                {
                    &&& 0 <= i < d.len()
                    &&& (#[trigger] d[i]).trading_symbol@ == symbol
                    &&& d[i].instrument_name@ == strategy_names_of(d)[symbol]
                    &&& forall|k: int|
                        i < k < d.len() ==> (#[trigger] d[k]).trading_symbol@ != symbol
                };
            assert(list[i] == d[i]);
        }
    }
}

/// Where exchanges close, the references there forget their price and their symbols and have no
/// derivatives any more; of the others nothing changes.
pub proof fn closing_forgets_what_was_chosen(
    states: Map<Seq<char>, StateFacts>,
    summaries: Map<Seq<char>, UniverseSummary>,
    keys: Seq<Seq<char>>,
    key: Seq<char>,
)
    ensures
        ({
            let after = closed_states(states, keys);
            let left = closed_summaries(summaries, states, keys);
            &&& after.contains_key(key) <==> states.contains_key(key)
            &&& states.contains_key(key) ==> after[key].trigger == states[key].trigger
            &&& states.contains_key(key) && keys.contains(key) ==> after[key].anchor is None
                && after[key].symbols == Set::<Seq<char>>::empty() && !left.contains_key(key)
            &&& states.contains_key(key) && !keys.contains(key) ==> after[key] == states[key]
            &&& !keys.contains(key) ==> (left.contains_key(key) <==> summaries.contains_key(key))
                && left[key] == summaries[key]
        }),
    decreases keys.len(),
{
    if keys.len() > 0 {
        let d = keys.drop_last();
        let n = keys.len() - 1;
        closing_forgets_what_was_chosen(states, summaries, d, key);
        closing_forgets_what_was_chosen(states, summaries, d, keys.last());
        assert(keys[n] == keys.last());
        if d.contains(key) {
            let i = choose|i: int| 0 <= i < d.len() && d[i] == key;
            assert(keys[i] == key);
        }
        if keys.contains(key) && keys.last() != key {
            let i = choose|i: int| 0 <= i < keys.len() && keys[i] == key;
            assert(d[i] == key);
        }
    }
}

/// The instruments of some symbols are those that stand under them, and all of them.
pub proof fn picked_are_under_their_symbols(
    symbols: Seq<Seq<char>>,
    table: Map<Seq<char>, InstrumentDefinition>,
    it: InstrumentDefinition,
)
    ensures
        picked_of(symbols, table).contains(it) <==> exists|i: int|
            0 <= i < symbols.len() && #[trigger] table.contains_key(symbols[i])
                && table[symbols[i]] == it,
    decreases symbols.len(),
{
    let all = picked_of(symbols, table);
    if symbols.len() > 0 {
        let d = symbols.drop_last();
        let n = symbols.len() - 1;
        let before = picked_of(d, table);
        picked_are_under_their_symbols(d, table, it);
        assert(symbols[n] == symbols.last());
        assert forall|i: int|
            #![trigger d[i]]
            #![trigger symbols[i]]
            0 <= i < n implies d[i] == symbols[i] by {}
        if before.contains(it) {
            let k = choose|k: int| 0 <= k < before.len() && before[k] == it;
            assert(all[k] == it);
            let i = choose|i: int|
                0 <= i < d.len() && #[trigger] table.contains_key(d[i]) && table[d[i]] == it;
            assert(table.contains_key(symbols[i]));
        }
        if all.contains(it) && !before.contains(it) {
            let k = choose|k: int| 0 <= k < all.len() && all[k] == it;
            if k < before.len() {
                assert(before[k] == it);
            }
            assert(table.contains_key(symbols[n]));
        }
        if exists|i: int|
            0 <= i < symbols.len() && #[trigger] table.contains_key(symbols[i])
                && table[symbols[i]] == it {
            let i = choose|i: int|
                0 <= i < symbols.len() && #[trigger] table.contains_key(symbols[i])
                    && table[symbols[i]] == it;
            if i < n {
                assert(table.contains_key(d[i]));
            } else {
                assert(all[before.len() as int] == it);
            }
        }
    }
}

} // verus!
