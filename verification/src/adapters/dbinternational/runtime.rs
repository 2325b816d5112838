//! Following the market data of DBInternational.
use crate::adapters::dbinternational::universe::{
    spot_views, DbinternationalSpotReference,
};
use crate::adapters::live_universe::{
    anchored_of, chosen_price, decision_of, fresh_states, listed, one_more, same_summary,
    symbols_of, underlyings_of, wanted_symbols, LiveUniverse, StateFacts,
};
use crate::adapters::universe::{
    derivatives_file_of, has_symbol_of, selected_instruments_for_symbols, traded_in,
    tradable_symbols, UniverseSummary,
};
use crate::binary64::Real;
use crate::feeder::catalog::InstrumentDefinition;
use crate::feeder::error::{FeedError, FeedFault};
use crate::feeder::universe::{leads, RefreshDecision, SubscriptionDiff};
use crate::order::{ascending_items, ascending_of, sorted_keys, texts_in, TextMap, TextSet};
use crate::text::{
    case_is_all_that_changes, contains, copy_texts, holds, lower, lower_of, upper_of, views,
};
use vstd::prelude::*;

verus! {

/// Whether a fault says that the session is no longer taken.
pub open spec fn says_rejected(fault: FeedFault) -> bool {
    let message = match fault {
        FeedFault::Disconnected(value) => Some(lower_of(value)),
        FeedFault::Http(value) => Some(lower_of(value)),
        _ => None,
    };
    message matches Some(m) && (holds(m, "session has been expired"@) || holds(
        m,
        "session expired"@,
    ) || holds(m, "invalid user id"@))
}

pub fn is_market_data_session_rejected(error: &FeedError) -> (r: bool)
    ensures
        r == says_rejected(error@),
{
    let message = match error {
        FeedError::Disconnected(value) => lower(value.as_str()),
        FeedError::Http(value) => lower(value.as_str()),
        _ => return false,
    };
    let m = message.as_str();
    contains(m, "session has been expired") || contains(m, "session expired") || contains(
        m,
        "invalid user id",
    )
}

/// What is to be done after following came to an end.
#[derive(Debug)]
pub enum RunStep {
    /// Log in anew, and follow again.
    LogIn,
    /// Stop, with what it came to.
    Stop(Option<FeedError>),
}

/// Decides what to do after following came to an end. A session that is no longer taken is
/// renewed once.
pub fn after_run(refreshed: bool, outcome: Option<FeedError>) -> (r: RunStep)
    ensures
        match outcome {
            Some(e) if !refreshed && says_rejected(e@) => r is LogIn,
            _ => r == RunStep::Stop(outcome),
        },
{
    match outcome {
        Some(e) => {
            if !refreshed && is_market_data_session_rejected(&e) {
                RunStep::LogIn
            } else {
                RunStep::Stop(Some(e))
            }
        },
        None => RunStep::Stop(None),
    }
}

/// What a tick leads to.
#[derive(Debug)]
pub enum TickStep {
    /// Nothing but that it is told.
    Told,
    /// The derivatives of an underlying are chosen anew, around a price of its symbol.
    Choose { underlying: String, spot_symbol: String, price: Real, decision: RefreshDecision },
}

/// What changes when derivatives are chosen anew.
pub struct SubscriptionPlan {
    pub diff: SubscriptionDiff,
    pub unsubscribe: Vec<InstrumentDefinition>,
    pub subscribe: Vec<InstrumentDefinition>,
    /// What the file of derivatives holds.
    pub derivatives_csv: String,
    /// The symbols whose latest prices are kept.
    pub price_symbols: Vec<String>,
}

/// Following the market data.
pub struct DbinternationalLive {
    live: LiveUniverse,
    underlyings: TextMap<String>,
    symbols: TextMap<String>,
    seen: usize,
    max_events: usize,
}

impl DbinternationalLive {
    /// The derivatives that are followed.
    pub closed spec fn universe(&self) -> LiveUniverse {
        self.live
    }

    /// The underlyings of the symbols whose prices derivatives are chosen around.
    pub closed spec fn underlyings(&self) -> Map<Seq<char>, Seq<char>> {
        texts_in(self.underlyings@)
    }

    /// The symbols of the underlyings.
    pub closed spec fn symbols(&self) -> Map<Seq<char>, Seq<char>> {
        texts_in(self.symbols@)
    }

    /// How many ticks were told.
    pub closed spec fn seen(&self) -> nat {
        self.seen as nat
    }

    /// How many ticks are told at most; 0 for any number.
    pub closed spec fn limit(&self) -> nat {
        self.max_events as nat
    }

    /// Follows underlyings, of which nothing is known yet.
    pub fn start(
        references: &Vec<DbinternationalSpotReference>,
        refresh_trigger_pct: Real,
        max_events: usize,
    ) -> (r: Result<DbinternationalLive, FeedError>)
        ensures
            match r {
                Err(e) => references@.len() == 0 && e@ == FeedFault::Config(
                    "DBInternational dynamic universe produced no spot anchors"@,
                ),
                Ok(live) => {
                    let spots = spot_views(references@);
                    &&& references@.len() > 0
                    &&& live.universe().in_step()
                    &&& live.universe().states() == fresh_states(spots, refresh_trigger_pct)
                    &&& live.universe().summaries() == Map::<Seq<char>, UniverseSummary>::empty()
                    &&& live.underlyings() == underlyings_of(spots)
                    &&& live.symbols() == symbols_of(spots)
                    &&& live.seen() == 0
                    &&& live.limit() == max_events
                },
            },
    {
        if references.len() == 0 {
            return Err(
                FeedError::Config(
                    "DBInternational dynamic universe produced no spot anchors".to_owned(),
                ),
            );
        }
        let ghost spots = spot_views(references@);
        let mut live = LiveUniverse::new();
        let mut underlyings: TextMap<String> = TextMap::new();
        let mut symbols: TextMap<String> = TextMap::new();
        let mut i: usize = 0;
        assert(spots.take(0) =~= Seq::empty());
        assert(texts_in(underlyings@) =~= Map::empty());
        assert(texts_in(symbols@) =~= Map::empty());
        while i < references.len()
            invariant
                i <= references@.len(),
                spots == spot_views(references@),
                live.in_step(),
                live.states() == fresh_states(spots.take(i as int), refresh_trigger_pct),
                live.summaries() == Map::<Seq<char>, UniverseSummary>::empty(),
                texts_in(underlyings@) == underlyings_of(spots.take(i as int)),
                texts_in(symbols@) == symbols_of(spots.take(i as int)),
            decreases references@.len() - i,
        {
            assert(spots.take(i + 1).drop_last() =~= spots.take(i as int));
            let reference = &references[i];
            let ghost a = underlyings@;
            let ghost b = symbols@;
            live.follow(reference.underlying.as_str(), refresh_trigger_pct);
            underlyings.insert(reference.spot_symbol.clone(), reference.underlying.clone());
            symbols.insert(reference.underlying.clone(), reference.spot_symbol.clone());
            assert(texts_in(underlyings@) =~= texts_in(a).insert(
                reference.spot_symbol@,
                reference.underlying@,
            ));
            assert(texts_in(symbols@) =~= texts_in(b).insert(
                reference.underlying@,
                reference.spot_symbol@,
            ));
            i += 1;
        }
        assert(spots.take(i as int) =~= spots);
        Ok(DbinternationalLive { live, underlyings, symbols, seen: 0, max_events })
    }

    /// Whether another tick is waited for.
    pub fn goes_on(&self) -> (r: bool)
        ensures
            r == (self.limit() == 0 || self.seen() < self.limit()),
    {
        self.max_events == 0 || self.seen < self.max_events
    }

    /// The price at which the derivatives around a symbol were last chosen.
    pub fn anchor_for(&self, symbol: &str) -> (r: Option<Real>)
        ensures
            r == if self.underlyings().contains_key(symbol@)
                && self.universe().states().contains_key(self.underlyings()[symbol@]) {
                self.universe().states()[self.underlyings()[symbol@]].anchor
            } else {
                None
            },
    {
        match self.underlyings.get(symbol) {
            Some(underlying) => self.live.anchor(underlying.as_str()),
            None => None,
        }
    }

    /// Takes in a tick of a symbol, whose price is so many percent away from the one at
    /// which derivatives were last chosen around it.
    pub fn on_tick(&mut self, symbol: &str, price: Real, movement_pct: Real) -> (r: Result<
        TickStep,
        FeedError,
    >)
        ensures
            final(self).seen() == one_more(old(self).seen()),
            final(self).limit() == old(self).limit(),
            final(self).underlyings() == old(self).underlyings(),
            final(self).symbols() == old(self).symbols(),
            final(self).universe().summaries() == old(self).universe().summaries(),
            old(self).universe().in_step() ==> final(self).universe().in_step(),
            if !old(self).underlyings().contains_key(symbol@) {
                r matches Ok(TickStep::Told) && final(self).universe().states() == old(self).universe().states()
            } else {
                let underlying = old(self).underlyings()[symbol@];
                let states = old(self).universe().states();
                if !states.contains_key(underlying) || !old(self).symbols().contains_key(
                    underlying,
                ) {
                    &&& r matches Err(e) && e@ == FeedFault::Config(
                        "missing DBInternational runtime for underlying "@ + underlying,
                    )
                    &&& final(self).universe().states() == states
                } else {
                    let decision = decision_of(states[underlying], price, movement_pct);
                    &&& final(self).universe().states() == states.insert(
                        underlying,
                        anchored_of(states[underlying], price, movement_pct),
                    )
                    &&& match chosen_price(decision) {
                        None => r matches Ok(TickStep::Told),
                        Some(p) => r matches Ok(
                            TickStep::Choose { underlying: u, spot_symbol, price: at, decision: d },
                        ) && u@ == underlying && spot_symbol@ == old(self).symbols()[underlying]
                            && at == p && d == decision,
                    }
                }
            },
    {
        self.seen = self.seen.saturating_add(1);
        let underlying = match self.underlyings.get(symbol) {
            None => return Ok(TickStep::Told),
            Some(underlying) => underlying.clone(),
        };
        let missing = FeedError::Config(
            "missing DBInternational runtime for underlying ".to_owned().concat(
                underlying.as_str(),
            ),
        );
        let spot_symbol = match self.symbols.get(underlying.as_str()) {
            None => return Err(missing),
            Some(spot_symbol) => spot_symbol.clone(),
        };
        match self.live.on_price(underlying.as_str(), price, movement_pct) {
            None => Err(missing),
            Some(decision) => match decision {
                RefreshDecision::Initialized { anchor_price } => Ok(
                    TickStep::Choose { underlying, spot_symbol, price: anchor_price, decision },
                ),
                RefreshDecision::Refresh { new_anchor_price, .. } => Ok(
                    TickStep::Choose {
                        underlying,
                        spot_symbol,
                        price: new_anchor_price,
                        decision,
                    },
                ),
                RefreshDecision::Hold { .. } => Ok(TickStep::Told),
            },
        }
    }

    /// Follows what a summary of an underlying asks for, and tells what changes: what is no
    /// longer asked for comes from the summary that gives way, what is asked for from the
    /// new one.
    pub fn apply_summary(&mut self, underlying: &str, summary: &UniverseSummary) -> (r: Option<
        SubscriptionPlan,
    >)
        ensures
            final(self).seen() == old(self).seen(),
            final(self).limit() == old(self).limit(),
            final(self).underlyings() == old(self).underlyings(),
            final(self).symbols() == old(self).symbols(),
            old(self).universe().in_step() ==> final(self).universe().in_step(),
            match r {
                None => {
                    &&& !old(self).universe().states().contains_key(underlying@)
                    &&& final(self).universe().states() == old(self).universe().states()
                    &&& final(self).universe().summaries() == old(self).universe().summaries()
                },
                Some(plan) => {
                    let wanted = tradable_symbols(traded_in(*summary));
                    let before = old(self).universe();
                    let after = final(self).universe();
                    &&& before.states().contains_key(underlying@)
                    &&& leads(plan.diff, before.states()[underlying@].symbols, wanted)
                    &&& after.states() == before.states().insert(
                        underlying@,
                        StateFacts { symbols: wanted, ..before.states()[underlying@] },
                    )
                    &&& after.summaries().dom() == before.summaries().dom().insert(underlying@)
                    &&& same_summary(after.summaries()[underlying@], *summary)
                    &&& forall|k: Seq<char>|
                        k != underlying@ && #[trigger] before.summaries().contains_key(k)
                            ==> after.summaries()[k] == before.summaries()[k]
                    &&& plan.subscribe@ == traded_in(*summary).filter(
                        has_symbol_of(views(plan.diff.subscribe@)),
                    )
                    &&& plan.unsubscribe@ == if before.summaries().contains_key(underlying@) {
                        traded_in(before.summaries()[underlying@]).filter(
                            has_symbol_of(views(plan.diff.unsubscribe@)),
                        )
                    } else {
                        Seq::empty()
                    }
                    &&& plan.derivatives_csv@ == derivatives_file_of(listed(after.summaries()))
                    &&& views(plan.price_symbols@) == ascending_of(
                        old(self).underlyings().dom() + wanted_symbols(listed(after.summaries())),
                    )
                },
            },
    {
        match self.live.apply(underlying, summary) {
            None => None,
            Some((diff, previous)) => {
                let subscribe = selected_instruments_for_symbols(summary, &diff.subscribe);
                let unsubscribe = match &previous {
                    Some(p) => selected_instruments_for_symbols(p, &diff.unsubscribe),
                    None => Vec::new(),
                };
                let derivatives_csv = self.live.active_derivatives_csv();
                let keys = sorted_keys(&self.underlyings);
                let mut set = TextSet::from_list(&keys);
                assert(texts_in(self.underlyings@).dom() =~= self.underlyings@.dom());
                self.live.add_wanted(&mut set);
                let items = ascending_items(&set);
                let price_symbols = copy_texts(items);
                Some(
                    SubscriptionPlan { diff, unsubscribe, subscribe, derivatives_csv, price_symbols },
                )
            },
        }
    }
}

/// A session counts as rejected only where the connection or an answer said so, whatever the case
/// of the letters.
pub proof fn only_answers_reject_sessions(fault: FeedFault, message: Seq<char>)
    ensures
        says_rejected(fault) ==> fault is Disconnected || fault is Http,
        says_rejected(FeedFault::Http(message)) == says_rejected(FeedFault::Disconnected(message)),
        says_rejected(FeedFault::Http(upper_of(message))) == says_rejected(FeedFault::Http(message)),
        holds(message, "session expired"@) && lower_of(message) == message ==> says_rejected(
            FeedFault::Http(message),
        ),
        holds(message, "invalid user id"@) && lower_of(message) == message ==> says_rejected(
            FeedFault::Http(message),
        ),
{
    case_is_all_that_changes(message);
}

} // verus!
