//! When the derivatives that are followed are to be chosen anew, and what changes then.
use crate::binary64::Real;
use crate::order::{ascending, take_to_set, TextSet};
use crate::text::views;
use vstd::prelude::*;

verus! {

/// What a price of the underlying leads to.
#[derive(Clone, Copy, Debug, PartialEq, Eq, Structural)]
pub enum RefreshDecision {
    Initialized { anchor_price: Real },
    Hold { anchor_price: Real, current_price: Real, movement_pct: Real },
    Refresh { previous_anchor_price: Real, new_anchor_price: Real, movement_pct: Real },
}

/// Which symbols are to be subscribed to, and which no longer.
#[derive(Debug, PartialEq, Eq)]
pub struct SubscriptionDiff {
    pub subscribe: Vec<String>,
    pub unsubscribe: Vec<String>,
}

/// Whether a diff leads from one set of symbols to another. Its lists are in ascending
/// order.
pub open spec fn leads(diff: SubscriptionDiff, from: Set<Seq<char>>, to: Set<Seq<char>>) -> bool {
    &&& ascending(views(diff.subscribe@))
    &&& ascending(views(diff.unsubscribe@))
    &&& views(diff.subscribe@).to_set() == to.difference(from)
    &&& views(diff.unsubscribe@).to_set() == from.difference(to)
}

/// The symbols that are followed for an underlying, and the price they were chosen at.
pub struct UniverseRefreshState {
    refresh_trigger_pct: Real,
    anchor_price: Option<Real>,
    active_symbols: TextSet,
}

impl UniverseRefreshState {
    /// By how many percent the price has to move for the symbols to be chosen anew.
    pub closed spec fn trigger(&self) -> Real {
        self.refresh_trigger_pct
    }

    /// The price at which the symbols were last chosen.
    pub closed spec fn anchor(&self) -> Option<Real> {
        self.anchor_price
    }

    /// The symbols that are followed.
    pub closed spec fn active(&self) -> Set<Seq<char>> {
        self.active_symbols@
    }

    pub fn new(refresh_trigger_pct: Real) -> (r: UniverseRefreshState)
        ensures
            r.trigger() == refresh_trigger_pct,
            r.anchor() is None,
            r.active() == Set::<Seq<char>>::empty(),
    {
        UniverseRefreshState {
            refresh_trigger_pct,
            anchor_price: None,
            active_symbols: TextSet::new(),
        }
    }

    /// The price at which the symbols were last chosen.
    pub fn anchor_price(&self) -> (r: Option<Real>)
        ensures
            r == self.anchor(),
    {
        self.anchor_price
    }

    /// Decides on a price of the underlying. `movement_pct` is by how many percent it lies
    /// off the anchor; it does not matter while there is none.
    pub fn on_underlying_price(&mut self, current_price: Real, movement_pct: Real) -> (r:
        RefreshDecision)
        ensures
            final(self).trigger() == old(self).trigger(),
            final(self).active() == old(self).active(),
            match old(self).anchor() {
                None => r == (RefreshDecision::Initialized { anchor_price: current_price })
                    && final(self).anchor() == Some(current_price),
                Some(anchor) => if old(self).trigger().le_of(movement_pct) {
                    r == (RefreshDecision::Refresh {
                        previous_anchor_price: anchor,
                        new_anchor_price: current_price,
                        movement_pct,
                    }) && final(self).anchor() == Some(current_price)
                } else {
                    r == (RefreshDecision::Hold { anchor_price: anchor, current_price, movement_pct })
                        && final(self).anchor() == Some(anchor)
                },
            },
    {
        match self.anchor_price {
            None => {
                self.anchor_price = Some(current_price);
                RefreshDecision::Initialized { anchor_price: current_price }
            },
            Some(anchor_price) => {
                if self.refresh_trigger_pct.at_most(movement_pct) {
                    self.anchor_price = Some(current_price);
                    RefreshDecision::Refresh {
                        previous_anchor_price: anchor_price,
                        new_anchor_price: current_price,
                        movement_pct,
                    }
                } else {
                    RefreshDecision::Hold { anchor_price, current_price, movement_pct }
                }
            },
        }
    }

    /// Follows the given symbols from now on, and says what that changes.
    pub fn apply_symbols(&mut self, next_symbols: TextSet) -> (r: SubscriptionDiff)
        ensures
            final(self).trigger() == old(self).trigger(),
            final(self).anchor() == old(self).anchor(),
            final(self).active() == next_symbols@,
            leads(r, old(self).active(), next_symbols@),
    {
        let subscribe = difference(&next_symbols, &self.active_symbols);
        let unsubscribe = difference(&self.active_symbols, &next_symbols);
        self.active_symbols = next_symbols;
        SubscriptionDiff { subscribe, unsubscribe }
    }

    /// Follows nothing from now on, and says what that changes.
    pub fn reset(&mut self) -> (r: SubscriptionDiff)
        ensures
            final(self).trigger() == old(self).trigger(),
            final(self).anchor() is None,
            final(self).active() == Set::<Seq<char>>::empty(),
            leads(r, old(self).active(), Set::<Seq<char>>::empty()),
            r.subscribe@.len() == 0,
    {
        let none = TextSet::new();
        let unsubscribe = difference(&self.active_symbols, &none);
        let subscribe: Vec<String> = Vec::new();
        assert(views(subscribe@).to_set() =~= Set::<Seq<char>>::empty());
        assert(Set::<Seq<char>>::empty().difference(self.active_symbols@) =~= Set::<
            Seq<char>,
        >::empty());
        self.anchor_price = None;
        self.active_symbols = none;
        SubscriptionDiff { subscribe, unsubscribe }
    }
}

/// The texts of one set that are not in another, in ascending order.
pub fn difference(a: &TextSet, b: &TextSet) -> (r: Vec<String>)
    ensures
        ascending(views(r@)),
        views(r@).to_set() == a@.difference(b@),
{
    let items = a.items();
    let ghost list = a.list();
    let mut out: Vec<String> = Vec::new();
    let mut i: usize = 0;
    assert(views(out@).to_set() =~= list.take(0).to_set().difference(b@));
    while i < items.len()
        invariant
            i <= items@.len(),
            views(items@) == list,
            ascending(list),
            ascending(views(out@)),
            views(out@).to_set() == list.take(i as int).to_set().difference(b@),
            forall|k: int|
                0 <= k < out@.len() ==> exists|m: int|
                    0 <= m < i && list[m] == #[trigger] views(out@)[k],
        decreases items@.len() - i,
    {
        let ghost before = views(out@);
        let ghost x = list[i as int];
        assert(items@[i as int]@ == x);
        proof {
            take_to_set(list, i as int);
        }
        if !b.contains(items[i].as_str()) {
            out.push(items[i].clone());
            proof {
                let after = before.push(x);
                assert(views(out@) =~= after);
                assert forall|p: int, q: int| 0 <= p < q < after.len() implies crate::order::text_lt(
                    #[trigger] after[p],
                    #[trigger] after[q],
                ) by {
                    if q == before.len() {
                        let m = choose|m: int| 0 <= m < i && list[m] == before[p];
                        assert(crate::order::text_lt(list[m], list[i as int]));
                    }
                }
                assert forall|k: int| 0 <= k < out@.len() implies exists|m: int|
                    0 <= m < i + 1 && list[m] == #[trigger] views(out@)[k] by {
                    if k < before.len() {
                        let m = choose|m: int| 0 <= m < i && list[m] == before[k];
                        assert(list[m] == views(out@)[k]);
                    } else {
                        assert(list[i as int] == views(out@)[k]);
                    }
                }
                assert(after.take(before.len() as int) =~= before);
                take_to_set(after, before.len() as int);
                assert(after.take(after.len() as int) =~= after);
            }
        }
        proof {
            assert(views(out@).to_set() =~= list.take(i + 1).to_set().difference(b@));
        }
        i += 1;
    }
    assert(list.take(list.len() as int) =~= list);
    out
}

/// Carrying out a diff on the symbols it leads from gives those it leads to, and nothing
/// is both subscribed to and unsubscribed from.
pub proof fn diff_carries_over(diff: SubscriptionDiff, from: Set<Seq<char>>, to: Set<Seq<char>>)
    requires
        leads(diff, from, to),
    ensures
        from.difference(views(diff.unsubscribe@).to_set()).union(views(diff.subscribe@).to_set())
            == to,
        views(diff.unsubscribe@).to_set().disjoint(views(diff.subscribe@).to_set()),
{
    assert(from.difference(views(diff.unsubscribe@).to_set()).union(
        views(diff.subscribe@).to_set(),
    ) =~= to);
}

/// Following the same symbols again changes nothing.
pub proof fn same_symbols_change_nothing(diff: SubscriptionDiff, symbols: Set<Seq<char>>)
    requires
        leads(diff, symbols, symbols),
    ensures
        diff.subscribe@.len() == 0,
        diff.unsubscribe@.len() == 0,
{
    assert(symbols.difference(symbols) =~= Set::<Seq<char>>::empty());
    if diff.subscribe@.len() > 0 {
        assert(views(diff.subscribe@).to_set().contains(views(diff.subscribe@)[0]));
    }
    if diff.unsubscribe@.len() > 0 {
        assert(views(diff.unsubscribe@).to_set().contains(views(diff.unsubscribe@)[0]));
    }
}

} // verus!
