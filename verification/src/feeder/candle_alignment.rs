//! Where the candles of an instrument begin and end in the day.
use crate::feeder::catalog::{names_of, InstrumentCatalog, InstrumentDefinition};
use crate::feeder::market_session::{
    exchange_key_of, holder_of, is_held, zone_offset, MarketSessionPolicy, MarketSessionSchedule,
    MarketTimezone, PolicyFacts,
};
use crate::order::TextMap;
use vstd::prelude::*;

verus! {

/// Where the candles of a day begin, and where the day's trade ends, in seconds from
/// midnight UTC.
#[derive(Clone, Copy, Debug, PartialEq, Eq, Structural)]
pub struct CandleAlignment {
    pub anchor_offset_seconds: i32,
    pub session_close_offset_seconds: Option<i32>,
}

/// Alignments by the names of instruments.
pub type CandleAlignmentMap = TextMap<CandleAlignment>;

/// Whether an alignment is the one that a policy gives.
pub open spec fn aligned_with(policy: PolicyFacts, alignment: CandleAlignment) -> bool {
    let offset = zone_offset(policy.timezone);
    match policy.hours {
        Some((_, open, close)) => {
            &&& alignment.anchor_offset_seconds == open - offset
            &&& alignment.session_close_offset_seconds matches Some(end)
            &&& end == close - offset
        },
        None => {
            &&& alignment.anchor_offset_seconds == -offset
            &&& alignment.session_close_offset_seconds is None
        },
    }
}

/// Whether an alignment is the one of the instruments of an exchange. Those of an
/// exchange that no session is for follow the day of UTC.
pub open spec fn aligned_at(
    policies: Seq<PolicyFacts>,
    exchange: Seq<char>,
    alignment: CandleAlignment,
) -> bool {
    let key = exchange_key_of(exchange);
    if is_held(policies, key) {
        aligned_with(holder_of(policies, key), alignment)
    } else {
        alignment.anchor_offset_seconds == 0 && alignment.session_close_offset_seconds is None
    }
}

impl CandleAlignment {
    /// The alignment with the day of UTC.
    pub fn utc() -> (r: CandleAlignment)
        ensures
            r.anchor_offset_seconds == 0,
            r.session_close_offset_seconds is None,
    {
        CandleAlignment { anchor_offset_seconds: 0, session_close_offset_seconds: None }
    }

    pub fn for_instrument(
        instrument: &InstrumentDefinition,
        market_sessions: &MarketSessionSchedule,
    ) -> (r: CandleAlignment)
        ensures
            aligned_at(market_sessions.policies(), instrument.exchange@, r),
    {
        match market_sessions.policy_for_exchange(instrument.exchange.as_str()) {
            Some(policy) => CandleAlignment::from_market_session(policy),
            None => CandleAlignment::utc(),
        }
    }

    pub fn from_market_session(policy: &MarketSessionPolicy) -> (r: CandleAlignment)
        ensures
            aligned_with(policy@, r),
    {
        CandleAlignment {
            anchor_offset_seconds: policy.candle_anchor_offset_seconds(),
            session_close_offset_seconds: policy.candle_close_offset_seconds(),
        }
    }
}

/// The alignments of the instruments of a catalog, by their names.
pub fn candle_alignments_from_catalog(
    catalog: &InstrumentCatalog,
    market_sessions: &MarketSessionSchedule,
) -> (r: CandleAlignmentMap)
    ensures
        r@.dom() == catalog@.dom(),
        forall|k: Seq<char>| #[trigger]
            r@.contains_key(k) ==> aligned_at(
                market_sessions.policies(),
                catalog@[k].exchange@,
                r@[k],
            ),
{
    let all = catalog.instruments();
    let mut out: CandleAlignmentMap = TextMap::new();
    let mut i: usize = 0;
    let ghost names = names_of(all@);
    assert(names.take(0).to_set() =~= Set::<Seq<char>>::empty());
    assert(out@.dom() =~= Set::<Seq<char>>::empty());
    while i < all.len()
        invariant
            names == names_of(all@),
            i <= all@.len(),
            out@.dom() == names.take(i as int).to_set(),
            forall|j: int|
                0 <= j < all@.len() ==> catalog@.contains_key((#[trigger] all@[j]).instrument_name@)
                    && catalog@[all@[j].instrument_name@] == all@[j],
            forall|k: Seq<char>| #[trigger]
                out@.contains_key(k) ==> aligned_at(
                    market_sessions.policies(),
                    catalog@[k].exchange@,
                    out@[k],
                ),
        decreases all@.len() - i,
    {
        proof {
            crate::order::take_to_set(names, i as int);
        }
        let ghost before = out@;
        let instrument = &all[i];
        let alignment = CandleAlignment::for_instrument(instrument, market_sessions);
        out.insert(instrument.instrument_name.to_text(), alignment);
        assert(out@.dom() =~= before.dom().insert(names[i as int]));
        i += 1;
    }
    assert(names.take(names.len() as int) =~= names);
    out
}

/// A map with the entries of a list put in, one after the other.
pub open spec fn merged_of(
    target: Map<Seq<char>, CandleAlignment>,
    source: Seq<(String, CandleAlignment)>,
) -> Map<Seq<char>, CandleAlignment>
    decreases source.len(),
{
    if source.len() == 0 {
        target
    } else {
        merged_of(target, source.drop_last()).insert(source.last().0@, source.last().1)
    }
}

/// Puts alignments into a map; one that was there for the same name gives way.
pub fn merge_candle_alignments(
    target: &mut CandleAlignmentMap,
    source: Vec<(String, CandleAlignment)>,
)
    ensures
        final(target)@ == merged_of(old(target)@, source@),
{
    let mut i: usize = 0;
    assert(source@.take(0) =~= Seq::empty());
    let ghost start = target@;
    while i < source.len()
        invariant
            i <= source@.len(),
            target@ == merged_of(start, source@.take(i as int)),
        decreases source@.len() - i,
    {
        assert(source@.take(i + 1).drop_last() =~= source@.take(i as int));
        target.insert(source[i].0.clone(), source[i].1);
        i += 1;
    }
    assert(source@.take(i as int) =~= source@);
}

/// The last of the alignments that are put in for a name is the one it has; a name that none is
/// put in for keeps its own.
pub proof fn last_alignment_counts(
    target: Map<Seq<char>, CandleAlignment>,
    source: Seq<(String, CandleAlignment)>,
    name: Seq<char>,
)
    ensures
        merged_of(target, source).contains_key(name) <==> target.contains_key(name) || exists|i: int|
            0 <= i < source.len() && (#[trigger] source[i]).0@ == name,
        (forall|i: int| 0 <= i < source.len() ==> (#[trigger] source[i]).0@ != name) ==> merged_of(
            target,
            source,
        )[name] == target[name],
        forall|i: int|
            0 <= i < source.len() && (#[trigger] source[i]).0@ == name && (forall|k: int|
                i < k < source.len() ==> (#[trigger] source[k]).0@ != name) ==> merged_of(
                target,
                source,
            )[name] == source[i].1,
    decreases source.len(),
{
    if source.len() > 0 {
        let d = source.drop_last();
        let n = source.len() - 1;
        assert forall|i: int|
            #![trigger d[i]]
            #![trigger source[i]]
            0 <= i < n implies d[i] == source[i] by {}
        assert(source[n] == source.last());
        last_alignment_counts(target, d, name);
        if exists|i: int| 0 <= i < d.len() && (#[trigger] d[i]).0@ == name {
            let i = choose|i: int| 0 <= i < d.len() && (#[trigger] d[i]).0@ == name;
            assert(source[i].0@ == name);
        }
        assert forall|i: int|
            0 <= i < source.len() && (#[trigger] source[i]).0@ == name && (forall|k: int|
                i < k < source.len() ==> (#[trigger] source[k]).0@ != name) implies merged_of(
            target,
            source,
        )[name] == source[i].1 by {
            if i < n {
                assert(source[n].0@ != name);
                assert(d[i].0@ == name);
            }
        }
    }
}

/// The candles of an instrument begin when its exchange opens and end when it closes: in the time
/// zone of its session the offsets are the opening and the closing time.
pub proof fn candles_begin_at_the_opening(policy: PolicyFacts, alignment: CandleAlignment)
    requires
        aligned_with(policy, alignment),
    ensures
        policy.hours matches Some((_, open, close)) ==> {
            &&& alignment.anchor_offset_seconds + zone_offset(policy.timezone) == open
            &&& alignment.session_close_offset_seconds is Some
            &&& alignment.session_close_offset_seconds->0 + zone_offset(policy.timezone) == close
        },
        policy.hours is None ==> alignment.anchor_offset_seconds + zone_offset(policy.timezone) == 0
            && alignment.session_close_offset_seconds is None,
        zone_offset(policy.timezone) == if policy.timezone == MarketTimezone::Utc {
            0
        } else {
            5 * 3_600 + 30 * 60
        },
{
}

} // verus!
