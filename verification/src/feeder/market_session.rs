//! When the exchanges trade, and when to connect to them.
use crate::calendar::{
    clock_of, in_window, is_weekday, is_weekday_day, local_day, on_clock, parse_clock, shown,
    shown_seconds, stamp_of, utc_stamp, weekends_come_every_seven_days, window_ahead, window_from,
    window_from_is_first, LAST_UTC,
};
use crate::config::MarketSessionSection;
use crate::feeder::error::{outcome, FeedError, FeedFault};
use crate::order::{
    ascending, ascending_items, ascending_of, first_text, text_lt, text_order_is_total, TextMap,
    TextSet,
};
use crate::text::{
    decimal, decimal_of, join, join_of, same, trim, trim_keeps, trim_of, trimming_is_complete,
    upper, upper_of, views,
};
use vstd::prelude::*;

verus! {

/// The time zones that sessions can be given in.
#[derive(Clone, Copy, Debug, PartialEq, Eq, Structural)]
pub enum MarketTimezone {
    Utc,
    AsiaKolkata,
}

/// How far a time zone is ahead of UTC, in seconds.
pub open spec fn zone_offset(zone: MarketTimezone) -> int {
    match zone {
        MarketTimezone::Utc => 0,
        MarketTimezone::AsiaKolkata => 19_800,
    }
}

pub open spec fn zone_of(value: Seq<char>, session_id: Seq<char>) -> Result<
    MarketTimezone,
    FeedFault,
> {
    let v = upper_of(trim_of(value));
    if v == "UTC"@ {
        Ok(MarketTimezone::Utc)
    } else if v == "ASIA/KOLKATA"@ || v == "IST"@ {
        Ok(MarketTimezone::AsiaKolkata)
    } else {
        Err(
            FeedFault::Config(
                "unsupported market_sessions."@ + session_id + ".timezone "@ + v
                    + "; expected UTC or Asia/Kolkata"@,
            ),
        )
    }
}

impl MarketTimezone {
    pub fn parse(value: &str, session_id: &str) -> (r: Result<MarketTimezone, FeedError>)
        ensures
            match r {
                Ok(zone) => zone_of(value@, session_id@) == Ok::<MarketTimezone, FeedFault>(zone),
                Err(e) => zone_of(value@, session_id@) == Err::<MarketTimezone, FeedFault>(e@),
            },
    {
        let v = upper(trim(value).as_str());
        if same(v.as_str(), "UTC") {
            Ok(MarketTimezone::Utc)
        } else if same(v.as_str(), "ASIA/KOLKATA") || same(v.as_str(), "IST") {
            Ok(MarketTimezone::AsiaKolkata)
        } else {
            let mut message = "unsupported market_sessions.".to_owned();
            message.append(session_id);
            message.append(".timezone ");
            message.append(v.as_str());
            message.append("; expected UTC or Asia/Kolkata");
            Err(FeedError::Config(message))
        }
    }

    pub fn offset_seconds(self) -> (r: i32)
        ensures
            r == zone_offset(self),
    {
        match self {
            MarketTimezone::Utc => 0,
            MarketTimezone::AsiaKolkata => 19_800,
        }
    }
}

/// The name that an exchange goes by.
pub open spec fn exchange_key_of(value: Seq<char>) -> Seq<char> {
    upper_of(trim_of(value))
}

pub fn exchange_key(value: &str) -> (r: String)
    ensures
        r@ == exchange_key_of(value@),
{
    upper(trim(value).as_str())
}

/// When the exchanges of a group trade.
pub struct MarketSessionPolicy {
    id: String,
    exchanges: TextSet,
    timezone: MarketTimezone,
    open_second: Option<u32>,
    close_second: Option<u32>,
    always_open: bool,
    connect_before_open_secs: u32,
    weekdays_only: bool,
}

/// A policy as contracts speak of it. `hours` holds the seconds of the day at which
/// connections may begin, at which trading begins, and before which it ends.
pub struct PolicyFacts {
    pub id: Seq<char>,
    pub exchanges: Set<Seq<char>>,
    pub timezone: MarketTimezone,
    pub hours: Option<(int, int, int)>,
    pub weekdays_only: bool,
}

impl View for MarketSessionPolicy {
    type V = PolicyFacts;

    closed spec fn view(&self) -> PolicyFacts {
        PolicyFacts {
            id: self.id@,
            exchanges: self.exchanges@,
            timezone: self.timezone,
            hours: match (self.open_second, self.close_second) {
                (Some(open), Some(close)) => Some(
                    (open - self.connect_before_open_secs, open as int, close as int),
                ),
                _ => None,
            },
            weekdays_only: self.weekdays_only,
        }
    }
}

/// Whether the exchanges of a policy may be connected to at a moment.
pub open spec fn is_open(policy: PolicyFacts, utc: int) -> bool {
    let offset = zone_offset(policy.timezone);
    match policy.hours {
        None => policy.weekdays_only ==> is_weekday(local_day(utc, offset)),
        Some((connect, _, close)) => in_window(utc, offset, connect, close, policy.weekdays_only),
    }
}

/// Whether a moment is the next, from another on, at which the exchanges of a policy
/// may be connected to. A policy without hours is taken to open at once.
pub open spec fn opens_next(policy: PolicyFacts, now: int, next: int) -> bool {
    match policy.hours {
        None => next == now,
        Some(_) => {
            &&& now <= next
            &&& is_open(policy, next)
            &&& forall|u: int| now <= u < next ==> !(#[trigger] is_open(policy, u))
        },
    }
}

/// Whether the exchanges of a policy may be connected to at what a clock with 64 bits shows.
pub open spec fn is_open_at(policy: PolicyFacts, now: u64) -> bool {
    let offset = zone_offset(policy.timezone);
    is_open(policy, shown_seconds(now, offset) - offset)
}

/// When the exchanges of a policy may be connected to next, by a clock with 64 bits. A policy
/// without hours is taken to open at once.
pub open spec fn next_opening(policy: PolicyFacts, now: u64) -> Option<u64> {
    match policy.hours {
        None => Some(now),
        Some((connect, _, close)) => window_from(
            now,
            zone_offset(policy.timezone),
            connect,
            close,
            policy.weekdays_only,
            0,
        ),
    }
}

/// How long the wait for an opening is: a day, where there is none.
pub open spec fn wait_for(next: Option<u64>, now: u64) -> u64 {
    match next {
        Some(at) => if at > now {
            (at - now) as u64
        } else {
            0
        },
        None => 86_400,
    }
}

/// The status of a policy at what a clock with 64 bits shows.
pub open spec fn policy_status(policy: PolicyFacts, now: u64) -> ExchangeSessionStatus {
    if is_open_at(policy, now) {
        ExchangeSessionStatus::Active
    } else {
        ExchangeSessionStatus::Inactive {
            next_open_utc: next_opening(policy, now),
            sleep_seconds: wait_for(next_opening(policy, now), now),
        }
    }
}

/// Whether hours are told in seconds of a day.
pub open spec fn has_day_hours(policy: PolicyFacts) -> bool {
    policy.hours matches Some((connect, _, close)) ==> 0 <= connect < close <= 86_400
}

/// Whether what a clock with 64 bits shows from a moment on is the time by which a policy goes.
/// One that is open on every day without hours goes by no clock.
pub open spec fn can_look_ahead(policy: PolicyFacts, now: u64) -> bool {
    &&& policy.hours is Some || policy.weekdays_only ==> now <= LAST_UTC
    &&& policy.hours matches Some((connect, _, _)) ==> on_clock(
        now,
        zone_offset(policy.timezone),
        connect,
    )
}

/// The status of a policy tells its hours: it is active while they last, and waits for the next
/// moment that falls into them otherwise.
pub proof fn status_tells_the_hours(policy: PolicyFacts, now: u64)
    requires
        has_day_hours(policy),
        can_look_ahead(policy, now),
    ensures
        is_open_at(policy, now) == is_open(policy, now as int),
        is_status(policy, now, policy_status(policy, now)),
{
    let offset = zone_offset(policy.timezone);
    if policy.hours is Some || policy.weekdays_only {
        assert(shown_seconds(now, offset) == now + offset);
    }
    if let Some((connect, _, close)) = policy.hours {
        window_from_is_first(now, offset, connect, close, policy.weekdays_only);
        let next = next_opening(policy, now)->0;
        assert forall|u: int| now <= u < next implies !(#[trigger] is_open(policy, u)) by {
            assert(!in_window(u, offset, connect, close, policy.weekdays_only));
        }
    }
}

/// There is one next moment at most.
pub proof fn opens_next_once(policy: PolicyFacts, now: int, a: int, b: int)
    requires
        opens_next(policy, now, a),
        opens_next(policy, now, b),
    ensures
        a == b,
{
    if a < b {
        assert(!is_open(policy, a));
    } else if b < a {
        assert(!is_open(policy, b));
    }
}

/// Whether trade on an exchange may be followed now, and if not, when.
#[derive(Clone, Copy, Debug, PartialEq, Eq, Structural)]
pub enum ExchangeSessionStatus {
    Active,
    Inactive { next_open_utc: Option<u64>, sleep_seconds: u64 },
}

/// Whether a status is the one that a policy has at a moment.
pub open spec fn is_status(policy: PolicyFacts, now: u64, status: ExchangeSessionStatus) -> bool {
    match status {
        ExchangeSessionStatus::Active => is_open(policy, now as int),
        ExchangeSessionStatus::Inactive { next_open_utc, sleep_seconds } => {
            &&& !is_open(policy, now as int)
            &&& next_open_utc matches Some(next)
            &&& opens_next(policy, now as int, next as int)
            &&& sleep_seconds == next - now
        },
    }
}

/// The names of the exchanges of a list, without the empty ones.
pub open spec fn exchange_keys_of(list: Seq<Seq<char>>) -> Set<Seq<char>> {
    Set::new(
        |k: Seq<char>|
            k.len() > 0 && exists|i: int|
                0 <= i < list.len() && exchange_key_of(#[trigger] list[i]) == k,
    )
}

/// A configured session, as contracts speak of it.
pub struct SectionFacts {
    pub id: Seq<char>,
    pub exchanges: Seq<Seq<char>>,
    pub timezone: Seq<char>,
    pub open: Option<Seq<char>>,
    pub close: Option<Seq<char>>,
    pub always_open: bool,
    pub connect_before_open_secs: u64,
    pub weekdays_only: bool,
}

impl View for MarketSessionSection {
    type V = SectionFacts;

    open spec fn view(&self) -> SectionFacts {
        SectionFacts {
            id: self.id@,
            exchanges: views(self.exchanges@),
            timezone: self.timezone@,
            open: match self.open {
                Some(v) => Some(v@),
                None => None,
            },
            close: match self.close {
                Some(v) => Some(v@),
                None => None,
            },
            always_open: self.always_open,
            connect_before_open_secs: self.connect_before_open_secs,
            weekdays_only: self.weekdays_only,
        }
    }
}

/// The hours that a configured session gives, where it is not always open.
pub open spec fn hours_of(section: SectionFacts) -> Result<(int, int, int), FeedFault> {
    let prefix = "market_sessions."@ + trim_of(section.id);
    match section.open {
        None => Err(FeedFault::Config(prefix + ".open is required"@)),
        Some(open) => match section.close {
            None => Err(FeedFault::Config(prefix + ".close is required"@)),
            Some(close) => match clock_of(open, prefix + ".open"@, u32::MAX as nat) {
                Err(e) => Err(e),
                Ok(from) => match clock_of(close, prefix + ".close"@, u32::MAX as nat) {
                    Err(e) => Err(e),
                    Ok(to) => if to <= from {
                        Err(FeedFault::Config(prefix + ".close must be after open"@))
                    } else if section.connect_before_open_secs > from {
                        Err(
                            FeedFault::Config(prefix + ".connect_before_open_secs is too large"@),
                        )
                    } else {
                        Ok((from - section.connect_before_open_secs, from as int, to as int))
                    },
                },
            },
        },
    }
}

/// The policy that a configured session makes.
pub open spec fn policy_of(section: SectionFacts) -> Result<PolicyFacts, FeedFault> {
    let id = trim_of(section.id);
    let exchanges = exchange_keys_of(section.exchanges);
    if id.len() == 0 {
        Err(FeedFault::Config("market_sessions.id cannot be empty"@))
    } else if exchanges == Set::<Seq<char>>::empty() {
        Err(FeedFault::Config("market_sessions."@ + id + ".exchanges cannot be empty"@))
    } else {
        match zone_of(section.timezone, id) {
            Err(e) => Err(e),
            Ok(timezone) => if section.always_open {
                Ok(
                    PolicyFacts {
                        id,
                        exchanges,
                        timezone,
                        hours: None,
                        weekdays_only: section.weekdays_only,
                    },
                )
            } else {
                match hours_of(section) {
                    Err(e) => Err(e),
                    Ok(hours) => Ok(
                        PolicyFacts {
                            id,
                            exchanges,
                            timezone,
                            hours: Some(hours),
                            weekdays_only: section.weekdays_only,
                        },
                    ),
                }
            },
        }
    }
}

/// The names of the exchanges of a list, without the empty ones.
pub fn exchange_keys(list: &Vec<String>) -> (r: TextSet)
    ensures
        r@ == exchange_keys_of(views(list@)),
{
    let mut out = TextSet::new();
    let mut i: usize = 0;
    let ghost all = views(list@);
    assert(exchange_keys_of(all.take(0)) =~= Set::<Seq<char>>::empty());
    while i < list.len()
        invariant
            all == views(list@),
            i <= list@.len(),
            out@ == exchange_keys_of(all.take(i as int)),
        decreases list@.len() - i,
    {
        let key = exchange_key(list[i].as_str());
        let ghost k = key@;
        let ghost before = all.take(i as int);
        let ghost after = all.take(i + 1);
        assert(after[i as int] == list@[i as int]@);
        let ghost known = out@;
        if !key.as_str().is_empty() {
            let _ = out.insert(key);
        }
        proof {
            let grown = if k.len() > 0 {
                known.insert(k)
            } else {
                known
            };
            assert forall|x: Seq<char>| grown.contains(x) == exchange_keys_of(after).contains(x) by {
                if exchange_keys_of(after).contains(x) {
                    let j = choose|j: int|
                        0 <= j < after.len() && exchange_key_of(#[trigger] after[j]) == x;
                    if j < i {
                        assert(before[j] == after[j]);
                    }
                }
                if exchange_keys_of(before).contains(x) {
                    let j = choose|j: int|
                        0 <= j < before.len() && exchange_key_of(#[trigger] before[j]) == x;
                    assert(after[j] == before[j]);
                }
            }
            assert(grown =~= exchange_keys_of(after));
        }
        i += 1;
    }
    assert(all.take(all.len() as int) =~= all);
    out
}

impl MarketSessionPolicy {
    #[verifier::type_invariant]
    closed spec fn has_hours(self) -> bool {
        if self.always_open {
            self.open_second is None && self.close_second is None
        } else {
            &&& self.open_second matches Some(open)
            &&& self.close_second matches Some(close)
            &&& self.connect_before_open_secs <= open < close < 86_400
        }
    }

    pub fn from_config(config: &MarketSessionSection) -> (r: Result<MarketSessionPolicy, FeedError>)
        ensures
            outcome(r) == policy_of(config@),
    {
        let id = trim(config.id.as_str());
        if id.as_str().is_empty() {
            return Err(FeedError::Config("market_sessions.id cannot be empty".to_owned()));
        }
        let exchanges = exchange_keys(&config.exchanges);
        let prefix = "market_sessions.".to_owned().concat(id.as_str());
        if exchanges.is_empty() {
            return Err(FeedError::Config(prefix.concat(".exchanges cannot be empty")));
        }
        let timezone = match MarketTimezone::parse(config.timezone.as_str(), id.as_str()) {
            Ok(zone) => zone,
            Err(e) => return Err(e),
        };
        if config.always_open {
            return Ok(
                MarketSessionPolicy {
                    id,
                    exchanges,
                    timezone,
                    open_second: None,
                    close_second: None,
                    always_open: true,
                    connect_before_open_secs: 0,
                    weekdays_only: config.weekdays_only,
                },
            );
        }
        let open = match &config.open {
            Some(v) => v,
            None => return Err(FeedError::Config(prefix.concat(".open is required"))),
        };
        let close = match &config.close {
            Some(v) => v,
            None => return Err(FeedError::Config(prefix.concat(".close is required"))),
        };
        let open_field = prefix.clone().concat(".open");
        let open_second: u64 = match parse_clock(
            open.as_str(),
            open_field.as_str(),
            u32::MAX as u64,
        ) {
            Ok(second) => second,
            Err(e) => return Err(e),
        };
        let close_field = prefix.clone().concat(".close");
        let close_second: u64 = match parse_clock(
            close.as_str(),
            close_field.as_str(),
            u32::MAX as u64,
        ) {
            Ok(second) => second,
            Err(e) => return Err(e),
        };
        if close_second <= open_second {
            return Err(FeedError::Config(prefix.concat(".close must be after open")));
        }
        if config.connect_before_open_secs > open_second {
            return Err(
                FeedError::Config(prefix.concat(".connect_before_open_secs is too large")),
            );
        }
        Ok(
            MarketSessionPolicy {
                id,
                exchanges,
                timezone,
                open_second: Some(open_second as u32),
                close_second: Some(close_second as u32),
                always_open: false,
                connect_before_open_secs: config.connect_before_open_secs as u32,
                weekdays_only: config.weekdays_only,
            },
        )
    }

    pub fn id(&self) -> (r: &str)
        ensures
            r@ == self@.id,
    {
        self.id.as_str()
    }

    pub fn exchanges(&self) -> (r: &TextSet)
        ensures
            r@ == self@.exchanges,
    {
        &self.exchanges
    }

    /// Where the day of the candles begins, in seconds from midnight UTC.
    pub fn candle_anchor_offset_seconds(&self) -> (r: i32)
        ensures
            r == (match self@.hours {
                Some((_, open, _)) => open - zone_offset(self@.timezone),
                None => -zone_offset(self@.timezone),
            }),
    {
        proof {
            use_type_invariant(self);
        }
        match self.open_second {
            Some(second) => second as i32 - self.timezone.offset_seconds(),
            None => -self.timezone.offset_seconds(),
        }
    }

    /// Where the day of the candles ends, in seconds from midnight UTC.
    pub fn candle_close_offset_seconds(&self) -> (r: Option<i32>)
        ensures
            match r {
                Some(second) => self@.hours matches Some((_, _, close)) && second == close
                    - zone_offset(self@.timezone),
                None => self@.hours is None,
            },
    {
        proof {
            use_type_invariant(self);
        }
        match self.close_second {
            Some(second) => Some(second as i32 - self.timezone.offset_seconds()),
            None => None,
        }
    }

    pub fn status_at(&self, now_utc: u64) -> (r: ExchangeSessionStatus)
        ensures
            r == policy_status(self@, now_utc),
            has_day_hours(self@),
    {
        proof {
            use_type_invariant(self);
        }
        if self.is_active_at(now_utc) {
            return ExchangeSessionStatus::Active;
        }
        let next_open_utc = self.next_open_utc(now_utc);
        let sleep_seconds: u64 = match next_open_utc {
            Some(at) => at.saturating_sub(now_utc),
            None => 86_400,
        };
        ExchangeSessionStatus::Inactive { next_open_utc, sleep_seconds }
    }

    pub fn is_active_at(&self, now_utc: u64) -> (r: bool)
        ensures
            r == is_open_at(self@, now_utc),
    {
        proof {
            use_type_invariant(self);
        }
        let local: i64 = shown(now_utc, self.timezone.offset_seconds() as u64);
        let (day, second) = match (
            local.checked_div_euclid(86_400),
            local.checked_rem_euclid(86_400),
        ) {
            (Some(day), Some(second)) => (day, second as u32),
            _ => (0i64, 0u32),
        };
        if self.weekdays_only && !is_weekday_day(day) {
            return false;
        }
        match (self.open_second, self.close_second) {
            (Some(open), Some(close)) => second >= open - self.connect_before_open_secs && second
                < close,
            _ => true,
        }
    }

    pub fn next_open_utc(&self, now_utc: u64) -> (r: Option<u64>)
        ensures
            r == next_opening(self@, now_utc),
    {
        proof {
            use_type_invariant(self);
        }
        match (self.open_second, self.close_second) {
            (Some(open), Some(close)) => window_ahead(
                now_utc,
                self.timezone.offset_seconds() as u64,
                (open - self.connect_before_open_secs) as u64,
                close as u64,
                self.weekdays_only,
            ),
            _ => Some(now_utc),
        }
    }
}

/// The sessions of all exchanges. No exchange is in two of them.
pub struct MarketSessionSchedule {
    policies: Vec<MarketSessionPolicy>,
    exchange_to_policy: TextMap<usize>,
}

/// Whether an exchange is in one of the policies.
pub open spec fn is_held(policies: Seq<PolicyFacts>, exchange: Seq<char>) -> bool {
    exists|i: int| 0 <= i < policies.len() && (#[trigger] policies[i]).exchanges.contains(exchange)
}

/// The policy that an exchange is in.
pub open spec fn holder_of(policies: Seq<PolicyFacts>, exchange: Seq<char>) -> PolicyFacts {
    policies[choose|i: int|
        0 <= i < policies.len() && (#[trigger] policies[i]).exchanges.contains(exchange)]
}

/// Whether an exchange is the first, in the order of their names, of those of a policy
/// that other policies hold already.
pub open spec fn is_first_clash(
    policies: Seq<PolicyFacts>,
    policy: PolicyFacts,
    exchange: Seq<char>,
) -> bool {
    &&& policy.exchanges.contains(exchange)
    &&& is_held(policies, exchange)
    &&& forall|other: Seq<char>|
        policy.exchanges.contains(other) && #[trigger] is_held(policies, other) ==> other == exchange
            || text_lt(exchange, other)
}

/// The policies that configured sessions make, in their order.
pub open spec fn schedule_of(sections: Seq<SectionFacts>) -> Result<Seq<PolicyFacts>, FeedFault>
    decreases sections.len(),
{
    if sections.len() == 0 {
        Ok(Seq::empty())
    } else {
        match schedule_of(sections.drop_last()) {
            Err(e) => Err(e),
            Ok(policies) => match policy_of(sections.last()) {
                Err(e) => Err(e),
                Ok(policy) => if exists|x: Seq<char>| is_first_clash(policies, policy, x) {
                    let exchange = choose|x: Seq<char>| is_first_clash(policies, policy, x);
                    Err(
                        FeedFault::Config(
                            "market session exchange "@ + exchange + " is configured in both "@
                                + holder_of(policies, exchange).id + " and "@ + policy.id,
                        ),
                    )
                } else {
                    Ok(policies.push(policy))
                },
            },
        }
    }
}

/// The sections of a list, as contracts speak of them.
pub open spec fn section_views(v: Seq<MarketSessionSection>) -> Seq<SectionFacts> {
    Seq::new(v.len(), |i: int| v[i]@)
}

/// The policies of a list, as contracts speak of them.
pub open spec fn policy_views(v: Seq<MarketSessionPolicy>) -> Seq<PolicyFacts> {
    Seq::new(v.len(), |i: int| v[i]@)
}

/// Whether the map sends each exchange to the place of the policy that it is in.
spec fn indexes(map: Map<Seq<char>, usize>, policies: Seq<PolicyFacts>) -> bool {
    &&& forall|k: Seq<char>| #[trigger]
        map.contains_key(k) ==> map[k] < policies.len() && policies[map[k] as int].exchanges.contains(
            k,
        )
    &&& forall|i: int, k: Seq<char>|
        0 <= i < policies.len() && #[trigger] policies[i].exchanges.contains(k) ==> map.contains_key(
            k,
        ) && map[k] == i
}

/// Whether an exchange that no policy is for, or whose policy is open, may be followed.
pub open spec fn is_exchange_open(
    policies: Seq<PolicyFacts>,
    exchange: Seq<char>,
    now: u64,
) -> bool {
    let key = exchange_key_of(exchange);
    !is_held(policies, key) || is_open_at(holder_of(policies, key), now)
}

/// The status of an exchange at a moment. One that no policy is for is always active.
pub open spec fn exchange_status(
    policies: Seq<PolicyFacts>,
    exchange: Seq<char>,
    now: u64,
) -> ExchangeSessionStatus {
    let key = exchange_key_of(exchange);
    if is_held(policies, key) {
        policy_status(holder_of(policies, key), now)
    } else {
        ExchangeSessionStatus::Active
    }
}

/// When an exchange that is not active opens next.
pub open spec fn opening_of(
    policies: Seq<PolicyFacts>,
    exchange: Seq<char>,
    now: u64,
) -> Option<u64> {
    exchange_status(policies, exchange, now)->next_open_utc
}

/// Whether an opening is the soonest of some exchanges, or none where none of them opens.
pub open spec fn is_soonest(
    policies: Seq<PolicyFacts>,
    exchanges: Set<Seq<char>>,
    now: u64,
    next: Option<u64>,
) -> bool {
    &&& exists|x: Seq<char>|
        exchanges.contains(x) && #[trigger] opening_of(policies, x, now) == next
    &&& forall|x: Seq<char>|
        exchanges.contains(x) && (#[trigger] opening_of(policies, x, now)) is Some
            ==> next is Some && next->0 <= opening_of(policies, x, now)->0
}

/// Whether a status is the one that several exchanges have together: active where one
/// of them is, or none is asked for, and else waiting for the first to open.
pub open spec fn is_combined_status(
    policies: Seq<PolicyFacts>,
    exchanges: Set<Seq<char>>,
    now: u64,
    status: ExchangeSessionStatus,
) -> bool {
    match status {
        ExchangeSessionStatus::Active => exchanges == Set::<Seq<char>>::empty() || exists|
            x: Seq<char>,
        |
            exchanges.contains(x) && #[trigger] exchange_status(policies, x, now) is Active,
        ExchangeSessionStatus::Inactive { next_open_utc, sleep_seconds } => {
            &&& exchanges != Set::<Seq<char>>::empty()
            &&& forall|x: Seq<char>|
                exchanges.contains(x) ==> (#[trigger] exchange_status(policies, x, now)) is Inactive
            &&& is_soonest(policies, exchanges, now, next_open_utc)
            &&& sleep_seconds == wait_for(next_open_utc, now)
        },
    }
}

impl MarketSessionSchedule {
    #[verifier::type_invariant]
    closed spec fn indexed(self) -> bool {
        indexes(self.exchange_to_policy@, policy_views(self.policies@))
    }

    /// The policies in the order in which they were configured.
    pub closed spec fn policies(&self) -> Seq<PolicyFacts> {
        policy_views(self.policies@)
    }

    /// Whether no exchange is in two policies.
    pub open spec fn is_disjoint(&self) -> bool {
        forall|i: int, j: int, k: Seq<char>|
            0 <= i < self.policies().len() && 0 <= j < self.policies().len()
                && #[trigger] self.policies()[i].exchanges.contains(k)
                && #[trigger] self.policies()[j].exchanges.contains(k) ==> i == j
    }

    pub fn from_configs(configs: &Vec<MarketSessionSection>) -> (r: Result<
        MarketSessionSchedule,
        FeedError,
    >)
        ensures
            match r {
                Ok(schedule) => schedule_of(section_views(configs@)) == Ok::<
                    Seq<PolicyFacts>,
                    FeedFault,
                >(schedule.policies()) && schedule.is_disjoint(),
                Err(e) => schedule_of(section_views(configs@)) == Err::<
                    Seq<PolicyFacts>,
                    FeedFault,
                >(e@),
            },
    {
        let mut policies: Vec<MarketSessionPolicy> = Vec::new();
        let mut exchange_to_policy: TextMap<usize> = TextMap::new();
        let ghost sections = section_views(configs@);
        assert(policy_views(policies@) =~= Seq::empty());
        assert(sections.take(0) =~= Seq::empty());
        let mut n: usize = 0;
        while n < configs.len()
            invariant
                sections == section_views(configs@),
                n <= configs@.len(),
                n == policies@.len(),
                schedule_of(sections.take(n as int)) == Ok::<Seq<PolicyFacts>, FeedFault>(
                    policy_views(policies@),
                ),
                indexes(exchange_to_policy@, policy_views(policies@)),
            decreases configs@.len() - n,
        {
            let ghost before = policy_views(policies@);
            assert(sections.take(n + 1).drop_last() =~= sections.take(n as int));
            assert(sections.take(n + 1).last() == configs@[n as int]@);
            let policy = match MarketSessionPolicy::from_config(&configs[n]) {
                Ok(policy) => policy,
                Err(e) => {
                    proof {
                        schedule_fails(sections, n + 1);
                    }
                    return Err(e);
                },
            };
            let names = policy.exchanges.items();
            let ghost list = policy.exchanges.list();
            let mut i: usize = 0;
            while i < names.len()
                invariant
                    i <= names@.len(),
                    views(names@) == list,
                    ascending(list),
                    policy@.exchanges == list.to_set(),
                    before == policy_views(policies@),
                    n == before.len(),
                    n < configs@.len(),
                    sections == section_views(configs@),
                    sections.take(n + 1).drop_last() == sections.take(n as int),
                    schedule_of(sections.take(n as int)) == Ok::<Seq<PolicyFacts>, FeedFault>(before),
                    policy_of(sections.take(n + 1).last()) == Ok::<PolicyFacts, FeedFault>(policy@),
                    forall|j: int| 0 <= j < i ==> !is_held(before, #[trigger] list[j]),
                    forall|k: Seq<char>| #[trigger]
                        exchange_to_policy@.contains_key(k) <==> is_held(before, k) || list.take(
                            i as int,
                        ).contains(k),
                    forall|j: int, k: Seq<char>|
                        0 <= j < before.len() && #[trigger] before[j].exchanges.contains(k)
                            ==> exchange_to_policy@.contains_key(k) && exchange_to_policy@[k] == j,
                    forall|k: Seq<char>|
                        list.take(i as int).contains(k) ==> exchange_to_policy@[k] == n,
                decreases names@.len() - i,
            {
                let ghost x = list[i as int];
                assert(names@[i as int]@ == x);
                match exchange_to_policy.get(names[i].as_str()) {
                    Some(existing) => {
                        proof {
                            if list.take(i as int).contains(x) {
                                let j = list.take(i as int).index_of(x);
                                assert(text_lt(list[j], list[i as int]));
                                text_order_is_total(list[j], x);
                            }
                            assert(is_held(before, x));
                            let j = choose|j: int|
                                0 <= j < before.len() && (#[trigger] before[j]).exchanges.contains(
                                    x,
                                );
                            assert(exchange_to_policy@[x] == j);
                            assert(*existing == j);
                            assert(holder_of(before, x) == before[j]);
                            assert(list.to_set().contains(x));
                            assert forall|other: Seq<char>|
                                policy@.exchanges.contains(other) && #[trigger] is_held(
                                    before,
                                    other,
                                ) implies other == x || text_lt(x, other) by {
                                let m = list.index_of(other);
                                if m < i {
                                    assert(!is_held(before, list[m]));
                                } else if m > i {
                                    assert(text_lt(list[i as int], list[m]));
                                }
                            }
                            assert(is_first_clash(before, policy@, x));
                            let y = choose|y: Seq<char>| is_first_clash(before, policy@, y);
                            assert(is_held(before, x) && is_held(before, y));
                            if x != y {
                                text_order_is_total(x, y);
                            }
                            schedule_fails(sections, n + 1);
                        }
                        let mut message = "market session exchange ".to_owned();
                        message.append(names[i].as_str());
                        message.append(" is configured in both ");
                        message.append(policies[*existing].id());
                        message.append(" and ");
                        message.append(policy.id());
                        return Err(FeedError::Config(message));
                    },
                    None => {
                        exchange_to_policy.insert(names[i].clone(), n);
                        proof {
                            assert(!is_held(before, x));
                            let t = list.take(i as int);
                            let u = list.take(i + 1);
                            assert(u =~= t.push(x));
                            assert forall|k: Seq<char>| u.contains(k) == (t.contains(k) || k == x) by {
                                if u.contains(k) {
                                    let j = u.index_of(k);
                                    if j < i {
                                        assert(t[j] == k);
                                    }
                                }
                                if t.contains(k) {
                                    let j = t.index_of(k);
                                    assert(u[j] == k);
                                }
                                if k == x {
                                    assert(u[i as int] == k);
                                }
                            }
                        }
                    },
                }
                i += 1;
            }
            proof {
                assert(list.take(list.len() as int) =~= list);
                assert forall|y: Seq<char>| !is_first_clash(before, policy@, y) by {
                    if is_first_clash(before, policy@, y) {
                        let m = list.index_of(y);
                        assert(!is_held(before, list[m]));
                    }
                }
                let after = before.push(policy@);
                assert(indexes(exchange_to_policy@, after)) by {
                    assert forall|k: Seq<char>| #[trigger]
                        exchange_to_policy@.contains_key(k) implies exchange_to_policy@[k]
                        < after.len() && after[exchange_to_policy@[k] as int].exchanges.contains(
                        k,
                    ) by {
                        if is_held(before, k) {
                            let j = choose|j: int|
                                0 <= j < before.len() && (#[trigger] before[j]).exchanges.contains(
                                    k,
                                );
                            assert(after[j].exchanges.contains(k));
                        } else {
                            assert(list.contains(k));
                            assert(list.to_set().contains(k));
                        }
                    }
                    assert forall|j: int, k: Seq<char>|
                        0 <= j < after.len()
                            && #[trigger] after[j].exchanges.contains(k) implies exchange_to_policy@.contains_key(
                    k) && exchange_to_policy@[k] == j by {
                        if j < before.len() {
                            assert(before[j].exchanges.contains(k));
                        } else {
                            assert(list.contains(k));
                        }
                    }
                }
            }
            let ghost facts = policy@;
            policies.push(policy);
            assert(policy_views(policies@) =~= before.push(facts));
            n += 1;
        }
        assert(sections.take(sections.len() as int) =~= sections);
        let schedule = MarketSessionSchedule { policies, exchange_to_policy };
        proof {
            let ps = schedule.policies();
            assert forall|i: int, j: int, k: Seq<char>|
                0 <= i < ps.len() && 0 <= j < ps.len() && #[trigger] ps[i].exchanges.contains(k)
                    && #[trigger] ps[j].exchanges.contains(k) implies i == j by {
                assert(exchange_to_policy@[k] == i);
                assert(exchange_to_policy@[k] == j);
            }
        }
        Ok(schedule)
    }

    pub fn is_empty(&self) -> (r: bool)
        ensures
            r == (self.policies().len() == 0),
    {
        self.policies.len() == 0
    }

    /// The policy that an exchange is in.
    pub fn policy_for_exchange(&self, exchange: &str) -> (r: Option<&MarketSessionPolicy>)
        ensures
            match r {
                Some(policy) => is_held(self.policies(), exchange_key_of(exchange@)) && policy@
                    == holder_of(self.policies(), exchange_key_of(exchange@)),
                None => !is_held(self.policies(), exchange_key_of(exchange@)),
            },
    {
        proof {
            use_type_invariant(self);
        }
        let key = exchange_key(exchange);
        let ghost ps = self.policies();
        proof {
            if is_held(ps, key@) {
                let i = choose|i: int|
                    0 <= i < ps.len() && (#[trigger] ps[i]).exchanges.contains(key@);
                assert(self.exchange_to_policy@[key@] == i);
            }
        }
        match self.exchange_to_policy.get(key.as_str()) {
            Some(index) => {
                assert(ps[*index as int].exchanges.contains(key@));
                assert(is_held(ps, key@));
                Some(&self.policies[*index])
            },
            None => None,
        }
    }

    pub fn is_exchange_active(&self, exchange: &str, now_utc: u64) -> (r: bool)
        ensures
            r == is_exchange_open(self.policies(), exchange@, now_utc),
    {
        match self.policy_for_exchange(exchange) {
            Some(policy) => policy.is_active_at(now_utc),
            None => true,
        }
    }

    pub fn status_for_exchange(&self, exchange: &str, now_utc: u64) -> (r: ExchangeSessionStatus)
        ensures
            r == exchange_status(self.policies(), exchange@, now_utc),
    {
        match self.policy_for_exchange(exchange) {
            Some(policy) => policy.status_at(now_utc),
            None => ExchangeSessionStatus::Active,
        }
    }

    /// The exchanges that trade in the same session as one of them.
    pub fn session_exchanges_for_exchange(&self, exchange: &str) -> (r: Option<TextSet>)
        ensures
            match r {
                Some(group) => is_held(self.policies(), exchange_key_of(exchange@)) && group@
                    == holder_of(self.policies(), exchange_key_of(exchange@)).exchanges,
                None => !is_held(self.policies(), exchange_key_of(exchange@)),
            },
    {
        match self.policy_for_exchange(exchange) {
            Some(policy) => Some(policy.exchanges().copy()),
            None => None,
        }
    }

    pub fn combined_status_for_exchanges(&self, exchanges: &TextSet, now_utc: u64) -> (r:
        ExchangeSessionStatus)
        ensures
            is_combined_status(self.policies(), exchanges@, now_utc, r),
    {
        if exchanges.is_empty() {
            return ExchangeSessionStatus::Active;
        }
        let names = exchanges.items();
        let ghost ps = self.policies();
        let ghost list = exchanges.list();
        assert(list.len() > 0);
        let mut next_open_utc: Option<u64> = None;
        let mut i: usize = 0;
        while i < names.len()
            invariant
                i <= names@.len(),
                views(names@) == list,
                list == exchanges.list(),
                ps == self.policies(),
                forall|j: int|
                    0 <= j < i ==> exchange_status(ps, #[trigger] list[j], now_utc) is Inactive,
                i > 0 ==> exists|j: int|
                    0 <= j < i && opening_of(ps, #[trigger] list[j], now_utc) == next_open_utc,
                i == 0 ==> next_open_utc is None,
                forall|j: int|
                    0 <= j < i && opening_of(ps, #[trigger] list[j], now_utc) is Some
                        ==> next_open_utc is Some && next_open_utc->0 <= opening_of(
                        ps,
                        list[j],
                        now_utc,
                    )->0,
            decreases names@.len() - i,
        {
            assert(names@[i as int]@ == list[i as int]);
            assert(exchanges@.contains(list[i as int]));
            let ghost earlier = next_open_utc;
            match self.status_for_exchange(names[i].as_str(), now_utc) {
                ExchangeSessionStatus::Active => {
                    assert(exchange_status(ps, list[i as int], now_utc) is Active);
                    return ExchangeSessionStatus::Active;
                },
                ExchangeSessionStatus::Inactive { next_open_utc: candidate, sleep_seconds } => {
                    assert(opening_of(ps, list[i as int], now_utc) == candidate);
                    if let Some(value) = candidate {
                        let sooner = match next_open_utc {
                            Some(existing) => value < existing,
                            None => true,
                        };
                        if sooner {
                            next_open_utc = Some(value);
                        }
                    }
                },
            }
            proof {
                if next_open_utc == earlier && i > 0 {
                    let j = choose|j: int|
                        0 <= j < i && opening_of(ps, #[trigger] list[j], now_utc) == earlier;
                    assert(opening_of(ps, list[j], now_utc) == next_open_utc);
                } else {
                    assert(opening_of(ps, list[i as int], now_utc) == next_open_utc);
                }
            }
            i += 1;
        }
        let sleep_seconds: u64 = match next_open_utc {
            Some(value) => value.saturating_sub(now_utc),
            None => 86_400,
        };
        proof {
            let j = choose|j: int|
                0 <= j < i && opening_of(ps, #[trigger] list[j], now_utc) == next_open_utc;
            assert(exchanges@.contains(list[j]));
            assert forall|x: Seq<char>| exchanges@.contains(x) implies (#[trigger] exchange_status(
                ps,
                x,
                now_utc,
            )) is Inactive by {
                let j = list.index_of(x);
                assert(exchange_status(ps, list[j], now_utc) is Inactive);
            }
            assert forall|x: Seq<char>|
                exchanges@.contains(x) && (#[trigger] opening_of(
                    ps,
                    x,
                    now_utc,
                )) is Some implies next_open_utc is Some && next_open_utc->0 <= opening_of(
                ps,
                x,
                now_utc,
            )->0 by {
                let j = list.index_of(x);
                assert(opening_of(ps, list[j], now_utc) is Some);
            }
        }
        ExchangeSessionStatus::Inactive { next_open_utc, sleep_seconds }
    }
}

/// Several exchanges are active together where, and only where, there are none or one of them is
/// active. Else they wait for the soonest opening among theirs, or a day where none of them
/// opens; and there is one such status only.
pub proof fn soonest_exchange_decides(
    policies: Seq<PolicyFacts>,
    exchanges: Set<Seq<char>>,
    now: u64,
    status: ExchangeSessionStatus,
)
    requires
        is_combined_status(policies, exchanges, now, status),
    ensures
        status is Active <==> exchanges == Set::<Seq<char>>::empty() || exists|x: Seq<char>|
            exchanges.contains(x) && #[trigger] exchange_status(policies, x, now) is Active,
        status matches ExchangeSessionStatus::Inactive { next_open_utc, sleep_seconds } ==> {
            &&& next_open_utc matches Some(next) ==> {
                &&& exists|x: Seq<char>|
                    exchanges.contains(x) && #[trigger] opening_of(policies, x, now) == Some(next)
                &&& forall|x: Seq<char>|
                    exchanges.contains(x) && (#[trigger] opening_of(policies, x, now)) is Some
                        ==> next <= opening_of(policies, x, now)->0
                &&& sleep_seconds == if next > now {
                    next - now
                } else {
                    0
                }
            }
            &&& next_open_utc is None ==> sleep_seconds == 86_400 && forall|x: Seq<char>|
                exchanges.contains(x) ==> (#[trigger] opening_of(policies, x, now)) is None
        },
        forall|other: ExchangeSessionStatus|
            is_combined_status(policies, exchanges, now, other) ==> other == status,
{
    assert forall|other: ExchangeSessionStatus|
        is_combined_status(policies, exchanges, now, other) implies other == status by {
        if status is Inactive && other is Inactive {
            let a = status->next_open_utc;
            let b = other->next_open_utc;
            let x = choose|x: Seq<char>|
                exchanges.contains(x) && #[trigger] opening_of(policies, x, now) == a;
            let y = choose|y: Seq<char>|
                exchanges.contains(y) && #[trigger] opening_of(policies, y, now) == b;
            assert(opening_of(policies, x, now) == a && opening_of(policies, y, now) == b);
            assert(a == b);
        }
    }
}

/// The name that an exchange goes by is its own name.
pub proof fn exchange_key_stays(exchange: Seq<char>)
    ensures
        exchange_key_of(exchange_key_of(exchange)) == exchange_key_of(exchange),
{
    let t = trim_of(exchange);
    trimming_is_complete(exchange);
    let u = upper_of(t);
    trim_keeps(u);
    assert(upper_of(u) =~= u);
}

proof fn exchange_keys_are_few(list: Seq<Seq<char>>)
    ensures
        exchange_keys_of(list).finite(),
{
    let keys = list.map_values(|x: Seq<char>| exchange_key_of(x));
    assert forall|k: Seq<char>| #[trigger] exchange_keys_of(list).contains(k) implies keys.to_set().contains(
        k,
    ) by {
        let i = choose|i: int| 0 <= i < list.len() && exchange_key_of(#[trigger] list[i]) == k;
        assert(keys[i] == k);
    }
    assert(exchange_keys_of(list).subset_of(keys.to_set()));
    vstd::set_lib::lemma_len_subset(exchange_keys_of(list), keys.to_set());
}

/// The policies of a schedule are those of its sections, and no exchange is in two of them.
proof fn policies_are_of_sections(sections: Seq<SectionFacts>, policies: Seq<PolicyFacts>)
    requires
        schedule_of(sections) == Ok::<Seq<PolicyFacts>, FeedFault>(policies),
    ensures
        policies.len() == sections.len(),
        forall|i: int|
            0 <= i < sections.len() ==> policy_of(#[trigger] sections[i]) == Ok::<
                PolicyFacts,
                FeedFault,
            >(policies[i]),
        forall|i: int, j: int, k: Seq<char>|
            0 <= i < policies.len() && 0 <= j < policies.len()
                && #[trigger] policies[i].exchanges.contains(k)
                && #[trigger] policies[j].exchanges.contains(k) ==> i == j,
    decreases sections.len(),
{
    if sections.len() > 0 {
        let before = schedule_of(sections.drop_last())->Ok_0;
        let n = before.len() as int;
        policies_are_of_sections(sections.drop_last(), before);
        let last = policies[n];
        assert(policies =~= before.push(last));
        assert forall|i: int| 0 <= i < sections.len() implies policy_of(#[trigger] sections[i])
            == Ok::<PolicyFacts, FeedFault>(policies[i]) by {
            if i < n {
                assert(sections.drop_last()[i] == sections[i]);
            }
        }
        exchange_keys_are_few(sections.last().exchanges);
        let clashes = last.exchanges.filter(|x: Seq<char>| is_held(before, x));
        if clashes.len() > 0 {
            let first = first_text(clashes);
            assert forall|other: Seq<char>|
                last.exchanges.contains(other) && #[trigger] is_held(
                    before,
                    other,
                ) implies other == first || text_lt(first, other) by {
                assert(clashes.contains(other));
            }
            assert(is_first_clash(before, last, first));
        }
        assert forall|i: int, j: int, k: Seq<char>|
            0 <= i < policies.len() && 0 <= j < policies.len()
                && #[trigger] policies[i].exchanges.contains(k)
                && #[trigger] policies[j].exchanges.contains(k) implies i == j by {
            if i < n && j < n {
                assert(before[i].exchanges.contains(k) && before[j].exchanges.contains(k));
            } else if i != j {
                let low = if i < n {
                    i
                } else {
                    j
                };
                assert(before[low].exchanges.contains(k));
                assert(is_held(before, k));
                assert(clashes.contains(k));
            }
        }
    }
}

/// An exchange is in the session that lists it, by whatever spelling of its name, and in no
/// other. One that no session lists may always be followed.
pub proof fn exchange_is_where_it_is_listed(
    sections: Seq<SectionFacts>,
    policies: Seq<PolicyFacts>,
    exchange: Seq<char>,
)
    requires
        schedule_of(sections) == Ok::<Seq<PolicyFacts>, FeedFault>(policies),
    ensures
        ({
            let key = exchange_key_of(exchange);
            &&& exchange_key_of(key) == key
            &&& is_held(policies, key) <==> key.len() > 0 && exists|i: int|
                0 <= i < sections.len() && exchange_keys_of(
                    (#[trigger] sections[i]).exchanges,
                ).contains(key)
            &&& forall|i: int|
                0 <= i < sections.len() && exchange_keys_of(
                    (#[trigger] sections[i]).exchanges,
                ).contains(key) ==> holder_of(policies, key).id == trim_of(sections[i].id)
                    && holder_of(policies, key).exchanges.contains(key)
            &&& !is_held(policies, key) ==> forall|now: u64|
                is_exchange_open(policies, exchange, now) && #[trigger] exchange_status(
                    policies,
                    exchange,
                    now,
                ) == ExchangeSessionStatus::Active
        }),
{
    let key = exchange_key_of(exchange);
    exchange_key_stays(exchange);
    policies_are_of_sections(sections, policies);
    if is_held(policies, key) {
        let i = choose|i: int|
            0 <= i < policies.len() && (#[trigger] policies[i]).exchanges.contains(key);
        assert(policy_of(sections[i]) == Ok::<PolicyFacts, FeedFault>(policies[i]));
        assert(exchange_keys_of(sections[i].exchanges).contains(key));
    }
    assert forall|i: int|
        0 <= i < sections.len() && exchange_keys_of(
            (#[trigger] sections[i]).exchanges,
        ).contains(key) implies is_held(policies, key) && holder_of(policies, key).id == trim_of(
        sections[i].id,
    ) && holder_of(policies, key).exchanges.contains(key) by {
        assert(policy_of(sections[i]) == Ok::<PolicyFacts, FeedFault>(policies[i]));
        assert(policies[i].exchanges.contains(key));
        assert(is_held(policies, key));
        let j = choose|j: int|
            0 <= j < policies.len() && (#[trigger] policies[j]).exchanges.contains(key);
        assert(policies[j].exchanges.contains(key));
        assert(i == j);
    }
}

/// A schedule that cannot be made from some of the sections cannot be made from all.
proof fn schedule_fails(sections: Seq<SectionFacts>, n: int)
    requires
        0 <= n <= sections.len(),
        schedule_of(sections.take(n)) is Err,
    ensures
        schedule_of(sections) == schedule_of(sections.take(n)),
    decreases sections.len() - n,
{
    if n < sections.len() {
        assert(sections.take(n + 1).drop_last() =~= sections.take(n));
        schedule_fails(sections, n + 1);
    } else {
        assert(sections.take(n) =~= sections);
    }
}

/// A moment as its date and clock time in UTC.
pub fn format_utc_epoch(utc_epoch: u64) -> (r: String)
    ensures
        r@ == stamp_of(utc_epoch as int, 0) + " UTC"@,
{
    utc_stamp(utc_epoch).concat(" UTC")
}

/// What the wait for the next session is told as.
pub open spec fn waiting_message_of(
    exchanges: Seq<Seq<char>>,
    next_open_utc: Option<u64>,
    sleep_seconds: u64,
) -> Seq<char> {
    "market sessions closed for "@ + join_of(exchanges, ","@) + "; next connect window is "@ + (
    match next_open_utc {
        Some(next) => stamp_of(next as int, 0) + " UTC"@,
        None => "unknown"@,
    }) + "; sleeping "@ + decimal_of(sleep_seconds as nat) + "s"@
}

/// Tells of the wait for the next session.
pub fn waiting_message(exchanges: &TextSet, next_open_utc: Option<u64>, sleep_seconds: u64) -> (r:
    String)
    ensures
        r@ == waiting_message_of(ascending_of(exchanges@), next_open_utc, sleep_seconds),
{
    let mut out = "market sessions closed for ".to_owned();
    out.append(join(ascending_items(exchanges), ",").as_str());
    out.append("; next connect window is ");
    let next = match next_open_utc {
        Some(next) => format_utc_epoch(next),
        None => "unknown".to_owned(),
    };
    out.append(next.as_str());
    out.append("; sleeping ");
    out.append(decimal(sleep_seconds).as_str());
    out.append("s");
    out
}

/// What is told of a wait, and how long it is.
#[derive(Debug, PartialEq, Eq)]
pub struct SessionWait {
    pub message: String,
    pub seconds: u64,
}

/// A wait as contracts speak of it.
pub open spec fn wait_facts(wait: Option<SessionWait>) -> Option<(Seq<char>, u64)> {
    match wait {
        Some(w) => Some((w.message@, w.seconds)),
        None => None,
    }
}

/// The seconds to wait, one at least.
pub open spec fn second_at_least(seconds: u64) -> u64 {
    if seconds == 0 {
        1
    } else {
        seconds
    }
}

/// The wait that a status of some exchanges asks for.
pub open spec fn wait_of(status: ExchangeSessionStatus, exchanges: Set<Seq<char>>) -> Option<
    (Seq<char>, u64),
> {
    match status {
        ExchangeSessionStatus::Active => None,
        ExchangeSessionStatus::Inactive { next_open_utc, sleep_seconds } => Some(
            (
                waiting_message_of(ascending_of(exchanges), next_open_utc, sleep_seconds),
                second_at_least(sleep_seconds),
            ),
        ),
    }
}

/// The wait until one of some exchanges may be connected to. There is none where no session is
/// configured.
pub fn exchange_session_wait(
    schedule: &MarketSessionSchedule,
    exchanges: &Vec<String>,
    now_utc: u64,
) -> (r: Option<SessionWait>)
    ensures
        if schedule.policies().len() == 0 {
            r is None
        } else {
            let keys = exchange_keys_of(views(exchanges@));
            exists|status: ExchangeSessionStatus| #[trigger]
                is_combined_status(schedule.policies(), keys, now_utc, status) && wait_facts(r)
                    == wait_of(status, keys)
        },
{
    if schedule.is_empty() {
        return None;
    }
    let keys = exchange_keys(exchanges);
    match schedule.combined_status_for_exchanges(&keys, now_utc) {
        ExchangeSessionStatus::Active => {
            let ghost none: Option<SessionWait> = None;
            assert(wait_facts(none) == wait_of(ExchangeSessionStatus::Active, keys@));
            None
        },
        ExchangeSessionStatus::Inactive { next_open_utc, sleep_seconds } => {
            let message = waiting_message(&keys, next_open_utc, sleep_seconds);
            let seconds: u64 = if sleep_seconds == 0 {
                1
            } else {
                sleep_seconds
            };
            Some(SessionWait { message, seconds })
        },
    }
}

/// A moment of the machine's clock, `std::time::SystemTime`. Nothing is known of what is in it.
#[verifier::external_type_specification]
#[verifier::external_body]
pub struct ExSystemTime(std::time::SystemTime);

/// Reads the clock of the machine, by `std::time::SystemTime::now`. What it reads is not stated.
pub assume_specification[ std::time::SystemTime::now ]() -> std::time::SystemTime;

/// Calls `std::time::SystemTime::duration_since` with 1970-01-01 UTC: the whole seconds since
/// then, or none where the moment is before. How many they are is not stated, as nothing is
/// known of what is in a moment.
#[verifier::external_body]
fn seconds_of(time: std::time::SystemTime) -> (r: Option<u64>) {
    match time.duration_since(std::time::UNIX_EPOCH) {
        Ok(duration) => Some(duration.as_secs()),
        Err(_) => None,
    }
}

/// The seconds since 1970-01-01 UTC.
pub fn now_unix_seconds() -> (r: Result<u64, FeedError>)
    ensures
        r matches Err(e) ==> e@ == FeedFault::Config(
            "system clock is before unix epoch: second time provided was later than self"@,
        ),
{
    match seconds_of(std::time::SystemTime::now()) {
        Some(seconds) => Ok(seconds),
        None => Err(
            FeedError::Config(
                "system clock is before unix epoch: second time provided was later than self".to_owned(),
            ),
        ),
    }
}

/// A market with hours is open from its first second on until its last, by the clock where it
/// is, and where it opens on weekdays only not on the two days of a weekend. One without hours is
/// open all day.
pub proof fn markets_are_open_in_their_hours(policy: PolicyFacts, utc: int)
    ensures
        ({
            let local = utc + match policy.timezone {
                MarketTimezone::Utc => 0int,
                MarketTimezone::AsiaKolkata => 19_800,
            };
            let (day, second) = (local / 86_400, local % 86_400);
            let weekend = day % 7 == 2 || day % 7 == 3;
            &&& policy.hours matches Some((connect, _, close)) ==> (is_open(policy, utc) <==> connect
                <= second < close && !(policy.weekdays_only && weekend))
            &&& policy.hours is None ==> (is_open(policy, utc) <==> !(policy.weekdays_only
                && weekend))
        }),
{
    weekends_come_every_seven_days(local_day(utc, zone_offset(policy.timezone)));
}

/// The hours of a market are those of its section: it opens when it is said to, but for the time
/// that a connection is wanted before, and closes later on the same day. What is always open has
/// none.
pub proof fn hours_are_those_of_the_section(section: SectionFacts)
    ensures
        policy_of(section) matches Ok(policy) ==> {
            &&& policy.id == trim_of(section.id)
            &&& policy.id.len() > 0
            &&& policy.weekdays_only == section.weekdays_only
            &&& section.always_open <==> policy.hours is None
            &&& forall|i: int|
                0 <= i < section.exchanges.len() && upper_of(
                    trim_of(#[trigger] section.exchanges[i]),
                ).len() > 0 ==> policy.exchanges.contains(upper_of(trim_of(section.exchanges[i])))
            &&& policy.hours matches Some((connect, open, close)) ==> {
                &&& section.open is Some && section.close is Some
                &&& 0 <= connect <= open < close
                &&& open - connect == section.connect_before_open_secs
            }
        },
{
}

} // verus!
