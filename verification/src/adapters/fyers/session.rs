//! When FYERS is connected to.
use crate::calendar::{
    clock_of, in_window, ist_stamp, local_day, moment_on, on_clock, parse_clock, shown,
    shown_moment, shown_stamp_of, signed_of, stamp_of, unsigned_of, weekends_come_every_seven_days,
    window_ahead, window_from, window_from_is_first, IST_OFFSET_SECONDS, LAST_UTC,
};
use crate::config::FyersMarketSessionSection;
use crate::feeder::error::{outcome, FeedError, FeedFault};
use crate::feeder::market_session::{second_at_least, wait_facts, SessionWait};
use crate::text::{decimal, decimal_of, same, trim, trim_of};
use vstd::prelude::*;

verus! {

/// When connections may be open for a session.
pub struct MarketSessionPolicy {
    name: String,
    close_second: u64,
    connect_second: u64,
    weekdays_only: bool,
}

/// A policy as contracts speak of it.
pub struct SessionFacts {
    pub name: Seq<char>,
    pub connect: int,
    pub close: int,
    pub weekdays_only: bool,
}

impl View for MarketSessionPolicy {
    type V = SessionFacts;

    closed spec fn view(&self) -> SessionFacts {
        SessionFacts {
            name: self.name@,
            connect: self.connect_second as int,
            close: self.close_second as int,
            weekdays_only: self.weekdays_only,
        }
    }
}

/// The policies of a list, as contracts speak of them.
pub open spec fn session_views(v: Seq<MarketSessionPolicy>) -> Seq<SessionFacts> {
    Seq::new(v.len(), |i: int| v[i]@)
}

/// Whether connections may be open at a moment.
pub open spec fn may_connect(policy: SessionFacts, utc: int) -> bool {
    in_window(
        utc,
        IST_OFFSET_SECONDS as int,
        policy.connect,
        policy.close,
        policy.weekdays_only,
    )
}

/// Whether a moment is the next, from another on, at which connections may be open.
pub open spec fn connects_next(policy: SessionFacts, now: int, next: int) -> bool {
    &&& now <= next
    &&& may_connect(policy, next)
    &&& forall|u: int| now <= u < next ==> !(#[trigger] may_connect(policy, u))
}

/// There is one next moment at most.
pub proof fn connects_next_once(policy: SessionFacts, now: int, a: int, b: int)
    requires
        connects_next(policy, now, a),
        connects_next(policy, now, b),
    ensures
        a == b,
{
    if a < b {
        assert(!may_connect(policy, a));
    } else if b < a {
        assert(!may_connect(policy, b));
    }
}

/// Whether connections may be open now, and if not, when.
#[derive(Debug, PartialEq, Eq)]
pub enum ConnectWindowStatus {
    Open { session_name: String },
    Closed { session_name: String, next_connect_utc: u64, sleep_seconds: u64 },
}

/// When connections may be open next, by a clock with 64 bits. Where they may on none of the
/// next fourteen days, a day from now is taken.
pub open spec fn next_connection(policy: SessionFacts, now: u64) -> u64 {
    match window_from(
        now,
        IST_OFFSET_SECONDS as int,
        policy.connect,
        policy.close,
        policy.weekdays_only,
        0,
    ) {
        Some(next) => next,
        None => unsigned_of(now + 86_400),
    }
}

/// Where the clock shows the time, the next connection is the first moment from now on at which
/// connections may be open, and it is now where they may be open now.
pub proof fn next_connection_is_first(policy: SessionFacts, now: u64)
    requires
        0 <= policy.connect < policy.close <= 86_400,
        on_clock(now, IST_OFFSET_SECONDS as int, policy.connect),
    ensures
        connects_next(policy, now as int, next_connection(policy, now) as int),
        next_connection(policy, now) == now <==> may_connect(policy, now as int),
{
    let offset = IST_OFFSET_SECONDS as int;
    window_from_is_first(now, offset, policy.connect, policy.close, policy.weekdays_only);
    let next = next_connection(policy, now);
    assert forall|u: int| now <= u < next implies !(#[trigger] may_connect(policy, u)) by {
        assert(!in_window(u, offset, policy.connect, policy.close, policy.weekdays_only));
    }
}

/// Whether a status is the one that a policy has at a moment.
pub open spec fn is_window_status(
    policy: SessionFacts,
    now: u64,
    status: ConnectWindowStatus,
) -> bool {
    match status {
        ConnectWindowStatus::Open { session_name } => next_connection(policy, now) == now
            && session_name@ == policy.name,
        ConnectWindowStatus::Closed { session_name, next_connect_utc, sleep_seconds } => {
            &&& next_connect_utc != now
            &&& next_connect_utc == next_connection(policy, now)
            &&& session_name@ == policy.name
            &&& sleep_seconds == if next_connect_utc > now {
                next_connect_utc - now
            } else {
                0
            }
        },
    }
}

/// Whether a status is the one that several policies have together: that of the first
/// which is open, or else that of the first of those which open the soonest.
pub open spec fn is_combined_window(
    policies: Seq<SessionFacts>,
    now: u64,
    status: ConnectWindowStatus,
) -> bool {
    if policies.len() == 0 {
        status matches ConnectWindowStatus::Closed { session_name, next_connect_utc, sleep_seconds }
            && session_name@ == "UNKNOWN"@ && next_connect_utc == unsigned_of(now + 86_400)
            && sleep_seconds == 86_400
    } else {
        exists|i: int| leads_policies(policies, now, i) && is_window_status(policies[i], now, status)
    }
}

/// Whether a policy is the one that decides among several.
pub open spec fn leads_policies(policies: Seq<SessionFacts>, now: u64, i: int) -> bool {
    let next = next_connection(policies[i], now);
    &&& 0 <= i < policies.len()
    &&& if next == now {
        forall|j: int| 0 <= j < i ==> next_connection(#[trigger] policies[j], now) != now
    } else {
        forall|j: int|
            0 <= j < policies.len() ==> {
                let other = next_connection(#[trigger] policies[j], now);
                other != now && next <= other && (j < i ==> next < other)
            }
    }
}

/// One policy at most decides among several.
pub proof fn one_policy_leads(policies: Seq<SessionFacts>, now: u64, i: int, k: int)
    requires
        leads_policies(policies, now, i),
        leads_policies(policies, now, k),
    ensures
        i == k,
{
    let (a, b) = (policies[i], policies[k]);
    assert(next_connection(a, now) == now <==> next_connection(b, now) == now);
}

/// A configured session, as contracts speak of it.
pub struct FyersSectionFacts {
    pub enabled: bool,
    pub name: Seq<char>,
    pub timezone: Seq<char>,
    pub open_ist: Seq<char>,
    pub close_ist: Seq<char>,
    pub connect_before_open_secs: u64,
    pub weekdays_only: bool,
}

impl View for FyersMarketSessionSection {
    type V = FyersSectionFacts;

    open spec fn view(&self) -> FyersSectionFacts {
        FyersSectionFacts {
            enabled: self.enabled,
            name: self.name@,
            timezone: self.timezone@,
            open_ist: self.open_ist@,
            close_ist: self.close_ist@,
            connect_before_open_secs: self.connect_before_open_secs,
            weekdays_only: self.weekdays_only,
        }
    }
}

/// The policy that a configured session makes.
pub open spec fn session_of(section: FyersSectionFacts) -> Result<SessionFacts, FeedFault> {
    let name = trim_of(section.name);
    let timezone = trim_of(section.timezone);
    if name.len() == 0 {
        Err(FeedFault::Config("brokers.fyers.market_sessions.name cannot be empty"@))
    } else if timezone != "Asia/Kolkata"@ && timezone != "IST"@ {
        Err(
            FeedFault::Config(
                "unsupported FYERS market_sessions."@ + name + ".timezone "@ + timezone
                    + "; expected Asia/Kolkata"@,
            ),
        )
    } else {
        match clock_of(
            section.open_ist,
            "brokers.fyers.market_sessions.open_ist"@,
            u64::MAX as nat,
        ) {
            Err(e) => Err(e),
            Ok(open) => match clock_of(
                section.close_ist,
                "brokers.fyers.market_sessions.close_ist"@,
                u64::MAX as nat,
            ) {
                Err(e) => Err(e),
                Ok(close) => if close <= open {
                    Err(
                        FeedFault::Config(
                            "brokers.fyers.market_sessions."@ + name
                                + ".close_ist must be after open_ist"@,
                        ),
                    )
                } else if section.connect_before_open_secs > open {
                    Err(
                        FeedFault::Config(
                            "brokers.fyers.market_sessions."@ + name
                                + ".connect_before_open_secs is too large"@,
                        ),
                    )
                } else {
                    Ok(
                        SessionFacts {
                            name,
                            connect: open - section.connect_before_open_secs,
                            close: close as int,
                            weekdays_only: section.weekdays_only,
                        },
                    )
                },
            },
        }
    }
}

/// The policies that the sessions which are switched on make.
pub open spec fn sessions_of(sections: Seq<FyersSectionFacts>) -> Result<
    Seq<SessionFacts>,
    FeedFault,
>
    decreases sections.len(),
{
    if sections.len() == 0 {
        Ok(Seq::empty())
    } else {
        match sessions_of(sections.drop_last()) {
            Err(e) => Err(e),
            Ok(known) => if !sections.last().enabled {
                Ok(known)
            } else {
                match session_of(sections.last()) {
                    Err(e) => Err(e),
                    Ok(policy) => Ok(known.push(policy)),
                }
            },
        }
    }
}

pub open spec fn fyers_section_views(v: Seq<FyersMarketSessionSection>) -> Seq<FyersSectionFacts> {
    Seq::new(v.len(), |i: int| v[i]@)
}

proof fn sessions_fail(sections: Seq<FyersSectionFacts>, n: int)
    requires
        0 <= n <= sections.len(),
        sessions_of(sections.take(n)) is Err,
    ensures
        sessions_of(sections) == sessions_of(sections.take(n)),
    decreases sections.len() - n,
{
    if n < sections.len() {
        assert(sections.take(n + 1).drop_last() =~= sections.take(n));
        sessions_fail(sections, n + 1);
    } else {
        assert(sections.take(n) =~= sections);
    }
}

impl MarketSessionPolicy {
    #[verifier::type_invariant]
    closed spec fn has_hours(self) -> bool {
        self.connect_second < self.close_second < 86_400
    }

    /// The policies of the sessions that are switched on.
    pub fn from_configs(configs: &Vec<FyersMarketSessionSection>) -> (r: Result<
        Vec<MarketSessionPolicy>,
        FeedError,
    >)
        ensures
            match r {
                Ok(policies) => sessions_of(fyers_section_views(configs@)) == Ok::<
                    Seq<SessionFacts>,
                    FeedFault,
                >(session_views(policies@)),
                Err(e) => sessions_of(fyers_section_views(configs@)) == Err::<
                    Seq<SessionFacts>,
                    FeedFault,
                >(e@),
            },
    {
        let ghost sections = fyers_section_views(configs@);
        let mut policies: Vec<MarketSessionPolicy> = Vec::new();
        let mut i: usize = 0;
        assert(sections.take(0) =~= Seq::empty());
        assert(session_views(policies@) =~= Seq::empty());
        while i < configs.len()
            invariant
                sections == fyers_section_views(configs@),
                i <= configs@.len(),
                sessions_of(sections.take(i as int)) == Ok::<Seq<SessionFacts>, FeedFault>(
                    session_views(policies@),
                ),
            decreases configs@.len() - i,
        {
            let ghost before = session_views(policies@);
            assert(sections.take(i + 1).drop_last() =~= sections.take(i as int));
            assert(sections.take(i + 1).last() == configs@[i as int]@);
            if configs[i].enabled {
                match MarketSessionPolicy::from_config(&configs[i]) {
                    Ok(policy) => {
                        let ghost facts = policy@;
                        policies.push(policy);
                        assert(session_views(policies@) =~= before.push(facts));
                    },
                    Err(e) => {
                        proof {
                            sessions_fail(sections, i + 1);
                        }
                        return Err(e);
                    },
                }
            }
            i += 1;
        }
        assert(sections.take(sections.len() as int) =~= sections);
        Ok(policies)
    }

    pub fn from_config(config: &FyersMarketSessionSection) -> (r: Result<
        MarketSessionPolicy,
        FeedError,
    >)
        ensures
            outcome(r) == session_of(config@),
    {
        let name = trim(config.name.as_str());
        if name.as_str().is_empty() {
            return Err(
                FeedError::Config("brokers.fyers.market_sessions.name cannot be empty".to_owned()),
            );
        }
        let timezone = trim(config.timezone.as_str());
        if !same(timezone.as_str(), "Asia/Kolkata") && !same(timezone.as_str(), "IST") {
            let mut message = "unsupported FYERS market_sessions.".to_owned();
            message.append(name.as_str());
            message.append(".timezone ");
            message.append(timezone.as_str());
            message.append("; expected Asia/Kolkata");
            return Err(FeedError::Config(message));
        }
        let open_second: u64 = match parse_clock(
            config.open_ist.as_str(),
            "brokers.fyers.market_sessions.open_ist",
            u64::MAX,
        ) {
            Ok(second) => second,
            Err(e) => return Err(e),
        };
        let close_second: u64 = match parse_clock(
            config.close_ist.as_str(),
            "brokers.fyers.market_sessions.close_ist",
            u64::MAX,
        ) {
            Ok(second) => second,
            Err(e) => return Err(e),
        };
        let prefix = "brokers.fyers.market_sessions.".to_owned().concat(name.as_str());
        if close_second <= open_second {
            return Err(FeedError::Config(prefix.concat(".close_ist must be after open_ist")));
        }
        if config.connect_before_open_secs > open_second {
            return Err(
                FeedError::Config(prefix.concat(".connect_before_open_secs is too large")),
            );
        }
        Ok(
            MarketSessionPolicy {
                name,
                close_second,
                connect_second: open_second - config.connect_before_open_secs,
                weekdays_only: config.weekdays_only,
            },
        )
    }

    pub fn status_at(&self, now_utc: u64) -> (r: ConnectWindowStatus)
        ensures
            is_window_status(self@, now_utc, r),
    {
        let next_connect_utc: u64 = self.next_connect_utc(now_utc);
        if next_connect_utc == now_utc {
            ConnectWindowStatus::Open { session_name: self.name.clone() }
        } else {
            ConnectWindowStatus::Closed {
                session_name: self.name.clone(),
                next_connect_utc,
                sleep_seconds: next_connect_utc.saturating_sub(now_utc),
            }
        }
    }

    /// The next moment, from now on, at which connections may be open.
    pub fn next_connect_utc(&self, now_utc: u64) -> (r: u64)
        ensures
            r == next_connection(self@, now_utc),
            0 <= self@.connect < self@.close <= 86_400,
    {
        proof {
            use_type_invariant(self);
        }
        match window_ahead(
            now_utc,
            19_800,
            self.connect_second,
            self.close_second,
            self.weekdays_only,
        ) {
            Some(next) => next,
            None => now_utc.wrapping_add(86_400),
        }
    }
}

/// The status of several policies together.
pub fn combined_status_at(policies: &Vec<MarketSessionPolicy>, now_utc: u64) -> (r:
    ConnectWindowStatus)
    ensures
        is_combined_window(session_views(policies@), now_utc, r),
{
    let ghost ps = session_views(policies@);
    if policies.len() == 0 {
        return ConnectWindowStatus::Closed {
            session_name: "UNKNOWN".to_owned(),
            next_connect_utc: now_utc.wrapping_add(86_400),
            sleep_seconds: 86_400,
        };
    }
    let mut best: usize = 0;
    let mut best_next: u64 = 0;
    let mut i: usize = 0;
    while i < policies.len()
        invariant
            ps == session_views(policies@),
            i <= policies@.len(),
            best < policies@.len(),
            i > 0 ==> best < i && best_next == next_connection(ps[best as int], now_utc),
            forall|j: int|
                0 <= j < i ==> {
                    let other = next_connection(#[trigger] ps[j], now_utc);
                    other != now_utc && best_next <= other && (j < best ==> best_next < other)
                },
        decreases policies@.len() - i,
    {
        let policy = &policies[i];
        assert(ps[i as int] == policy@);
        let next: u64 = policy.next_connect_utc(now_utc);
        if next == now_utc {
            let status = policy.status_at(now_utc);
            assert(leads_policies(ps, now_utc, i as int));
            return status;
        }
        if i == 0 || next < best_next {
            best = i;
            best_next = next;
        }
        i += 1;
    }
    assert(next_connection(ps[best as int], now_utc) != now_utc);
    assert(leads_policies(ps, now_utc, best as int));
    assert(policies@[best as int]@ == ps[best as int]);
    policies[best].status_at(now_utc)
}

/// What is told of a wait for a session.
pub open spec fn connect_message_of(
    session_name: Seq<char>,
    next_connect_utc: u64,
    sleep_seconds: u64,
) -> Seq<char> {
    "FYERS market sessions closed; next connect window is "@ + session_name + " at "@
        + shown_stamp_of(next_connect_utc, IST_OFFSET_SECONDS as int) + " IST"@ + "; sleeping "@
        + decimal_of(sleep_seconds as nat) + "s without reconnect spam"@
}

/// The wait that a status asks for.
pub open spec fn window_wait_of(status: ConnectWindowStatus) -> Option<(Seq<char>, u64)> {
    match status {
        ConnectWindowStatus::Open { .. } => None,
        ConnectWindowStatus::Closed { session_name, next_connect_utc, sleep_seconds } => Some(
            (
                connect_message_of(session_name@, next_connect_utc, sleep_seconds),
                second_at_least(sleep_seconds),
            ),
        ),
    }
}

/// The wait until a session of some policies may be connected to. There is none where there is
/// no policy.
pub fn market_session_wait(policies: &Vec<MarketSessionPolicy>, now_utc: u64) -> (r: Option<
    SessionWait,
>)
    ensures
        if policies@.len() == 0 {
            r is None
        } else {
            exists|status: ConnectWindowStatus| #[trigger]
                is_combined_window(session_views(policies@), now_utc, status) && wait_facts(r)
                    == window_wait_of(status)
        },
{
    if policies.len() == 0 {
        return None;
    }
    let status = combined_status_at(policies, now_utc);
    let ghost told = status;
    let wait = match status {
        ConnectWindowStatus::Open { .. } => None,
        ConnectWindowStatus::Closed { session_name, next_connect_utc, sleep_seconds } => {
            let mut message = "FYERS market sessions closed; next connect window is ".to_owned();
            message.append(session_name.as_str());
            message.append(" at ");
            message.append(format_ist_epoch(next_connect_utc).as_str());
            message.append("; sleeping ");
            message.append(decimal(sleep_seconds).as_str());
            message.append("s without reconnect spam");
            let seconds: u64 = if sleep_seconds == 0 {
                1
            } else {
                sleep_seconds
            };
            assert(message@ =~= connect_message_of(
                session_name@,
                next_connect_utc,
                sleep_seconds,
            ));
            Some(SessionWait { message, seconds })
        },
    };
    assert(is_combined_window(session_views(policies@), now_utc, told));
    wait
}

/// The moment of a second of a day in Indian Standard Time.
pub fn ist_day_second_to_utc(ist_day: i64, second_of_day: u64) -> (r: u64)
    ensures
        r == moment_on(ist_day as int, signed_of(second_of_day as int), IST_OFFSET_SECONDS as int),
        0 <= ist_day * 86_400 + second_of_day - 19_800 <= i64::MAX ==> r == ist_day * 86_400
            + second_of_day - 19_800,
{
    shown_moment(ist_day, shown(second_of_day, 0), 19_800)
}

/// A moment as its date and clock time in Indian Standard Time.
pub fn format_ist_epoch(utc_epoch: u64) -> (r: String)
    ensures
        r@ == shown_stamp_of(utc_epoch, IST_OFFSET_SECONDS as int) + " IST"@,
        utc_epoch <= LAST_UTC ==> r@ == stamp_of(utc_epoch as int, IST_OFFSET_SECONDS as int)
            + " IST"@,
{
    ist_stamp(utc_epoch).concat(" IST")
}

/// A connection is wanted from its second on until the close, by the clock in India, and where
/// only weekdays count not on the two days of a weekend.
pub proof fn connections_are_wanted_in_their_hours(policy: SessionFacts, utc: int)
    ensures
        ({
            let (day, second) = ((utc + 19_800) / 86_400, (utc + 19_800) % 86_400);
            let weekend = day % 7 == 2 || day % 7 == 3;
            may_connect(policy, utc) <==> policy.connect <= second < policy.close && !(
            policy.weekdays_only && weekend)
        }),
{
    weekends_come_every_seven_days(local_day(utc, 19_800));
}

/// The hours of a session are those of its section: the connection is wanted before it opens by
/// as much as is said, and no later than it closes.
pub proof fn hours_are_those_of_the_section(section: FyersSectionFacts, open: u64, close: u64)
    requires
        clock_of(
            section.open_ist,
            "brokers.fyers.market_sessions.open_ist"@,
            u64::MAX as nat,
        ) == Ok::<u64, FeedFault>(open),
        clock_of(
            section.close_ist,
            "brokers.fyers.market_sessions.close_ist"@,
            u64::MAX as nat,
        ) == Ok::<u64, FeedFault>(close),
    ensures
        session_of(section) is Ok ==> open < close && section.connect_before_open_secs <= open,
        session_of(section) matches Ok(policy) ==> {
            &&& policy.connect + section.connect_before_open_secs == open
            &&& policy.close == close
            &&& 0 <= policy.connect < policy.close
            &&& policy.name == trim_of(section.name)
            &&& policy.name.len() > 0
            &&& policy.weekdays_only == section.weekdays_only
        },
{
}

/// The sessions are those of the sections that are switched on, in their order; a section that is
/// off is not even looked at.
pub proof fn sessions_are_those_switched_on(sections: Seq<FyersSectionFacts>, policy: SessionFacts)
    requires
        sessions_of(sections) is Ok,
    ensures
        sessions_of(sections)->Ok_0.contains(policy) <==> exists|i: int|
            0 <= i < sections.len() && (#[trigger] sections[i]).enabled && session_of(sections[i])
                == Ok::<SessionFacts, FeedFault>(policy),
        forall|i: int|
            0 <= i < sections.len() && (#[trigger] sections[i]).enabled ==> session_of(
                sections[i],
            ) is Ok,
    decreases sections.len(),
{
    let all = sessions_of(sections)->Ok_0;
    if sections.len() > 0 {
        let d = sections.drop_last();
        let n = sections.len() - 1;
        sessions_are_those_switched_on(d, policy);
        let before = sessions_of(d)->Ok_0;
        assert(sections[n] == sections.last());
        assert forall|i: int|
            #![trigger d[i]]
            #![trigger sections[i]]
            0 <= i < n implies d[i] == sections[i] by {}
        if before.contains(policy) {
            let k = choose|k: int| 0 <= k < before.len() && before[k] == policy;
            assert(all[k] == policy);
            let i = choose|i: int|
                0 <= i < d.len() && (#[trigger] d[i]).enabled && session_of(d[i]) == Ok::<
                    SessionFacts,
                    FeedFault,
                >(policy);
            assert(sections[i] == d[i]);
        }
        if all.contains(policy) && !before.contains(policy) {
            let k = choose|k: int| 0 <= k < all.len() && all[k] == policy;
            if k < before.len() {
                assert(before[k] == policy);
            }
        }
        if all.len() > before.len() {
            assert(all[before.len() as int] == session_of(sections[n])->Ok_0);
        }
    }
}

} // verus!
