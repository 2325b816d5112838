//! When the brokers are logged in to, and what a login run does.
use crate::calendar::{
    at_second, clock_day, clock_of, clock_second, ist_day_and_second, is_weekday, is_weekday_day,
    local_day, local_second, next_at, next_at_is_first, next_at_ist_second, on_clock, parse_clock, IST_OFFSET_SECONDS, LAST_UTC,
};
use crate::feeder::error::{outcome, FeedError, FeedFault};
use crate::text::{same, trim, trim_of, upper, upper_of};
use vstd::prelude::*;

verus! {

/// The time of day at which to log in.
pub fn parse_ist_hh_mm(value: &str) -> (r: Result<u64, FeedError>)
    ensures
        outcome(r) == clock_of(value@, "login_scheduler.time_ist"@, u64::MAX as nat),
        r matches Ok(second) ==> second < 86_400,
{
    parse_clock(value, "login_scheduler.time_ist", u64::MAX)
}

/// Whether the login of today is due already.
pub fn should_run_catchup(now_utc: u64, scheduled_second: u64, weekdays_only: bool) -> (r: bool)
    ensures
        r == ((weekdays_only ==> is_weekday(clock_day(now_utc, IST_OFFSET_SECONDS as int)))
            && clock_second(now_utc, IST_OFFSET_SECONDS as int) >= scheduled_second),
        now_utc <= LAST_UTC ==> r == ((weekdays_only ==> is_weekday(
            local_day(now_utc as int, IST_OFFSET_SECONDS as int),
        )) && local_second(now_utc as int, IST_OFFSET_SECONDS as int) >= scheduled_second),
{
    let (day, second) = ist_day_and_second(now_utc);
    (!weekdays_only || is_weekday_day(day)) && second >= scheduled_second
}

/// When to log in next: the first moment after now at the given second of the day in
/// Indian Standard Time, on a weekday where only those count.
pub fn next_scheduled_utc_epoch(now_utc: u64, scheduled_second: u64, weekdays_only: bool) -> (r:
    u64)
    ensures
        r == next_at(now_utc, scheduled_second, weekdays_only, 14),
        on_clock(now_utc, IST_OFFSET_SECONDS as int, scheduled_second as int) && scheduled_second
            < 86_400 ==> {
            let offset = IST_OFFSET_SECONDS as int;
            let second = scheduled_second as int;
            &&& now_utc < r
            &&& at_second(r as int, offset, second, weekdays_only)
            &&& forall|u: int| now_utc < u < r ==> !at_second(u, offset, second, weekdays_only)
        },
{
    proof {
        if on_clock(now_utc, IST_OFFSET_SECONDS as int, scheduled_second as int)
            && scheduled_second < 86_400 {
            next_at_is_first(now_utc, scheduled_second, weekdays_only, 14);
        }
    }
    next_at_ist_second(now_utc, scheduled_second, weekdays_only, 14)
}

/// How long to sleep until a moment; a second at least.
pub fn sleep_seconds_until(now_utc: u64, next_run: u64) -> (r: u64)
    ensures
        r == if next_run > now_utc {
            next_run - now_utc
        } else {
            1
        },
{
    let gap: u64 = next_run.saturating_sub(now_utc);
    if gap > 1 {
        gap
    } else {
        1
    }
}

/// What a login run does next for a broker.
#[derive(Clone, Copy, Debug, PartialEq, Eq, Structural)]
pub enum LoginStep {
    /// See whether the session for market data of DBInternational is current.
    ReadMarketDataSession,
    /// Log in to the market data of DBInternational.
    LoginMarketData,
    /// See whether the session for orders of DBInternational is current.
    ReadInteractiveSession,
    /// Log in to the orders of DBInternational.
    LoginInteractive,
    /// See whether the session of AngelOne is current.
    ReadAngeloneSession,
    /// Log in to AngelOne.
    LoginAngelone,
    /// Nothing more.
    Finished,
}

/// What a step came to.
#[derive(Debug)]
pub enum LoginEvent {
    /// The session is current; whose it is.
    SessionCurrent { owner: Option<String> },
    /// There is no current session.
    SessionMissing,
    /// The login went well; whose session it is, and where it is kept.
    LoggedIn { owner: Option<String>, token_file: String, session_file: Option<String> },
}

/// What a step came to, as contracts speak of it.
pub enum LoginEventFacts {
    SessionCurrent { owner: Option<Seq<char>> },
    SessionMissing,
    LoggedIn { owner: Option<Seq<char>>, token_file: Seq<char>, session_file: Option<Seq<char>> },
}

pub open spec fn or_dash(value: Option<Seq<char>>) -> Seq<char> {
    match value {
        Some(v) => v,
        None => "-"@,
    }
}

impl View for LoginEvent {
    type V = LoginEventFacts;

    open spec fn view(&self) -> LoginEventFacts {
        match self {
            LoginEvent::SessionCurrent { owner } => LoginEventFacts::SessionCurrent {
                owner: match owner {
                    Some(v) => Some(v@),
                    None => None,
                },
            },
            LoginEvent::SessionMissing => LoginEventFacts::SessionMissing,
            LoginEvent::LoggedIn { owner, token_file, session_file } => LoginEventFacts::LoggedIn {
                owner: match owner {
                    Some(v) => Some(v@),
                    None => None,
                },
                token_file: token_file@,
                session_file: match session_file {
                    Some(v) => Some(v@),
                    None => None,
                },
            },
        }
    }
}

/// The first step for a broker, by its name and whether it is configured.
pub open spec fn first_step_of(
    broker: Seq<char>,
    dbinternational: bool,
    angelone: bool,
) -> Result<LoginStep, FeedFault> {
    let v = upper_of(trim_of(broker));
    if v == "DBINTERNATIONAL"@ || v == "DB"@ {
        Ok(
            if dbinternational {
                LoginStep::ReadMarketDataSession
            } else {
                LoginStep::Finished
            },
        )
    } else if v == "ANGELONE"@ || v == "ANGEL"@ || v == "ANGEL_ONE"@ {
        Ok(
            if angelone {
                LoginStep::ReadAngeloneSession
            } else {
                LoginStep::Finished
            },
        )
    } else {
        Err(FeedFault::Config("unsupported login scheduler broker "@ + v))
    }
}

pub fn first_login_step(broker: &str, dbinternational: bool, angelone: bool) -> (r: Result<
    LoginStep,
    FeedError,
>)
    ensures
        match r {
            Ok(step) => first_step_of(broker@, dbinternational, angelone) == Ok::<
                LoginStep,
                FeedFault,
            >(step),
            Err(e) => first_step_of(broker@, dbinternational, angelone) == Err::<
                LoginStep,
                FeedFault,
            >(e@),
        },
{
    let v = upper(trim(broker).as_str());
    let name = v.as_str();
    if same(name, "DBINTERNATIONAL") || same(name, "DB") {
        if dbinternational {
            Ok(LoginStep::ReadMarketDataSession)
        } else {
            Ok(LoginStep::Finished)
        }
    } else if same(name, "ANGELONE") || same(name, "ANGEL") || same(name, "ANGEL_ONE") {
        if angelone {
            Ok(LoginStep::ReadAngeloneSession)
        } else {
            Ok(LoginStep::Finished)
        }
    } else {
        Err(FeedError::Config("unsupported login scheduler broker ".to_owned().concat(name)))
    }
}

/// The step that follows one, by whether the session that it looked for was current. A
/// login is followed by what comes after its session.
pub open spec fn step_after(step: LoginStep, current: bool) -> LoginStep {
    match step {
        LoginStep::ReadMarketDataSession => if current {
            LoginStep::ReadInteractiveSession
        } else {
            LoginStep::LoginMarketData
        },
        LoginStep::LoginMarketData => LoginStep::ReadInteractiveSession,
        LoginStep::ReadInteractiveSession => if current {
            LoginStep::Finished
        } else {
            LoginStep::LoginInteractive
        },
        LoginStep::LoginInteractive => LoginStep::Finished,
        LoginStep::ReadAngeloneSession => if current {
            LoginStep::Finished
        } else {
            LoginStep::LoginAngelone
        },
        LoginStep::LoginAngelone => LoginStep::Finished,
        LoginStep::Finished => LoginStep::Finished,
    }
}

/// What is told of a step.
pub open spec fn step_message_of(step: LoginStep, event: LoginEventFacts) -> Option<Seq<char>> {
    match event {
        LoginEventFacts::SessionMissing => None,
        LoginEventFacts::SessionCurrent { owner } => match step {
            LoginStep::ReadMarketDataSession => Some(
                "DBInternational market_data login skipped: current session user_id="@ + or_dash(
                    owner,
                ),
            ),
            LoginStep::ReadInteractiveSession => Some(
                "DBInternational interactive login skipped: current session user_id="@ + or_dash(
                    owner,
                ),
            ),
            LoginStep::ReadAngeloneSession => Some(
                "AngelOne login skipped: current session client_code="@ + or_dash(owner),
            ),
            _ => None,
        },
        LoginEventFacts::LoggedIn { owner, token_file, session_file } => match step {
            LoginStep::LoginMarketData => Some(
                "DBInternational market_data login ok user_id="@ + or_dash(owner)
                    + " token_file="@ + token_file + " session_file="@ + or_dash(session_file),
            ),
            LoginStep::LoginInteractive => Some(
                "DBInternational interactive login ok user_id="@ + or_dash(owner)
                    + " token_file="@ + token_file + " session_file="@ + or_dash(session_file),
            ),
            LoginStep::LoginAngelone => Some(
                "AngelOne login ok client_code="@ + or_dash(owner) + " session_file="@ + or_dash(
                    session_file,
                ),
            ),
            _ => None,
        },
    }
}

fn text_or_dash(value: &Option<String>) -> (r: &str)
    ensures
        r@ == or_dash(
            match value {
                Some(v) => Some(v@),
                None => None,
            },
        ),
{
    match value {
        Some(v) => v.as_str(),
        None => "-",
    }
}

/// Goes on after a step: gives the step that follows, and what is told of the one done.
pub fn next_login_step(step: LoginStep, event: &LoginEvent) -> (r: (LoginStep, Option<String>))
    ensures
        r.0 == step_after(step, event@ is SessionCurrent),
        match r.1 {
            Some(message) => step_message_of(step, event@) == Some(message@),
            None => step_message_of(step, event@) is None,
        },
{
    let current = match event {
        LoginEvent::SessionCurrent { .. } => true,
        _ => false,
    };
    let next = match step {
        LoginStep::ReadMarketDataSession => if current {
            LoginStep::ReadInteractiveSession
        } else {
            LoginStep::LoginMarketData
        },
        LoginStep::LoginMarketData => LoginStep::ReadInteractiveSession,
        LoginStep::ReadInteractiveSession => if current {
            LoginStep::Finished
        } else {
            LoginStep::LoginInteractive
        },
        LoginStep::LoginInteractive => LoginStep::Finished,
        LoginStep::ReadAngeloneSession => if current {
            LoginStep::Finished
        } else {
            LoginStep::LoginAngelone
        },
        LoginStep::LoginAngelone => LoginStep::Finished,
        LoginStep::Finished => LoginStep::Finished,
    };
    let message = match event {
        LoginEvent::SessionMissing => None,
        LoginEvent::SessionCurrent { owner } => {
            let start = match step {
                LoginStep::ReadMarketDataSession => Some(
                    "DBInternational market_data login skipped: current session user_id=",
                ),
                LoginStep::ReadInteractiveSession => Some(
                    "DBInternational interactive login skipped: current session user_id=",
                ),
                LoginStep::ReadAngeloneSession => Some(
                    "AngelOne login skipped: current session client_code=",
                ),
                _ => None,
            };
            match start {
                Some(text) => Some(text.to_owned().concat(text_or_dash(owner))),
                None => None,
            }
        },
        LoginEvent::LoggedIn { owner, token_file, session_file } => match step {
            LoginStep::LoginMarketData => Some(
                broker_login_message(
                    "DBInternational market_data login ok user_id=",
                    text_or_dash(owner),
                    token_file.as_str(),
                    text_or_dash(session_file),
                ),
            ),
            LoginStep::LoginInteractive => Some(
                broker_login_message(
                    "DBInternational interactive login ok user_id=",
                    text_or_dash(owner),
                    token_file.as_str(),
                    text_or_dash(session_file),
                ),
            ),
            LoginStep::LoginAngelone => {
                let mut out = "AngelOne login ok client_code=".to_owned();
                out.append(text_or_dash(owner));
                out.append(" session_file=");
                out.append(text_or_dash(session_file));
                Some(out)
            },
            _ => None,
        },
    };
    (next, message)
}

fn broker_login_message(start: &str, owner: &str, token_file: &str, session_file: &str) -> (r:
    String)
    ensures
        r@ == start@ + owner@ + " token_file="@ + token_file@ + " session_file="@ + session_file@,
{
    let mut out = start.to_owned();
    out.append(owner);
    out.append(" token_file=");
    out.append(token_file);
    out.append(" session_file=");
    out.append(session_file);
    out
}

/// How many steps a login run has at most from a step on.
pub open spec fn steps_left(step: LoginStep) -> nat {
    match step {
        LoginStep::ReadMarketDataSession => 4,
        LoginStep::LoginMarketData => 3,
        LoginStep::ReadInteractiveSession => 2,
        LoginStep::LoginInteractive => 1,
        LoginStep::ReadAngeloneSession => 2,
        LoginStep::LoginAngelone => 1,
        LoginStep::Finished => 0,
    }
}

/// A login run ends, whatever its steps come to, and logs in only where no session was
/// current.
pub proof fn login_run_ends(step: LoginStep, current: bool)
    ensures
        step != LoginStep::Finished ==> steps_left(step_after(step, current)) < steps_left(step),
        current ==> step_after(step, current) != LoginStep::LoginMarketData && step_after(
            step,
            current,
        ) != LoginStep::LoginInteractive && step_after(step, current)
            != LoginStep::LoginAngelone,
{
}

/// A session that is missing is logged in to, and then the next one is looked at; the second
/// session of a broker is looked at whether or not the first was there.
pub proof fn missing_sessions_are_logged_in_to(current: bool)
    ensures
        step_after(LoginStep::ReadMarketDataSession, false) == LoginStep::LoginMarketData,
        step_after(LoginStep::ReadInteractiveSession, false) == LoginStep::LoginInteractive,
        step_after(LoginStep::ReadAngeloneSession, false) == LoginStep::LoginAngelone,
        step_after(LoginStep::LoginMarketData, current) == step_after(
            LoginStep::ReadMarketDataSession,
            true,
        ),
        step_after(LoginStep::LoginMarketData, current) == LoginStep::ReadInteractiveSession,
        step_after(LoginStep::LoginInteractive, current) == LoginStep::Finished,
        step_after(LoginStep::ReadInteractiveSession, true) == LoginStep::Finished,
        step_after(LoginStep::LoginAngelone, current) == LoginStep::Finished,
        step_after(LoginStep::ReadAngeloneSession, true) == LoginStep::Finished,
{
}

/// A run begins with the broker that is named, whatever the case of its letters, and where that
/// broker is not set up it is over at once; no other name begins a run.
pub proof fn runs_begin_with_their_broker(broker: Seq<char>, dbinternational: bool, angelone: bool)
    ensures
        first_step_of(broker, dbinternational, angelone) matches Ok(step) ==> {
            let v = upper_of(trim_of(broker));
            &&& step == LoginStep::ReadMarketDataSession ==> dbinternational && (v
                == "DBINTERNATIONAL"@ || v == "DB"@)
            &&& step == LoginStep::ReadAngeloneSession ==> angelone && (v == "ANGELONE"@ || v
                == "ANGEL"@ || v == "ANGEL_ONE"@)
            &&& step == LoginStep::Finished ==> (v == "DBINTERNATIONAL"@ || v == "DB"@)
                && !dbinternational || (v == "ANGELONE"@ || v == "ANGEL"@ || v == "ANGEL_ONE"@)
                && !angelone
            &&& step == LoginStep::ReadMarketDataSession || step == LoginStep::ReadAngeloneSession
                || step == LoginStep::Finished
        },
{
}

} // verus!
