//! The history service of FYERS: what is asked for, how often, and what is made of the
//! answer.
use crate::adapters::candle_rows::{
    answered, answered_of, asked, asked_of, candle_views, candles_of, into_candles, row_fits,
    HistoryReply, HistoryRow, HistoryWords,
};
use crate::calendar::{is_weekday, is_weekday_day, local_day, LAST_UTC};
use crate::feeder::error::{FeedError, FeedFault};
use crate::feeder::event::{timeframe_name_of, Candle, CandleFacts, Timeframe};
use crate::order::filter_push;
use crate::text::{decimal, decimal_of, lower_of, same_ignoring_case, starts, starts_with};
use vstd::prelude::*;

verus! {

/// How many requests for histories may be made in a second.
pub const FYERS_RATE_LIMIT_PER_SECOND: usize = 10;

/// How many requests for histories may be made in a minute.
pub const FYERS_RATE_LIMIT_PER_MINUTE: usize = 200;

/// The second of the day at which the trade in equities opens.
pub const NSE_BSE_EQUITY_OPEN_SECOND: u64 = 33_300;

/// The second of the day at which the trade in equities closes.
pub const NSE_BSE_EQUITY_CLOSE_SECOND: u64 = 55_800;

pub open spec fn unsupported_timeframe(timeframe: Timeframe) -> FeedFault {
    FeedFault::Config(
        "FYERS historical recovery does not support timeframe "@ + timeframe_name_of(timeframe),
    )
}

fn unsupported(timeframe: Timeframe) -> (r: FeedError)
    ensures
        r@ == unsupported_timeframe(timeframe),
{
    FeedError::Config(
        "FYERS historical recovery does not support timeframe ".to_owned().concat(
            timeframe.name(),
        ),
    )
}

/// The resolution that a timeframe is asked for with.
pub fn fyers_resolution(timeframe: Timeframe) -> (r: Result<&'static str, FeedError>)
    ensures
        match timeframe {
            Timeframe::OneMinute => r matches Ok(text) && text@ == "1"@,
            Timeframe::OneDay => r matches Ok(text) && text@ == "1D"@,
            _ => r matches Err(e) && e@ == unsupported_timeframe(timeframe),
        },
{
    match timeframe {
        Timeframe::OneMinute => Ok("1"),
        Timeframe::OneDay => Ok("1D"),
        _ => Err(unsupported(timeframe)),
    }
}

/// How many candles of a timeframe are asked for at once.
pub fn fyers_history_chunk_candles(timeframe: Timeframe) -> (r: Result<u64, FeedError>)
    ensures
        match timeframe {
            Timeframe::OneMinute => r matches Ok(n) && n == 1_000,
            Timeframe::OneDay => r matches Ok(n) && n == 365,
            _ => r matches Err(e) && e@ == unsupported_timeframe(timeframe),
        },
{
    match timeframe {
        Timeframe::OneMinute => Ok(1_000),
        Timeframe::OneDay => Ok(365),
        _ => Err(unsupported(timeframe)),
    }
}

/// Whether a symbol is of an equity exchange.
pub fn is_nse_bse_equity_symbol(symbol: &str) -> (r: bool)
    ensures
        r == (starts(symbol@, "NSE:"@) || starts(symbol@, "BSE:"@)),
{
    starts_with(symbol, "NSE:") || starts_with(symbol, "BSE:")
}

/// Whether a day is the last weekday before another.
pub open spec fn is_previous_weekday(day: int, before: int) -> bool {
    &&& day < before
    &&& is_weekday(day)
    &&& forall|d: int| day < d < before ==> !(#[trigger] is_weekday(d))
}

/// The last weekday before a day.
pub fn previous_weekday_ist_day(ist_day: i64) -> (r: i64)
    requires
        i64::MIN + 4 <= ist_day <= i64::MAX - 2,
    ensures
        is_previous_weekday(r as int, ist_day as int),
        ist_day - 3 <= r,
{
    let mut day: i64 = ist_day - 1;
    while !is_weekday_day(day)
        invariant
            i64::MIN + 4 <= ist_day <= i64::MAX - 2,
            ist_day - 3 <= day < ist_day,
            forall|d: int| day < d < ist_day ==> !(#[trigger] is_weekday(d)),
        decreases day - ist_day + 3,
    {
        proof {
            if day == ist_day - 3 {
                assert(!is_weekday(ist_day - 1));
                assert(!is_weekday(ist_day - 2));
            }
        }
        day -= 1;
    }
    day
}

/// A second of a day in Indian Standard Time as a moment.
pub open spec fn moment_of(day: int, second: int) -> int {
    day * 86_400 + second - 19_800
}

pub open spec fn least(a: int, b: int) -> int {
    if a <= b {
        a
    } else {
        b
    }
}

/// Whether a span of milliseconds is the one to ask for in place of another. Of equities,
/// the minutes of today are asked for from the opening of trade up to the last full minute
/// or the close, and days only up to the close of the last weekday before today.
pub open spec fn is_request_window(
    symbol: Seq<char>,
    timeframe: Timeframe,
    start: u64,
    end: u64,
    now: u64,
    window: Option<(u64, u64)>,
) -> bool {
    let today = local_day(now as int, 19_800);
    let start_day = local_day(start as int / 1_000, 19_800);
    let end_day = local_day(end as int / 1_000, 19_800);
    if start >= end {
        window is None
    } else if !(starts(symbol, "NSE:"@) || starts(symbol, "BSE:"@)) {
        window == Some((start, end))
    } else if timeframe == Timeframe::OneMinute && start_day == today && end_day == today {
        let open = moment_of(today, NSE_BSE_EQUITY_OPEN_SECOND as int);
        let close = moment_of(today, NSE_BSE_EQUITY_CLOSE_SECOND as int);
        let until = least(least(end as int / 1_000, close), (now as int / 60) * 60);
        match window {
            None => until <= open,
            Some((from, to)) => until > open && from == open * 1_000 && to == until * 1_000,
        }
    } else if timeframe == Timeframe::OneDay && end_day >= today {
        exists|day: int|
            is_previous_weekday(day, today) && {
                let close = moment_of(day, NSE_BSE_EQUITY_CLOSE_SECOND as int);
                match window {
                    None => close <= start as int / 1_000,
                    Some((from, to)) => close > start as int / 1_000 && from == start && to == least(
                        close,
                        end as int / 1_000,
                    ) * 1_000,
                }
            }
    } else {
        window == Some((start, end))
    }
}

/// There is one such span at most.
pub proof fn request_window_is_one(
    symbol: Seq<char>,
    timeframe: Timeframe,
    start: u64,
    end: u64,
    now: u64,
    a: Option<(u64, u64)>,
    b: Option<(u64, u64)>,
)
    requires
        is_request_window(symbol, timeframe, start, end, now, a),
        is_request_window(symbol, timeframe, start, end, now, b),
    ensures
        a == b,
{
    let today = local_day(now as int, 19_800);
    assert forall|p: int, q: int| #[trigger]
        is_previous_weekday(p, today) && #[trigger] is_previous_weekday(q, today) implies p == q by {
        if p < q {
            assert(!is_weekday(q));
        } else if q < p {
            assert(!is_weekday(p));
        }
    }
}

/// Whether the span to ask for can be told at a moment. Only of equities it depends on the
/// clock, and that of days on the day before today too.
pub open spec fn can_normalize(
    symbol: Seq<char>,
    timeframe: Timeframe,
    start: u64,
    end: u64,
    now: u64,
) -> bool {
    start < end && (starts(symbol, "NSE:"@) || starts(symbol, "BSE:"@)) ==> {
        &&& now <= LAST_UTC
        &&& timeframe == Timeframe::OneDay ==> 86_400 <= now + 19_800
    }
}

/// The span to ask for in place of another, at a moment in seconds.
pub fn normalize_request_window(
    trading_symbol: &str,
    timeframe: Timeframe,
    start_inclusive: u64,
    end_inclusive: u64,
    now_secs: u64,
) -> (r: Option<(u64, u64)>)
    requires
        can_normalize(trading_symbol@, timeframe, start_inclusive, end_inclusive, now_secs),
    ensures
        is_request_window(
            trading_symbol@,
            timeframe,
            start_inclusive,
            end_inclusive,
            now_secs,
            r,
        ),
{
    if start_inclusive >= end_inclusive {
        return None;
    }
    if !is_nse_bse_equity_symbol(trading_symbol) {
        return Some((start_inclusive, end_inclusive));
    }
    let today: u64 = (now_secs + 19_800) / 86_400;
    let start_secs: u64 = start_inclusive / 1_000;
    let end_secs: u64 = end_inclusive / 1_000;
    let start_day: u64 = (start_secs + 19_800) / 86_400;
    let end_day: u64 = (end_secs + 19_800) / 86_400;
    if timeframe == Timeframe::OneMinute && start_day == today && end_day == today {
        let session_open_utc: u64 = today * 86_400 + NSE_BSE_EQUITY_OPEN_SECOND - 19_800;
        let session_close_utc: u64 = today * 86_400 + NSE_BSE_EQUITY_CLOSE_SECOND - 19_800;
        let last_completed_minute_utc: u64 = (now_secs / 60) * 60;
        let mut effective_end: u64 = if end_secs <= session_close_utc {
            end_secs
        } else {
            session_close_utc
        };
        if last_completed_minute_utc < effective_end {
            effective_end = last_completed_minute_utc;
        }
        if effective_end <= session_open_utc {
            return None;
        }
        return Some((session_open_utc * 1_000, effective_end * 1_000));
    }
    if timeframe == Timeframe::OneDay && end_day >= today {
        let previous: i64 = previous_weekday_ist_day(today as i64);
        assert(previous >= 0) by {
            assert(is_weekday(0));
        }
        let previous_close_utc: u64 = previous as u64 * 86_400 + NSE_BSE_EQUITY_CLOSE_SECOND
            - 19_800;
        assert(is_previous_weekday(previous as int, today as int));
        if previous_close_utc <= start_secs {
            return None;
        }
        let until: u64 = if previous_close_utc <= end_secs {
            previous_close_utc
        } else {
            end_secs
        };
        return Some((start_inclusive, until * 1_000));
    }
    Some((start_inclusive, end_inclusive))
}

/// A question to the history service.
#[derive(Debug)]
pub struct HistoryRequest {
    pub url: &'static str,
    pub symbol: String,
    pub resolution: &'static str,
    pub date_format: &'static str,
    pub range_from: String,
    pub range_to: String,
    pub cont_flag: &'static str,
}

/// Whether a question is the one for the candles in a span of milliseconds, which is asked for
/// in seconds.
pub open spec fn is_request_for(
    request: HistoryRequest,
    symbol: Seq<char>,
    timeframe: Timeframe,
    window: (u64, u64),
) -> bool {
    &&& request.url@ == "https://api-t1.fyers.in/data/history"@
    &&& request.symbol@ == symbol
    &&& request.resolution@ == if timeframe == Timeframe::OneMinute {
        "1"@
    } else {
        "1D"@
    }
    &&& request.date_format@ == "0"@
    &&& request.range_from@ == decimal_of((window.0 / 1_000) as nat)
    &&& request.range_to@ == decimal_of((window.1 / 1_000) as nat)
    &&& request.cont_flag@ == "0"@
}

/// The question for the candles of an instrument in a span of milliseconds, at a moment in
/// seconds. Nothing is asked where the span to ask for in its place is none.
pub fn history_request(
    trading_symbol: &str,
    timeframe: Timeframe,
    start_inclusive: u64,
    end_inclusive: u64,
    now_secs: u64,
) -> (r: Result<Option<HistoryRequest>, FeedError>)
    requires
        can_normalize(trading_symbol@, timeframe, start_inclusive, end_inclusive, now_secs),
    ensures
        exists|window: Option<(u64, u64)>| #[trigger]
            is_request_window(
                trading_symbol@,
                timeframe,
                start_inclusive,
                end_inclusive,
                now_secs,
                window,
            ) && match window {
                None => r matches Ok(None),
                Some(span) => if timeframe == Timeframe::OneMinute || timeframe
                    == Timeframe::OneDay {
                    r matches Ok(Some(request)) && is_request_for(
                        request,
                        trading_symbol@,
                        timeframe,
                        span,
                    )
                } else {
                    r matches Err(e) && e@ == unsupported_timeframe(timeframe)
                },
            },
{
    let window = normalize_request_window(
        trading_symbol,
        timeframe,
        start_inclusive,
        end_inclusive,
        now_secs,
    );
    let (start, end) = match window {
        Some(span) => span,
        None => return Ok(None),
    };
    let resolution = match fyers_resolution(timeframe) {
        Ok(resolution) => resolution,
        Err(e) => return Err(e),
    };
    Ok(
        Some(
            HistoryRequest {
                url: "https://api-t1.fyers.in/data/history",
                symbol: trading_symbol.to_owned(),
                resolution,
                date_format: "0",
                range_from: decimal(start / 1_000),
                range_to: decimal(end / 1_000),
                cont_flag: "0",
            },
        ),
    )
}

/// What is made of an answer: nothing where there is no data, and a fault where it tells
/// of one. `decoded` is the answer's status and rows, or why it could not be read.
pub open spec fn history_of(
    reply: HistoryReply,
    decoded: Result<(Seq<char>, Seq<HistoryRow>), Seq<char>>,
) -> Result<Seq<CandleFacts>, FeedFault> {
    if !reply.success {
        Err(
            FeedFault::Http(
                asked_of("FYERS history request failed: "@, reply) + answered_of(reply),
            ),
        )
    } else {
        match decoded {
            Err(error) => Err(
                FeedFault::Parse(
                    asked_of("FYERS history decode failed: "@, reply) + " error="@ + error
                        + answered_of(reply),
                ),
            ),
            Ok((status, rows)) => if lower_of(status) == lower_of("no_data"@) {
                Ok(Seq::empty())
            } else if lower_of(status) != lower_of("ok"@) {
                Err(
                    FeedFault::Http(
                        asked_of("FYERS history returned api_status="@ + status + " "@, reply)
                            + answered_of(reply),
                    ),
                )
            } else {
                candles_of(
                    "FYERS"@,
                    "unsupported FYERS historical timeframe "@,
                    reply.instrument_name@,
                    reply.timeframe,
                    rows,
                )
            },
        }
    }
}

/// Makes candles of an answer of the history service.
pub fn read_history(
    reply: &HistoryReply,
    decoded: &Result<(String, Vec<HistoryRow>), String>,
) -> (r: Result<Vec<Candle>, FeedError>)
    requires
        decoded matches Ok(d) ==> forall|i: int|
            0 <= i < d.1@.len() ==> row_fits(#[trigger] d.1@[i]),
    ensures
        ({
            let expected = history_of(
                *reply,
                match decoded {
                    Ok(d) => Ok((d.0@, d.1@)),
                    Err(e) => Err(e@),
                },
            );
            match r {
                Ok(list) => expected == Ok::<Seq<CandleFacts>, FeedFault>(candle_views(list@)),
                Err(e) => expected == Err::<Seq<CandleFacts>, FeedFault>(e@),
            }
        }),
{
    if !reply.success {
        return Err(
            FeedError::Http(
                asked("FYERS history request failed: ", reply).concat(answered(reply).as_str()),
            ),
        );
    }
    match decoded {
        Err(error) => {
            let mut message = asked("FYERS history decode failed: ", reply);
            message.append(" error=");
            message.append(error.as_str());
            message.append(answered(reply).as_str());
            Err(FeedError::Parse(message))
        },
        Ok(d) => {
            let status = d.0.as_str();
            if same_ignoring_case(status, "no_data") {
                let none: Vec<Candle> = Vec::new();
                assert(candle_views(none@) =~= Seq::empty());
                return Ok(none);
            }
            if !same_ignoring_case(status, "ok") {
                let mut start = "FYERS history returned api_status=".to_owned();
                start.append(status);
                start.append(" ");
                return Err(
                    FeedError::Http(
                        asked(start.as_str(), reply).concat(answered(reply).as_str()),
                    ),
                );
            }
            let words = HistoryWords {
                broker: "FYERS",
                unsupported: "unsupported FYERS historical timeframe ",
            };
            into_candles(&words, &reply.instrument_name, reply.timeframe, &d.1)
        },
    }
}

/// Keeps requests below a number per second and per minute. Moments are nanoseconds of a
/// clock that does not go back.
pub struct HistoricalRateLimiter {
    per_second: usize,
    per_minute: usize,
    req_times: Vec<u64>,
}

/// Tells which moments lie less than a span before another.
pub open spec fn within(now: u64, span: int) -> spec_fn(u64) -> bool {
    |t: u64| now - t < span
}

/// Whether moments do not go back.
pub open spec fn in_time_order(times: Seq<u64>) -> bool {
    forall|i: int, j: int| 0 <= i <= j < times.len() ==> times[i] <= times[j]
}

pub const SECOND_NANOS: u64 = 1_000_000_000;

pub const MINUTE_NANOS: u64 = 60_000_000_000;

pub open spec fn greatest(a: int, b: int) -> int {
    if a >= b {
        a
    } else {
        b
    }
}

/// How long to wait where a request has to be held back, with the requests of the last
/// minute: a tenth of a second at least, and until the oldest request that counts against
/// a limit which is reached no longer does.
pub open spec fn wait_of(times: Seq<u64>, now: u64, per_second: nat, per_minute: nat) -> int {
    let recent = times.filter(within(now, SECOND_NANOS as int));
    let a = 100_000_000int;
    let b = if recent.len() >= per_second && recent.len() > 0 {
        greatest(a, SECOND_NANOS - (now - recent[0]) + 5_000_000)
    } else {
        a
    };
    if times.len() >= per_minute && times.len() > 0 {
        greatest(b, MINUTE_NANOS - (now - times[0]) + 5_000_000)
    } else {
        b
    }
}

impl HistoricalRateLimiter {
    #[verifier::type_invariant]
    closed spec fn ordered(self) -> bool {
        in_time_order(self.req_times@)
    }

    pub closed spec fn second_limit(&self) -> nat {
        self.per_second as nat
    }

    pub closed spec fn minute_limit(&self) -> nat {
        self.per_minute as nat
    }

    /// The moments of the requests that are remembered.
    pub closed spec fn times(&self) -> Seq<u64> {
        self.req_times@
    }

    pub fn new(per_second: usize, per_minute: usize) -> (r: HistoricalRateLimiter)
        ensures
            r.second_limit() == per_second,
            r.minute_limit() == per_minute,
            r.times() == Seq::<u64>::empty(),
    {
        HistoricalRateLimiter { per_second, per_minute, req_times: Vec::new() }
    }

    /// Lets a request pass at a moment, or says for how long to wait before asking again.
    pub fn try_pass(&mut self, now: u64) -> (r: Option<u64>)
        requires
            old(self).times().len() > 0 ==> old(self).times().last() <= now,
        ensures
            final(self).second_limit() == old(self).second_limit(),
            final(self).minute_limit() == old(self).minute_limit(),
            ({
                let minute = old(self).times().filter(within(now, MINUTE_NANOS as int));
                let second = minute.filter(within(now, SECOND_NANOS as int));
                if second.len() < old(self).second_limit() && minute.len() < old(
                    self,
                ).minute_limit() {
                    r is None && final(self).times() == minute.push(now)
                } else {
                    r matches Some(wait) && final(self).times() == minute && wait == wait_of(
                        minute,
                        now,
                        old(self).second_limit(),
                        old(self).minute_limit(),
                    )
                }
            }),
    {
        proof {
            use_type_invariant(&*self);
        }
        let ghost times = self.req_times@;
        let ghost minute = times.filter(within(now, MINUTE_NANOS as int));
        let ghost second = minute.filter(within(now, SECOND_NANOS as int));
        let mut all: Vec<u64> = Vec::new();
        std::mem::swap(&mut all, &mut self.req_times);
        let kept = keep_within(&all, now, MINUTE_NANOS);
        let recent = keep_within(&kept, now, SECOND_NANOS);
        let per_second: usize = self.per_second;
        let per_minute: usize = self.per_minute;
        if recent.len() < per_second && kept.len() < per_minute {
            let mut grown = kept;
            grown.push(now);
            self.req_times = grown;
            return None;
        }
        let mut wait_for: u64 = 100_000_000;
        if recent.len() >= per_second && recent.len() > 0 {
            proof {
                filter_last(minute, within(now, SECOND_NANOS as int), 0);
            }
            let rest: u64 = SECOND_NANOS - (now - recent[0]) + 5_000_000;
            if rest > wait_for {
                wait_for = rest;
            }
        }
        if kept.len() >= per_minute && kept.len() > 0 {
            proof {
                filter_last(times, within(now, MINUTE_NANOS as int), 0);
            }
            let rest: u64 = MINUTE_NANOS - (now - kept[0]) + 5_000_000;
            if rest > wait_for {
                wait_for = rest;
            }
        }
        self.req_times = kept;
        Some(wait_for)
    }
}

/// What a filter leaves comes from the list and passes the filter.
proof fn filter_last<A>(s: Seq<A>, f: spec_fn(A) -> bool, i: int)
    requires
        0 <= i < s.filter(f).len(),
    ensures
        f(s.filter(f)[i]),
        s.contains(s.filter(f)[i]),
    decreases s.len(),
{
    reveal(Seq::filter);
    if s.len() > 0 {
        let d = s.drop_last();
        if i < d.filter(f).len() {
            filter_last(d, f, i);
            let k = d.index_of(d.filter(f)[i]);
            assert(s[k] == d.filter(f)[i]);
        } else {
            assert(s[s.len() - 1] == s.filter(f)[i]);
        }
    }
}

/// The moments that lie less than a span before another.
fn keep_within(times: &Vec<u64>, now: u64, span: u64) -> (r: Vec<u64>)
    requires
        in_time_order(times@),
        times@.len() > 0 ==> times@.last() <= now,
    ensures
        r@ == times@.filter(within(now, span as int)),
        in_time_order(r@),
        r@.len() > 0 ==> r@.last() <= now,
        forall|i: int| 0 <= i < r@.len() ==> #[trigger] r@[i] <= now,
{
    let ghost f = within(now, span as int);
    let mut out: Vec<u64> = Vec::new();
    let mut i: usize = 0;
    assert(times@.take(0).filter(f) =~= Seq::empty()) by {
        reveal(Seq::filter);
    }
    while i < times.len()
        invariant
            i <= times@.len(),
            in_time_order(times@),
            times@.len() > 0 ==> times@.last() <= now,
            f == within(now, span as int),
            out@ == times@.take(i as int).filter(f),
            in_time_order(out@),
            forall|k: int| 0 <= k < out@.len() ==> #[trigger] out@[k] <= now,
            i > 0 && out@.len() > 0 ==> out@.last() <= times@[i - 1],
        decreases times@.len() - i,
    {
        proof {
            filter_push(times@.take(i as int), times@[i as int], f);
            assert(times@.take(i + 1) =~= times@.take(i as int).push(times@[i as int]));
            assert(times@[i as int] <= times@.last());
        }
        let t: u64 = times[i];
        if now - t < span {
            out.push(t);
        }
        i += 1;
    }
    assert(times@.take(i as int) =~= times@);
    out
}

/// Whenever a request passes, no more have passed within the second and the minute up to
/// it than the limits allow.
pub proof fn passing_keeps_limits(
    times: Seq<u64>,
    now: u64,
    per_second: nat,
    per_minute: nat,
)
    requires
        times.filter(within(now, MINUTE_NANOS as int)).filter(
            within(now, SECOND_NANOS as int),
        ).len() < per_second,
        times.filter(within(now, MINUTE_NANOS as int)).len() < per_minute,
    ensures
        ({
            let passed = times.filter(within(now, MINUTE_NANOS as int)).push(now);
            &&& passed.len() <= per_minute
            &&& passed.filter(within(now, SECOND_NANOS as int)).len() <= per_second
        }),
{
    filter_push(
        times.filter(within(now, MINUTE_NANOS as int)),
        now,
        within(now, SECOND_NANOS as int),
    );
}

/// After the wait there is room: neither the oldest of the last second's requests, where there
/// were as many as may be in a second, nor the oldest of all, where there were as many as may be
/// in a minute, is that recent any more. A wait is never shorter than a tenth of a second.
pub proof fn waiting_makes_room(times: Seq<u64>, now: u64, per_second: nat, per_minute: nat)
    ensures
        ({
            let wait = wait_of(times, now, per_second, per_minute);
            let recent = times.filter(within(now, 1_000_000_000));
            &&& wait >= 100_000_000
            &&& recent.len() >= per_second && recent.len() > 0 ==> now + wait - recent[0]
                > 1_000_000_000
            &&& times.len() >= per_minute && times.len() > 0 ==> now + wait - times[0]
                > 60_000_000_000
            &&& recent.len() < per_second && times.len() < per_minute ==> wait == 100_000_000
        }),
{
}

/// What is asked for ends no later than what is wanted, and where only today's minutes are, at a
/// whole minute that is over and within the hours of the exchange; a candle of a day is never
/// asked for on that day.
pub proof fn windows_end_in_time(
    symbol: Seq<char>,
    timeframe: Timeframe,
    start: u64,
    end: u64,
    now: u64,
    from: u64,
    to: u64,
)
    requires
        is_request_window(symbol, timeframe, start, end, now, Some((from, to))),
        starts(symbol, "NSE:"@) || starts(symbol, "BSE:"@),
    ensures
        start < end,
        to <= end,
        ({
            let today = (now + 19_800) / 86_400;
            let midnight = 86_400 * today - 19_800;
            &&& timeframe == Timeframe::OneMinute && (start / 1_000 + 19_800) / 86_400 == today && (end
                / 1_000 + 19_800) / 86_400 == today ==> {
                &&& from == 1_000 * (midnight + 33_300)
                &&& from < to <= 1_000 * (midnight + 55_800)
                &&& to <= 1_000 * now
                &&& to as int % 60_000 == 0 || to == 1_000 * (midnight + 55_800) || to == 1_000 * (
                end as int / 1_000)
            }
            &&& timeframe == Timeframe::OneDay && (end / 1_000 + 19_800) / 86_400 >= today ==> {
                &&& from == start
                &&& to < 1_000 * midnight
            }
        }),
{
    let today = local_day(now as int, 19_800);
    assert(today == (now + 19_800) / 86_400);
    assert((now as int / 60) * 60 <= now);
    assert(1_000 * (end as int / 1_000) <= end);
    assert(((now as int / 60) * 60 * 1_000) % 60_000 == 0) by {
        let m = now as int / 60;
        assert((60_000 * m) % 60_000 == 0) by (nonlinear_arith);
        assert(m * 60 * 1_000 == 60_000 * m);
    }
}

/// Candles come of an answer that succeeded, could be read and says so itself, and of no other.
pub proof fn failed_answers_have_no_candles(
    reply: HistoryReply,
    decoded: Result<(Seq<char>, Seq<HistoryRow>), Seq<char>>,
)
    ensures
        history_of(reply, decoded) is Ok ==> reply.success && decoded is Ok && (lower_of(decoded->Ok_0.0) == lower_of("ok"@) || lower_of(
            decoded->Ok_0.0,
        ) == lower_of("no_data"@)),
        history_of(reply, decoded) is Ok && lower_of(decoded->Ok_0.0) == lower_of("no_data"@)
            ==> history_of(reply, decoded)->Ok_0.len() == 0,
{
}

} // verus!
