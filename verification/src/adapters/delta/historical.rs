//! The history service of Delta: what is asked for, and what is made of the answer.
use crate::adapters::candle_rows::{
    answered, answered_of, asked, asked_of, candle_views, candles_of, into_candles, row_fits,
    HistoryReply, HistoryRow, HistoryWords,
};
use crate::feeder::catalog::InstrumentDefinition;
use crate::feeder::error::{FeedError, FeedFault};
use crate::feeder::event::{timeframe_name_of, Candle, CandleFacts, Timeframe};
use crate::text::{decimal, decimal_of, strip_end, strip_end_of};
use vstd::prelude::*;

verus! {

/// How many candles an answer has at most.
pub const DELTA_MAX_RESPONSE_CANDLES: u64 = 2_000;

pub open spec fn unsupported_timeframe(timeframe: Timeframe) -> FeedFault {
    FeedFault::Config(
        "Delta historical recovery does not support timeframe "@ + timeframe_name_of(timeframe),
    )
}

fn unsupported(timeframe: Timeframe) -> (r: FeedError)
    ensures
        r@ == unsupported_timeframe(timeframe),
{
    FeedError::Config(
        "Delta historical recovery does not support timeframe ".to_owned().concat(
            timeframe.name(),
        ),
    )
}

/// The resolution that a timeframe is asked for with.
pub fn delta_resolution(timeframe: Timeframe) -> (r: Result<&'static str, FeedError>)
    ensures
        match timeframe {
            Timeframe::OneMinute => r matches Ok(text) && text@ == "1m"@,
            Timeframe::OneDay => r matches Ok(text) && text@ == "1d"@,
            _ => r matches Err(e) && e@ == unsupported_timeframe(timeframe),
        },
{
    match timeframe {
        Timeframe::OneMinute => Ok("1m"),
        Timeframe::OneDay => Ok("1d"),
        _ => Err(unsupported(timeframe)),
    }
}

/// How many candles of a timeframe are asked for at once.
pub fn delta_history_chunk_candles(timeframe: Timeframe) -> (r: Result<u64, FeedError>)
    ensures
        match timeframe {
            Timeframe::OneMinute => r matches Ok(n) && n == DELTA_MAX_RESPONSE_CANDLES,
            Timeframe::OneDay => r matches Ok(n) && n == DELTA_MAX_RESPONSE_CANDLES,
            _ => r matches Err(e) && e@ == unsupported_timeframe(timeframe),
        },
{
    match timeframe {
        Timeframe::OneMinute => Ok(DELTA_MAX_RESPONSE_CANDLES),
        Timeframe::OneDay => Ok(DELTA_MAX_RESPONSE_CANDLES),
        _ => Err(unsupported(timeframe)),
    }
}

/// A question to the history service.
#[derive(Debug)]
pub struct HistoryRequest {
    pub url: String,
    pub symbol: String,
    pub resolution: &'static str,
    pub start: String,
    pub end: String,
}

/// The question for the candles of an instrument in a span of milliseconds, which is asked
/// for in seconds.
pub fn history_request(
    rest_url: &str,
    instrument: &InstrumentDefinition,
    timeframe: Timeframe,
    start_inclusive: u64,
    end_inclusive: u64,
) -> (r: Result<HistoryRequest, FeedError>)
    ensures
        match r {
            Err(e) => timeframe != Timeframe::OneMinute && timeframe != Timeframe::OneDay && e@
                == unsupported_timeframe(timeframe),
            Ok(request) => {
                &&& timeframe == Timeframe::OneMinute || timeframe == Timeframe::OneDay
                &&& request.url@ == strip_end_of(rest_url@, '/') + "/v2/history/candles"@
                &&& request.symbol@ == instrument.trading_symbol@
                &&& request.resolution@ == if timeframe == Timeframe::OneMinute {
                    "1m"@
                } else {
                    "1d"@
                }
                &&& request.start@ == decimal_of((start_inclusive / 1_000) as nat)
                &&& request.end@ == decimal_of((end_inclusive / 1_000) as nat)
            },
        },
{
    let resolution = match delta_resolution(timeframe) {
        Ok(resolution) => resolution,
        Err(e) => return Err(e),
    };
    Ok(
        HistoryRequest {
            url: strip_end(rest_url, '/').concat("/v2/history/candles"),
            symbol: instrument.trading_symbol.clone(),
            resolution,
            start: decimal(start_inclusive / 1_000),
            end: decimal(end_inclusive / 1_000),
        },
    )
}

/// What is made of an answer. `decoded` tells whether the answer is one of success, and its
/// rows, or why it could not be read.
pub open spec fn history_of(
    reply: HistoryReply,
    decoded: Result<(bool, Seq<HistoryRow>), Seq<char>>,
) -> Result<Seq<CandleFacts>, FeedFault> {
    if !reply.success {
        Err(
            FeedFault::Http(
                asked_of("Delta history request failed: "@, reply) + answered_of(reply),
            ),
        )
    } else {
        match decoded {
            Err(error) => Err(
                FeedFault::Parse(
                    asked_of("Delta history decode failed: "@, reply) + " error="@ + error
                        + answered_of(reply),
                ),
            ),
            Ok((success, rows)) => if !success {
                Err(
                    FeedFault::Http(
                        asked_of("Delta history returned success=false: "@, reply) + answered_of(
                            reply,
                        ),
                    ),
                )
            } else {
                candles_of(
                    "Delta"@,
                    "unsupported delta historical timeframe "@,
                    reply.instrument_name@,
                    reply.timeframe,
                    rows,
                )
            },
        }
    }
}

/// Makes candles of an answer of the history service.
pub fn read_history(
    reply: &HistoryReply,
    decoded: &Result<(bool, Vec<HistoryRow>), String>,
) -> (r: Result<Vec<Candle>, FeedError>)
    requires
        decoded matches Ok(d) ==> forall|i: int|
            0 <= i < d.1@.len() ==> row_fits(#[trigger] d.1@[i]),
    ensures
        ({
            let expected = history_of(
                *reply,
                match decoded {
                    Ok(d) => Ok((d.0, d.1@)),
                    Err(e) => Err(e@),
                },
            );
            match r {
                Ok(list) => expected == Ok::<Seq<CandleFacts>, FeedFault>(candle_views(list@)),
                Err(e) => expected == Err::<Seq<CandleFacts>, FeedFault>(e@),
            }
        }),
{
    if !reply.success {
        return Err(
            FeedError::Http(
                asked("Delta history request failed: ", reply).concat(answered(reply).as_str()),
            ),
        );
    }
    match decoded {
        Err(error) => {
            let mut message = asked("Delta history decode failed: ", reply);
            message.append(" error=");
            message.append(error.as_str());
            message.append(answered(reply).as_str());
            Err(FeedError::Parse(message))
        },
        Ok(d) => {
            if !d.0 {
                return Err(
                    FeedError::Http(
                        asked("Delta history returned success=false: ", reply).concat(
                            answered(reply).as_str(),
                        ),
                    ),
                );
            }
            let words = HistoryWords {
                broker: "Delta",
                unsupported: "unsupported delta historical timeframe ",
            };
            into_candles(&words, &reply.instrument_name, reply.timeframe, &d.1)
        },
    }
}

/// Candles come of an answer that succeeded, could be read and says so itself, and of no other.
pub proof fn failed_answers_have_no_candles(
    reply: HistoryReply,
    decoded: Result<(bool, Seq<HistoryRow>), Seq<char>>,
)
    ensures
        history_of(reply, decoded) is Ok ==> reply.success && decoded is Ok && decoded->Ok_0.0,
{
}

} // verus!
