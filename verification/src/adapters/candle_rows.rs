//! Candles as the history services of brokers give them.
use crate::binary64::Real;
use crate::feeder::error::{FeedError, FeedFault};
use crate::feeder::event::{
    is_price, price_fault, timeframe_label, timeframe_label_of, timeframe_name_of, Candle,
    CandleFacts, InstrumentName, Price, Timeframe, UnixMillis,
};
use crate::text::{snippet, snippet_of};
use vstd::prelude::*;

verus! {

/// A candle as a history service gives it: the second at which it begins, its prices
/// and its volume.
#[derive(Clone, Copy, Debug, PartialEq, Eq, Structural)]
pub struct HistoryRow {
    pub time: u64,
    pub open: Real,
    pub high: Real,
    pub low: Real,
    pub close: Real,
    pub volume: Real,
}

/// The words that a broker's faults are told in.
#[derive(Clone, Copy, Debug)]
pub struct HistoryWords {
    pub broker: &'static str,
    pub unsupported: &'static str,
}

/// How long a candle of a timeframe is, where history is kept of it.
pub open spec fn span_of(unsupported: Seq<char>, timeframe: Timeframe) -> Result<u64, FeedFault> {
    match timeframe {
        Timeframe::OneMinute => Ok(60_000),
        Timeframe::OneDay => Ok(86_400_000),
        _ => Err(FeedFault::Config(unsupported + timeframe_name_of(timeframe))),
    }
}

pub fn timeframe_millis(unsupported: &str, timeframe: Timeframe) -> (r: Result<u64, FeedError>)
    ensures
        match r {
            Ok(n) => span_of(unsupported@, timeframe) == Ok::<u64, FeedFault>(n) && n
                <= 86_400_000,
            Err(e) => span_of(unsupported@, timeframe) == Err::<u64, FeedFault>(e@),
        },
{
    match timeframe {
        Timeframe::OneMinute => Ok(60_000),
        Timeframe::OneDay => Ok(86_400_000),
        _ => Err(FeedError::Config(unsupported.to_owned().concat(timeframe.name()))),
    }
}

pub open spec fn bad_price(broker: Seq<char>, which: Seq<char>) -> FeedFault {
    FeedFault::Parse(broker + " history invalid "@ + which + " price: "@ + price_fault())
}

/// The candle that a row gives.
pub open spec fn candle_of(
    broker: Seq<char>,
    unsupported: Seq<char>,
    name: Seq<char>,
    timeframe: Timeframe,
    row: HistoryRow,
) -> Result<CandleFacts, FeedFault> {
    match span_of(unsupported, timeframe) {
        Err(e) => Err(e),
        Ok(span) => if !is_price(row.open) {
            Err(bad_price(broker, "open"@))
        } else if !is_price(row.high) {
            Err(bad_price(broker, "high"@))
        } else if !is_price(row.low) {
            Err(bad_price(broker, "low"@))
        } else if !is_price(row.close) {
            Err(bad_price(broker, "close"@))
        } else {
            Ok(
                CandleFacts {
                    instrument_name: name,
                    timeframe,
                    start_time: (row.time * 1_000) as u64,
                    end_time: (row.time * 1_000 + span) as u64,
                    open: row.open,
                    high: row.high,
                    low: row.low,
                    close: row.close,
                    price: row.close,
                    volume: row.volume,
                },
            )
        },
    }
}

/// Whether the end of a row's candle is on the clock.
pub open spec fn row_fits(row: HistoryRow) -> bool {
    row.time * 1_000 + 86_400_000 <= u64::MAX
}

fn read_price(broker: &str, which: &str, value: Real) -> (r: Result<Price, FeedError>)
    ensures
        match r {
            Ok(price) => is_price(value) && price@ == value,
            Err(e) => !is_price(value) && e@ == bad_price(broker@, which@),
        },
{
    match Price::new(value) {
        Ok(price) => Ok(price),
        Err(reason) => {
            let mut message = broker.to_owned();
            message.append(" history invalid ");
            message.append(which);
            message.append(" price: ");
            message.append(reason);
            Err(FeedError::Parse(message))
        },
    }
}

/// The candle that a row gives.
pub fn into_candle(
    words: &HistoryWords,
    instrument_name: &InstrumentName,
    timeframe: Timeframe,
    row: HistoryRow,
) -> (r: Result<Candle, FeedError>)
    requires
        row_fits(row),
    ensures
        match r {
            Ok(candle) => candle_of(
                words.broker@,
                words.unsupported@,
                instrument_name@,
                timeframe,
                row,
            ) == Ok::<CandleFacts, FeedFault>(candle@),
            Err(e) => candle_of(
                words.broker@,
                words.unsupported@,
                instrument_name@,
                timeframe,
                row,
            ) == Err::<CandleFacts, FeedFault>(e@),
        },
{
    let start: u64 = row.time * 1_000;
    let span: u64 = match timeframe_millis(words.unsupported, timeframe) {
        Ok(span) => span,
        Err(e) => return Err(e),
    };
    let open = match read_price(words.broker, "open", row.open) {
        Ok(price) => price,
        Err(e) => return Err(e),
    };
    let high = match read_price(words.broker, "high", row.high) {
        Ok(price) => price,
        Err(e) => return Err(e),
    };
    let low = match read_price(words.broker, "low", row.low) {
        Ok(price) => price,
        Err(e) => return Err(e),
    };
    let close = match read_price(words.broker, "close", row.close) {
        Ok(price) => price,
        Err(e) => return Err(e),
    };
    Ok(
        Candle::new(
            instrument_name.clone(),
            timeframe,
            UnixMillis::new(start),
            UnixMillis::new(start + span),
            open,
            high,
            low,
            close,
            row.volume,
        ),
    )
}

/// The candles that rows give, or the fault of the first that gives none.
pub open spec fn candles_of(
    broker: Seq<char>,
    unsupported: Seq<char>,
    name: Seq<char>,
    timeframe: Timeframe,
    rows: Seq<HistoryRow>,
) -> Result<Seq<CandleFacts>, FeedFault>
    decreases rows.len(),
{
    if rows.len() == 0 {
        Ok(Seq::empty())
    } else {
        match candles_of(broker, unsupported, name, timeframe, rows.drop_last()) {
            Err(e) => Err(e),
            Ok(list) => match candle_of(broker, unsupported, name, timeframe, rows.last()) {
                Err(e) => Err(e),
                Ok(candle) => Ok(list.push(candle)),
            },
        }
    }
}

pub open spec fn candle_views(v: Seq<Candle>) -> Seq<CandleFacts> {
    Seq::new(v.len(), |i: int| v[i]@)
}

proof fn candles_fail(
    broker: Seq<char>,
    unsupported: Seq<char>,
    name: Seq<char>,
    timeframe: Timeframe,
    rows: Seq<HistoryRow>,
    n: int,
)
    requires
        0 <= n <= rows.len(),
        candles_of(broker, unsupported, name, timeframe, rows.take(n)) is Err,
    ensures
        candles_of(broker, unsupported, name, timeframe, rows) == candles_of(
            broker,
            unsupported,
            name,
            timeframe,
            rows.take(n),
        ),
    decreases rows.len() - n,
{
    if n < rows.len() {
        assert(rows.take(n + 1).drop_last() =~= rows.take(n));
        candles_fail(broker, unsupported, name, timeframe, rows, n + 1);
    } else {
        assert(rows.take(n) =~= rows);
    }
}

/// The candles that rows give.
pub fn into_candles(
    words: &HistoryWords,
    instrument_name: &InstrumentName,
    timeframe: Timeframe,
    rows: &Vec<HistoryRow>,
) -> (r: Result<Vec<Candle>, FeedError>)
    requires
        forall|i: int| 0 <= i < rows@.len() ==> row_fits(#[trigger] rows@[i]),
    ensures
        ({
            let expected = candles_of(
                words.broker@,
                words.unsupported@,
                instrument_name@,
                timeframe,
                rows@,
            );
            match r {
                Ok(list) => expected == Ok::<Seq<CandleFacts>, FeedFault>(candle_views(list@)),
                Err(e) => expected == Err::<Seq<CandleFacts>, FeedFault>(e@),
            }
        }),
{
    let mut list: Vec<Candle> = Vec::new();
    let mut i: usize = 0;
    assert(rows@.take(0) =~= Seq::empty());
    assert(candle_views(list@) =~= Seq::empty());
    while i < rows.len()
        invariant
            i <= rows@.len(),
            forall|k: int| 0 <= k < rows@.len() ==> row_fits(#[trigger] rows@[k]),
            candles_of(
                words.broker@,
                words.unsupported@,
                instrument_name@,
                timeframe,
                rows@.take(i as int),
            ) == Ok::<Seq<CandleFacts>, FeedFault>(candle_views(list@)),
        decreases rows@.len() - i,
    {
        let ghost before = candle_views(list@);
        assert(rows@.take(i + 1).drop_last() =~= rows@.take(i as int));
        match into_candle(words, instrument_name, timeframe, rows[i]) {
            Ok(candle) => {
                let ghost facts = candle@;
                list.push(candle);
                assert(candle_views(list@) =~= before.push(facts));
            },
            Err(e) => {
                proof {
                    candles_fail(
                        words.broker@,
                        words.unsupported@,
                        instrument_name@,
                        timeframe,
                        rows@,
                        i + 1,
                    );
                }
                return Err(e);
            },
        }
        i += 1;
    }
    assert(rows@.take(i as int) =~= rows@);
    Ok(list)
}

/// What a history service answered, and to which question.
#[derive(Debug)]
pub struct HistoryReply {
    pub instrument_name: InstrumentName,
    pub trading_symbol: String,
    pub timeframe: Timeframe,
    pub resolution: String,
    pub success: bool,
    pub status: String,
    pub url: String,
    pub body: String,
}

/// What a fault tells of the question: `start`, then what was asked for and where.
pub open spec fn asked_of(start: Seq<char>, reply: HistoryReply) -> Seq<char> {
    start + "instrument="@ + reply.instrument_name@ + " trading_symbol="@ + reply.trading_symbol@
        + " timeframe="@ + timeframe_label_of(reply.timeframe) + " resolution="@
        + reply.resolution@ + " status="@ + reply.status@ + " url="@ + reply.url@
}

/// What a fault tells of the answer.
pub open spec fn answered_of(reply: HistoryReply) -> Seq<char> {
    " body="@ + snippet_of(reply.body@, 300)
}

pub fn asked(start: &str, reply: &HistoryReply) -> (r: String)
    ensures
        r@ == asked_of(start@, *reply),
{
    let mut out = start.to_owned();
    out.append("instrument=");
    out.append(reply.instrument_name.as_str());
    out.append(" trading_symbol=");
    out.append(reply.trading_symbol.as_str());
    out.append(" timeframe=");
    out.append(timeframe_label(reply.timeframe));
    out.append(" resolution=");
    out.append(reply.resolution.as_str());
    out.append(" status=");
    out.append(reply.status.as_str());
    out.append(" url=");
    out.append(reply.url.as_str());
    out
}

pub fn answered(reply: &HistoryReply) -> (r: String)
    ensures
        r@ == answered_of(*reply),
{
    " body=".to_owned().concat(snippet(reply.body.as_str(), 300).as_str())
}

/// The candles that rows give are those of the rows, one each and in their order: with the prices
/// and the volume of the row, beginning at its time and as long as the timeframe. A row whose
/// prices are not all finite and positive gives none, and neither does any list that holds it.
pub proof fn candles_tell_their_rows(
    broker: Seq<char>,
    unsupported: Seq<char>,
    name: Seq<char>,
    timeframe: Timeframe,
    rows: Seq<HistoryRow>,
)
    requires
        forall|i: int| 0 <= i < rows.len() ==> (#[trigger] rows[i]).time * 1_000 + 86_400_000
            <= u64::MAX,
    ensures
        candles_of(broker, unsupported, name, timeframe, rows) is Ok <==> rows.len() == 0 || {
            &&& timeframe == Timeframe::OneMinute || timeframe == Timeframe::OneDay
            &&& forall|i: int|
                0 <= i < rows.len() ==> {
                    let row = #[trigger] rows[i];
                    &&& 0 < row.open.bits < 0x7ff0_0000_0000_0000
                    &&& 0 < row.high.bits < 0x7ff0_0000_0000_0000
                    &&& 0 < row.low.bits < 0x7ff0_0000_0000_0000
                    &&& 0 < row.close.bits < 0x7ff0_0000_0000_0000
                }
        },
        candles_of(broker, unsupported, name, timeframe, rows) matches Ok(list) ==> {
            &&& list.len() == rows.len()
            &&& forall|i: int|
                0 <= i < rows.len() ==> {
                    let candle = #[trigger] list[i];
                    let row = rows[i];
                    &&& candle.instrument_name == name
                    &&& candle.timeframe == timeframe
                    &&& candle.start_time == row.time * 1_000
                    &&& candle.end_time - candle.start_time == if timeframe == Timeframe::OneDay {
                        86_400_000int
                    } else {
                        60_000
                    }
                    &&& candle.open == row.open
                    &&& candle.high == row.high
                    &&& candle.low == row.low
                    &&& candle.close == row.close
                    &&& candle.price == row.close
                    &&& candle.volume == row.volume
                }
        },
    decreases rows.len(),
{
    if rows.len() > 0 {
        let d = rows.drop_last();
        let n = rows.len() - 1;
        assert forall|i: int|
            #![trigger d[i]]
            #![trigger rows[i]]
            0 <= i < n implies d[i] == rows[i] by {}
        assert(rows[n] == rows.last());
        candles_tell_their_rows(broker, unsupported, name, timeframe, d);
        if let Ok(list) = candles_of(broker, unsupported, name, timeframe, rows) {
            let before = candles_of(broker, unsupported, name, timeframe, d)->Ok_0;
            assert forall|i: int| 0 <= i < n implies #[trigger] list[i] == before[i] by {}
        }
    }
}

} // verus!
