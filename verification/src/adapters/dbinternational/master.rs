//! The master of DBInternational: where it comes from, and when it is fetched anew.
use crate::adapters::dbinternational::auth::{
    envelope_of, is_success, ist_day_of, response_envelope, same_ist_day, tells_success,
};
use crate::adapters::dbinternational::live::text_outcome;
use crate::config::DbinternationalBrokerSection;
use crate::feeder::error::{FeedError, FeedFault};
use crate::json::{
    field_of, json_views, list_facts, parsed_bytes, read_json_bytes, string_of, Json, JsonFacts,
    Shape, ShapeFacts,
};
use crate::text::{
    brief, brief_of, count_said_lines, decimal, decimal_of, drop_ending, drop_ending_of,
    ending_is_said, join, join_of, lines_of, lossy, lossy_of, said_lines, split_of,
    split_of_nonempty, strip_end, strip_end_of, trim, trim_of, trimming_is_complete, views,
};
use vstd::prelude::*;

verus! {

/// What came of fetching a master.
#[derive(Debug, PartialEq, Eq)]
pub struct DbinternationalMasterRefreshSummary {
    pub instrument_count: usize,
    pub output_path: String,
    pub refreshed: bool,
}

/// The address of the service for market data.
pub open spec fn base_of(value: Seq<char>) -> Seq<char> {
    drop_ending_of(
        drop_ending_of(strip_end_of(trim_of(value), '/'), "/instruments/master"@),
        "/auth/login"@,
    )
}

/// The address that the master is fetched from.
pub open spec fn master_url_of(base_url: Seq<char>) -> Result<Seq<char>, FeedFault> {
    if base_of(base_url).len() == 0 {
        Err(FeedFault::Config("DBInternational market-data session base_url is empty"@))
    } else {
        Ok(base_of(base_url) + "/instruments/master"@)
    }
}

pub fn market_data_master_url_from_base_url(base_url: &str) -> (r: Result<String, FeedError>)
    ensures
        text_outcome(r) == master_url_of(base_url@),
{
    let a = strip_end(trim(base_url).as_str(), '/');
    let b = drop_ending(a.as_str(), "/instruments/master");
    let base = drop_ending(b.as_str(), "/auth/login");
    if base.as_str().is_empty() {
        return Err(
            FeedError::Config("DBInternational market-data session base_url is empty".to_owned()),
        );
    }
    Ok(base.concat("/instruments/master"))
}

/// Refuses to fetch a master of nothing.
pub fn check_segments(exchange_segments: &Vec<String>) -> (r: Option<FeedError>)
    ensures
        match r {
            Some(e) => exchange_segments@.len() == 0 && e@ == FeedFault::Config(
                "DBInternational market_data_exchange_segments cannot be empty"@,
            ),
            None => exchange_segments@.len() > 0,
        },
{
    if exchange_segments.len() == 0 {
        Some(
            FeedError::Config(
                "DBInternational market_data_exchange_segments cannot be empty".to_owned(),
            ),
        )
    } else {
        None
    }
}

/// The texts among some values.
pub open spec fn strings_in(items: Seq<JsonFacts>) -> Seq<Seq<char>>
    decreases items.len(),
{
    if items.len() == 0 {
        Seq::empty()
    } else {
        match string_of(items.last()) {
            Some(t) => strings_in(items.drop_last()).push(t),
            None => strings_in(items.drop_last()),
        }
    }
}

/// The master in a result: a text, or a list of its lines.
pub open spec fn lines_in(result: JsonFacts) -> Option<Seq<char>> {
    match result.shape {
        ShapeFacts::Text(t) => Some(t),
        ShapeFacts::List(items) => Some(join_of(strings_in(items), "\n"@)),
        _ => None,
    }
}

/// The master in an answer.
pub open spec fn master_of(json: JsonFacts) -> Result<Seq<char>, FeedFault> {
    match envelope_of(json) {
        None => Err(FeedFault::Parse("DBInternational master response is empty"@)),
        Some(envelope) => if !tells_success(envelope) {
            Err(
                FeedFault::Http(
                    "DBInternational master returned non-success response: "@ + brief_of(
                        envelope.text,
                        500,
                    ),
                ),
            )
        } else {
            match field_of(envelope, "result"@) {
                None => Err(FeedFault::Parse("DBInternational master missing result"@)),
                Some(result) => match lines_in(result) {
                    None => Err(
                        FeedFault::Parse(
                            "DBInternational master result has unsupported shape: "@ + brief_of(
                                result.text,
                                500,
                            ),
                        ),
                    ),
                    Some(content) => if trim_of(content).len() == 0 {
                        Err(FeedFault::Parse("DBInternational master result is empty"@))
                    } else {
                        Ok(content)
                    },
                },
            }
        },
    }
}

fn join_strings(items: &Vec<Json>) -> (r: String)
    ensures
        r@ == join_of(strings_in(json_views(items@)), "\n"@),
{
    let ghost all = json_views(items@);
    let mut parts: Vec<String> = Vec::new();
    let mut i: usize = 0;
    assert(all.take(0) =~= Seq::empty());
    assert(views(parts@) =~= Seq::empty());
    while i < items.len()
        invariant
            i <= items@.len(),
            all == json_views(items@),
            views(parts@) == strings_in(all.take(i as int)),
        decreases items@.len() - i,
    {
        let ghost before = views(parts@);
        assert(all.take(i + 1).drop_last() =~= all.take(i as int));
        assert(all.take(i + 1).last() == items@[i as int]@);
        if let Some(t) = items[i].as_str() {
            parts.push(t.to_owned());
            assert(views(parts@) =~= before.push(t@));
        }
        i += 1;
    }
    assert(all.take(i as int) =~= all);
    join(&parts, "\n")
}

/// The master in an answer.
pub fn parse_master_response(json: &Json) -> (r: Result<String, FeedError>)
    ensures
        text_outcome(r) == master_of(json@),
{
    let envelope = match response_envelope(json) {
        Some(envelope) => envelope,
        None => return Err(
            FeedError::Parse("DBInternational master response is empty".to_owned()),
        ),
    };
    if !is_success(envelope) {
        return Err(
            FeedError::Http(
                "DBInternational master returned non-success response: ".to_owned().concat(
                    brief(envelope.text.as_str(), 500).as_str(),
                ),
            ),
        );
    }
    let result = match envelope.field("result") {
        Some(result) => result,
        None => return Err(FeedError::Parse("DBInternational master missing result".to_owned())),
    };
    let content = match &result.shape {
        Shape::Text(t) => t.clone(),
        Shape::List(items) => {
            proof {
                list_facts(*items);
            }
            join_strings(items)
        },
        _ => return Err(
            FeedError::Parse(
                "DBInternational master result has unsupported shape: ".to_owned().concat(
                    brief(result.text.as_str(), 500).as_str(),
                ),
            ),
        ),
    };
    if trim(content.as_str()).as_str().is_empty() {
        return Err(FeedError::Parse("DBInternational master result is empty".to_owned()));
    }
    Ok(content)
}

/// The master in a reply.
pub open spec fn fetched_of(success: bool, status: u16, body: Seq<u8>) -> Result<
    Seq<char>,
    FeedFault,
> {
    if !success {
        Err(
            FeedFault::Http(
                "DBInternational master failed status="@ + decimal_of(status as nat) + " body="@
                    + brief_of(lossy_of(body), 500),
            ),
        )
    } else {
        match parsed_bytes(body) {
            Err(e) => Err(FeedFault::Parse(e)),
            Ok(json) => master_of(json),
        }
    }
}

/// The master in a reply.
pub fn fetch_master(success: bool, status: u16, body: &[u8]) -> (r: Result<String, FeedError>)
    ensures
        text_outcome(r) == fetched_of(success, status, body@),
{
    if !success {
        let mut message = "DBInternational master failed status=".to_owned();
        message.append(decimal(status as u64).as_str());
        message.append(" body=");
        message.append(brief(lossy(body).as_str(), 500).as_str());
        return Err(FeedError::Http(message));
    }
    match read_json_bytes(body) {
        Ok(json) => parse_master_response(&json),
        Err(e) => Err(FeedError::Parse(e)),
    }
}

/// What the file of a master is to hold, and how many instruments it has.
pub fn refresh_master(content: &str) -> (r: Result<(String, usize), FeedError>)
    ensures
        if trim_of(content@).len() == 0 {
            r matches Err(e) && e@ == FeedFault::Parse("DBInternational master content is empty"@)
        } else {
            r matches Ok((text, count)) && text@ == trim_of(content@) + "\n"@ && count
                == said_lines(lines_of(trim_of(content@)))
        },
{
    let t = trim(content);
    if t.as_str().is_empty() {
        return Err(FeedError::Parse("DBInternational master content is empty".to_owned()));
    }
    let count: usize = count_said_lines(t.as_str());
    Ok((t.concat("\n"), count))
}

/// The file of a master: what it holds, and when it was written, or why that is not known.
#[derive(Debug)]
pub struct MasterFile {
    pub content: String,
    pub modified: Result<u64, String>,
}

/// What is to be done about a master.
#[derive(Debug)]
pub enum MasterStep {
    Keep(DbinternationalMasterRefreshSummary),
    Fetch,
}

/// Decides whether the master is fetched anew at a moment: where there is none, where it is
/// empty, and where it was not written this day.
pub fn ensure_master_current(
    config: &DbinternationalBrokerSection,
    file: &Option<MasterFile>,
    now_utc: u64,
) -> (r: Result<MasterStep, FeedError>)
    ensures
        match file {
            None => r matches Ok(MasterStep::Fetch),
            Some(f) => if said_lines(lines_of(f.content@)) == 0 {
                r matches Ok(MasterStep::Fetch)
            } else {
                match f.modified {
                    Err(error) => r matches Err(e) && e@ == FeedFault::Config(
                        "invalid DBInternational master mtime: "@ + error@,
                    ),
                    Ok(modified) => if ist_day_of(modified) == ist_day_of(now_utc) {
                        r matches Ok(MasterStep::Keep(s)) && s.instrument_count == said_lines(
                            lines_of(f.content@),
                        ) && s.output_path@ == config.market_data_master_file@ && !s.refreshed
                    } else {
                        r matches Ok(MasterStep::Fetch)
                    },
                }
            },
        },
{
    match file {
        None => Ok(MasterStep::Fetch),
        Some(f) => {
            let count: usize = count_said_lines(f.content.as_str());
            if count == 0 {
                return Ok(MasterStep::Fetch);
            }
            match &f.modified {
                Err(error) => Err(
                    FeedError::Config(
                        "invalid DBInternational master mtime: ".to_owned().concat(error.as_str()),
                    ),
                ),
                Ok(modified) => {
                    if same_ist_day(*modified, now_utc) {
                        Ok(
                            MasterStep::Keep(
                                DbinternationalMasterRefreshSummary {
                                    instrument_count: count,
                                    output_path: config.market_data_master_file.clone(),
                                    refreshed: false,
                                },
                            ),
                        )
                    } else {
                        Ok(MasterStep::Fetch)
                    }
                },
            }
        },
    }
}

/// What is told of a master that was fetched anew. `refreshed` is how many instruments it has,
/// or why it could not be fetched.
pub fn master_refreshed(
    config: &DbinternationalBrokerSection,
    refreshed: Result<usize, FeedError>,
) -> (r: Result<DbinternationalMasterRefreshSummary, FeedError>)
    ensures
        match refreshed {
            Ok(count) => r matches Ok(s) && s.instrument_count == count && s.output_path@
                == config.market_data_master_file@ && s.refreshed,
            Err(error) => r matches Err(e) && e == error,
        },
{
    match refreshed {
        Ok(count) => Ok(
            DbinternationalMasterRefreshSummary {
                instrument_count: count,
                output_path: config.market_data_master_file.clone(),
                refreshed: true,
            },
        ),
        Err(error) => Err(error),
    }
}

/// The file of a master that was fetched has as many instruments as were told of when it was
/// fetched, and one at least, so that it is kept for the day.
pub proof fn fetched_master_is_kept(content: Seq<char>)
    requires
        trim_of(content).len() > 0,
    ensures
        said_lines(lines_of(trim_of(content) + "\n"@)) == said_lines(lines_of(trim_of(content))),
        said_lines(lines_of(trim_of(content))) > 0,
{
    let t = trim_of(content);
    let file = t + "\n"@;
    reveal_strlit("\n");
    trimming_is_complete(content);
    let p = split_of(t, '\n');
    split_of_nonempty(t.drop_last(), '\n');
    assert(file.drop_last() =~= t);
    assert(split_of(file, '\n') == p.push(Seq::empty()));
    assert(p.last().last() == t.last());
    assert(p.push(Seq::<char>::empty()).drop_last() =~= p);
    assert(lines_of(file) =~= lines_of(t));
    assert(lines_of(t).last() =~= p.last());
    ending_is_said(p.last());
}

} // verus!
