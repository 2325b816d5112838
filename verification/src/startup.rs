//! What is settled before the feeds are started.
use crate::feeder::error::{outcome, FeedError, FeedFault};
use crate::text::{
    case_is_all_that_changes, decimal_of, decimals_read_back, lower_of, number_fault,
    number_fault_of, parse_of, parse_up_to, same_ignoring_case, upper_of,
};
use vstd::prelude::*;

verus! {

/// Whether a mode of the feeder is supported.
pub open spec fn mode_check(mode: Seq<char>) -> Result<(), FeedFault> {
    if lower_of(mode) == lower_of("LIVE"@) {
        Ok(())
    } else {
        Err(FeedFault::Config("unsupported feeder mode "@ + mode))
    }
}

/// Refuses a mode of the feeder that is not supported.
pub fn check_feeder_mode(mode: &str) -> (r: Result<(), FeedError>)
    ensures
        match r {
            Ok(_) => mode_check(mode@) is Ok,
            Err(e) => mode_check(mode@) == Err::<(), FeedFault>(e@),
        },
{
    if same_ignoring_case(mode, "LIVE") {
        Ok(())
    } else {
        Err(FeedError::Config("unsupported feeder mode ".to_owned().concat(mode)))
    }
}

/// Whether the history of a broker is recovered before the strategies start.
pub fn recovers_history_first(broker: &str) -> (r: bool)
    ensures
        r == (lower_of(broker@) == lower_of("DELTA"@)),
{
    same_ignoring_case(broker, "DELTA")
}

/// How many events a run prints: what the environment says, else what is configured,
/// else 25.
pub open spec fn max_events_of(env: Option<Seq<char>>, configured: Option<usize>) -> Result<
    usize,
    FeedFault,
> {
    match env {
        Some(value) => match parse_of(value, usize::MAX as nat) {
            Some(n) => Ok(n as usize),
            None => Err(
                FeedFault::Config(
                    "invalid FEEDER_MAX_EVENTS: "@ + number_fault_of(value, usize::MAX as nat),
                ),
            ),
        },
        None => match configured {
            Some(n) => Ok(n),
            None => Ok(25),
        },
    }
}

pub fn configured_max_events(env_value: Option<&str>, configured: Option<usize>) -> (r: Result<
    usize,
    FeedError,
>)
    ensures
        outcome(r) == max_events_of(
            match env_value {
                Some(v) => Some(v@),
                None => None,
            },
            configured,
        ),
{
    match env_value {
        Some(value) => match parse_up_to(value, usize::MAX as u64) {
            Some(n) => Ok(n as usize),
            None => Err(
                FeedError::Config(
                    "invalid FEEDER_MAX_EVENTS: ".to_owned().concat(
                        number_fault(value, usize::MAX as u64).as_str(),
                    ),
                ),
            ),
        },
        None => match configured {
            Some(n) => Ok(n),
            None => Ok(25),
        },
    }
}

/// How many events are let through is what the environment says, else what is set, else 25.
pub proof fn environment_comes_before_settings(n: usize, configured: Option<usize>)
    ensures
        max_events_of(Some(decimal_of(n as nat)), configured) == Ok::<usize, FeedFault>(n),
        configured is Some ==> max_events_of(None, configured) == Ok::<usize, FeedFault>(
            configured->0,
        ),
        max_events_of(None, None) == Ok::<usize, FeedFault>(25),
{
    decimals_read_back(n as nat, usize::MAX as nat);
}

/// There is one mode, whatever the case of its letters.
pub proof fn only_live_is_supported(mode: Seq<char>)
    ensures
        mode_check(mode) is Ok <==> upper_of(mode) == "LIVE"@,
{
    reveal_strlit("LIVE");
    case_is_all_that_changes(mode);
    case_is_all_that_changes("LIVE"@);
    assert(upper_of("LIVE"@) =~= "LIVE"@);
}

} // verus!
