//! The brokers that market data comes from.
use crate::feeder::error::{FeedError, FeedFault};
use crate::text::{same, trim, trim_of, upper, upper_of, views};
use vstd::prelude::*;

pub mod angelone;
pub mod candle_rows;
pub mod dbinternational;
pub mod delta;
pub mod fyers;
pub mod historical;
pub mod latest_prices;
pub mod live_universe;
pub mod master_file;
pub mod universe;

verus! {

/// What a service answered.
#[derive(Debug)]
pub struct HttpReply {
    pub success: bool,
    pub status: u16,
    pub body: String,
}

/// How long to wait before a broker is tried again whose set-up is at fault.
pub const CONFIG_RESTART_DELAY_SECS: u64 = 60;

/// How long to wait before a broker is tried again after a passing fault.
pub const TRANSIENT_RESTART_DELAY_SECS: u64 = 10;

/// The brokers that a feed can be run for.
#[derive(Clone, Copy, Debug, PartialEq, Eq, Structural)]
pub enum FeedBroker {
    Delta,
    Fyers,
}

/// What one of the configured names adds to the brokers to run. `delta` and `fyers` say
/// whether the broker is configured and, if so, whether it is switched on.
pub open spec fn named_broker(name: Seq<char>, delta: Option<bool>, fyers: Option<bool>) -> Result<
    Option<FeedBroker>,
    FeedFault,
> {
    let v = upper_of(trim_of(name));
    if v == "DELTA"@ {
        match delta {
            None => Err(FeedFault::Config("missing brokers.delta config"@)),
            Some(true) => Ok(Some(FeedBroker::Delta)),
            Some(false) => Ok(None),
        }
    } else if v == "FYERS"@ {
        match fyers {
            None => Err(FeedFault::Config("missing brokers.fyers config"@)),
            Some(true) => Ok(Some(FeedBroker::Fyers)),
            Some(false) => Ok(None),
        }
    } else {
        Err(FeedFault::Config("unsupported feed broker "@ + v))
    }
}

/// The brokers to run for a list of names, in its order.
pub open spec fn named_brokers(
    names: Seq<Seq<char>>,
    delta: Option<bool>,
    fyers: Option<bool>,
) -> Result<Seq<FeedBroker>, FeedFault>
    decreases names.len(),
{
    if names.len() == 0 {
        Ok(Seq::empty())
    } else {
        match named_brokers(names.drop_last(), delta, fyers) {
            Err(e) => Err(e),
            Ok(known) => match named_broker(names.last(), delta, fyers) {
                Err(e) => Err(e),
                Ok(None) => Ok(known),
                Ok(Some(broker)) => Ok(known.push(broker)),
            },
        }
    }
}

/// The brokers to run; one at least.
pub open spec fn feed_plan_of(
    names: Seq<Seq<char>>,
    delta: Option<bool>,
    fyers: Option<bool>,
) -> Result<Seq<FeedBroker>, FeedFault> {
    match named_brokers(names, delta, fyers) {
        Err(e) => Err(e),
        Ok(brokers) => if brokers.len() == 0 {
            Err(FeedFault::Config("no enabled feed brokers configured"@))
        } else {
            Ok(brokers)
        },
    }
}

proof fn naming_fails(names: Seq<Seq<char>>, delta: Option<bool>, fyers: Option<bool>, n: int)
    requires
        0 <= n <= names.len(),
        named_brokers(names.take(n), delta, fyers) is Err,
    ensures
        named_brokers(names, delta, fyers) == named_brokers(names.take(n), delta, fyers),
    decreases names.len() - n,
{
    if n < names.len() {
        assert(names.take(n + 1).drop_last() =~= names.take(n));
        naming_fails(names, delta, fyers, n + 1);
    } else {
        assert(names.take(n) =~= names);
    }
}

fn parse_broker(name: &str, delta: Option<bool>, fyers: Option<bool>) -> (r: Result<
    Option<FeedBroker>,
    FeedError,
>)
    ensures
        match r {
            Ok(broker) => named_broker(name@, delta, fyers) == Ok::<Option<FeedBroker>, FeedFault>(
                broker,
            ),
            Err(e) => named_broker(name@, delta, fyers) == Err::<Option<FeedBroker>, FeedFault>(e@),
        },
{
    let v = upper(trim(name).as_str());
    if same(v.as_str(), "DELTA") {
        match delta {
            None => Err(FeedError::Config("missing brokers.delta config".to_owned())),
            Some(true) => Ok(Some(FeedBroker::Delta)),
            Some(false) => Ok(None),
        }
    } else if same(v.as_str(), "FYERS") {
        match fyers {
            None => Err(FeedError::Config("missing brokers.fyers config".to_owned())),
            Some(true) => Ok(Some(FeedBroker::Fyers)),
            Some(false) => Ok(None),
        }
    } else {
        Err(FeedError::Config("unsupported feed broker ".to_owned().concat(v.as_str())))
    }
}

/// Which brokers to run, by the configured names and what is configured of the brokers.
pub fn plan_feed_brokers(
    feed_brokers: &Vec<String>,
    delta_enabled: Option<bool>,
    fyers_enabled: Option<bool>,
) -> (r: Result<Vec<FeedBroker>, FeedError>)
    ensures
        match r {
            Ok(plan) => feed_plan_of(views(feed_brokers@), delta_enabled, fyers_enabled) == Ok::<
                Seq<FeedBroker>,
                FeedFault,
            >(plan@),
            Err(e) => feed_plan_of(views(feed_brokers@), delta_enabled, fyers_enabled) == Err::<
                Seq<FeedBroker>,
                FeedFault,
            >(e@),
        },
{
    let ghost names = views(feed_brokers@);
    let mut plan: Vec<FeedBroker> = Vec::new();
    let mut i: usize = 0;
    assert(names.take(0) =~= Seq::empty());
    while i < feed_brokers.len()
        invariant
            names == views(feed_brokers@),
            i <= feed_brokers@.len(),
            named_brokers(names.take(i as int), delta_enabled, fyers_enabled) == Ok::<
                Seq<FeedBroker>,
                FeedFault,
            >(plan@),
        decreases feed_brokers@.len() - i,
    {
        assert(names.take(i + 1).drop_last() =~= names.take(i as int));
        assert(names.take(i + 1).last() == feed_brokers@[i as int]@);
        match parse_broker(feed_brokers[i].as_str(), delta_enabled, fyers_enabled) {
            Ok(Some(broker)) => {
                plan.push(broker);
            },
            Ok(None) => {},
            Err(e) => {
                proof {
                    naming_fails(names, delta_enabled, fyers_enabled, i + 1);
                }
                return Err(e);
            },
        }
        i += 1;
    }
    assert(names.take(names.len() as int) =~= names);
    if plan.len() == 0 {
        Err(FeedError::Config("no enabled feed brokers configured".to_owned()))
    } else {
        Ok(plan)
    }
}

/// How long to wait before a broker is tried again after a fault.
pub open spec fn restart_delay_of(fault: FeedFault) -> u64 {
    match fault {
        FeedFault::Config(_) => CONFIG_RESTART_DELAY_SECS,
        FeedFault::NotSubscribed => CONFIG_RESTART_DELAY_SECS,
        FeedFault::UnsupportedChannel { broker, channel } => CONFIG_RESTART_DELAY_SECS,
        _ => TRANSIENT_RESTART_DELAY_SECS,
    }
}

pub fn broker_restart_delay_secs(error: &FeedError) -> (r: u64)
    ensures
        r == restart_delay_of(error@),
{
    match error {
        FeedError::Config(_) => CONFIG_RESTART_DELAY_SECS,
        FeedError::NotSubscribed => CONFIG_RESTART_DELAY_SECS,
        FeedError::UnsupportedChannel { .. } => CONFIG_RESTART_DELAY_SECS,
        _ => TRANSIENT_RESTART_DELAY_SECS,
    }
}

/// Faults that only a change of the configuration can mend are waited for longer than others.
pub proof fn settings_are_waited_for_longer(settings: FeedFault, other: FeedFault)
    requires
        settings is Config || settings is NotSubscribed || settings is UnsupportedChannel,
        !(other is Config || other is NotSubscribed || other is UnsupportedChannel),
    ensures
        restart_delay_of(settings) > restart_delay_of(other),
{
}

/// A fault with the broker named in it.
pub open spec fn annotated_of(broker: Seq<char>, fault: FeedFault) -> FeedFault {
    let prefix = broker + " feed failed: "@;
    match fault {
        FeedFault::NotSubscribed => FeedFault::NotSubscribed,
        FeedFault::UnsupportedChannel { broker: named, channel } => FeedFault::UnsupportedChannel {
            broker: broker + ": "@ + named,
            channel,
        },
        FeedFault::InvalidInstrument(value) => FeedFault::InvalidInstrument(prefix + value),
        FeedFault::Config(value) => FeedFault::Config(prefix + value),
        FeedFault::Http(value) => FeedFault::Http(prefix + value),
        FeedFault::Io(value) => FeedFault::Io(prefix + value),
        FeedFault::Parse(value) => FeedFault::Parse(prefix + value),
        FeedFault::Disconnected(value) => FeedFault::Disconnected(prefix + value),
    }
}

pub fn annotate_broker_error(broker: &str, error: FeedError) -> (r: FeedError)
    ensures
        r@ == annotated_of(broker@, error@),
{
    let prefix = broker.to_owned().concat(" feed failed: ");
    match error {
        FeedError::NotSubscribed => FeedError::NotSubscribed,
        FeedError::UnsupportedChannel { broker: named, channel } => {
            let mut both = broker.to_owned();
            both.append(": ");
            both.append(named.as_str());
            FeedError::UnsupportedChannel { broker: both, channel }
        },
        FeedError::InvalidInstrument(value) => FeedError::InvalidInstrument(
            prefix.concat(value.as_str()),
        ),
        FeedError::Config(value) => FeedError::Config(prefix.concat(value.as_str())),
        FeedError::Http(value) => FeedError::Http(prefix.concat(value.as_str())),
        FeedError::Io(value) => FeedError::Io(prefix.concat(value.as_str())),
        FeedError::Parse(value) => FeedError::Parse(prefix.concat(value.as_str())),
        FeedError::Disconnected(value) => FeedError::Disconnected(prefix.concat(value.as_str())),
    }
}

/// Naming the broker in a fault changes neither its kind nor how long to wait after it.
pub proof fn annotating_keeps_the_kind(broker: Seq<char>, fault: FeedFault)
    ensures
        restart_delay_of(annotated_of(broker, fault)) == restart_delay_of(fault),
        fault is NotSubscribed <==> annotated_of(broker, fault) is NotSubscribed,
        fault is UnsupportedChannel <==> annotated_of(broker, fault) is UnsupportedChannel,
        fault is InvalidInstrument <==> annotated_of(broker, fault) is InvalidInstrument,
        fault is Config <==> annotated_of(broker, fault) is Config,
        fault is Http <==> annotated_of(broker, fault) is Http,
        fault is Io <==> annotated_of(broker, fault) is Io,
        fault is Parse <==> annotated_of(broker, fault) is Parse,
        fault is Disconnected <==> annotated_of(broker, fault) is Disconnected,
{
}

/// What a broker's run came to, where the thread may have panicked instead.
pub fn supervised_error(broker: &str, failure: Option<FeedError>) -> (r: FeedError)
    ensures
        r@ == match failure {
            Some(error) => annotated_of(broker@, error@),
            None => FeedFault::Config(broker@ + " feed thread panicked"@),
        },
{
    match failure {
        Some(error) => annotate_broker_error(broker, error),
        None => FeedError::Config(broker.to_owned().concat(" feed thread panicked")),
    }
}

/// A plan has the brokers that are named and switched on, each where it is named and in that
/// order, and at least one. There is one only where every name is that of a broker that there
/// are settings of, whatever its letters' case.
pub proof fn plan_is_of_the_named_brokers(
    names: Seq<Seq<char>>,
    delta: Option<bool>,
    fyers: Option<bool>,
)
    requires
        feed_plan_of(names, delta, fyers) is Ok,
    ensures
        ({
            let plan = feed_plan_of(names, delta, fyers)->Ok_0;
            &&& 0 < plan.len() <= names.len()
            &&& plan.contains(FeedBroker::Delta) <==> delta == Some(true) && exists|i: int|
                0 <= i < names.len() && upper_of(trim_of(#[trigger] names[i])) == "DELTA"@
            &&& plan.contains(FeedBroker::Fyers) <==> fyers == Some(true) && exists|i: int|
                0 <= i < names.len() && upper_of(trim_of(#[trigger] names[i])) == "FYERS"@
            &&& forall|i: int|
                0 <= i < names.len() ==> {
                    ||| upper_of(trim_of(#[trigger] names[i])) == "DELTA"@ && delta is Some
                    ||| upper_of(trim_of(names[i])) == "FYERS"@ && fyers is Some
                }
        }),
{
    named_are_planned(names, delta, fyers);
}

proof fn named_are_planned(names: Seq<Seq<char>>, delta: Option<bool>, fyers: Option<bool>)
    requires
        named_brokers(names, delta, fyers) is Ok,
    ensures
        ({
            let plan = named_brokers(names, delta, fyers)->Ok_0;
            &&& plan.len() <= names.len()
            &&& plan.contains(FeedBroker::Delta) <==> delta == Some(true) && exists|i: int|
                0 <= i < names.len() && upper_of(trim_of(#[trigger] names[i])) == "DELTA"@
            &&& plan.contains(FeedBroker::Fyers) <==> fyers == Some(true) && exists|i: int|
                0 <= i < names.len() && upper_of(trim_of(#[trigger] names[i])) == "FYERS"@
            &&& forall|i: int|
                0 <= i < names.len() ==> {
                    ||| upper_of(trim_of(#[trigger] names[i])) == "DELTA"@ && delta is Some
                    ||| upper_of(trim_of(names[i])) == "FYERS"@ && fyers is Some
                }
        }),
    decreases names.len(),
{
    if names.len() > 0 {
        let d = names.drop_last();
        let n = names.len() - 1;
        named_are_planned(d, delta, fyers);
        reveal_strlit("DELTA");
        reveal_strlit("FYERS");
        assert("DELTA"@[0] != "FYERS"@[0]);
        let before = named_brokers(d, delta, fyers)->Ok_0;
        let plan = named_brokers(names, delta, fyers)->Ok_0;
        assert(names[n] == names.last());
        assert forall|i: int|
            #![trigger d[i]]
            #![trigger names[i]]
            0 <= i < n implies d[i] == names[i] by {}
        assert forall|broker: FeedBroker| #[trigger] before.contains(broker) implies plan.contains(
            broker,
        ) by {
            let k = choose|k: int| 0 <= k < before.len() && before[k] == broker;
            assert(plan[k] == broker);
        }
        if plan.len() > before.len() {
            assert(plan[before.len() as int] == plan.last());
        }
        assert forall|broker: FeedBroker|
            plan.contains(broker) && !before.contains(broker) implies plan.len() > before.len()
            && plan.last() == broker by {
            let k = choose|k: int| 0 <= k < plan.len() && plan[k] == broker;
            if k < before.len() {
                assert(before[k] == broker);
            }
        }
    }
}

} // verus!
