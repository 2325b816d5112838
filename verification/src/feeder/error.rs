//! The ways in which a feeder fails.
use vstd::prelude::*;

verus! {

/// Why a feeder failed.
#[derive(Debug, PartialEq, Eq)]
pub enum FeedError {
    NotSubscribed,
    UnsupportedChannel { broker: String, channel: String },
    InvalidInstrument(String),
    Config(String),
    Http(String),
    Io(String),
    Parse(String),
    Disconnected(String),
}

/// A failure as contracts speak of it.
pub enum FeedFault {
    NotSubscribed,
    UnsupportedChannel { broker: Seq<char>, channel: Seq<char> },
    InvalidInstrument(Seq<char>),
    Config(Seq<char>),
    Http(Seq<char>),
    Io(Seq<char>),
    Parse(Seq<char>),
    Disconnected(Seq<char>),
}

impl View for FeedError {
    type V = FeedFault;

    open spec fn view(&self) -> FeedFault {
        match self {
            FeedError::NotSubscribed => FeedFault::NotSubscribed,
            FeedError::UnsupportedChannel { broker, channel } => FeedFault::UnsupportedChannel {
                broker: broker@,
                channel: channel@,
            },
            FeedError::InvalidInstrument(value) => FeedFault::InvalidInstrument(value@),
            FeedError::Config(value) => FeedFault::Config(value@),
            FeedError::Http(value) => FeedFault::Http(value@),
            FeedError::Io(value) => FeedFault::Io(value@),
            FeedError::Parse(value) => FeedFault::Parse(value@),
            FeedError::Disconnected(value) => FeedFault::Disconnected(value@),
        }
    }
}

/// What a failure is told as.
pub open spec fn message_of(fault: FeedFault) -> Seq<char> {
    match fault {
        FeedFault::NotSubscribed => "feeder is not subscribed"@,
        FeedFault::UnsupportedChannel { broker, channel } => broker
            + " does not support feeder channel "@ + channel,
        FeedFault::InvalidInstrument(value) => "invalid instrument: "@ + value,
        FeedFault::Config(value) => "config error: "@ + value,
        FeedFault::Http(value) => "http error: "@ + value,
        FeedFault::Io(value) => "io error: "@ + value,
        FeedFault::Parse(value) => "parse error: "@ + value,
        FeedFault::Disconnected(value) => "feed disconnected: "@ + value,
    }
}

impl FeedError {
    /// What the failure is told as.
    pub fn message(&self) -> (r: String)
        ensures
            r@ == message_of(self@),
    {
        match self {
            FeedError::NotSubscribed => "feeder is not subscribed".to_owned(),
            FeedError::UnsupportedChannel { broker, channel } => {
                let mut out = broker.clone();
                out.append(" does not support feeder channel ");
                out.append(channel.as_str());
                out
            },
            FeedError::InvalidInstrument(value) => "invalid instrument: ".to_owned().concat(
                value.as_str(),
            ),
            FeedError::Config(value) => "config error: ".to_owned().concat(value.as_str()),
            FeedError::Http(value) => "http error: ".to_owned().concat(value.as_str()),
            FeedError::Io(value) => "io error: ".to_owned().concat(value.as_str()),
            FeedError::Parse(value) => "parse error: ".to_owned().concat(value.as_str()),
            FeedError::Disconnected(value) => "feed disconnected: ".to_owned().concat(
                value.as_str(),
            ),
        }
    }
}

/// What a call came to, as contracts speak of it.
pub open spec fn outcome<T: View>(r: Result<T, FeedError>) -> Result<T::V, FeedFault> {
    match r {
        Ok(value) => Ok(value@),
        Err(error) => Err(error@),
    }
}

} // verus!
