//! What a market-data feeder delivers, and how its consumers ask for it.
use crate::text::same;
use vstd::prelude::*;

pub mod candle_alignment;
pub mod catalog;
pub mod error;
pub mod event;
pub mod historical_candles;
pub mod market_session;
pub mod universe;

pub use error::FeedError;
pub use event::{
    Candle, FeedChannel, InstrumentName, Price, PriceEvent, PriceTick, Timeframe, UnixMillis,
};

verus! {

/// A source of market data.
pub trait Feeder {
    fn subscribe(&mut self, subscription: FeedSubscription) -> Result<(), FeedError>;

    fn next_event(&mut self) -> Result<Option<PriceEvent>, FeedError>;
}

/// Which instruments and channels a consumer wants.
#[derive(Debug, PartialEq, Eq)]
pub struct FeedSubscription {
    instruments: Vec<InstrumentName>,
    channels: Vec<FeedChannel>,
}

impl FeedSubscription {
    pub closed spec fn instrument_list(&self) -> Seq<InstrumentName> {
        self.instruments@
    }

    pub closed spec fn channel_list(&self) -> Seq<FeedChannel> {
        self.channels@
    }

    /// Whether the subscription is for an instrument on a channel.
    pub open spec fn is_for(&self, instrument: Seq<char>, channel: FeedChannel) -> bool {
        &&& exists|i: int|
            0 <= i < self.instrument_list().len() && (#[trigger] self.instrument_list()[i])@
                == instrument
        &&& self.channel_list().contains(channel)
    }

    pub fn new(instruments: Vec<InstrumentName>, channels: Vec<FeedChannel>) -> (r:
        FeedSubscription)
        ensures
            r.instrument_list() == instruments@,
            r.channel_list() == channels@,
    {
        FeedSubscription { instruments, channels }
    }

    pub fn instruments(&self) -> (r: &[InstrumentName])
        ensures
            r@ == self.instrument_list(),
    {
        self.instruments.as_slice()
    }

    pub fn channels(&self) -> (r: &[FeedChannel])
        ensures
            r@ == self.channel_list(),
    {
        self.channels.as_slice()
    }

    pub fn wants(&self, instrument: &InstrumentName, channel: &FeedChannel) -> (r: bool)
        ensures
            r == self.is_for(instrument@, *channel),
    {
        let mut named = false;
        let mut i: usize = 0;
        while i < self.instruments.len()
            invariant
                i <= self.instruments@.len(),
                named == exists|k: int|
                    0 <= k < i && (#[trigger] self.instruments@[k])@ == instrument@,
            decreases self.instruments@.len() - i,
        {
            if same(self.instruments[i].as_str(), instrument.as_str()) {
                named = true;
            }
            i += 1;
        }
        let mut channeled = false;
        let mut j: usize = 0;
        while j < self.channels.len()
            invariant
                j <= self.channels@.len(),
                channeled == exists|k: int| 0 <= k < j && #[trigger] self.channels@[k] == *channel,
            decreases self.channels@.len() - j,
        {
            if self.channels[j] == *channel {
                channeled = true;
            }
            j += 1;
        }
        proof {
            let names = self.instrument_list();
            if named {
                let k = choose|k: int|
                    0 <= k < i && (#[trigger] self.instruments@[k])@ == instrument@;
                assert(names[k]@ == instrument@);
            }
            if exists|k: int| 0 <= k < names.len() && (#[trigger] names[k])@ == instrument@ {
                let k = choose|k: int| 0 <= k < names.len() && (#[trigger] names[k])@ == instrument@;
                assert(self.instruments@[k]@ == instrument@);
            }
            if self.channel_list().contains(*channel) {
                let k = self.channel_list().index_of(*channel);
                assert(self.channels@[k] == *channel);
            }
        }
        named && channeled
    }
}

} // verus!
