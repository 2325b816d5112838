//! The exchange Delta.
use crate::feeder::error::FeedFault;
use crate::feeder::{FeedError, FeedSubscription, Feeder, PriceEvent};
use vstd::prelude::*;

pub mod historical;
pub mod latest_price_file;
pub mod live;
pub mod product_master;
pub mod runtime;

verus! {

/// A feeder that takes subscriptions and delivers nothing.
pub struct DeltaFeederAdapter {
    subscription: Option<FeedSubscription>,
}

impl DeltaFeederAdapter {
    /// What is subscribed.
    pub closed spec fn subscribed(&self) -> Option<FeedSubscription> {
        self.subscription
    }

    pub fn new() -> (r: DeltaFeederAdapter)
        ensures
            r.subscribed() is None,
    {
        DeltaFeederAdapter { subscription: None }
    }
}

impl Default for DeltaFeederAdapter {
    fn default() -> (r: DeltaFeederAdapter)
        ensures
            r.subscribed() is None,
    {
        DeltaFeederAdapter::new()
    }
}

impl Feeder for DeltaFeederAdapter {
    fn subscribe(&mut self, subscription: FeedSubscription) -> (r: Result<(), FeedError>)
        ensures
            r is Ok,
            final(self).subscribed() == Some(subscription),
    {
        self.subscription = Some(subscription);
        Ok(())
    }

    fn next_event(&mut self) -> (r: Result<Option<PriceEvent>, FeedError>)
        ensures
            final(self).subscribed() == old(self).subscribed(),
            r matches Err(e) && e@ == if old(self).subscribed() is None {
                FeedFault::NotSubscribed
            } else {
                FeedFault::Disconnected(
                    "delta websocket implementation is not wired yet"@,
                )
            },
    {
        if self.subscription.is_none() {
            return Err(FeedError::NotSubscribed);
        }
        Err(
            FeedError::Disconnected(
                "delta websocket implementation is not wired yet".to_owned(),
            ),
        )
    }
}

} // verus!
