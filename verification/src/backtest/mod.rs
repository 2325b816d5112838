//! What strategies would have traded.
pub mod args;
pub mod candle_feed;
pub mod engine;
pub mod report;
pub mod stores;
