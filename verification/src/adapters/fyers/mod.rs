//! The broker FYERS.
pub mod historical;
pub mod latest_price_file;
pub mod live;
pub mod master;
pub mod session;
pub mod token;
