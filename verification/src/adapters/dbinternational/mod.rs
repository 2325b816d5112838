//! The broker DBInternational.
pub mod auth;
pub mod latest_price_file;
pub mod live;
pub mod master;
pub mod master_catalog;
pub mod runtime;
pub mod socket;
pub mod universe;
