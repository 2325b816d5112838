pub mod adapters;
pub mod admin;
pub mod backtest;
pub mod binary64;
pub mod bytes;
pub mod calendar;
pub mod config;
pub mod dotenv;
pub mod encodings;
pub mod feeder;
pub mod json;
pub mod login_scheduler;
pub mod order;
pub mod pairs;
pub mod startup;
pub mod strategy;
pub mod text;
