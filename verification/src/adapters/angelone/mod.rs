//! The broker AngelOne.
pub mod auth;
pub mod live;
pub mod master;
pub mod runtime;
pub mod universe;
