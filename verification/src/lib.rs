//! Analytics backend for a chapter-reading site: records per-page visit
//! events and serves aggregate visit counts.
//!
//! The library holds the verified core: the origin whitelist, the storage
//! model with its counter invariant, the two ranked queries, and the
//! decision logic of the write endpoint. HTTP and persistence plumbing
//! live outside, in the application crate.

pub mod allowed_origin;
pub mod error;
pub mod handler;
pub mod laws;
pub mod models;
pub mod rank;
pub mod store;
pub mod strcmp;
pub mod timeframe;
