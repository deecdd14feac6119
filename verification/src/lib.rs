//! Verified core of a chunked TCP throughput measurement tool.
//!
//! A sender emits a fixed number of fixed-size chunks over one connection;
//! a receiver times each chunk and derives session figures (effective data
//! rate, bandwidth-delay product, window-limited throughput) together with a
//! smoothed per-chunk series and a persisted table of the raw records.
//! All timing is carried in integer nanoseconds and all derived figures are
//! exact rationals, so every formula is stated and proved exactly.

pub mod config;
pub mod metrics;
pub mod ratio;
pub mod receiver;
pub mod record;
pub mod sender;
pub mod table;
