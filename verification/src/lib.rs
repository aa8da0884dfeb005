//! Verified core of a host telemetry service.
//!
//! The service samples host metrics at a fixed cadence, fans the samples out
//! to live subscribers, and persists them into a tiered time-series store
//! that downsamples raw 1 s rows into 1 min and 5 min aggregates and prunes
//! old data. This crate holds the verified logic of that pipeline: the data
//! model, the blob framing codec, the bucket aggregation functions, the
//! store semantics, the aggregation/retention schedule, the history query
//! stitcher, and the configuration rules. The unverified shell (HTTP and
//! WebSocket serving, probes, the SQLite substrate) lives outside and calls
//! into these functions with plain values.

pub mod aggregate;
pub mod codec;
pub mod config;
pub mod history;
pub mod models;
pub mod schedule;
pub mod store;
pub mod worker;
