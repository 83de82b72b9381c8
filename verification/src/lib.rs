//! Verified core of a TCP reachability monitor.
//!
//! The library measures endpoint health from individual connection-attempt
//! outcomes, persists the resulting metrics through an embedded SQLite store,
//! and aggregates the stored records into fixed-width time buckets with a
//! traffic-light status per bucket.

pub mod config;
pub mod metrics;
pub mod orchestrator;
pub mod probe;
pub mod schedule;
pub mod store;
pub mod window;
