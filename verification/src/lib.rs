//! Execution context carried by a telemetry agent into check plugins.
//!
//! The crate offers two values: [`headers::HttpHeaders`], a case-sensitive
//! bag of HTTP header fields, and [`context::ExecutionContext`], which pairs
//! a resolved hostname with a header bag seeded from the agent's metadata.

pub mod context;
pub mod headers;
