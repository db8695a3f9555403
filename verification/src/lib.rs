//! Measurement engine of an internet speed test: sample statistics, latency and
//! throughput samples drawn from timed requests, and the identity of the serving
//! edge location.

pub mod json;
pub mod providers;
pub mod stats;
pub mod text;
