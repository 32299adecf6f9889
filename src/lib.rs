//! Turns the text that the wrk load tester prints into typed metrics, with
//! latencies normalised to milliseconds, and renders labelled metrics as a
//! markdown comparison table.
pub mod text;
pub mod units;
pub mod metrics;
pub mod report;

pub use metrics::{Latency, Metrics, MetricsError, Request, Transfer};
pub use report::Report;
pub use units::{normalize, TimeUnit};
