//! A latency histogram core: a rolling window of round-trip samples,
//! bucketed into a frequency distribution with an auto-zoomed overflow
//! tail, ready for a chart renderer to consume.

pub mod histogram;
pub mod model;
