//! Building blocks of a small TCP speed test: the wire protocol shared by
//! client and server, the latency probe and its statistics, the throughput
//! meter used by the download and upload tests, and the CSV report.

pub mod decimal;
pub mod stats;
pub mod latency;
pub mod throughput;
pub mod protocol;
pub mod csv;
pub mod report;
