//! Verified core of the Spark Dashboard backend: engine discovery, the
//! per-engine state kept between polls, the Splunk HEC exporter's state
//! machine, container log buffering and forwarding, and the text handling
//! they rest on.
pub mod detector;
pub mod engines;
pub mod hec;
pub mod llama;
pub mod logs;
pub mod prometheus;
pub mod sorted;
pub mod text;
