//! Verified core of a command-line client for Cloudflare's speed test service:
//! the text formats it reads, the requests it builds and the decisions that
//! drive its latency and bandwidth measurements.
pub mod text;
pub mod trace;
pub mod server_timing;
pub mod endpoints;
pub mod locations;
pub mod meta;
pub mod bandwidth;
pub mod latency;
