//! Queue-aware request admission and timing for a simulated disk I/O server.
//!
//! A worker serves one connection: it decodes a request line, refuses the
//! request if it has waited too long before being served, otherwise simulates
//! the requested latency, and replies with the time the request took.

pub mod admission;
pub mod clock;
pub mod decimal;
pub mod fields;
pub mod outcome;
pub mod request;
pub mod response;
pub mod worker;
