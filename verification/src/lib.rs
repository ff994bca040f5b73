//! A per-key rate limiter built on the generic cell rate algorithm (GCRA).
//!
//! Each key owns one bucket, tracked as a single "theoretical arrival time"
//! (TAT) in nanoseconds. A call supplies its own policy (`burst`, `count`,
//! `period`, `quantity`), so one limiter instance can serve keys with
//! heterogeneous policies.

pub mod laws;
pub mod nif;
pub mod rate_limiter;

pub use crate::rate_limiter::RateLimiter;
