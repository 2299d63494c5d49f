//! The settings of the server.

use vstd::prelude::*;

verus! {

/// The settings of the server: where it listens, how many workers it has,
/// and how its rate limiter is set.
#[derive(Debug)]
pub struct Config {
    pub host: String,
    pub port: u16,
    pub threads: usize,
    pub rate_limiter: RateLimiterConfig,
}

/// The settings of the rate limiter.
#[derive(Debug)]
pub struct RateLimiterConfig {
    pub enabled: bool,
    pub window_seconds: u64,
    pub max_requests: usize,
}

} // verus!
