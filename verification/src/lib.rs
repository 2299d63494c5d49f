//! The connection-handling engine of a small HTTP/1.1 server: an incremental
//! request parser, a sliding-window rate limiter, and the rules by which one
//! connection is admitted, parsed and answered.

pub mod text;
pub mod request;
pub mod parser;
pub mod response;
pub mod connection;
pub mod rate_limiter;
pub mod dispatch;
pub mod pool;
pub mod config;
pub mod content;
pub mod json;
pub mod media;
pub mod handlers;
pub mod delivery;
pub mod grammar;
pub mod encoding;
pub mod round_trip;
