//! Core of a consumption gateway that mediates billable calls from consumers
//! to registered services: API-key lifecycle, token-bucket rate limiting,
//! monthly quota accounting, cost metering, retry and circuit-breaker
//! decisions, SLA evaluation, analytics buffering, and the request pipeline
//! that orders them. All state transitions and computations are verified;
//! network and storage I/O live outside this crate and hand plain values in.

pub mod analytics;
pub mod bench;
pub mod breaker;
pub mod civil;
pub mod codec;
pub mod config;
pub mod cost;
pub mod errors;
pub mod keys;
pub mod meter;
pub mod pipeline;
pub mod policy;
pub mod quota;
pub mod registry;
pub mod rate_limit;
pub mod retry;
pub mod router;
pub mod shield;
pub mod sla;
pub mod text;
pub mod tier;
