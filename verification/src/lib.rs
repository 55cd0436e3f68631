//! Core of a forwarding DNS resolver: coalescing of identical in-flight
//! queries, load-balanced dispatch to upstream servers, a single retry on
//! timeout, opportunistic probing of offline servers, and degradation to
//! stale cache entries or synthesized SERVFAIL answers.

pub mod cache;
pub mod client_query;
pub mod config;
pub mod dns;
mod ext;
pub mod handler;
pub mod load_balancer;
pub mod pending;
pub mod upstream;
pub mod varz;
