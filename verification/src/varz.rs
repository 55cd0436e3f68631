//! Observability counters maintained by the core.

use vstd::prelude::*;

verus! {

/// Saturating increment of a counter.
pub open spec fn sat_inc_u64(x: u64) -> u64 {
    if x == u64::MAX {
        x
    } else {
        (x + 1) as u64
    }
}

/// The counters the core maintains: a gauge of in-flight pending entries and
/// monotone counters of noteworthy events.
#[derive(Clone, Copy, PartialEq, Eq, Structural)]
pub struct Varz {
    /// Number of entries currently in the pending table.
    pub inflight_queries: u64,
    /// Clients served from cache or SERVFAIL because upstreams were down.
    pub client_queries_offline: u64,
    /// Packets sent upstream (primary attempts and retries).
    pub upstream_sent: u64,
    /// Retry attempts that timed out as well.
    pub upstream_timeout: u64,
}

impl Varz {
    pub fn new() -> (v: Varz)
        ensures
            v == (Varz {
                inflight_queries: 0,
                client_queries_offline: 0,
                upstream_sent: 0,
                upstream_timeout: 0,
            }),
    {
        Varz { inflight_queries: 0, client_queries_offline: 0, upstream_sent: 0, upstream_timeout: 0 }
    }
}

} // verus!
