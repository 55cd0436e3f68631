//! Configuration of the query-handling core: the load-balancing policy,
//! admission limits, and the fixed timing constants.

use vstd::prelude::*;

verus! {

/// Minimum spacing, in milliseconds, between two probes sent to the same
/// offline upstream server.
pub const UPSTREAM_PROBES_DELAY_MS: u64 = 1000;

/// Absolute ceiling, in milliseconds, on the retry attempt's timeout,
/// regardless of the RTT estimate of the chosen server.
pub const UPSTREAM_QUERY_MAX_TIMEOUT_MS: u64 = 1000;

/// How a live upstream server is chosen for an attempt.
#[derive(Clone, Copy, PartialEq, Eq, Structural)]
pub enum LoadBalancingMode {
    /// Always the first live server: strict primary preference.
    Fallback,
    /// Consistent hashing of the query name over the live set.
    Uniform,
    /// Power-of-two choice between the two least-loaded live servers.
    P2,
}

/// Options recognized by the query-handling core.
#[derive(Clone, Copy)]
pub struct Config {
    /// Load-balancing policy for upstream selection.
    pub lbmode: LoadBalancingMode,
    /// Admission threshold: above it, one pending entry is evicted.
    pub max_waiting_clients: usize,
    /// Upper bound on concurrently tracked queries (timer-wheel capacity).
    pub max_active_queries: usize,
    /// Consecutive failures after which a server is taken offline.
    pub upstream_max_failures: u32,
}

impl Config {
    /// A usable configuration: admission control must be able to make room
    /// for at least one client, and the threshold must leave headroom for
    /// the counter arithmetic.
    pub open spec fn wf(&self) -> bool {
        1 <= self.max_waiting_clients < usize::MAX
    }

    pub fn new(
        lbmode: LoadBalancingMode,
        max_waiting_clients: usize,
        max_active_queries: usize,
        upstream_max_failures: u32,
    ) -> (c: Config)
        requires
            1 <= max_waiting_clients < usize::MAX,
        ensures
            c.wf(),
            c.lbmode == lbmode,
            c.max_waiting_clients == max_waiting_clients,
            c.max_active_queries == max_active_queries,
            c.upstream_max_failures == upstream_max_failures,
    {
        Config { lbmode, max_waiting_clients, max_active_queries, upstream_max_failures }
    }
}

} // verus!
