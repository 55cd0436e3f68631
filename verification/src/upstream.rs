//! Upstream servers and their health state: pending-attempt counts,
//! consecutive-failure tracking, probe timestamps, the RTT-derived attempt
//! timeout, and the snapshot of the currently live servers.

use vstd::prelude::*;
use crate::config::{UPSTREAM_PROBES_DELAY_MS, UPSTREAM_QUERY_MAX_TIMEOUT_MS};

verus! {

/// A configured remote resolver.
#[derive(Clone, Copy)]
pub struct UpstreamServer {
    /// Address of the server, as an opaque numeric handle.
    pub remote_addr: u64,
    /// Number of pending queries whose current attempt targets this server.
    pub pending_queries_count: u64,
    /// Consecutive failures since the last success.
    pub failures: u32,
    /// Whether the server is currently considered unhealthy.
    pub offline: bool,
    /// When the last recovery probe was sent, in milliseconds.
    pub last_probe_ts: Option<u64>,
    /// Exponentially weighted moving average of the observed RTT.
    pub rtt_est_ms: u64,
}

/// Saturating increment of a failure counter.
pub open spec fn sat_inc_u32(x: u32) -> u32 {
    if x == u32::MAX {
        x
    } else {
        (x + 1) as u32
    }
}

/// The RTT average after one more observation: an eighth of the weight goes
/// to the new sample, except that the first sample is taken as is.
pub open spec fn spec_ewma(prev: u64, rtt_ms: u64) -> u64 {
    if prev == 0 {
        rtt_ms
    } else {
        ((7 * prev + rtt_ms) / 8) as u64
    }
}

/// The per-attempt timeout derived from the RTT estimate, bounded by the
/// absolute `UPSTREAM_QUERY_MAX_TIMEOUT_MS` ceiling. A server without an
/// estimate yet gets the ceiling.
pub open spec fn spec_timeout_ms_est(s: UpstreamServer) -> u64 {
    if s.rtt_est_ms == 0 {
        UPSTREAM_QUERY_MAX_TIMEOUT_MS
    } else if 2 * s.rtt_est_ms + 100 < UPSTREAM_QUERY_MAX_TIMEOUT_MS {
        (2 * s.rtt_est_ms + 100) as u64
    } else {
        UPSTREAM_QUERY_MAX_TIMEOUT_MS
    }
}

/// Whether a probe may be sent to `s` at time `now_ms`: either no probe was
/// ever sent, or the last one is at least `UPSTREAM_PROBES_DELAY_MS` old.
pub open spec fn probe_allowed(s: UpstreamServer, now_ms: u64) -> bool {
    match s.last_probe_ts {
        None => true,
        Some(t) => t + UPSTREAM_PROBES_DELAY_MS <= now_ms,
    }
}

/// The server after a probe is stamped at `now_ms`.
pub open spec fn stamp_probe(s: UpstreamServer, now_ms: u64) -> UpstreamServer {
    UpstreamServer { last_probe_ts: Some(now_ms), ..s }
}

/// Probe sends to a given server are separated by at least
/// `UPSTREAM_PROBES_DELAY_MS`: once a probe is stamped at `t1`, no further
/// probe is allowed before `t1 + UPSTREAM_PROBES_DELAY_MS`.
pub proof fn lemma_probe_spacing(s: UpstreamServer, t1: u64, t2: u64)
    requires
        probe_allowed(s, t1),
        probe_allowed(stamp_probe(s, t1), t2),
    ensures
        t2 >= t1 + UPSTREAM_PROBES_DELAY_MS,
{
}

impl UpstreamServer {
    pub fn new(remote_addr: u64) -> (s: UpstreamServer)
        ensures
            s.remote_addr == remote_addr,
            s.pending_queries_count == 0,
            s.failures == 0,
            !s.offline,
            s.last_probe_ts is None,
            s.rtt_est_ms == 0,
    {
        UpstreamServer {
            remote_addr,
            pending_queries_count: 0,
            failures: 0,
            offline: false,
            last_probe_ts: None,
            rtt_est_ms: 0,
        }
    }

    /// Records one more consecutive failure; crossing `max_failures` takes
    /// the server offline. Returns whether it just went offline.
    pub fn record_failure(&mut self, max_failures: u32) -> (went_offline: bool)
        ensures
            final(self).failures == sat_inc_u32(old(self).failures),
            final(self).offline == (old(self).offline || final(self).failures >= max_failures),
            final(self).remote_addr == old(self).remote_addr,
            final(self).pending_queries_count == old(self).pending_queries_count,
            final(self).last_probe_ts == old(self).last_probe_ts,
            final(self).rtt_est_ms == old(self).rtt_est_ms,
            went_offline == (!old(self).offline && final(self).offline),
            *final(self) == failed_server(*old(self), max_failures),
    {
        if self.failures < u32::MAX {
            self.failures = self.failures + 1;
        }
        let was_offline = self.offline;
        if self.failures >= max_failures {
            self.offline = true;
        }
        !was_offline && self.offline
    }

    /// Records a successful answer observed after `rtt_ms`: the failure
    /// streak resets, the server is live again, and the RTT average absorbs
    /// the sample.
    pub fn record_success(&mut self, rtt_ms: u64)
        ensures
            final(self).failures == 0,
            !final(self).offline,
            final(self).rtt_est_ms == spec_ewma(old(self).rtt_est_ms, rtt_ms),
            final(self).remote_addr == old(self).remote_addr,
            final(self).pending_queries_count == old(self).pending_queries_count,
            final(self).last_probe_ts == old(self).last_probe_ts,
            *final(self) == succeeded_server(*old(self), rtt_ms),
    {
        self.failures = 0;
        self.offline = false;
        if self.rtt_est_ms == 0 {
            self.rtt_est_ms = rtt_ms;
        } else {
            let wide: u128 = (self.rtt_est_ms as u128) * 7 + (rtt_ms as u128);
            let avg: u128 = wide / 8;
            proof {
                assert(avg <= u64::MAX) by {
                    let m: int = if self.rtt_est_ms >= rtt_ms {
                        self.rtt_est_ms as int
                    } else {
                        rtt_ms as int
                    };
                    assert(wide <= 8 * m);
                    assert(wide / 8 <= (8 * m) / 8) by (nonlinear_arith)
                        requires
                            wide <= 8 * m,
                            0 <= wide,
                    ;
                    assert((8 * m) / 8 == m) by (nonlinear_arith);
                };
            }
            self.rtt_est_ms = avg as u64;
        }
    }

    /// The timeout armed for an attempt on this server.
    pub fn timeout_ms_est(&self) -> (r: u64)
        ensures
            r == spec_timeout_ms_est(*self),
            r <= UPSTREAM_QUERY_MAX_TIMEOUT_MS,
    {
        if self.rtt_est_ms == 0 || self.rtt_est_ms >= UPSTREAM_QUERY_MAX_TIMEOUT_MS / 2 {
            UPSTREAM_QUERY_MAX_TIMEOUT_MS
        } else {
            let base = 2 * self.rtt_est_ms + 100;
            if base < UPSTREAM_QUERY_MAX_TIMEOUT_MS {
                base
            } else {
                UPSTREAM_QUERY_MAX_TIMEOUT_MS
            }
        }
    }
}

/// Indices of the servers currently live, in ascending order.
pub open spec fn live_indices(s: Seq<UpstreamServer>) -> Seq<usize>
    decreases s.len(),
{
    if s.len() == 0 {
        Seq::empty()
    } else if s.last().offline {
        live_indices(s.drop_last())
    } else {
        live_indices(s.drop_last()).push((s.len() - 1) as usize)
    }
}

/// The live snapshot holds exactly the indices of the servers not offline,
/// in strictly ascending order.
pub proof fn lemma_live_indices_props(s: Seq<UpstreamServer>)
    requires
        s.len() <= usize::MAX,
    ensures
        forall|k: int|
            0 <= k < live_indices(s).len() ==> #[trigger] live_indices(s)[k] < s.len()
                && !s[live_indices(s)[k] as int].offline,
        forall|i: int| 0 <= i < s.len() && !s[i].offline ==> live_indices(s).contains(i as usize),
        forall|k1: int, k2: int|
            0 <= k1 < k2 < live_indices(s).len() ==> #[trigger] live_indices(s)[k1]
                < #[trigger] live_indices(s)[k2],
    decreases s.len(),
{
    if s.len() > 0 {
        lemma_live_indices_props(s.drop_last());
        let prev = live_indices(s.drop_last());
        let cur = live_indices(s);
        assert forall|i: int| 0 <= i < s.len() && !s[i].offline implies cur.contains(
            i as usize,
        ) by {
            if i < s.len() - 1 {
                assert(s.drop_last()[i] == s[i]);
                assert(prev.contains(i as usize));
                let k = choose|k: int| 0 <= k < prev.len() && prev[k] == i as usize;
                assert(cur[k] == i as usize);
            } else {
                assert(!s.last().offline);
                assert(cur[cur.len() - 1] == i as usize);
            }
        }
    }
}

/// There are no more live indices than servers.
pub proof fn lemma_live_indices_len(s: Seq<UpstreamServer>)
    ensures
        live_indices(s).len() <= s.len(),
    decreases s.len(),
{
    if s.len() > 0 {
        lemma_live_indices_len(s.drop_last());
    }
}

/// The live snapshot depends only on the offline flags: two registries that
/// agree on them agree on the snapshot.
pub proof fn lemma_live_indices_same_offline(s1: Seq<UpstreamServer>, s2: Seq<UpstreamServer>)
    requires
        s1.len() == s2.len(),
        forall|i: int| 0 <= i < s1.len() ==> (#[trigger] s1[i]).offline == (#[trigger] s2[i]).offline,
    ensures
        live_indices(s1) == live_indices(s2),
    decreases s1.len(),
{
    if s1.len() > 0 {
        assert(forall|i: int|
            0 <= i < s1.drop_last().len() ==> (#[trigger] s1.drop_last()[i]).offline == (
            #[trigger] s2.drop_last()[i]).offline);
        lemma_live_indices_same_offline(s1.drop_last(), s2.drop_last());
    }
}

/// The server after one more recorded failure, under threshold
/// `max_failures`.
pub open spec fn failed_server(s: UpstreamServer, max_failures: u32) -> UpstreamServer {
    UpstreamServer {
        failures: sat_inc_u32(s.failures),
        offline: s.offline || sat_inc_u32(s.failures) >= max_failures,
        ..s
    }
}

/// The server after a success observed with round trip `rtt_ms`.
pub open spec fn succeeded_server(s: UpstreamServer, rtt_ms: u64) -> UpstreamServer {
    UpstreamServer {
        failures: 0,
        offline: false,
        rtt_est_ms: spec_ewma(s.rtt_est_ms, rtt_ms),
        ..s
    }
}

/// Returns the indices of the live servers.
pub fn snapshot_live(servers: &Vec<UpstreamServer>) -> (r: Vec<usize>)
    ensures
        r@ == live_indices(servers@),
{
    let mut out: Vec<usize> = Vec::new();
    let mut i: usize = 0;
    while i < servers.len()
        invariant
            i <= servers@.len(),
            out@ == live_indices(servers@.take(i as int)),
        decreases servers@.len() - i,
    {
        proof {
            assert(servers@.take(i + 1 as int).drop_last() == servers@.take(i as int));
            assert(servers@.take(i + 1 as int).last() == servers@[i as int]);
        }
        if !servers[i].offline {
            out.push(i);
        }
        i = i + 1;
    }
    proof {
        assert(servers@.take(servers@.len() as int) == servers@);
    }
    out
}

/// First configured server with the given address.
pub fn find_by_addr(servers: &Vec<UpstreamServer>, addr: u64) -> (r: Option<usize>)
    ensures
        match r {
            Some(i) => i < servers@.len() && servers@[i as int].remote_addr == addr,
            None => forall|j: int| 0 <= j < servers@.len() ==> servers@[j].remote_addr != addr,
        },
{
    let mut i: usize = 0;
    while i < servers.len()
        invariant
            i <= servers@.len(),
            forall|j: int| 0 <= j < i ==> servers@[j].remote_addr != addr,
        decreases servers@.len() - i,
    {
        if servers[i].remote_addr == addr {
            return Some(i);
        }
        i = i + 1;
    }
    None
}

} // verus!
