//! The client queries handler: the decision core that coalesces incoming
//! queries, dispatches attempts to upstream servers, retries once on a
//! timeout, and degrades to stale or SERVFAIL answers when upstreams fail.
//!
//! Every entry point is a pure decision step: it takes the current time and
//! an event, mutates the handler state, and returns the outward actions
//! (sends and responses) for the runtime to perform.

use vstd::prelude::*;
use crate::cache::Cache;
use crate::client_query::{ClientQuery, UpstreamServerForQuery};
use crate::config::{Config, UPSTREAM_QUERY_MAX_TIMEOUT_MS, UPSTREAM_PROBES_DELAY_MS};
use crate::dns::{
    build_query_packet,
    build_servfail_packet,
    spec_query_packet,
    spec_servfail_packet,
    NormalizedQuestion,
};
use crate::ext::{now_millis, random_below, random_tid};
use crate::pending::{
    attached_entry,
    count_targeting,
    entry_clients,
    keys_unique,
    lemma_seq_sum_ge_len,
    lemma_seq_sum_le_len,
    lemma_seq_sum_nonneg,
    lemma_seq_sum_push,
    lemma_seq_sum_remove,
    lemma_seq_sum_update,
    waiting_total,
    PendingKeyView,
    PendingQueries,
    PendingQuery,
    PendingQueryKey,
};
use crate::upstream::{
    live_indices,
    lemma_live_indices_props,
    probe_allowed,
    snapshot_live,
    stamp_probe,
    UpstreamServer,
};
use crate::varz::{sat_inc_u64, Varz};

verus! {

/// How a response handed to a client was obtained.
#[derive(Clone, Copy, PartialEq, Eq, Structural, Debug)]
pub enum ResponseKind {
    /// An upstream answer, relayed as received.
    Fresh,
    /// A cached packet served although upstreams failed.
    Stale,
    /// A synthesized SERVFAIL.
    Servfail,
}

/// An outward effect decided by the core, for the runtime to perform.
pub enum Action {
    /// Send `packet` to the upstream at `addr` over outbound socket
    /// `socket_idx`, and arm a timer of `timeout_ms` racing the completion
    /// signal.
    SendUpstream { socket_idx: usize, addr: u64, packet: Vec<u8>, timeout_ms: u64 },
    /// Send `packet` to the offline upstream at `addr` over outbound socket
    /// `socket_idx`, as a recovery probe.
    SendProbe { socket_idx: usize, addr: u64, packet: Vec<u8> },
    /// Deliver `packet` to the client behind the reply handle `client_id`.
    Respond { client_id: u64, packet: Vec<u8>, kind: ResponseKind },
    /// Fire the completion signal of the entry, releasing any timer still
    /// racing it.
    FireDone,
}

/// The decision core. All shared state of the resolver's event loop lives
/// here: the upstream registry, the pending table, the waiting-clients
/// counter, the cache handle and the metrics.
pub struct ClientQueriesHandler {
    pub config: Config,
    /// The configured upstream servers; addresses are unique.
    pub servers: Vec<UpstreamServer>,
    pub pending_queries: PendingQueries,
    /// Total clients waiting across all pending entries.
    pub waiting_clients_count: usize,
    /// Seeds of the jump hasher used by the Uniform policy.
    pub jump_k1: u64,
    pub jump_k2: u64,
    /// Local ports of the outbound sockets, for response matching.
    pub socket_ports: Vec<u16>,
    pub cache: Cache,
    pub varz: Varz,
}

/// The fingerprint under which a query is coalesced.
pub open spec fn fingerprint_of(q: NormalizedQuestion) -> PendingKeyView {
    PendingKeyView {
        question: q.key_view(),
        custom_hash: crate::dns::CustomHash { h0: 0, h1: 0 },
    }
}

/// The key under which a client's answer is cached.
pub open spec fn cache_key_of(c: ClientQuery) -> PendingKeyView {
    PendingKeyView { question: c.normalized_question.key_view(), custom_hash: c.custom_hash }
}

/// One entry is internally consistent: it has at least one waiting client,
/// each well-formed, its target exists, and at most the primary attempt and
/// one retry were sent.
pub open spec fn entry_wf(e: (PendingQueryKey, PendingQuery), n_servers: int) -> bool {
    &&& e.1.client_queries@.len() >= 1
    &&& e.1.upstream_server_idx < n_servers
    &&& 1 <= e.1.attempts <= 2
    &&& forall|c: int|
        0 <= c < e.1.client_queries@.len() ==> (#[trigger] e.1.client_queries@[c]).wf()
}

impl ClientQueriesHandler {
    /// The sum of the clients attached to the pending entries always equals
    /// the waiting-clients counter.
    pub open spec fn waiting_count_consistent(&self) -> bool {
        waiting_total(self.pending_queries.entries@) == self.waiting_clients_count as int
    }

    /// No two pending entries share a fingerprint.
    pub open spec fn fingerprints_unique(&self) -> bool {
        keys_unique(self.pending_queries.entries@)
    }

    /// Each server's pending count equals the number of pending entries
    /// whose current attempt targets it.
    pub open spec fn pending_counts_consistent(&self) -> bool {
        forall|s: int|
            0 <= s < self.servers@.len() ==> (#[trigger] self.servers@[s]).pending_queries_count
                as int == count_targeting(self.pending_queries.entries@, s)
    }

    /// Well-formedness of the whole core.
    pub open spec fn wf(&self) -> bool {
        &&& self.config.wf()
        &&& self.waiting_count_consistent()
        &&& self.fingerprints_unique()
        &&& self.pending_counts_consistent()
        &&& self.waiting_clients_count <= self.config.max_waiting_clients
        &&& forall|i: int|
            0 <= i < self.pending_queries.entries@.len() ==> entry_wf(
                #[trigger] self.pending_queries.entries@[i],
                self.servers@.len() as int,
            )
        &&& self.varz.inflight_queries as int == self.pending_queries.entries@.len()
        &&& self.socket_ports@.len() >= 1
        &&& self.servers@.len() <= u32::MAX
        &&& forall|i: int, j: int|
            0 <= i < j < self.servers@.len() ==> (#[trigger] self.servers@[i]).remote_addr != (
            #[trigger] self.servers@[j]).remote_addr
    }

    /// Everything not owned by the pending machinery is unchanged.
    pub open spec fn statics_unchanged(&self, post: Self) -> bool {
        &&& post.config == self.config
        &&& post.jump_k1 == self.jump_k1
        &&& post.jump_k2 == self.jump_k2
        &&& post.socket_ports == self.socket_ports
        &&& post.cache == self.cache
    }

    pub fn new(
        config: Config,
        servers: Vec<UpstreamServer>,
        socket_ports: Vec<u16>,
        jump_k1: u64,
        jump_k2: u64,
        cache: Cache,
    ) -> (h: ClientQueriesHandler)
        requires
            config.wf(),
            socket_ports@.len() >= 1,
            servers@.len() <= u32::MAX,
            forall|i: int| 0 <= i < servers@.len() ==> (#[trigger] servers@[i]).pending_queries_count
                == 0,
            forall|i: int, j: int|
                0 <= i < j < servers@.len() ==> (#[trigger] servers@[i]).remote_addr != (
                #[trigger] servers@[j]).remote_addr,
        ensures
            h.wf(),
            h.config == config,
            h.servers == servers,
            h.pending_queries.entries@.len() == 0,
            h.waiting_clients_count == 0,
            h.jump_k1 == jump_k1,
            h.jump_k2 == jump_k2,
            h.socket_ports == socket_ports,
            h.cache == cache,
            h.varz == (Varz {
                inflight_queries: 0,
                client_queries_offline: 0,
                upstream_sent: 0,
                upstream_timeout: 0,
            }),
    {
        let h = ClientQueriesHandler {
            config,
            servers,
            pending_queries: PendingQueries::new(),
            waiting_clients_count: 0,
            jump_k1,
            jump_k2,
            socket_ports,
            cache,
            varz: Varz::new(),
        };
        proof {
            assert(h.pending_queries.entries@.len() == 0);
            assert(waiting_total(h.pending_queries.entries@) == 0);
            assert(forall|s: int|
                0 <= s < h.servers@.len() ==> count_targeting(h.pending_queries.entries@, s) == 0);
        }
        h
    }

    /// Admission control: above the waiting-clients threshold, the oldest
    /// pending entry is dropped, its clients abandoned, and the counters and
    /// its target's pending count adjusted. Returns whether an entry was
    /// evicted.
    pub fn cap_pending_queries(&mut self) -> (evicted: bool)
        requires
            old(self).wf(),
        ensures
            final(self).wf(),
            old(self).statics_unchanged(*final(self)),
            evicted == (old(self).waiting_clients_count >= old(self).config.max_waiting_clients
                && old(self).pending_queries.entries@.len() > 0),
            !evicted ==> *final(self) == *old(self),
            evicted ==> {
                let e0 = old(self).pending_queries.entries@[0];
                &&& final(self).pending_queries.entries@ == old(self).pending_queries.entries@.remove(0)
                &&& final(self).waiting_clients_count == old(self).waiting_clients_count
                    - entry_clients(e0)
                &&& final(self).waiting_clients_count < old(self).config.max_waiting_clients
                &&& final(self).servers@ == old(self).servers@.update(
                    e0.1.upstream_server_idx as int,
                    dec_pending(old(self).servers@[e0.1.upstream_server_idx as int]),
                )
                &&& final(self).varz == (Varz {
                    inflight_queries: (old(self).varz.inflight_queries - 1) as u64,
                    ..old(self).varz
                })
            },
            // Whether or not an eviction happened, afterwards there is room
            // for one more waiting client.
            final(self).waiting_clients_count < final(self).config.max_waiting_clients,
    {
        let ghost pre = *self;
        if self.waiting_clients_count < self.config.max_waiting_clients {
            proof {
                lemma_seq_sum_nonneg(
                    self.pending_queries.entries@,
                    |e: (PendingQueryKey, PendingQuery)| entry_clients(e),
                );
            }
            return false;
        }
        proof {
            // The counter is at the (nonzero) threshold, so the table cannot
            // be empty.
            if pre.pending_queries.entries@.len() == 0 {
                assert(waiting_total(pre.pending_queries.entries@) == 0);
                assert(pre.waiting_clients_count == 0);
                assert(false);
            }
        }
        let removed = self.pending_queries.evict_one();
        match removed {
            None => {
                proof {
                    assert(false);
                }
                false
            },
            Some(pq) => {
                let ghost entries0 = pre.pending_queries.entries@;
                proof {
                    lemma_seq_sum_remove(
                        entries0,
                        |e: (PendingQueryKey, PendingQuery)| entry_clients(e),
                        0,
                    );
                    lemma_seq_sum_nonneg(
                        entries0.remove(0),
                        |e: (PendingQueryKey, PendingQuery)| entry_clients(e),
                    );
                    assert(entry_wf(entries0[0], pre.servers@.len() as int));
                }
                let clients_count = pq.client_queries.len();
                self.waiting_clients_count = self.waiting_clients_count - clients_count;
                self.varz.inflight_queries = self.varz.inflight_queries - 1;
                let idx = pq.upstream_server_idx;
                proof {
                    // The evicted entry targets `idx`, so that count is
                    // positive.
                    lemma_seq_sum_remove(
                        entries0,
                        |e: (PendingQueryKey, PendingQuery)|
                            if e.1.upstream_server_idx == idx as int {
                                1int
                            } else {
                                0int
                            },
                        0,
                    );
                    lemma_seq_sum_nonneg(
                        entries0.remove(0),
                        |e: (PendingQueryKey, PendingQuery)|
                            if e.1.upstream_server_idx == idx as int {
                                1int
                            } else {
                                0int
                            },
                    );
                    assert(pre.servers@[idx as int].pending_queries_count >= 1);
                }
                let prev = self.servers[idx];
                self.servers[idx] = dec_pending_exec(prev);
                proof {
                    assert(self.servers@ == pre.servers@.update(
                        idx as int,
                        dec_pending(pre.servers@[idx as int]),
                    ));
                    assert forall|s: int| 0 <= s < self.servers@.len() implies (
                    #[trigger] self.servers@[s]).pending_queries_count as int == count_targeting(
                        self.pending_queries.entries@,
                        s,
                    ) by {
                        lemma_seq_sum_remove(
                            entries0,
                            |e: (PendingQueryKey, PendingQuery)|
                                if e.1.upstream_server_idx == s {
                                    1int
                                } else {
                                    0int
                                },
                            0,
                        );
                    }
                }
                true
            },
        }
    }
}

/// Whether the cache holds a packet for this client's question.
pub open spec fn cache_hit(cache: Cache, c: ClientQuery) -> bool {
    cache.contains_key(cache_key_of(c))
}

/// The one response a degraded client receives: the cached packet when one
/// exists, stale or not, and a synthesized SERVFAIL otherwise.
pub open spec fn stale_action_ok(cache: Cache, c: ClientQuery, a: Action) -> bool {
    if cache_hit(cache, c) {
        a matches Action::Respond { client_id, packet, kind } && client_id == c.client_id
            && packet@ == cache.packet_for(cache_key_of(c)) && kind == ResponseKind::Stale
    } else {
        a matches Action::Respond { client_id, packet, kind } && client_id == c.client_id
            && packet@ == spec_servfail_packet(c.normalized_question) && kind
            == ResponseKind::Servfail
    }
}

/// The offline-served counter after degrading these clients in order: one
/// saturating increment per cache hit.
pub open spec fn sat_add_hits(x: u64, cache: Cache, clients: Seq<ClientQuery>) -> u64
    decreases clients.len(),
{
    if clients.len() == 0 {
        x
    } else {
        let y = sat_add_hits(x, cache, clients.drop_last());
        if cache_hit(cache, clients.last()) {
            sat_inc_u64(y)
        } else {
            y
        }
    }
}

/// Server `j` is a candidate of this query and currently offline.
pub open spec fn is_offline_candidate(
    servers: Seq<UpstreamServer>,
    candidates: Seq<UpstreamServerForQuery>,
    j: int,
) -> bool {
    &&& 0 <= j < servers.len()
    &&& servers[j].offline
    &&& exists|c: int|
        0 <= c < candidates.len() && candidates[c].socket_addr == servers[j].remote_addr
}

/// No candidate of this query is offline.
pub open spec fn no_offline_candidate(
    servers: Seq<UpstreamServer>,
    candidates: Seq<UpstreamServerForQuery>,
) -> bool {
    forall|j: int| !is_offline_candidate(servers, candidates, j)
}

impl ClientQueriesHandler {
    /// Appends a coalesced client to the pending entry with this
    /// fingerprint, if one exists, counting it as waiting.
    pub fn maybe_add_to_existing_pending_query(
        &mut self,
        pending_query_key: &PendingQueryKey,
        client_query: ClientQuery,
    ) -> (attached: bool)
        requires
            old(self).wf(),
            client_query.wf(),
            old(self).waiting_clients_count < old(self).config.max_waiting_clients,
        ensures
            final(self).wf(),
            old(self).statics_unchanged(*final(self)),
            final(self).servers == old(self).servers,
            final(self).varz == old(self).varz,
            attached == old(self).pending_queries.contains_key(pending_query_key@),
            !attached ==> *final(self) == *old(self),
            attached ==> final(self).waiting_clients_count == old(self).waiting_clients_count + 1
                && exists|i: int|
                0 <= i < old(self).pending_queries.entries@.len() && old(self).pending_queries.entries@[i].0@ == pending_query_key@ && final(self).pending_queries.entries@.len() == old(self).pending_queries.entries@.len() && (
                forall|j: int|
                    0 <= j < old(self).pending_queries.entries@.len() && j != i ==> final(self).pending_queries.entries@[j] == old(self).pending_queries.entries@[j])
                    && #[trigger] attached_entry(
                    old(self).pending_queries.entries@[i],
                    final(self).pending_queries.entries@[i],
                    client_query,
                ),
    {
        let ghost pre = *self;
        let attached = self.pending_queries.try_attach(pending_query_key, client_query);
        if attached {
            self.waiting_clients_count = self.waiting_clients_count + 1;
            proof {
                let i = choose|i: int|
                    0 <= i < pre.pending_queries.entries@.len()
                        && pre.pending_queries.entries@[i].0@ == pending_query_key@ && (forall|
                        j: int,
                    |
                        0 <= j < pre.pending_queries.entries@.len() && j != i ==> self
                            .pending_queries.entries@[j] == pre.pending_queries.entries@[j])
                        && attached_entry(
                        pre.pending_queries.entries@[i],
                        self.pending_queries.entries@[i],
                        client_query,
                    );
                assert(self.pending_queries.entries@ =~= pre.pending_queries.entries@.update(
                    i,
                    self.pending_queries.entries@[i],
                ));
                lemma_seq_sum_update(
                    pre.pending_queries.entries@,
                    |e: (PendingQueryKey, PendingQuery)| entry_clients(e),
                    i,
                    self.pending_queries.entries@[i],
                );
                assert forall|s: int| 0 <= s < self.servers@.len() implies (
                #[trigger] self.servers@[s]).pending_queries_count as int == count_targeting(
                    self.pending_queries.entries@,
                    s,
                ) by {
                    lemma_seq_sum_update(
                        pre.pending_queries.entries@,
                        |e: (PendingQueryKey, PendingQuery)|
                            if e.1.upstream_server_idx == s {
                                1int
                            } else {
                                0int
                            },
                        i,
                        self.pending_queries.entries@[i],
                    );
                }
            }
        }
        attached
    }

    /// Answers one client from the degraded path: from the cache when a
    /// packet exists under its key, even expired, otherwise with a
    /// synthesized SERVFAIL.
    pub fn maybe_respond_with_stale_entry(&mut self, client_query: &ClientQuery) -> (a: Action)
        requires
            client_query.wf(),
        ensures
            stale_action_ok(old(self).cache, *client_query, a),
            final(self).varz.client_queries_offline == if cache_hit(
                old(self).cache,
                *client_query,
            ) {
                sat_inc_u64(old(self).varz.client_queries_offline)
            } else {
                old(self).varz.client_queries_offline
            },
            *final(self) == (ClientQueriesHandler {
                varz: Varz {
                    client_queries_offline: final(self).varz.client_queries_offline,
                    ..old(self).varz
                },
                ..*old(self)
            }),
    {
        let key = PendingQueryKey {
            normalized_question_key: client_query.normalized_question.key(),
            custom_hash: client_query.custom_hash,
        };
        let cached = self.cache.get(&key);
        match cached {
            Some(packet) => {
                let response = packet.clone();
                if self.varz.client_queries_offline < u64::MAX {
                    self.varz.client_queries_offline = self.varz.client_queries_offline + 1;
                }
                Action::Respond {
                    client_id: client_query.client_id,
                    packet: response,
                    kind: ResponseKind::Stale,
                }
            },
            None => {
                let packet = build_servfail_packet(&client_query.normalized_question);
                Action::Respond {
                    client_id: client_query.client_id,
                    packet,
                    kind: ResponseKind::Servfail,
                }
            },
        }
    }

    /// Answers every client attached to a pending entry from the degraded
    /// path.
    pub fn maybe_respond_to_all_clients_with_stale_entry(
        &mut self,
        pending_query: &PendingQuery,
    ) -> (acts: Vec<Action>)
        requires
            forall|c: int|
                0 <= c < pending_query.client_queries@.len() ==> (
                #[trigger] pending_query.client_queries@[c]).wf(),
        ensures
            acts@.len() == pending_query.client_queries@.len(),
            forall|i: int|
                0 <= i < acts@.len() ==> stale_action_ok(
                    old(self).cache,
                    pending_query.client_queries@[i],
                    #[trigger] acts@[i],
                ),
            final(self).varz.client_queries_offline == sat_add_hits(
                old(self).varz.client_queries_offline,
                old(self).cache,
                pending_query.client_queries@,
            ),
            *final(self) == (ClientQueriesHandler {
                varz: Varz {
                    client_queries_offline: final(self).varz.client_queries_offline,
                    ..old(self).varz
                },
                ..*old(self)
            }),
    {
        let ghost pre = *self;
        let mut acts: Vec<Action> = Vec::new();
        let mut i: usize = 0;
        while i < pending_query.client_queries.len()
            invariant
                i <= pending_query.client_queries@.len(),
                acts@.len() == i,
                forall|c: int|
                    0 <= c < pending_query.client_queries@.len() ==> (
                    #[trigger] pending_query.client_queries@[c]).wf(),
                forall|j: int|
                    0 <= j < i ==> stale_action_ok(
                        pre.cache,
                        pending_query.client_queries@[j],
                        #[trigger] acts@[j],
                    ),
                self.varz.client_queries_offline == sat_add_hits(
                    pre.varz.client_queries_offline,
                    pre.cache,
                    pending_query.client_queries@.take(i as int),
                ),
                *self == (ClientQueriesHandler {
                    varz: Varz {
                        client_queries_offline: self.varz.client_queries_offline,
                        ..pre.varz
                    },
                    ..pre
                }),
            decreases pending_query.client_queries@.len() - i,
        {
            let a = self.maybe_respond_with_stale_entry(&pending_query.client_queries[i]);
            acts.push(a);
            proof {
                let taken = pending_query.client_queries@.take(i + 1 as int);
                assert(taken.drop_last() =~= pending_query.client_queries@.take(i as int));
                assert(taken.last() == pending_query.client_queries@[i as int]);
            }
            i = i + 1;
        }
        proof {
            assert(pending_query.client_queries@.take(
                pending_query.client_queries@.len() as int,
            ) =~= pending_query.client_queries@);
        }
        acts
    }

    /// When the query's candidate set names offline servers, picks one at
    /// random and — unless a probe went out less than
    /// `UPSTREAM_PROBES_DELAY_MS` ago — stamps it probed and reports its
    /// address for a side-channel probe send.
    pub fn maybe_send_probe_to_offline_servers(
        &mut self,
        upstream_servers_for_query: &Vec<UpstreamServerForQuery>,
        now_ms: u64,
    ) -> (r: Option<u64>)
        requires
            old(self).wf(),
        ensures
            final(self).wf(),
            old(self).statics_unchanged(*final(self)),
            final(self).pending_queries.entries@ == old(self).pending_queries.entries@,
            final(self).waiting_clients_count == old(self).waiting_clients_count,
            final(self).varz == old(self).varz,
            match r {
                None => final(self).servers == old(self).servers && (no_offline_candidate(
                    old(self).servers@,
                    upstream_servers_for_query@,
                ) || exists|j: int|
                    is_offline_candidate(old(self).servers@, upstream_servers_for_query@, j)
                        && !probe_allowed(old(self).servers@[j], now_ms)),
                Some(addr) => exists|j: int|
                    is_offline_candidate(old(self).servers@, upstream_servers_for_query@, j)
                        && addr == old(self).servers@[j].remote_addr && probe_allowed(
                        old(self).servers@[j],
                        now_ms,
                    ) && final(self).servers@ == old(self).servers@.update(
                        j,
                        stamp_probe(old(self).servers@[j], now_ms),
                    ),
            },
    {
        let ghost pre = *self;
        let mut offline: Vec<usize> = Vec::new();
        let mut c: usize = 0;
        while c < upstream_servers_for_query.len()
            invariant
                c <= upstream_servers_for_query@.len(),
                pre.wf(),
                *self == pre,
                forall|k: int|
                    0 <= k < offline@.len() ==> is_offline_candidate(
                        pre.servers@,
                        upstream_servers_for_query@,
                        #[trigger] offline@[k] as int,
                    ),
                forall|j: int, cc: int|
                    0 <= j < pre.servers@.len() && 0 <= cc < c && (
                    #[trigger] pre.servers@[j]).offline
                        && #[trigger] upstream_servers_for_query@[cc].socket_addr
                        == pre.servers@[j].remote_addr ==> offline@.contains(j as usize),
            decreases upstream_servers_for_query@.len() - c,
        {
            let ghost pre_offline = offline@;
            let addr = upstream_servers_for_query[c].socket_addr;
            let found = crate::upstream::find_by_addr(&self.servers, addr);
            match found {
                Some(i) => {
                    if self.servers[i].offline {
                        offline.push(i);
                        proof {
                            assert(offline@.last() == i);
                        }
                    }
                },
                None => {},
            }
            proof {
                assert forall|v: usize| pre_offline.contains(v) implies offline@.contains(v) by {
                    let k = choose|k: int| 0 <= k < pre_offline.len() && pre_offline[k] == v;
                    assert(offline@[k] == v);
                }
                assert forall|j: int, cc: int|
                    0 <= j < pre.servers@.len() && 0 <= cc < c + 1 && (
                    #[trigger] pre.servers@[j]).offline
                        && #[trigger] upstream_servers_for_query@[cc].socket_addr
                        == pre.servers@[j].remote_addr implies offline@.contains(j as usize) by {
                    if cc < c {
                        assert(pre_offline.contains(j as usize));
                        assert(offline@.contains(j as usize));
                    } else {
                        match found {
                            Some(i) => {
                                assert(pre.servers@[i as int].remote_addr == addr);
                                assert(j == i as int);
                                assert(offline@.last() == i);
                            },
                            None => {
                                assert(pre.servers@[j].remote_addr != addr);
                            },
                        }
                    }
                }
            }
            c = c + 1;
        }
        if offline.len() == 0 {
            proof {
                assert forall|j: int|
                    !is_offline_candidate(
                        pre.servers@,
                        upstream_servers_for_query@,
                        j,
                    ) by {
                    if is_offline_candidate(pre.servers@, upstream_servers_for_query@, j) {
                        let cc = choose|cc: int|
                            0 <= cc < upstream_servers_for_query@.len()
                                && upstream_servers_for_query@[cc].socket_addr
                                == pre.servers@[j].remote_addr;
                        assert(offline@.contains(j as usize));
                    }
                }
            }
            return None;
        }
        let pick = random_below(offline.len());
        let j = offline[pick];
        let server = self.servers[j];
        let allowed = match server.last_probe_ts {
            None => true,
            Some(t) => now_ms >= UPSTREAM_PROBES_DELAY_MS && t <= now_ms
                - UPSTREAM_PROBES_DELAY_MS,
        };
        if !allowed {
            proof {
                assert(!probe_allowed(pre.servers@[j as int], now_ms));
            }
            return None;
        }
        self.servers[j] = UpstreamServer { last_probe_ts: Some(now_ms), ..server };
        proof {
            assert(self.servers@ == pre.servers@.update(
                j as int,
                stamp_probe(pre.servers@[j as int], now_ms),
            ));
            assert(probe_allowed(pre.servers@[j as int], now_ms));
        }
        Some(server.remote_addr)
    }
}

/// Outcome of an incoming query when no upstream is live: exactly one
/// degraded response, no pending entry created, nothing else changed.
pub open spec fn all_down_outcome(
    pre: ClientQueriesHandler,
    post: ClientQueriesHandler,
    cq: ClientQuery,
    acts: Seq<Action>,
) -> bool {
    &&& acts.len() == 1
    &&& stale_action_ok(pre.cache, cq, acts[0])
    &&& post == (ClientQueriesHandler {
        varz: Varz { client_queries_offline: post.varz.client_queries_offline, ..pre.varz },
        ..pre
    })
    &&& post.varz.client_queries_offline == if cache_hit(pre.cache, cq) {
        sat_inc_u64(pre.varz.client_queries_offline)
    } else {
        pre.varz.client_queries_offline
    }
}

/// The admission-control step: above the threshold the oldest entry is
/// dropped and the counters adjusted; below it nothing happens.
pub open spec fn cap_transition(pre: ClientQueriesHandler, post: ClientQueriesHandler) -> bool {
    if pre.waiting_clients_count >= pre.config.max_waiting_clients
        && pre.pending_queries.entries@.len() > 0 {
        let e0 = pre.pending_queries.entries@[0];
        &&& post.pending_queries.entries@ == pre.pending_queries.entries@.remove(0)
        &&& post.waiting_clients_count == pre.waiting_clients_count - entry_clients(e0)
        &&& post.servers@ == pre.servers@.update(
            e0.1.upstream_server_idx as int,
            dec_pending(pre.servers@[e0.1.upstream_server_idx as int]),
        )
        &&& post.varz == (Varz {
            inflight_queries: (pre.varz.inflight_queries - 1) as u64,
            ..pre.varz
        })
        &&& pre.statics_unchanged(post)
    } else {
        post == pre
    }
}

/// Outcome of an incoming query whose fingerprint is already pending: the
/// client is appended to that entry and counted; nothing is sent.
pub open spec fn coalesce_outcome(
    pre: ClientQueriesHandler,
    post: ClientQueriesHandler,
    cq: ClientQuery,
    acts: Seq<Action>,
) -> bool {
    &&& acts.len() == 0
    &&& post.waiting_clients_count == pre.waiting_clients_count + 1
    &&& post.servers == pre.servers
    &&& post.varz == pre.varz
    &&& pre.statics_unchanged(post)
    &&& post.pending_queries.entries@.len() == pre.pending_queries.entries@.len()
    &&& exists|i: int|
        0 <= i < pre.pending_queries.entries@.len() && pre.pending_queries.entries@[i].0@
            == fingerprint_of(cq.normalized_question) && (forall|j: int|
            0 <= j < pre.pending_queries.entries@.len() && j != i
                ==> post.pending_queries.entries@[j] == pre.pending_queries.entries@[j])
            && #[trigger] attached_entry(
            pre.pending_queries.entries@[i],
            post.pending_queries.entries@[i],
            cq,
        )
}

/// The chosen upstream under the configured policy, as pinned by the load
/// balancer's contract.
pub open spec fn is_picked_upstream(
    servers: Seq<UpstreamServer>,
    q: NormalizedQuestion,
    k1: u64,
    k2: u64,
    lbmode: crate::config::LoadBalancingMode,
    is_retry: bool,
    idx: usize,
) -> bool {
    let live = live_indices(servers);
    &&& live.contains(idx)
    &&& lbmode == crate::config::LoadBalancingMode::Fallback ==> idx == live[0]
    &&& lbmode == crate::config::LoadBalancingMode::Uniform ==> idx
        == live[crate::load_balancer::uniform_pos(k1, k2, q.qname@, live.len() as int, is_retry)]
    &&& (lbmode == crate::config::LoadBalancingMode::P2 && live.len() == 1) ==> idx == live[0]
    &&& (lbmode == crate::config::LoadBalancingMode::P2 && live.len() >= 2) ==> exists|
        p1: int,
        p2: int,
    |
        crate::load_balancer::is_first_min(servers, live, p1)
            && crate::load_balancer::is_second_min(servers, live, p1, p2) && idx == live[if crate::load_balancer::p2_choice_bit(
            q.tid,
            is_retry,
        ) == 0 {
            p1
        } else {
            p2
        }]
}

/// Position of the server with this address.
pub open spec fn addr_index(servers: Seq<UpstreamServer>, addr: u64) -> int {
    choose|j: int| 0 <= j < servers.len() && servers[j].remote_addr == addr
}

/// The registry after the probe decision: untouched, or with the probed
/// server stamped at `now_ms`.
pub open spec fn probed_servers(
    servers: Seq<UpstreamServer>,
    probed: Option<u64>,
    now_ms: u64,
) -> Seq<UpstreamServer> {
    match probed {
        None => servers,
        Some(a) => servers.update(
            addr_index(servers, a),
            stamp_probe(servers[addr_index(servers, a)], now_ms),
        ),
    }
}

/// The probe decision is justified: a probe goes to an offline candidate
/// whose last probe is old enough; no probe means there was no offline
/// candidate, or the chosen one was rate-limited.
pub open spec fn probe_decision_ok(
    servers: Seq<UpstreamServer>,
    candidates: Seq<UpstreamServerForQuery>,
    probed: Option<u64>,
    now_ms: u64,
) -> bool {
    match probed {
        None => no_offline_candidate(servers, candidates) || exists|j: int|
            is_offline_candidate(servers, candidates, j) && !probe_allowed(servers[j], now_ms),
        Some(a) => {
            let j = addr_index(servers, a);
            is_offline_candidate(servers, candidates, j) && servers[j].remote_addr == a
                && probe_allowed(servers[j], now_ms)
        },
    }
}

/// An upstream send action with exactly this socket, target, packet and
/// timer.
pub open spec fn send_upstream_ok(
    a: Action,
    sock_i: usize,
    to_addr: u64,
    q: NormalizedQuestion,
    tid: u16,
    timeout: u64,
) -> bool {
    a matches Action::SendUpstream { socket_idx, addr, packet, timeout_ms } && socket_idx == sock_i
        && addr == to_addr && packet@ == spec_query_packet(q.qname@, tid, q.qtype, q.qclass)
        && timeout_ms == timeout
}

/// A probe send action with exactly this socket, target and packet.
pub open spec fn send_probe_ok(
    a: Action,
    sock_i: usize,
    to_addr: u64,
    q: NormalizedQuestion,
    tid: u16,
) -> bool {
    a matches Action::SendProbe { socket_idx, addr, packet } && socket_idx == sock_i && addr
        == to_addr && packet@ == spec_query_packet(q.qname@, tid, q.qtype, q.qclass)
}

/// Outcome of an incoming query with a fresh fingerprint, for the drawn
/// transaction id `tid`, outbound socket `sock_i`, probe decision `probed`
/// and chosen upstream `idx`: a new single-client entry is registered and
/// counted, the target's pending count grows, the packet goes out once, and
/// a timer derived from the target's RTT estimate is armed.
pub open spec fn create_outcome_with(
    pre: ClientQueriesHandler,
    post: ClientQueriesHandler,
    cq: ClientQuery,
    now_ms: u64,
    acts: Seq<Action>,
    tid: u16,
    sock_i: usize,
    probed: Option<u64>,
    idx: usize,
) -> bool {
    let q = cq.normalized_question;
    let sv1 = probed_servers(pre.servers@, probed, now_ms);
    let srv = sv1[idx as int];
    let e = post.pending_queries.entries@.last();
    &&& is_picked_upstream(pre.servers@, q, pre.jump_k1, pre.jump_k2, pre.config.lbmode, false, idx)
    &&& probe_decision_ok(pre.servers@, cq.upstream_servers_for_query@, probed, now_ms)
    &&& sock_i < pre.socket_ports@.len()
    &&& idx < pre.servers@.len()
    &&& post.servers@ == sv1.update(idx as int, inc_pending(srv))
    &&& post.pending_queries.entries@ == pre.pending_queries.entries@.push(e)
    &&& e.0@ == fingerprint_of(q)
    &&& e.1.normalized_question_minimal.qname@ == q.qname@
    &&& e.1.normalized_question_minimal.tid == tid
    &&& e.1.normalized_question_minimal.qtype == q.qtype
    &&& e.1.normalized_question_minimal.qclass == q.qclass
    &&& e.1.local_port == pre.socket_ports@[sock_i as int]
    &&& e.1.client_queries@ == seq![cq]
    &&& e.1.ts == now_ms
    &&& e.1.upstream_server_idx == idx
    &&& e.1.probed_socket_addr == probed
    &&& e.1.attempts == 1
    &&& post.waiting_clients_count == pre.waiting_clients_count + 1
    &&& post.varz == (Varz {
        inflight_queries: (pre.varz.inflight_queries + 1) as u64,
        upstream_sent: sat_inc_u64(pre.varz.upstream_sent),
        ..pre.varz
    })
    &&& pre.statics_unchanged(post)
    &&& match probed {
        None => acts.len() == 1 && send_upstream_ok(
            acts[0],
            sock_i,
            srv.remote_addr,
            q,
            tid,
            crate::upstream::spec_timeout_ms_est(srv),
        ),
        Some(a) => acts.len() == 2 && send_probe_ok(acts[0], sock_i, a, q, tid)
            && send_upstream_ok(
            acts[1],
            sock_i,
            srv.remote_addr,
            q,
            tid,
            crate::upstream::spec_timeout_ms_est(srv),
        ),
    }
}

/// Outcome of an incoming query with a fresh fingerprint, for some drawn
/// transaction id, socket and probe decision.
pub open spec fn create_outcome(
    pre: ClientQueriesHandler,
    post: ClientQueriesHandler,
    cq: ClientQuery,
    now_ms: u64,
    acts: Seq<Action>,
) -> bool {
    exists|tid: u16, sock_i: usize, probed: Option<u64>, idx: usize|
        #[trigger] create_outcome_with(pre, post, cq, now_ms, acts, tid, sock_i, probed, idx)
}

/// Everything an incoming client query can lead to: immediate degradation
/// when all upstreams are down; otherwise admission control, then either
/// coalescing onto the pending entry with the same fingerprint or the
/// registration and dispatch of a new attempt.
pub open spec fn process_outcome(
    pre: ClientQueriesHandler,
    post: ClientQueriesHandler,
    cq: ClientQuery,
    now_ms: u64,
    acts: Seq<Action>,
) -> bool {
    if live_indices(pre.servers@).len() == 0 {
        all_down_outcome(pre, post, cq, acts)
    } else {
        exists|mid: ClientQueriesHandler|
            #[trigger] cap_transition(pre, mid) && if mid.pending_queries.contains_key(
                fingerprint_of(cq.normalized_question),
            ) {
                coalesce_outcome(mid, post, cq, acts)
            } else {
                create_outcome(mid, post, cq, now_ms, acts)
            }
    }
}

impl ClientQueriesHandler {
    /// Handles one incoming client query at time `now_ms`: the main entry
    /// point of the core.
    pub fn process_client_query(&mut self, client_query: ClientQuery, now_ms: u64) -> (acts: Vec<
        Action,
    >)
        requires
            old(self).wf(),
            client_query.wf(),
        ensures
            final(self).wf(),
            process_outcome(*old(self), *final(self), client_query, now_ms, acts@),
    {
        let ghost pre = *self;
        let live0 = snapshot_live(&self.servers);
        proof {
            lemma_live_indices_props(self.servers@);
            crate::upstream::lemma_live_indices_len(self.servers@);
        }
        if live0.len() == 0 {
            let a = self.maybe_respond_with_stale_entry(&client_query);
            let mut acts: Vec<Action> = Vec::new();
            acts.push(a);
            proof {
                assert(all_down_outcome(pre, *self, client_query, acts@));
            }
            return acts;
        }
        let key = PendingQueryKey::new(client_query.normalized_question.key());
        proof {
            assert(key@ == fingerprint_of(client_query.normalized_question));
        }
        self.cap_pending_queries();
        let ghost mid = *self;
        proof {
            assert(cap_transition(pre, mid));
        }
        let existing = self.pending_queries.find(&key);
        if existing.is_some() {
            let attached = self.maybe_add_to_existing_pending_query(&key, client_query);
            proof {
                assert(attached);
                assert(coalesce_outcome(mid, *self, client_query, Seq::<Action>::empty()));
            }
            return Vec::new();
        }
        // Build the attempt: fresh upstream transaction id, wire packet,
        // upstream choice and outbound socket.
        let tid = random_tid();
        let (query_packet, minimal) = build_query_packet(&client_query.normalized_question, tid);
        let ghost live_mid = live_indices(mid.servers@);
        proof {
            crate::upstream::lemma_live_indices_same_offline(pre.servers@, mid.servers@);
            lemma_live_indices_props(mid.servers@);
        }
        let picked = client_query.normalized_question.pick_upstream(
            &self.servers,
            &live0,
            self.jump_k1,
            self.jump_k2,
            false,
            self.config.lbmode,
        );
        let idx = match picked {
            Err(_) => {
                proof {
                    assert(false);
                }
                return Vec::new();
            },
            Ok(idx) => idx,
        };
        proof {
            assert(is_picked_upstream(
                mid.servers@,
                client_query.normalized_question,
                mid.jump_k1,
                mid.jump_k2,
                mid.config.lbmode,
                false,
                idx,
            ));
            assert(idx < mid.servers@.len());
        }
        let sock_i = random_below(self.socket_ports.len());
        let probed = self.maybe_send_probe_to_offline_servers(
            &client_query.upstream_servers_for_query,
            now_ms,
        );
        let ghost sv1 = self.servers@;
        proof {
            if probed is Some {
                let a = probed->Some_0;
                let j = choose|j: int|
                    is_offline_candidate(mid.servers@, client_query.upstream_servers_for_query@, j)
                        && a == mid.servers@[j].remote_addr && probe_allowed(mid.servers@[j], now_ms)
                        && self.servers@ == mid.servers@.update(
                        j,
                        stamp_probe(mid.servers@[j], now_ms),
                    );
                assert(addr_index(mid.servers@, a) == j);
                assert(sv1 == probed_servers(mid.servers@, probed, now_ms));
                assert(probe_decision_ok(
                    mid.servers@,
                    client_query.upstream_servers_for_query@,
                    probed,
                    now_ms,
                ));
            }
        }
        let local_port = self.socket_ports[sock_i];
        let mut pending_query = PendingQuery::new(minimal, idx, local_port, client_query, now_ms);
        if let Some(addr) = probed {
            pending_query.probed_socket_addr = Some(addr);
        }
        proof {
            lemma_seq_sum_ge_len(
                mid.pending_queries.entries@,
                |e: (PendingQueryKey, PendingQuery)| entry_clients(e),
            );
        }
        self.waiting_clients_count = self.waiting_clients_count + 1;
        self.varz.inflight_queries = self.varz.inflight_queries + 1;
        proof {
            lemma_seq_sum_le_len(
                mid.pending_queries.entries@,
                |e: (PendingQueryKey, PendingQuery)|
                    if e.1.upstream_server_idx == idx as int {
                        1int
                    } else {
                        0int
                    },
            );
            assert(sv1[idx as int].pending_queries_count
                == mid.servers@[idx as int].pending_queries_count);
            assert(mid.servers@[idx as int].pending_queries_count < u64::MAX);
        }
        let srv = self.servers[idx];
        let timeout_ms = srv.timeout_ms_est();
        self.servers[idx] = inc_pending_exec(srv);
        let ghost entry = (key, pending_query);
        self.pending_queries.insert(key, pending_query);
        if self.varz.upstream_sent < u64::MAX {
            self.varz.upstream_sent = self.varz.upstream_sent + 1;
        }
        let mut acts: Vec<Action> = Vec::new();
        if let Some(addr) = probed {
            acts.push(
                Action::SendProbe { socket_idx: sock_i, addr, packet: query_packet.clone() },
            );
        }
        acts.push(
            Action::SendUpstream {
                socket_idx: sock_i,
                addr: srv.remote_addr,
                packet: query_packet,
                timeout_ms,
            },
        );
        proof {
            let post = *self;
            let q = entry.1.client_queries@[0].normalized_question;
            lemma_seq_sum_push(
                mid.pending_queries.entries@,
                |e: (PendingQueryKey, PendingQuery)| entry_clients(e),
                post.pending_queries.entries@.last(),
            );
            lemma_seq_sum_ge_len(
                mid.pending_queries.entries@,
                |e: (PendingQueryKey, PendingQuery)| entry_clients(e),
            );
            assert forall|s: int| 0 <= s < post.servers@.len() implies (
            #[trigger] post.servers@[s]).pending_queries_count as int == count_targeting(
                post.pending_queries.entries@,
                s,
            ) by {
                lemma_seq_sum_push(
                    mid.pending_queries.entries@,
                    |e: (PendingQueryKey, PendingQuery)|
                        if e.1.upstream_server_idx == s {
                            1int
                        } else {
                            0int
                        },
                    post.pending_queries.entries@.last(),
                );
                assert(sv1[s].pending_queries_count == mid.servers@[s].pending_queries_count);
            }
            assert(create_outcome_with(
                mid,
                post,
                entry.1.client_queries@[0],
                now_ms,
                acts@,
                tid,
                sock_i,
                probed,
                idx,
            ));
            assert(create_outcome(mid, post, entry.1.client_queries@[0], now_ms, acts@));
        }
        acts
    }

    /// Handles one incoming client query at the current coarse time.
    pub fn ingest_client_query(&mut self, client_query: ClientQuery) -> (acts: Vec<Action>)
        requires
            old(self).wf(),
            client_query.wf(),
        ensures
            final(self).wf(),
            exists|now_ms: u64|
                #[trigger] process_outcome(
                    *old(self),
                    *final(self),
                    client_query,
                    now_ms,
                    acts@,
                ),
    {
        let now_ms = now_millis();
        let acts = self.process_client_query(client_query, now_ms);
        proof {
            assert(process_outcome(*old(self), *self, client_query, now_ms, acts@));
        }
        acts
    }
}

/// The retry dispatch, for the drawn transaction id `tid`, socket `sock_i`
/// and retry target `idx2`: the entry moves to the new attempt, the new
/// target's pending count grows, and one packet goes out under the absolute
/// timeout ceiling.
pub open spec fn retry_send_outcome_with(
    pre: ClientQueriesHandler,
    post: ClientQueriesHandler,
    q: NormalizedQuestion,
    now_ms: u64,
    acts: Seq<Action>,
    tid: u16,
    sock_i: usize,
    idx2: usize,
) -> bool {
    let key = fingerprint_of(q);
    let i = pre.pending_queries.index_of_key(key);
    let e = pre.pending_queries.entries@[i];
    let prev = e.1.upstream_server_idx as int;
    let sv1 = pre.servers@.update(
        prev,
        crate::upstream::failed_server(
            dec_pending(pre.servers@[prev]),
            pre.config.upstream_max_failures,
        ),
    );
    let pe = post.pending_queries.entries@[i];
    &&& is_picked_upstream(sv1, q, pre.jump_k1, pre.jump_k2, pre.config.lbmode, true, idx2)
    &&& sock_i < pre.socket_ports@.len()
    &&& idx2 < sv1.len()
    &&& post.servers@ == sv1.update(idx2 as int, inc_pending(sv1[idx2 as int]))
    &&& post.pending_queries.entries@.len() == pre.pending_queries.entries@.len()
    &&& (forall|j: int|
        0 <= j < pre.pending_queries.entries@.len() && j != i
            ==> post.pending_queries.entries@[j] == pre.pending_queries.entries@[j])
    &&& pe.0 == e.0
    &&& pe.1.normalized_question_minimal.qname@ == q.qname@
    &&& pe.1.normalized_question_minimal.tid == tid
    &&& pe.1.normalized_question_minimal.qtype == q.qtype
    &&& pe.1.normalized_question_minimal.qclass == q.qclass
    &&& pe.1.local_port == pre.socket_ports@[sock_i as int]
    &&& pe.1.client_queries == e.1.client_queries
    &&& pe.1.ts == now_ms
    &&& pe.1.upstream_server_idx == idx2
    &&& pe.1.probed_socket_addr == e.1.probed_socket_addr
    &&& pe.1.attempts == 2
    &&& post.waiting_clients_count == pre.waiting_clients_count
    &&& post.varz == (Varz { upstream_sent: sat_inc_u64(pre.varz.upstream_sent), ..pre.varz })
    &&& pre.statics_unchanged(post)
    &&& acts.len() == 1
    &&& send_upstream_ok(
        acts[0],
        sock_i,
        sv1[idx2 as int].remote_addr,
        q,
        tid,
        UPSTREAM_QUERY_MAX_TIMEOUT_MS,
    )
}

/// The degraded responses handed to every waiting client of an entry,
/// closed by the completion signal.
pub open spec fn degrade_actions_ok(cache: Cache, e: (PendingQueryKey, PendingQuery), acts: Seq<
    Action,
>) -> bool {
    &&& acts.len() == e.1.client_queries@.len() + 1
    &&& (forall|c: int|
        0 <= c < e.1.client_queries@.len() ==> stale_action_ok(
            cache,
            e.1.client_queries@[c],
            #[trigger] acts[c],
        ))
    &&& acts.last() is FireDone
}

/// Everything the first attempt's timeout can lead to. The failure is
/// always charged to the attempt's target; then either a live server
/// remains and one retry goes out, or every waiting client is degraded and
/// the entry dropped. An entry already retried, or already gone, leaves the
/// core untouched.
pub open spec fn retry_outcome(
    pre: ClientQueriesHandler,
    post: ClientQueriesHandler,
    q: NormalizedQuestion,
    now_ms: u64,
    acts: Seq<Action>,
) -> bool {
    let key = fingerprint_of(q);
    if !pre.pending_queries.contains_key(key) {
        post == pre && acts.len() == 0
    } else {
        let i = pre.pending_queries.index_of_key(key);
        let e = pre.pending_queries.entries@[i];
        if e.1.attempts != 1 {
            post == pre && acts.len() == 0
        } else {
            let prev = e.1.upstream_server_idx as int;
            let sv1 = pre.servers@.update(
                prev,
                crate::upstream::failed_server(
                    dec_pending(pre.servers@[prev]),
                    pre.config.upstream_max_failures,
                ),
            );
            if live_indices(sv1).len() == 0 {
                &&& post.pending_queries.entries@ == pre.pending_queries.entries@.remove(i)
                &&& post.waiting_clients_count == pre.waiting_clients_count - entry_clients(e)
                &&& post.servers@ == sv1
                &&& post.varz == (Varz {
                    inflight_queries: (pre.varz.inflight_queries - 1) as u64,
                    client_queries_offline: sat_add_hits(
                        pre.varz.client_queries_offline,
                        pre.cache,
                        e.1.client_queries@,
                    ),
                    ..pre.varz
                })
                &&& pre.statics_unchanged(post)
                &&& degrade_actions_ok(pre.cache, e, acts)
            } else {
                exists|tid: u16, sock_i: usize, idx2: usize|
                    #[trigger] retry_send_outcome_with(
                        pre,
                        post,
                        q,
                        now_ms,
                        acts,
                        tid,
                        sock_i,
                        idx2,
                    )
            }
        }
    }
}

/// Everything the retry's timeout can lead to: the upstream-timeout counter
/// always grows; when the entry still exists, the failure is charged to the
/// retry's target, the entry is dropped, and every waiting client receives a
/// stale or SERVFAIL answer.
pub open spec fn second_timeout_outcome(
    pre: ClientQueriesHandler,
    post: ClientQueriesHandler,
    q: NormalizedQuestion,
    acts: Seq<Action>,
) -> bool {
    let key = fingerprint_of(q);
    if !pre.pending_queries.contains_key(key) {
        &&& post == (ClientQueriesHandler {
            varz: Varz { upstream_timeout: sat_inc_u64(pre.varz.upstream_timeout), ..pre.varz },
            ..pre
        })
        &&& acts.len() == 0
    } else {
        let i = pre.pending_queries.index_of_key(key);
        let e = pre.pending_queries.entries@[i];
        let prev = e.1.upstream_server_idx as int;
        &&& post.pending_queries.entries@ == pre.pending_queries.entries@.remove(i)
        &&& post.servers@ == pre.servers@.update(
            prev,
            crate::upstream::failed_server(
                dec_pending(pre.servers@[prev]),
                pre.config.upstream_max_failures,
            ),
        )
        &&& post.waiting_clients_count == pre.waiting_clients_count - entry_clients(e)
        &&& post.varz == (Varz {
            inflight_queries: (pre.varz.inflight_queries - 1) as u64,
            upstream_timeout: sat_inc_u64(pre.varz.upstream_timeout),
            client_queries_offline: sat_add_hits(
                pre.varz.client_queries_offline,
                pre.cache,
                e.1.client_queries@,
            ),
            ..pre.varz
        })
        &&& pre.statics_unchanged(post)
        &&& degrade_actions_ok(pre.cache, e, acts)
    }
}

/// Everything an upstream answer can lead to: when the entry still exists it
/// is resolved — every waiting client receives that same packet, the
/// target's pending count drops, its health recovers, and the completion
/// signal fires.
pub open spec fn response_outcome(
    pre: ClientQueriesHandler,
    post: ClientQueriesHandler,
    q: NormalizedQuestion,
    packet: Seq<u8>,
    rtt_ms: u64,
    acts: Seq<Action>,
) -> bool {
    let key = fingerprint_of(q);
    if !pre.pending_queries.contains_key(key) {
        post == pre && acts.len() == 0
    } else {
        let i = pre.pending_queries.index_of_key(key);
        let e = pre.pending_queries.entries@[i];
        let tgt = e.1.upstream_server_idx as int;
        &&& post.pending_queries.entries@ == pre.pending_queries.entries@.remove(i)
        &&& post.servers@ == pre.servers@.update(
            tgt,
            crate::upstream::succeeded_server(dec_pending(pre.servers@[tgt]), rtt_ms),
        )
        &&& post.waiting_clients_count == pre.waiting_clients_count - entry_clients(e)
        &&& post.varz == (Varz {
            inflight_queries: (pre.varz.inflight_queries - 1) as u64,
            ..pre.varz
        })
        &&& pre.statics_unchanged(post)
        &&& acts.len() == e.1.client_queries@.len() + 1
        &&& (forall|c: int|
            0 <= c < e.1.client_queries@.len() ==> ((#[trigger] acts[c]) matches Action::Respond {
                client_id,
                packet: p,
                kind,
            } && client_id == e.1.client_queries@[c].client_id && p@ == packet && kind
                == ResponseKind::Fresh))
        &&& acts.last() is FireDone
    }
}

/// At most one retry per pending entry: an entry whose retry was already
/// sent is never retried again — a further first-timeout event leaves the
/// core untouched and sends nothing. Together with `entry_wf`, which bounds
/// every entry's attempts by two, at most two upstream sends occur per
/// query.
pub proof fn lemma_at_most_one_retry(
    pre: ClientQueriesHandler,
    post: ClientQueriesHandler,
    q: NormalizedQuestion,
    now_ms: u64,
    acts: Seq<Action>,
)
    requires
        pre.wf(),
        retry_outcome(pre, post, q, now_ms, acts),
        pre.pending_queries.contains_key(fingerprint_of(q)),
        pre.pending_queries.entries@[pre.pending_queries.index_of_key(
            fingerprint_of(q),
        )].1.attempts == 2,
    ensures
        acts.len() == 0,
        post == pre,
{
}

/// The entry carrying a fingerprint sits at one index only.
proof fn lemma_key_index(t: PendingQueries, k: PendingKeyView, i: int)
    requires
        keys_unique(t.entries@),
        0 <= i < t.entries@.len(),
        t.entries@[i].0@ == k,
    ensures
        t.contains_key(k),
        t.index_of_key(k) == i,
{
    assert(t.contains_key(k));
    let i0 = t.index_of_key(k);
    assert(0 <= i0 < t.entries@.len() && t.entries@[i0].0@ == k);
    if i0 < i {
        assert(t.entries@[i0].0@ != t.entries@[i].0@);
    }
    if i < i0 {
        assert(t.entries@[i].0@ != t.entries@[i0].0@);
    }
}

impl ClientQueriesHandler {
    /// Handles the first attempt's timeout: charges the failure to the
    /// attempt's target, then retries once on a newly chosen upstream under
    /// the absolute timeout ceiling — or, with no live server left,
    /// degrades every waiting client and drops the entry.
    pub fn retry_query(&mut self, normalized_question: &NormalizedQuestion, now_ms: u64) -> (acts:
        Vec<Action>)
        requires
            old(self).wf(),
            normalized_question.wf(),
        ensures
            final(self).wf(),
            retry_outcome(*old(self), *final(self), *normalized_question, now_ms, acts@),
    {
        let ghost pre = *self;
        let key = PendingQueryKey::new(normalized_question.key());
        proof {
            assert(key@ == fingerprint_of(*normalized_question));
        }
        let found = self.pending_queries.find(&key);
        let i = match found {
            None => {
                return Vec::new();
            },
            Some(i) => i,
        };
        proof {
            lemma_key_index(pre.pending_queries, key@, i as int);
        }
        let ghost e = pre.pending_queries.entries@[i as int];
        if self.pending_queries.entries[i].1.attempts != 1 {
            return Vec::new();
        }
        let prev_idx = self.pending_queries.entries[i].1.upstream_server_idx;
        proof {
            assert(entry_wf(e, pre.servers@.len() as int));
            lemma_seq_sum_remove(
                pre.pending_queries.entries@,
                |x: (PendingQueryKey, PendingQuery)|
                    if x.1.upstream_server_idx == prev_idx as int {
                        1int
                    } else {
                        0int
                    },
                i as int,
            );
            lemma_seq_sum_nonneg(
                pre.pending_queries.entries@.remove(i as int),
                |x: (PendingQueryKey, PendingQuery)|
                    if x.1.upstream_server_idx == prev_idx as int {
                        1int
                    } else {
                        0int
                    },
            );
            assert(pre.servers@[prev_idx as int].pending_queries_count >= 1);
        }
        let prev_srv = self.servers[prev_idx];
        let mut charged = dec_pending_exec(prev_srv);
        charged.record_failure(self.config.upstream_max_failures);
        self.servers[prev_idx] = charged;
        let ghost sv1 = self.servers@;
        proof {
            assert(sv1 == pre.servers@.update(
                prev_idx as int,
                crate::upstream::failed_server(
                    dec_pending(pre.servers@[prev_idx as int]),
                    pre.config.upstream_max_failures,
                ),
            ));
            crate::upstream::lemma_live_indices_len(sv1);
            lemma_live_indices_props(sv1);
        }
        let live = snapshot_live(&self.servers);
        if live.len() == 0 {
            // No live upstream remains: degrade all waiting clients and
            // drop the entry.
            let removed = self.pending_queries.remove(&key);
            let pq = match removed {
                None => {
                    proof {
                        assert(false);
                    }
                    return Vec::new();
                },
                Some(pq) => pq,
            };
            proof {
                let j = choose|j: int|
                    0 <= j < pre.pending_queries.entries@.len()
                        && pre.pending_queries.entries@[j].0@ == key@ && pq
                        == pre.pending_queries.entries@[j].1 && self.pending_queries.entries@
                        == pre.pending_queries.entries@.remove(j);
                assert(j == i as int);
                lemma_seq_sum_remove(
                    pre.pending_queries.entries@,
                    |x: (PendingQueryKey, PendingQuery)| entry_clients(x),
                    i as int,
                );
                lemma_seq_sum_nonneg(
                    pre.pending_queries.entries@.remove(i as int),
                    |x: (PendingQueryKey, PendingQuery)| entry_clients(x),
                );
            }
            self.varz.inflight_queries = self.varz.inflight_queries - 1;
            self.waiting_clients_count = self.waiting_clients_count - pq.client_queries.len();
            let mut acts = self.maybe_respond_to_all_clients_with_stale_entry(&pq);
            acts.push(Action::FireDone);
            proof {
                assert forall|s: int| 0 <= s < self.servers@.len() implies (
                #[trigger] self.servers@[s]).pending_queries_count as int == count_targeting(
                    self.pending_queries.entries@,
                    s,
                ) by {
                    lemma_seq_sum_remove(
                        pre.pending_queries.entries@,
                        |x: (PendingQueryKey, PendingQuery)|
                            if x.1.upstream_server_idx == s {
                                1int
                            } else {
                                0int
                            },
                        i as int,
                    );
                }
                assert(degrade_actions_ok(pre.cache, e, acts@));
            }
            return acts;
        }
        // Rebuild the attempt on a newly chosen upstream.
        let tid = random_tid();
        let (query_packet, minimal) = build_query_packet(normalized_question, tid);
        let picked = normalized_question.pick_upstream(
            &self.servers,
            &live,
            self.jump_k1,
            self.jump_k2,
            true,
            self.config.lbmode,
        );
        let idx2 = match picked {
            Err(_) => {
                proof {
                    assert(false);
                }
                return Vec::new();
            },
            Ok(idx2) => idx2,
        };
        let sock_i = random_below(self.socket_ports.len());
        let local_port = self.socket_ports[sock_i];
        proof {
            lemma_seq_sum_le_len(
                pre.pending_queries.entries@,
                |x: (PendingQueryKey, PendingQuery)|
                    if x.1.upstream_server_idx == idx2 as int {
                        1int
                    } else {
                        0int
                    },
            );
            lemma_seq_sum_ge_len(
                pre.pending_queries.entries@,
                |x: (PendingQueryKey, PendingQuery)| entry_clients(x),
            );
            assert(sv1[idx2 as int].pending_queries_count < u64::MAX);
        }
        let s2 = self.servers[idx2];
        self.servers[idx2] = inc_pending_exec(s2);
        self.pending_queries.retry_update(i, minimal, local_port, now_ms, idx2);
        if self.varz.upstream_sent < u64::MAX {
            self.varz.upstream_sent = self.varz.upstream_sent + 1;
        }
        let mut acts: Vec<Action> = Vec::new();
        acts.push(
            Action::SendUpstream {
                socket_idx: sock_i,
                addr: s2.remote_addr,
                packet: query_packet,
                timeout_ms: UPSTREAM_QUERY_MAX_TIMEOUT_MS,
            },
        );
        proof {
            let post = *self;
            assert(post.pending_queries.entries@ =~= pre.pending_queries.entries@.update(
                i as int,
                post.pending_queries.entries@[i as int],
            ));
            lemma_seq_sum_update(
                pre.pending_queries.entries@,
                |x: (PendingQueryKey, PendingQuery)| entry_clients(x),
                i as int,
                post.pending_queries.entries@[i as int],
            );
            assert forall|s: int| 0 <= s < post.servers@.len() implies (
            #[trigger] post.servers@[s]).pending_queries_count as int == count_targeting(
                post.pending_queries.entries@,
                s,
            ) by {
                lemma_seq_sum_update(
                    pre.pending_queries.entries@,
                    |x: (PendingQueryKey, PendingQuery)|
                        if x.1.upstream_server_idx == s {
                            1int
                        } else {
                            0int
                        },
                    i as int,
                    post.pending_queries.entries@[i as int],
                );
            }
            assert(retry_send_outcome_with(
                pre,
                post,
                *normalized_question,
                now_ms,
                acts@,
                tid,
                sock_i,
                idx2,
            ));
        }
        acts
    }

    /// Handles the retry's timeout: counts it, charges the failure to the
    /// retry's target, drops the entry, and answers every waiting client
    /// from the cache or with SERVFAIL.
    pub fn second_timeout(&mut self, normalized_question: &NormalizedQuestion) -> (acts: Vec<
        Action,
    >)
        requires
            old(self).wf(),
            normalized_question.wf(),
        ensures
            final(self).wf(),
            second_timeout_outcome(*old(self), *final(self), *normalized_question, acts@),
    {
        let ghost pre = *self;
        if self.varz.upstream_timeout < u64::MAX {
            self.varz.upstream_timeout = self.varz.upstream_timeout + 1;
        }
        let key = PendingQueryKey::new(normalized_question.key());
        proof {
            assert(key@ == fingerprint_of(*normalized_question));
        }
        let found = self.pending_queries.find(&key);
        let i = match found {
            None => {
                return Vec::new();
            },
            Some(i) => i,
        };
        proof {
            lemma_key_index(pre.pending_queries, key@, i as int);
        }
        let ghost e = pre.pending_queries.entries@[i as int];
        let prev_idx = self.pending_queries.entries[i].1.upstream_server_idx;
        proof {
            assert(entry_wf(e, pre.servers@.len() as int));
            lemma_seq_sum_remove(
                pre.pending_queries.entries@,
                |x: (PendingQueryKey, PendingQuery)|
                    if x.1.upstream_server_idx == prev_idx as int {
                        1int
                    } else {
                        0int
                    },
                i as int,
            );
            lemma_seq_sum_nonneg(
                pre.pending_queries.entries@.remove(i as int),
                |x: (PendingQueryKey, PendingQuery)|
                    if x.1.upstream_server_idx == prev_idx as int {
                        1int
                    } else {
                        0int
                    },
            );
            assert(pre.servers@[prev_idx as int].pending_queries_count >= 1);
        }
        let prev_srv = self.servers[prev_idx];
        let mut charged = dec_pending_exec(prev_srv);
        charged.record_failure(self.config.upstream_max_failures);
        self.servers[prev_idx] = charged;
        let removed = self.pending_queries.remove(&key);
        let pq = match removed {
            None => {
                proof {
                    assert(false);
                }
                return Vec::new();
            },
            Some(pq) => pq,
        };
        proof {
            let j = choose|j: int|
                0 <= j < pre.pending_queries.entries@.len() && pre.pending_queries.entries@[j].0@
                    == key@ && pq == pre.pending_queries.entries@[j].1
                    && self.pending_queries.entries@ == pre.pending_queries.entries@.remove(j);
            assert(j == i as int);
            lemma_seq_sum_remove(
                pre.pending_queries.entries@,
                |x: (PendingQueryKey, PendingQuery)| entry_clients(x),
                i as int,
            );
            lemma_seq_sum_nonneg(
                pre.pending_queries.entries@.remove(i as int),
                |x: (PendingQueryKey, PendingQuery)| entry_clients(x),
            );
        }
        self.varz.inflight_queries = self.varz.inflight_queries - 1;
        self.waiting_clients_count = self.waiting_clients_count - pq.client_queries.len();
        let mut acts = self.maybe_respond_to_all_clients_with_stale_entry(&pq);
        acts.push(Action::FireDone);
        proof {
            assert forall|s: int| 0 <= s < self.servers@.len() implies (
            #[trigger] self.servers@[s]).pending_queries_count as int == count_targeting(
                self.pending_queries.entries@,
                s,
            ) by {
                lemma_seq_sum_remove(
                    pre.pending_queries.entries@,
                    |x: (PendingQueryKey, PendingQuery)|
                        if x.1.upstream_server_idx == s {
                            1int
                        } else {
                            0int
                        },
                    i as int,
                );
            }
            assert(degrade_actions_ok(pre.cache, e, acts@));
        }
        acts
    }

    /// Resolves a pending entry with an upstream answer observed after
    /// `rtt_ms`: every waiting client receives that packet, the target's
    /// pending count drops and its health recovers, and the completion
    /// signal fires. Driven by the response path outside the core.
    pub fn on_response(
        &mut self,
        normalized_question: &NormalizedQuestion,
        response_packet: &Vec<u8>,
        rtt_ms: u64,
    ) -> (acts: Vec<Action>)
        requires
            old(self).wf(),
        ensures
            final(self).wf(),
            response_outcome(
                *old(self),
                *final(self),
                *normalized_question,
                response_packet@,
                rtt_ms,
                acts@,
            ),
    {
        let ghost pre = *self;
        let key = PendingQueryKey::new(normalized_question.key());
        proof {
            assert(key@ == fingerprint_of(*normalized_question));
        }
        let found = self.pending_queries.find(&key);
        let i = match found {
            None => {
                return Vec::new();
            },
            Some(i) => i,
        };
        proof {
            lemma_key_index(pre.pending_queries, key@, i as int);
        }
        let ghost e = pre.pending_queries.entries@[i as int];
        let tgt_idx = self.pending_queries.entries[i].1.upstream_server_idx;
        proof {
            assert(entry_wf(e, pre.servers@.len() as int));
            lemma_seq_sum_remove(
                pre.pending_queries.entries@,
                |x: (PendingQueryKey, PendingQuery)|
                    if x.1.upstream_server_idx == tgt_idx as int {
                        1int
                    } else {
                        0int
                    },
                i as int,
            );
            lemma_seq_sum_nonneg(
                pre.pending_queries.entries@.remove(i as int),
                |x: (PendingQueryKey, PendingQuery)|
                    if x.1.upstream_server_idx == tgt_idx as int {
                        1int
                    } else {
                        0int
                    },
            );
            assert(pre.servers@[tgt_idx as int].pending_queries_count >= 1);
        }
        let tgt_srv = self.servers[tgt_idx];
        let mut recovered = dec_pending_exec(tgt_srv);
        recovered.record_success(rtt_ms);
        self.servers[tgt_idx] = recovered;
        let removed = self.pending_queries.remove(&key);
        let pq = match removed {
            None => {
                proof {
                    assert(false);
                }
                return Vec::new();
            },
            Some(pq) => pq,
        };
        proof {
            let j = choose|j: int|
                0 <= j < pre.pending_queries.entries@.len() && pre.pending_queries.entries@[j].0@
                    == key@ && pq == pre.pending_queries.entries@[j].1
                    && self.pending_queries.entries@ == pre.pending_queries.entries@.remove(j);
            assert(j == i as int);
            lemma_seq_sum_remove(
                pre.pending_queries.entries@,
                |x: (PendingQueryKey, PendingQuery)| entry_clients(x),
                i as int,
            );
            lemma_seq_sum_nonneg(
                pre.pending_queries.entries@.remove(i as int),
                |x: (PendingQueryKey, PendingQuery)| entry_clients(x),
            );
        }
        self.varz.inflight_queries = self.varz.inflight_queries - 1;
        self.waiting_clients_count = self.waiting_clients_count - pq.client_queries.len();
        let mut acts: Vec<Action> = Vec::new();
        let mut c: usize = 0;
        while c < pq.client_queries.len()
            invariant
                c <= pq.client_queries@.len(),
                acts@.len() == c,
                forall|k: int|
                    0 <= k < c ==> ((#[trigger] acts@[k]) matches Action::Respond {
                        client_id,
                        packet: p,
                        kind,
                    } && client_id == pq.client_queries@[k].client_id && p@ == response_packet@
                        && kind == ResponseKind::Fresh),
            decreases pq.client_queries@.len() - c,
        {
            acts.push(
                Action::Respond {
                    client_id: pq.client_queries[c].client_id,
                    packet: response_packet.clone(),
                    kind: ResponseKind::Fresh,
                },
            );
            c = c + 1;
        }
        acts.push(Action::FireDone);
        proof {
            assert forall|s: int| 0 <= s < self.servers@.len() implies (
            #[trigger] self.servers@[s]).pending_queries_count as int == count_targeting(
                self.pending_queries.entries@,
                s,
            ) by {
                lemma_seq_sum_remove(
                    pre.pending_queries.entries@,
                    |x: (PendingQueryKey, PendingQuery)|
                        if x.1.upstream_server_idx == s {
                            1int
                        } else {
                            0int
                        },
                    i as int,
                );
            }
        }
        acts
    }
}

/// A server with one less pending attempt, saturating at zero.
pub open spec fn dec_pending(s: UpstreamServer) -> UpstreamServer {
    UpstreamServer {
        pending_queries_count: if s.pending_queries_count == 0 {
            0
        } else {
            (s.pending_queries_count - 1) as u64
        },
        ..s
    }
}

/// A server with one more pending attempt, saturating at the counter's top.
pub open spec fn inc_pending(s: UpstreamServer) -> UpstreamServer {
    UpstreamServer {
        pending_queries_count: if s.pending_queries_count == u64::MAX {
            u64::MAX
        } else {
            (s.pending_queries_count + 1) as u64
        },
        ..s
    }
}

fn dec_pending_exec(s: UpstreamServer) -> (r: UpstreamServer)
    ensures
        r == dec_pending(s),
{
    UpstreamServer {
        pending_queries_count: if s.pending_queries_count == 0 {
            0
        } else {
            s.pending_queries_count - 1
        },
        ..s
    }
}

fn inc_pending_exec(s: UpstreamServer) -> (r: UpstreamServer)
    ensures
        r == inc_pending(s),
{
    UpstreamServer {
        pending_queries_count: if s.pending_queries_count == u64::MAX {
            u64::MAX
        } else {
            s.pending_queries_count + 1
        },
        ..s
    }
}

} // verus!
