use edgedns_core::cache::Cache;
use edgedns_core::client_query::{ClientQuery, UpstreamServerForQuery};
use edgedns_core::config::{Config, LoadBalancingMode};
use edgedns_core::dns::{CustomHash, NormalizedQuestion};
use edgedns_core::handler::{Action, ClientQueriesHandler, ResponseKind};
use edgedns_core::pending::PendingQueryKey;
use edgedns_core::upstream::UpstreamServer;

fn question(name: &[u8], tid: u16) -> NormalizedQuestion {
    NormalizedQuestion { qname: name.to_vec(), qtype: 1, qclass: 1, tid, dnssec: false }
}

fn client(id: u64, name: &[u8], tid: u16, candidates: &[u64]) -> ClientQuery {
    ClientQuery {
        client_id: id,
        normalized_question: question(name, tid),
        upstream_servers_for_query: candidates
            .iter()
            .map(|a| UpstreamServerForQuery { socket_addr: *a })
            .collect(),
        custom_hash: CustomHash { h0: 0, h1: 0 },
    }
}

fn handler(mode: LoadBalancingMode, max_waiting: usize, servers: Vec<UpstreamServer>) -> ClientQueriesHandler {
    let config = Config::new(mode, max_waiting, 100, 3);
    ClientQueriesHandler::new(config, servers, vec![4000], 11, 22, Cache::new())
}

fn send_target(a: &Action) -> u64 {
    match a {
        Action::SendUpstream { addr, .. } => *addr,
        _ => panic!("expected an upstream send"),
    }
}

#[test]
fn happy_path_fallback() {
    let servers = vec![UpstreamServer::new(1), UpstreamServer::new(2)];
    let mut h = handler(LoadBalancingMode::Fallback, 10, servers);
    let q = question(b"\x03foo\x00", 7);
    let acts = h.process_client_query(client(100, b"\x03foo\x00", 7, &[1, 2]), 0);
    assert_eq!(acts.len(), 1);
    match &acts[0] {
        Action::SendUpstream { socket_idx, addr, packet, timeout_ms } => {
            assert_eq!(*socket_idx, 0);
            assert_eq!(*addr, 1);
            assert_eq!(*timeout_ms, 1000);
            assert_eq!(packet.len(), 12 + 5 + 4);
            // header after the random transaction id: RD flag, one question
            assert_eq!(&packet[2..12], &[0x01, 0x00, 0, 1, 0, 0, 0, 0, 0, 0]);
            assert_eq!(&packet[12..17], b"\x03foo\x00");
            assert_eq!(&packet[17..21], &[0, 1, 0, 1]);
            // the packet carries the upstream transaction id kept for matching
            let minimal = &h.pending_queries.entries[0].1.normalized_question_minimal;
            assert_eq!(packet[0], (minimal.tid / 256) as u8);
            assert_eq!(packet[1], (minimal.tid % 256) as u8);
        },
        _ => panic!("expected an upstream send"),
    }
    assert_eq!(h.pending_queries.entries.len(), 1);
    assert_eq!(h.waiting_clients_count, 1);
    assert_eq!(h.varz.inflight_queries, 1);
    assert_eq!(h.varz.upstream_sent, 1);
    assert_eq!(h.servers[0].pending_queries_count, 1);

    let resp = vec![9u8, 9, 9];
    let acts = h.on_response(&q, &resp, 50);
    assert_eq!(acts.len(), 2);
    match &acts[0] {
        Action::Respond { client_id, packet, kind } => {
            assert_eq!(*client_id, 100);
            assert_eq!(packet, &resp);
            assert_eq!(*kind, ResponseKind::Fresh);
        },
        _ => panic!("expected a response"),
    }
    assert!(matches!(acts[1], Action::FireDone));
    assert_eq!(h.pending_queries.entries.len(), 0);
    assert_eq!(h.waiting_clients_count, 0);
    assert_eq!(h.varz.inflight_queries, 0);
    assert_eq!(h.servers[0].pending_queries_count, 0);
    assert_eq!(h.servers[0].rtt_est_ms, 50);
}

#[test]
fn coalescing_three_identical_queries() {
    let mut h = handler(LoadBalancingMode::Fallback, 10, vec![UpstreamServer::new(1)]);
    let q = question(b"\x03bar\x00", 1);
    let a1 = h.process_client_query(client(1, b"\x03bar\x00", 1, &[1]), 0);
    let a2 = h.process_client_query(client(2, b"\x03bar\x00", 2, &[1]), 0);
    let a3 = h.process_client_query(client(3, b"\x03bar\x00", 3, &[1]), 1);
    assert_eq!(a1.len(), 1);
    assert_eq!(a2.len(), 0);
    assert_eq!(a3.len(), 0);
    assert_eq!(h.varz.upstream_sent, 1);
    assert_eq!(h.pending_queries.entries.len(), 1);
    assert_eq!(h.waiting_clients_count, 3);

    let resp = vec![42u8];
    let acts = h.on_response(&q, &resp, 10);
    assert_eq!(acts.len(), 4);
    let mut ids = Vec::new();
    for a in &acts[..3] {
        match a {
            Action::Respond { client_id, packet, kind } => {
                assert_eq!(packet, &resp);
                assert_eq!(*kind, ResponseKind::Fresh);
                ids.push(*client_id);
            },
            _ => panic!("expected a response"),
        }
    }
    assert_eq!(ids, vec![1, 2, 3]);
    assert!(matches!(acts[3], Action::FireDone));
    assert_eq!(h.waiting_clients_count, 0);
}

#[test]
fn timeout_then_retry_picks_other_upstream() {
    let servers = vec![UpstreamServer::new(1), UpstreamServer::new(2)];
    let mut h = handler(LoadBalancingMode::Uniform, 10, servers);
    let q = question(b"\x03baz\x00", 5);
    let acts = h.process_client_query(client(9, b"\x03baz\x00", 5, &[1, 2]), 0);
    assert_eq!(acts.len(), 1);
    let primary = send_target(&acts[0]);

    let acts = h.retry_query(&q, 1000);
    assert_eq!(acts.len(), 1);
    match &acts[0] {
        Action::SendUpstream { addr, timeout_ms, .. } => {
            assert_ne!(*addr, primary, "the retry must target the other live upstream");
            assert_eq!(*timeout_ms, 1000);
        },
        _ => panic!("expected an upstream send"),
    }
    let primary_idx = if primary == 1 { 0 } else { 1 };
    assert_eq!(h.servers[primary_idx].failures, 1);
    assert_eq!(h.pending_queries.entries[0].1.attempts, 2);
    assert_eq!(h.waiting_clients_count, 1);

    // a second first-timeout event is ignored: only one retry per entry
    let acts = h.retry_query(&q, 2000);
    assert_eq!(acts.len(), 0);

    let resp = vec![7u8];
    let acts = h.on_response(&q, &resp, 30);
    assert_eq!(acts.len(), 2);
    assert_eq!(h.pending_queries.entries.len(), 0);
}

#[test]
fn double_timeout_serves_stale_entry() {
    let servers = vec![UpstreamServer::new(1), UpstreamServer::new(2)];
    let mut h = handler(LoadBalancingMode::Fallback, 10, servers);
    let q = question(b"\x03old\x00", 3);
    let stale = vec![0xde, 0xad];
    h.cache.insert(PendingQueryKey::new(q.key()), stale.clone());

    h.process_client_query(client(4, b"\x03old\x00", 3, &[1, 2]), 0);
    h.retry_query(&q, 1000);
    let acts = h.second_timeout(&q);
    assert_eq!(acts.len(), 2);
    match &acts[0] {
        Action::Respond { client_id, packet, kind } => {
            assert_eq!(*client_id, 4);
            assert_eq!(packet, &stale);
            assert_eq!(*kind, ResponseKind::Stale);
        },
        _ => panic!("expected a response"),
    }
    assert!(matches!(acts[1], Action::FireDone));
    assert_eq!(h.varz.client_queries_offline, 1);
    assert_eq!(h.varz.upstream_timeout, 1);
    assert_eq!(h.pending_queries.entries.len(), 0);
    assert_eq!(h.waiting_clients_count, 0);
}

#[test]
fn all_down_synthesizes_servfail() {
    let mut h = handler(LoadBalancingMode::Fallback, 10, Vec::new());
    let acts = h.process_client_query(client(8, b"\x02no\x00", 0x1234, &[]), 0);
    assert_eq!(acts.len(), 1);
    match &acts[0] {
        Action::Respond { client_id, packet, kind } => {
            assert_eq!(*client_id, 8);
            assert_eq!(*kind, ResponseKind::Servfail);
            let mut expected = vec![0x12, 0x34, 0x81, 0x82, 0, 1, 0, 0, 0, 0, 0, 0];
            expected.extend_from_slice(b"\x02no\x00");
            expected.extend_from_slice(&[0, 1, 0, 1]);
            assert_eq!(packet, &expected);
        },
        _ => panic!("expected a response"),
    }
    assert_eq!(h.pending_queries.entries.len(), 0);
    assert_eq!(h.varz.client_queries_offline, 0);
}

#[test]
fn probe_rate_limit_allows_one_probe() {
    let mut offline = UpstreamServer::new(3);
    offline.record_failure(1);
    assert!(offline.offline);
    let servers = vec![UpstreamServer::new(1), offline];
    let mut h = handler(LoadBalancingMode::Fallback, 10, servers);

    let acts = h.process_client_query(client(1, b"\x01a\x00", 1, &[1, 3]), 5000);
    assert_eq!(acts.len(), 2);
    match &acts[0] {
        Action::SendProbe { socket_idx, addr, packet } => {
            assert_eq!(*socket_idx, 0);
            assert_eq!(*addr, 3);
            assert!(packet.len() > 12);
        },
        _ => panic!("expected a probe send"),
    }
    assert_eq!(send_target(&acts[1]), 1);
    assert_eq!(h.servers[1].last_probe_ts, Some(5000));

    // ten milliseconds later the probe to the same server is rate-limited
    let acts = h.process_client_query(client(2, b"\x01b\x00", 2, &[1, 3]), 5010);
    assert_eq!(acts.len(), 1);
    assert_eq!(send_target(&acts[0]), 1);
    assert_eq!(h.servers[1].last_probe_ts, Some(5000));
}

#[test]
fn eviction_drops_oldest_entry() {
    let mut h = handler(LoadBalancingMode::Fallback, 2, vec![UpstreamServer::new(1)]);
    let q1 = question(b"\x01x\x00", 1);
    h.process_client_query(client(1, b"\x01x\x00", 1, &[1]), 0);
    h.process_client_query(client(2, b"\x01y\x00", 2, &[1]), 1);
    assert_eq!(h.waiting_clients_count, 2);

    let acts = h.process_client_query(client(3, b"\x01z\x00", 3, &[1]), 2);
    // the evicted clients receive nothing from the core
    assert_eq!(acts.len(), 1);
    assert!(matches!(acts[0], Action::SendUpstream { .. }));
    assert!(h.waiting_clients_count <= 2);
    assert_eq!(h.pending_queries.entries.len(), 2);
    assert!(h.pending_queries.find(&PendingQueryKey::new(q1.key())).is_none());
    assert_eq!(h.servers[0].pending_queries_count, 2);
}

#[test]
fn ingest_uses_the_clock() {
    let mut h = handler(LoadBalancingMode::Fallback, 10, vec![UpstreamServer::new(1)]);
    let acts = h.ingest_client_query(client(5, b"\x01c\x00", 9, &[1]));
    assert_eq!(acts.len(), 1);
    assert_eq!(send_target(&acts[0]), 1);
    assert!(h.pending_queries.entries[0].1.ts > 0);
}

#[test]
fn stale_responses_after_retry_exhaustion_without_cache() {
    let servers = vec![UpstreamServer::new(1), UpstreamServer::new(2)];
    let mut h = handler(LoadBalancingMode::Fallback, 10, servers);
    let q = question(b"\x03nix\x00", 2);
    h.process_client_query(client(6, b"\x03nix\x00", 2, &[1, 2]), 0);
    h.process_client_query(client(7, b"\x03nix\x00", 2, &[1, 2]), 0);
    h.retry_query(&q, 1000);
    let acts = h.second_timeout(&q);
    // both coalesced clients get a SERVFAIL, then the completion fires
    assert_eq!(acts.len(), 3);
    for a in &acts[..2] {
        match a {
            Action::Respond { kind, .. } => assert_eq!(*kind, ResponseKind::Servfail),
            _ => panic!("expected a response"),
        }
    }
    assert!(matches!(acts[2], Action::FireDone));
    assert_eq!(h.varz.client_queries_offline, 0);
    assert_eq!(h.waiting_clients_count, 0);
}

#[test]
fn degraded_clients_count_per_cache_hit() {
    let servers = vec![UpstreamServer::new(1)];
    let mut h = handler(LoadBalancingMode::Fallback, 10, servers);
    let q = question(b"\x03two\x00", 1);
    h.cache.insert(PendingQueryKey::new(q.key()), vec![0xaa]);
    h.process_client_query(client(1, b"\x03two\x00", 1, &[1]), 0);
    h.process_client_query(client(2, b"\x03two\x00", 2, &[1]), 0);
    h.retry_query(&q, 1000);
    let acts = h.second_timeout(&q);
    assert_eq!(acts.len(), 3);
    for a in &acts[..2] {
        match a {
            Action::Respond { packet, kind, .. } => {
                assert_eq!(packet, &vec![0xaa]);
                assert_eq!(*kind, ResponseKind::Stale);
            },
            _ => panic!("expected a response"),
        }
    }
    assert_eq!(h.varz.client_queries_offline, 2);
}

#[test]
fn eviction_may_drop_the_same_fingerprint() {
    let mut h = handler(LoadBalancingMode::Fallback, 1, vec![UpstreamServer::new(1)]);
    let q = question(b"\x03dup\x00", 1);
    h.process_client_query(client(1, b"\x03dup\x00", 1, &[1]), 0);
    assert_eq!(h.waiting_clients_count, 1);
    // admission control evicts the only entry, which carries the same
    // fingerprint; the arriving query then starts a fresh attempt
    let acts = h.process_client_query(client(2, b"\x03dup\x00", 2, &[1]), 5);
    assert_eq!(acts.len(), 1);
    assert!(matches!(acts[0], Action::SendUpstream { .. }));
    assert_eq!(h.waiting_clients_count, 1);
    assert_eq!(h.pending_queries.entries.len(), 1);
    let entry = &h.pending_queries.entries[0].1;
    assert_eq!(entry.client_queries.len(), 1);
    assert_eq!(entry.client_queries[0].client_id, 2);
    assert_eq!(entry.ts, 5);
    assert_eq!(h.servers[0].pending_queries_count, 1);
}
