use edgedns_core::cache::Cache;
use edgedns_core::client_query::{ClientQuery, UpstreamServerForQuery};
use edgedns_core::dns::{
    build_query_packet, build_servfail_packet, bytes_eq, question_key_eq, CustomHash,
    NormalizedQuestion,
};
use edgedns_core::pending::{PendingQueries, PendingQuery, PendingQueryKey};
use edgedns_core::upstream::{snapshot_live, UpstreamServer};

fn question(name: &[u8], tid: u16) -> NormalizedQuestion {
    NormalizedQuestion { qname: name.to_vec(), qtype: 1, qclass: 1, tid, dnssec: false }
}

fn client(id: u64, name: &[u8]) -> ClientQuery {
    ClientQuery {
        client_id: id,
        normalized_question: question(name, 1),
        upstream_servers_for_query: vec![UpstreamServerForQuery { socket_addr: 1 }],
        custom_hash: CustomHash { h0: 0, h1: 0 },
    }
}

#[test]
fn query_packet_bytes() {
    let q = question(b"\x03www\x00", 0);
    let (packet, minimal) = build_query_packet(&q, 0x1234);
    let mut expected = vec![0x12u8, 0x34, 0x01, 0x00, 0, 1, 0, 0, 0, 0, 0, 0];
    expected.extend_from_slice(b"\x03www\x00");
    expected.extend_from_slice(&[0, 1, 0, 1]);
    assert_eq!(packet, expected);
    assert_eq!(minimal.tid, 0x1234);
    assert_eq!(minimal.qname, b"\x03www\x00".to_vec());
    assert_eq!(minimal.qtype, 1);
    assert_eq!(minimal.qclass, 1);
}

#[test]
fn servfail_packet_bytes() {
    let q = question(b"\x01z\x00", 0xbeef);
    let packet = build_servfail_packet(&q);
    let mut expected = vec![0xbeu8, 0xef, 0x81, 0x82, 0, 1, 0, 0, 0, 0, 0, 0];
    expected.extend_from_slice(b"\x01z\x00");
    expected.extend_from_slice(&[0, 1, 0, 1]);
    assert_eq!(packet, expected);
}

#[test]
fn byte_vector_equality() {
    assert!(bytes_eq(&vec![1, 2, 3], &vec![1, 2, 3]));
    assert!(!bytes_eq(&vec![1, 2, 3], &vec![1, 2]));
    assert!(!bytes_eq(&vec![1, 2, 3], &vec![1, 2, 4]));
    assert!(bytes_eq(&Vec::new(), &Vec::new()));
}

#[test]
fn question_keys_ignore_transaction_id() {
    let a = question(b"\x01k\x00", 1).key();
    let b = question(b"\x01k\x00", 999).key();
    assert!(question_key_eq(&a, &b));
    let mut c = question(b"\x01k\x00", 1);
    c.dnssec = true;
    assert!(!question_key_eq(&a, &c.key()));
    let d = question(b"\x01l\x00", 1).key();
    assert!(!question_key_eq(&a, &d));
}

#[test]
fn timeout_estimate_is_bounded() {
    let mut s = UpstreamServer::new(1);
    assert_eq!(s.timeout_ms_est(), 1000);
    s.rtt_est_ms = 100;
    assert_eq!(s.timeout_ms_est(), 300);
    s.rtt_est_ms = 600;
    assert_eq!(s.timeout_ms_est(), 1000);
    s.rtt_est_ms = u64::MAX;
    assert_eq!(s.timeout_ms_est(), 1000);
}

#[test]
fn rtt_average_moves_an_eighth() {
    let mut s = UpstreamServer::new(1);
    s.record_success(100);
    assert_eq!(s.rtt_est_ms, 100);
    s.record_success(20);
    assert_eq!(s.rtt_est_ms, (7 * 100 + 20) / 8);
}

#[test]
fn failure_threshold_takes_server_offline() {
    let mut s = UpstreamServer::new(1);
    assert!(!s.record_failure(3));
    assert!(!s.record_failure(3));
    assert!(!s.offline);
    assert!(s.record_failure(3));
    assert!(s.offline);
    assert_eq!(s.failures, 3);
    s.record_success(10);
    assert!(!s.offline);
    assert_eq!(s.failures, 0);
}

#[test]
fn live_snapshot_lists_online_servers_in_order() {
    let mut servers = vec![UpstreamServer::new(1), UpstreamServer::new(2), UpstreamServer::new(3)];
    servers[1].record_failure(1);
    assert_eq!(snapshot_live(&servers), vec![0, 2]);
    servers[1].record_success(5);
    assert_eq!(snapshot_live(&servers), vec![0, 1, 2]);
}

#[test]
fn cache_returns_earliest_entry_for_a_key() {
    let mut cache = Cache::new();
    let key = PendingQueryKey::new(question(b"\x01c\x00", 1).key());
    assert!(cache.get(&key).is_none());
    cache.insert(PendingQueryKey::new(question(b"\x01c\x00", 2).key()), vec![1]);
    cache.insert(PendingQueryKey::new(question(b"\x01c\x00", 3).key()), vec![2]);
    assert_eq!(cache.get(&key), Some(&vec![1]));
    let other = PendingQueryKey::new(question(b"\x01d\x00", 1).key());
    assert!(cache.get(&other).is_none());
}

#[test]
fn pending_table_attach_insert_remove() {
    let mut table = PendingQueries::new();
    let q = question(b"\x01p\x00", 1);
    let key = PendingQueryKey::new(q.key());
    assert!(!table.try_attach(&key, client(1, b"\x01p\x00")));

    let (_, minimal) = build_query_packet(&q, 99);
    let pq = PendingQuery::new(minimal, 0, 4000, client(1, b"\x01p\x00"), 0);
    assert_eq!(pq.attempts, 1);
    assert_eq!(pq.client_queries.len(), 1);
    table.insert(PendingQueryKey::new(q.key()), pq);
    assert_eq!(table.len(), 1);

    assert!(table.try_attach(&key, client(2, b"\x01p\x00")));
    assert_eq!(table.entries[0].1.client_queries.len(), 2);

    let removed = table.remove(&key).expect("entry should exist");
    assert_eq!(removed.client_queries.len(), 2);
    assert_eq!(table.len(), 0);
    assert!(table.remove(&key).is_none());
}

#[test]
fn pending_table_evicts_oldest_first() {
    let mut table = PendingQueries::new();
    for (i, name) in [&b"\x01a\x00"[..], b"\x01b\x00"].iter().enumerate() {
        let q = question(name, i as u16);
        let (_, minimal) = build_query_packet(&q, 1);
        table.insert(
            PendingQueryKey::new(q.key()),
            PendingQuery::new(minimal, 0, 4000, client(i as u64, name), i as u64),
        );
    }
    let evicted = table.evict_one().expect("one entry must leave");
    assert_eq!(evicted.ts, 0);
    assert_eq!(table.len(), 1);
    assert_eq!(table.entries[0].1.ts, 1);
    table.evict_one();
    assert!(table.evict_one().is_none());
}
