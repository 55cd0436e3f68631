use edgedns_core::config::LoadBalancingMode;
use edgedns_core::dns::NormalizedQuestion;
use edgedns_core::load_balancer::AllUpstreamsDown;
use edgedns_core::upstream::{snapshot_live, UpstreamServer};

fn question(name: &[u8], tid: u16) -> NormalizedQuestion {
    NormalizedQuestion { qname: name.to_vec(), qtype: 1, qclass: 1, tid, dnssec: false }
}

#[test]
fn fallback_always_targets_first_live() {
    let mut servers = vec![UpstreamServer::new(10), UpstreamServer::new(11), UpstreamServer::new(12)];
    let q = question(b"\x01q\x00", 0);
    let live = snapshot_live(&servers);
    assert_eq!(live, vec![0, 1, 2]);
    let r = q.pick_upstream(&servers, &live, 1, 2, false, LoadBalancingMode::Fallback);
    assert_eq!(r, Ok(0));
    // the first server going offline moves the preference to the next one
    servers[0].record_failure(1);
    let live = snapshot_live(&servers);
    assert_eq!(live, vec![1, 2]);
    let r = q.pick_upstream(&servers, &live, 1, 2, false, LoadBalancingMode::Fallback);
    assert_eq!(r, Ok(1));
    let r = q.pick_upstream(&servers, &live, 1, 2, true, LoadBalancingMode::Fallback);
    assert_eq!(r, Ok(1));
}

#[test]
fn uniform_single_live_server_is_forced() {
    let servers = vec![UpstreamServer::new(10)];
    let live = snapshot_live(&servers);
    for tid in [0u16, 1, 77] {
        let q = question(b"\x04name\x00", tid);
        let r = q.pick_upstream(&servers, &live, 123, 456, false, LoadBalancingMode::Uniform);
        assert_eq!(r, Ok(0));
    }
}

#[test]
fn uniform_retry_differs_from_primary() {
    let servers = vec![UpstreamServer::new(10), UpstreamServer::new(11)];
    let live = snapshot_live(&servers);
    for name in [&b"\x01a\x00"[..], b"\x01b\x00", b"\x05whois\x00"] {
        let q = question(name, 0);
        let p = q.pick_upstream(&servers, &live, 9, 9, false, LoadBalancingMode::Uniform).unwrap();
        let r = q.pick_upstream(&servers, &live, 9, 9, true, LoadBalancingMode::Uniform).unwrap();
        assert_ne!(p, r);
    }
}

#[test]
fn p2_picks_among_two_least_loaded() {
    let mut servers = vec![UpstreamServer::new(10), UpstreamServer::new(11), UpstreamServer::new(12)];
    servers[0].pending_queries_count = 5;
    servers[1].pending_queries_count = 1;
    servers[2].pending_queries_count = 3;
    let live = snapshot_live(&servers);
    // an even transaction id takes the least loaded, an odd one the runner-up
    let q = question(b"\x01p\x00", 0);
    assert_eq!(q.pick_upstream(&servers, &live, 1, 2, false, LoadBalancingMode::P2), Ok(1));
    let q = question(b"\x01p\x00", 1);
    assert_eq!(q.pick_upstream(&servers, &live, 1, 2, false, LoadBalancingMode::P2), Ok(2));
    // the retry flips the parity
    let q = question(b"\x01p\x00", 0);
    assert_eq!(q.pick_upstream(&servers, &live, 1, 2, true, LoadBalancingMode::P2), Ok(2));
}

#[test]
fn p2_tie_break_prefers_earliest() {
    let mut servers = vec![UpstreamServer::new(10), UpstreamServer::new(11)];
    servers[0].pending_queries_count = 2;
    servers[1].pending_queries_count = 2;
    let live = snapshot_live(&servers);
    let q = question(b"\x01t\x00", 0);
    assert_eq!(q.pick_upstream(&servers, &live, 1, 2, false, LoadBalancingMode::P2), Ok(0));
    let q = question(b"\x01t\x00", 1);
    assert_eq!(q.pick_upstream(&servers, &live, 1, 2, false, LoadBalancingMode::P2), Ok(1));
}

#[test]
fn p2_single_live_server() {
    let servers = vec![UpstreamServer::new(10)];
    let live = snapshot_live(&servers);
    let q = question(b"\x01s\x00", 1);
    assert_eq!(q.pick_upstream(&servers, &live, 1, 2, false, LoadBalancingMode::P2), Ok(0));
}

#[test]
fn all_policies_fail_with_no_live_server() {
    let servers: Vec<UpstreamServer> = Vec::new();
    let live = snapshot_live(&servers);
    let q = question(b"\x01e\x00", 0);
    for mode in [LoadBalancingMode::Fallback, LoadBalancingMode::Uniform, LoadBalancingMode::P2] {
        assert_eq!(q.pick_upstream(&servers, &live, 1, 2, false, mode), Err(AllUpstreamsDown));
    }
}
