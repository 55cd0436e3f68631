//! Selection of one live upstream for an attempt, under the configured
//! load-balancing policy.

use vstd::prelude::*;
use vstd::arithmetic::div_mod::{lemma_add_mod_noop, lemma_mod_self_0, lemma_small_mod};
use crate::config::LoadBalancingMode;
use crate::dns::NormalizedQuestion;
use crate::ext::{jump_hash_slot, jump_slot};
use crate::upstream::UpstreamServer;

verus! {

/// No live upstream server is available for this attempt.
#[derive(Clone, Copy, PartialEq, Eq, Structural, Debug)]
pub struct AllUpstreamsDown;

/// Pending-attempt count of the live server at position `k` of the live
/// snapshot.
pub open spec fn pending_at(servers: Seq<UpstreamServer>, live: Seq<usize>, k: int) -> u64 {
    servers[live[k] as int].pending_queries_count
}

/// `p` is the position in `live` of the least-loaded live server, earliest
/// position winning ties.
pub open spec fn is_first_min(servers: Seq<UpstreamServer>, live: Seq<usize>, p: int) -> bool {
    &&& 0 <= p < live.len()
    &&& forall|k: int|
        0 <= k < live.len() ==> pending_at(servers, live, p) <= #[trigger] pending_at(
            servers,
            live,
            k,
        )
    &&& forall|k: int|
        0 <= k < p ==> #[trigger] pending_at(servers, live, k) > pending_at(servers, live, p)
}

/// `p` is the position of the least-loaded live server other than `p1`,
/// earliest position winning ties.
pub open spec fn is_second_min(
    servers: Seq<UpstreamServer>,
    live: Seq<usize>,
    p1: int,
    p: int,
) -> bool {
    &&& 0 <= p < live.len()
    &&& p != p1
    &&& forall|k: int|
        0 <= k < live.len() && k != p1 ==> pending_at(servers, live, p) <= #[trigger] pending_at(
            servers,
            live,
            k,
        )
    &&& forall|k: int|
        0 <= k < p && k != p1 ==> #[trigger] pending_at(servers, live, k) > pending_at(
            servers,
            live,
            p,
        )
}

/// Position chosen by the uniform policy: the jump-hash slot of the query
/// name over the live count, advanced by one slot on the retry.
pub open spec fn uniform_pos(k1: u64, k2: u64, qname: Seq<u8>, n: int, is_retry: bool) -> int {
    let slot = jump_hash_slot(k1, k2, qname, n as u32) as int;
    if is_retry {
        (slot + 1) % n
    } else {
        slot % n
    }
}

/// Which of the two least-loaded servers the power-of-two policy takes: the
/// parity of the client transaction id, flipped on the retry.
pub open spec fn p2_choice_bit(tid: u16, is_retry: bool) -> int {
    (tid + if is_retry {
        1int
    } else {
        0int
    }) % 2
}

/// Retry monotonicity of the uniform policy: with at least two live servers,
/// the retry position always differs from the primary position.
pub proof fn lemma_uniform_retry_differs(k1: u64, k2: u64, qname: Seq<u8>, n: int)
    requires
        n >= 2,
    ensures
        uniform_pos(k1, k2, qname, n, false) != uniform_pos(k1, k2, qname, n, true),
{
    let slot = jump_hash_slot(k1, k2, qname, n as u32) as int;
    let a = slot % n;
    lemma_add_mod_noop(slot, 1, n);
    lemma_small_mod(1nat, n as nat);
    assert((slot + 1) % n == (a + 1) % n);
    if a + 1 < n {
        lemma_small_mod((a + 1) as nat, n as nat);
        assert((a + 1) % n == a + 1);
    } else {
        assert(a + 1 == n);
        lemma_mod_self_0(n);
        assert((a + 1) % n == 0);
        assert(a != 0);
    }
}

/// Retry monotonicity of the uniform policy at the server level: over a
/// live snapshot of at least two distinct servers, the retry attempt never
/// targets the server of the primary attempt.
pub proof fn lemma_uniform_retry_server_differs(k1: u64, k2: u64, qname: Seq<u8>, live: Seq<usize>)
    requires
        live.len() >= 2,
        forall|a: int, b: int| 0 <= a < b < live.len() ==> live[a] != live[b],
    ensures
        live[uniform_pos(k1, k2, qname, live.len() as int, false)] != live[uniform_pos(
            k1,
            k2,
            qname,
            live.len() as int,
            true,
        )],
{
    let n = live.len() as int;
    lemma_uniform_retry_differs(k1, k2, qname, n);
    let p = uniform_pos(k1, k2, qname, n, false);
    let r = uniform_pos(k1, k2, qname, n, true);
    let slot = jump_hash_slot(k1, k2, qname, n as u32) as int;
    assert(0 <= p < n);
    assert(0 <= r < n);
    if p < r {
        assert(live[p] != live[r]);
    } else {
        assert(live[r] != live[p]);
    }
}

impl NormalizedQuestion {
    /// Chooses a live upstream for this question: under Fallback the first
    /// live server, under Uniform the jump-hash position (advanced by one on
    /// retry), under P2 one of the two least-loaded servers by transaction-id
    /// parity. Fails exactly when no server is live.
    pub fn pick_upstream(
        &self,
        servers: &Vec<UpstreamServer>,
        live: &Vec<usize>,
        jump_k1: u64,
        jump_k2: u64,
        is_retry: bool,
        lbmode: LoadBalancingMode,
    ) -> (r: Result<usize, AllUpstreamsDown>)
        requires
            forall|k: int| 0 <= k < live@.len() ==> #[trigger] live@[k] < servers@.len(),
            live@.len() <= u32::MAX,
        ensures
            r is Err <==> live@.len() == 0,
            r is Ok ==> live@.contains(r->Ok_0),
            r is Ok && lbmode == LoadBalancingMode::Fallback ==> r->Ok_0 == live@[0],
            r is Ok && lbmode == LoadBalancingMode::Uniform ==> r->Ok_0 == live@[uniform_pos(
                jump_k1,
                jump_k2,
                self.qname@,
                live@.len() as int,
                is_retry,
            )],
            r is Ok && lbmode == LoadBalancingMode::P2 && live@.len() == 1 ==> r->Ok_0 == live@[0],
            r is Ok && lbmode == LoadBalancingMode::P2 && live@.len() >= 2 ==> exists|
                p1: int,
                p2: int,
            |
                is_first_min(servers@, live@, p1) && is_second_min(servers@, live@, p1, p2)
                    && r->Ok_0 == live@[if p2_choice_bit(self.tid, is_retry) == 0 {
                    p1
                } else {
                    p2
                }],
    {
        let live_count = live.len();
        if live_count == 0 {
            return Err(AllUpstreamsDown);
        }
        match lbmode {
            LoadBalancingMode::Fallback => {
                proof {
                    assert(live@.contains(live@[0]));
                }
                Ok(live[0])
            },
            LoadBalancingMode::Uniform => {
                let slot = jump_slot(jump_k1, jump_k2, &self.qname, live_count as u32);
                let mut i: usize = slot as usize;
                if is_retry {
                    i = (i + 1) % live_count;
                } else {
                    proof {
                        lemma_small_mod(i as nat, live_count as nat);
                    }
                }
                proof {
                    assert(i == uniform_pos(
                        jump_k1,
                        jump_k2,
                        self.qname@,
                        live@.len() as int,
                        is_retry,
                    ));
                    assert(live@.contains(live@[i as int]));
                }
                Ok(live[i])
            },
            LoadBalancingMode::P2 => {
                if live_count == 1 {
                    proof {
                        assert(live@.contains(live@[0]));
                    }
                    return Ok(live[0]);
                }
                let mut best: usize = 0;
                let mut k: usize = 1;
                while k < live_count
                    invariant
                        live_count == live@.len(),
                        forall|j: int| 0 <= j < live@.len() ==> #[trigger] live@[j] < servers@.len(),
                        best < k <= live_count,
                        forall|j: int|
                            0 <= j < k ==> pending_at(servers@, live@, best as int)
                                <= #[trigger] pending_at(servers@, live@, j),
                        forall|j: int|
                            0 <= j < best ==> #[trigger] pending_at(servers@, live@, j)
                                > pending_at(servers@, live@, best as int),
                    decreases live_count - k,
                {
                    if servers[live[k]].pending_queries_count
                        < servers[live[best]].pending_queries_count {
                        best = k;
                    }
                    k = k + 1;
                }
                let mut second: usize = if best == 0 {
                    1
                } else {
                    0
                };
                let mut k2: usize = 0;
                while k2 < live_count
                    invariant
                        live_count == live@.len(),
                        live@.len() >= 2,
                        forall|j: int| 0 <= j < live@.len() ==> #[trigger] live@[j] < servers@.len(),
                        best < live_count,
                        second < live_count,
                        second != best,
                        k2 <= live_count,
                        forall|j: int|
                            0 <= j < k2 && j != best ==> pending_at(servers@, live@, second as int)
                                <= #[trigger] pending_at(servers@, live@, j),
                        forall|j: int|
                            0 <= j < second && j != best ==> #[trigger] pending_at(
                                servers@,
                                live@,
                                j,
                            ) > pending_at(servers@, live@, second as int),
                    decreases live_count - k2,
                {
                    let cur_second = servers[live[second]].pending_queries_count;
                    if k2 != best && servers[live[k2]].pending_queries_count < cur_second {
                        second = k2;
                    }
                    k2 = k2 + 1;
                }
                let bit = (self.tid as usize + if is_retry {
                    1usize
                } else {
                    0usize
                }) % 2;
                let chosen = if bit == 0 {
                    best
                } else {
                    second
                };
                proof {
                    assert(is_first_min(servers@, live@, best as int));
                    assert(is_second_min(servers@, live@, best as int, second as int));
                    assert(bit as int == p2_choice_bit(self.tid, is_retry));
                    assert(live@.contains(live@[chosen as int]));
                }
                Ok(live[chosen])
            },
        }
    }
}

} // verus!
