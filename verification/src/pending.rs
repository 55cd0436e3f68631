//! The pending table: one entry per in-flight fingerprint, each aggregating
//! every client query waiting for the same answer.

use vstd::prelude::*;
use crate::client_query::ClientQuery;
use crate::dns::{CustomHash, NormalizedQuestionKey, NormalizedQuestionMinimal, QuestionKeyView};
use crate::dns::question_key_eq;

verus! {

/// Fingerprint of an in-flight query: the question's identity plus the
/// reserved policy-extension hashes.
pub struct PendingQueryKey {
    pub normalized_question_key: NormalizedQuestionKey,
    pub custom_hash: CustomHash,
}

/// Mathematical value of a fingerprint.
pub struct PendingKeyView {
    pub question: QuestionKeyView,
    pub custom_hash: CustomHash,
}

impl View for PendingQueryKey {
    type V = PendingKeyView;

    open spec fn view(&self) -> PendingKeyView {
        PendingKeyView { question: self.normalized_question_key@, custom_hash: self.custom_hash }
    }
}

impl PendingQueryKey {
    /// The fingerprint used for coalescing: the question's key, with the
    /// policy-extension hashes left at zero.
    pub fn new(normalized_question_key: NormalizedQuestionKey) -> (k: PendingQueryKey)
        ensures
            k@.question == normalized_question_key@,
            k@.custom_hash == (CustomHash { h0: 0, h1: 0 }),
    {
        PendingQueryKey { normalized_question_key, custom_hash: CustomHash::zero() }
    }
}

/// Field-for-field equality of two fingerprints.
pub fn pending_key_eq(a: &PendingQueryKey, b: &PendingQueryKey) -> (r: bool)
    ensures
        r <==> a@ == b@,
{
    let r = question_key_eq(&a.normalized_question_key, &b.normalized_question_key)
        && a.custom_hash.h0 == b.custom_hash.h0 && a.custom_hash.h1 == b.custom_hash.h1;
    proof {
        if r {
            assert(a@ == b@);
        }
    }
    r
}

/// One outstanding upstream attempt, shared by one or more client queries.
pub struct PendingQuery {
    /// The question actually sent, with the randomized upstream id.
    pub normalized_question_minimal: NormalizedQuestionMinimal,
    /// Local port of the outbound socket used, for response matching.
    pub local_port: u16,
    /// Every client waiting for this answer.
    pub client_queries: Vec<ClientQuery>,
    /// When the current attempt was sent, in milliseconds.
    pub ts: u64,
    /// Index of the server targeted by the current attempt.
    pub upstream_server_idx: usize,
    /// Address probed alongside this attempt, if any.
    pub probed_socket_addr: Option<u64>,
    /// Upstream sends made for this entry so far: one, or two after the retry.
    pub attempts: u8,
    /// Policy-extension hashes of the fingerprint.
    pub custom_hash: CustomHash,
}

impl PendingQuery {
    pub fn new(
        normalized_question_minimal: NormalizedQuestionMinimal,
        upstream_server_idx: usize,
        local_port: u16,
        client_query: ClientQuery,
        ts: u64,
    ) -> (pq: PendingQuery)
        ensures
            pq.normalized_question_minimal == normalized_question_minimal,
            pq.local_port == local_port,
            pq.client_queries@ =~= seq![client_query],
            pq.ts == ts,
            pq.upstream_server_idx == upstream_server_idx,
            pq.probed_socket_addr is None,
            pq.attempts == 1,
            pq.custom_hash == (CustomHash { h0: 0, h1: 0 }),
    {
        let mut client_queries: Vec<ClientQuery> = Vec::new();
        client_queries.push(client_query);
        PendingQuery {
            normalized_question_minimal,
            local_port,
            client_queries,
            ts,
            upstream_server_idx,
            probed_socket_addr: None,
            attempts: 1,
            custom_hash: CustomHash::zero(),
        }
    }
}

/// Sum of `f` over the elements of a sequence.
pub open spec fn seq_sum<A>(s: Seq<A>, f: spec_fn(A) -> int) -> int
    decreases s.len(),
{
    if s.len() == 0 {
        0
    } else {
        seq_sum(s.drop_last(), f) + f(s.last())
    }
}

pub proof fn lemma_seq_sum_update<A>(s: Seq<A>, f: spec_fn(A) -> int, i: int, v: A)
    requires
        0 <= i < s.len(),
    ensures
        seq_sum(s.update(i, v), f) == seq_sum(s, f) - f(s[i]) + f(v),
    decreases s.len(),
{
    if i == s.len() - 1 {
        assert(s.update(i, v).drop_last() =~= s.drop_last());
        assert(s.update(i, v).last() == v);
    } else {
        assert(s.update(i, v).drop_last() =~= s.drop_last().update(i, v));
        assert(s.update(i, v).last() == s.last());
        lemma_seq_sum_update(s.drop_last(), f, i, v);
    }
}

pub proof fn lemma_seq_sum_remove<A>(s: Seq<A>, f: spec_fn(A) -> int, i: int)
    requires
        0 <= i < s.len(),
    ensures
        seq_sum(s.remove(i), f) == seq_sum(s, f) - f(s[i]),
    decreases s.len(),
{
    if i == s.len() - 1 {
        assert(s.remove(i) =~= s.drop_last());
    } else {
        assert(s.remove(i).drop_last() =~= s.drop_last().remove(i));
        assert(s.remove(i).last() == s.last());
        lemma_seq_sum_remove(s.drop_last(), f, i);
    }
}

pub proof fn lemma_seq_sum_nonneg<A>(s: Seq<A>, f: spec_fn(A) -> int)
    requires
        forall|i: int| 0 <= i < s.len() ==> #[trigger] f(s[i]) >= 0,
    ensures
        seq_sum(s, f) >= 0,
    decreases s.len(),
{
    if s.len() > 0 {
        assert(forall|i: int| 0 <= i < s.drop_last().len() ==> s.drop_last()[i] == s[i]);
        lemma_seq_sum_nonneg(s.drop_last(), f);
    }
}

pub proof fn lemma_seq_sum_ge_len<A>(s: Seq<A>, f: spec_fn(A) -> int)
    requires
        forall|i: int| 0 <= i < s.len() ==> #[trigger] f(s[i]) >= 1,
    ensures
        seq_sum(s, f) >= s.len(),
    decreases s.len(),
{
    if s.len() > 0 {
        assert(forall|i: int| 0 <= i < s.drop_last().len() ==> s.drop_last()[i] == s[i]);
        lemma_seq_sum_ge_len(s.drop_last(), f);
    }
}

pub proof fn lemma_seq_sum_le_len<A>(s: Seq<A>, f: spec_fn(A) -> int)
    requires
        forall|i: int| 0 <= i < s.len() ==> #[trigger] f(s[i]) <= 1,
    ensures
        seq_sum(s, f) <= s.len(),
    decreases s.len(),
{
    if s.len() > 0 {
        assert(forall|i: int| 0 <= i < s.drop_last().len() ==> s.drop_last()[i] == s[i]);
        lemma_seq_sum_le_len(s.drop_last(), f);
    }
}

pub proof fn lemma_seq_sum_push<A>(s: Seq<A>, f: spec_fn(A) -> int, v: A)
    ensures
        seq_sum(s.push(v), f) == seq_sum(s, f) + f(v),
{
    assert(s.push(v).drop_last() =~= s);
}

/// Number of clients attached to one entry.
pub open spec fn entry_clients(e: (PendingQueryKey, PendingQuery)) -> int {
    e.1.client_queries@.len() as int
}

/// Sum over the table of the clients attached to each entry. The global
/// waiting-clients counter must always equal it.
pub open spec fn waiting_total(entries: Seq<(PendingQueryKey, PendingQuery)>) -> int {
    seq_sum(entries, |e: (PendingQueryKey, PendingQuery)| entry_clients(e))
}

/// Number of entries whose current attempt targets server `idx`. Each
/// server's pending count must always equal it.
pub open spec fn count_targeting(entries: Seq<(PendingQueryKey, PendingQuery)>, idx: int) -> int {
    seq_sum(
        entries,
        |e: (PendingQueryKey, PendingQuery)|
            if e.1.upstream_server_idx == idx {
                1int
            } else {
                0int
            },
    )
}

/// No two entries share a fingerprint.
pub open spec fn keys_unique(entries: Seq<(PendingQueryKey, PendingQuery)>) -> bool {
    forall|i: int, j: int|
        0 <= i < j < entries.len() ==> #[trigger] entries[i].0@ != #[trigger] entries[j].0@
}

/// What retry keeps of an entry and what it replaces: the waiting clients,
/// the fingerprint and the probe record stay; the wire question, outbound
/// port, timestamp and target move to the new attempt, and the attempt count
/// grows by one.
pub open spec fn retry_updated_entry(
    pre: (PendingQueryKey, PendingQuery),
    post: (PendingQueryKey, PendingQuery),
    minimal: NormalizedQuestionMinimal,
    local_port: u16,
    ts: u64,
    upstream_server_idx: usize,
) -> bool {
    &&& post.0 == pre.0
    &&& post.1.normalized_question_minimal == minimal
    &&& post.1.local_port == local_port
    &&& post.1.client_queries == pre.1.client_queries
    &&& post.1.ts == ts
    &&& post.1.upstream_server_idx == upstream_server_idx
    &&& post.1.probed_socket_addr == pre.1.probed_socket_addr
    &&& post.1.attempts == pre.1.attempts + 1
    &&& post.1.custom_hash == pre.1.custom_hash
}

/// What attaching a coalesced client keeps and changes: only the client list
/// grows, by that one client.
pub open spec fn attached_entry(
    pre: (PendingQueryKey, PendingQuery),
    post: (PendingQueryKey, PendingQuery),
    client: ClientQuery,
) -> bool {
    &&& post.0 == pre.0
    &&& post.1.normalized_question_minimal == pre.1.normalized_question_minimal
    &&& post.1.local_port == pre.1.local_port
    &&& post.1.client_queries@ == pre.1.client_queries@.push(client)
    &&& post.1.ts == pre.1.ts
    &&& post.1.upstream_server_idx == pre.1.upstream_server_idx
    &&& post.1.probed_socket_addr == pre.1.probed_socket_addr
    &&& post.1.attempts == pre.1.attempts
    &&& post.1.custom_hash == pre.1.custom_hash
}

/// The pending table: fingerprint to aggregate, in insertion order, oldest
/// first.
pub struct PendingQueries {
    pub entries: Vec<(PendingQueryKey, PendingQuery)>,
}

impl PendingQueries {
    /// Whether some entry carries this fingerprint.
    pub open spec fn contains_key(&self, k: PendingKeyView) -> bool {
        exists|i: int| 0 <= i < self.entries@.len() && self.entries@[i].0@ == k
    }

    /// Index of the entry carrying this fingerprint.
    pub open spec fn index_of_key(&self, k: PendingKeyView) -> int {
        choose|i: int| 0 <= i < self.entries@.len() && self.entries@[i].0@ == k
    }

    pub fn new() -> (t: PendingQueries)
        ensures
            t.entries@ =~= Seq::<(PendingQueryKey, PendingQuery)>::empty(),
    {
        PendingQueries { entries: Vec::new() }
    }

    pub fn len(&self) -> (n: usize)
        ensures
            n == self.entries@.len(),
    {
        self.entries.len()
    }

    /// Position of the entry with this fingerprint, if any.
    pub fn find(&self, key: &PendingQueryKey) -> (r: Option<usize>)
        ensures
            match r {
                Some(i) => i < self.entries@.len() && self.entries@[i as int].0@ == key@,
                None => !self.contains_key(key@),
            },
    {
        let mut i: usize = 0;
        while i < self.entries.len()
            invariant
                i <= self.entries@.len(),
                forall|j: int| 0 <= j < i ==> self.entries@[j].0@ != key@,
            decreases self.entries@.len() - i,
        {
            if pending_key_eq(&self.entries[i].0, key) {
                return Some(i);
            }
            i = i + 1;
        }
        None
    }

    /// Appends a client to the entry with this fingerprint, if one exists;
    /// otherwise leaves the table unchanged.
    pub fn try_attach(&mut self, key: &PendingQueryKey, client: ClientQuery) -> (attached: bool)
        ensures
            attached == old(self).contains_key(key@),
            !attached ==> *final(self) == *old(self),
            attached ==> {
                exists|i: int|
                    0 <= i < old(self).entries@.len() && old(self).entries@[i].0@ == key@
                        && final(self).entries@.len() == old(self).entries@.len() && (forall|j: int|
                        0 <= j < old(self).entries@.len() && j != i ==> final(self).entries@[j]
                            == old(self).entries@[j]) && #[trigger] attached_entry(
                        old(self).entries@[i],
                        final(self).entries@[i],
                        client,
                    )
            },
    {
        let found = self.find(key);
        match found {
            None => false,
            Some(i) => {
                let ghost pre = self.entries@;
                let mut entry = self.entries.remove(i);
                entry.1.client_queries.push(client);
                self.entries.insert(i, entry);
                proof {
                    assert(self.entries@.len() == pre.len());
                    assert(forall|j: int|
                        0 <= j < pre.len() && j != i ==> self.entries@[j] == pre[j]);
                    assert(attached_entry(pre[i as int], self.entries@[i as int], client));
                }
                true
            },
        }
    }

    /// Inserts a freshly built entry; the fingerprint must be new.
    pub fn insert(&mut self, key: PendingQueryKey, pending_query: PendingQuery)
        requires
            !old(self).contains_key(key@),
        ensures
            final(self).entries@ == old(self).entries@.push((key, pending_query)),
    {
        self.entries.push((key, pending_query));
    }

    /// Removes and returns the entry with this fingerprint, if any.
    pub fn remove(&mut self, key: &PendingQueryKey) -> (r: Option<PendingQuery>)
        ensures
            match r {
                Some(pq) => {
                    exists|i: int|
                        0 <= i < old(self).entries@.len() && old(self).entries@[i].0@ == key@ && pq
                            == old(self).entries@[i].1 && final(self).entries@ == old(self).entries@.remove(i)
                },
                None => !old(self).contains_key(key@) && final(self).entries@ == old(self).entries@,
            },
    {
        let found = self.find(key);
        match found {
            None => None,
            Some(i) => {
                let entry = self.entries.remove(i);
                Some(entry.1)
            },
        }
    }

    /// Admission eviction: removes the oldest entry, if any.
    pub fn evict_one(&mut self) -> (r: Option<PendingQuery>)
        ensures
            match r {
                Some(pq) => old(self).entries@.len() > 0 && pq == old(self).entries@[0].1 && final(self).entries@ == old(self).entries@.remove(0),
                None => old(self).entries@.len() == 0 && final(self).entries@ == old(self).entries@,
            },
    {
        if self.entries.len() == 0 {
            return None;
        }
        let entry = self.entries.remove(0);
        Some(entry.1)
    }

    /// Replaces the attempt-specific fields of entry `i` for the retry.
    pub fn retry_update(
        &mut self,
        i: usize,
        minimal: NormalizedQuestionMinimal,
        local_port: u16,
        ts: u64,
        upstream_server_idx: usize,
    )
        requires
            i < old(self).entries@.len(),
            old(self).entries@[i as int].1.attempts < 255,
        ensures
            final(self).entries@.len() == old(self).entries@.len(),
            forall|j: int|
                0 <= j < old(self).entries@.len() && j != i ==> final(self).entries@[j] == old(self).entries@[j],
            retry_updated_entry(
                old(self).entries@[i as int],
                final(self).entries@[i as int],
                minimal,
                local_port,
                ts,
                upstream_server_idx,
            ),
    {
        let ghost pre = self.entries@;
        let mut entry = self.entries.remove(i);
        entry.1.normalized_question_minimal = minimal;
        entry.1.local_port = local_port;
        entry.1.ts = ts;
        entry.1.upstream_server_idx = upstream_server_idx;
        entry.1.attempts = entry.1.attempts + 1;
        self.entries.insert(i, entry);
        proof {
            assert(forall|j: int| 0 <= j < pre.len() && j != i ==> self.entries@[j] == pre[j]);
        }
    }
}

} // verus!
