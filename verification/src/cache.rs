//! The answer cache as the core sees it: a lookup by fingerprint that may
//! return a packet even after its freshness has lapsed. It is filled by the
//! response path and consulted when upstreams fail.

use vstd::prelude::*;
use crate::pending::{pending_key_eq, PendingKeyView, PendingQueryKey};

verus! {

/// Cached packets, keyed by fingerprint.
pub struct Cache {
    pub entries: Vec<(PendingQueryKey, Vec<u8>)>,
}

impl Cache {
    /// Whether a packet is cached under this fingerprint.
    pub open spec fn contains_key(&self, k: PendingKeyView) -> bool {
        exists|i: int| 0 <= i < self.entries@.len() && self.entries@[i].0@ == k
    }

    /// The first cached packet under this fingerprint.
    pub open spec fn packet_for(&self, k: PendingKeyView) -> Seq<u8> {
        self.entries@[self.first_index_of(k)].1@
    }

    /// Index of the first entry under this fingerprint.
    pub open spec fn first_index_of(&self, k: PendingKeyView) -> int {
        choose|i: int|
            0 <= i < self.entries@.len() && self.entries@[i].0@ == k && forall|j: int|
                0 <= j < i ==> self.entries@[j].0@ != k
    }

    pub fn new() -> (c: Cache)
        ensures
            c.entries@.len() == 0,
    {
        Cache { entries: Vec::new() }
    }

    /// Looks a fingerprint up; a hit returns the cached packet bytes, stale
    /// or not.
    pub fn get(&self, key: &PendingQueryKey) -> (r: Option<&Vec<u8>>)
        ensures
            r is Some <==> self.contains_key(key@),
            r is Some ==> r->0@ == self.packet_for(key@),
    {
        let mut i: usize = 0;
        while i < self.entries.len()
            invariant
                i <= self.entries@.len(),
                forall|j: int| 0 <= j < i ==> self.entries@[j].0@ != key@,
            decreases self.entries@.len() - i,
        {
            if pending_key_eq(&self.entries[i].0, key) {
                proof {
                    assert(self.first_index_of(key@) == i);
                }
                return Some(&self.entries[i].1);
            }
            i = i + 1;
        }
        None
    }

    /// Stores a packet under a fingerprint. Lookup returns the earliest
    /// stored packet for a fingerprint, so refreshing an entry is the
    /// response path's concern; the core only reads.
    pub fn insert(&mut self, key: PendingQueryKey, packet: Vec<u8>)
        ensures
            final(self).entries@ == old(self).entries@.push((key, packet)),
    {
        self.entries.push((key, packet));
    }
}

} // verus!
