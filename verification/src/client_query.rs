//! A client query waiting for a response, as the core sees it: the
//! normalized question, the upstream servers this client may be routed to,
//! and an opaque handle standing for the reply channel.

use vstd::prelude::*;
use crate::dns::{CustomHash, NormalizedQuestion};

verus! {

/// A per-query view of an upstream server, naming it by address.
#[derive(Clone, Copy, PartialEq, Eq, Structural)]
pub struct UpstreamServerForQuery {
    pub socket_addr: u64,
}

/// A request awaiting a response. Immutable once created.
#[derive(Clone)]
pub struct ClientQuery {
    /// Opaque handle of the reply channel; a response action names it.
    pub client_id: u64,
    pub normalized_question: NormalizedQuestion,
    /// Candidate upstreams allowed for this query.
    pub upstream_servers_for_query: Vec<UpstreamServerForQuery>,
    /// Reserved pair for policy extensions, part of the cache key.
    pub custom_hash: CustomHash,
}

impl ClientQuery {
    /// A query the core accepts: its question is well-formed.
    pub open spec fn wf(&self) -> bool {
        self.normalized_question.wf()
    }
}

} // verus!
