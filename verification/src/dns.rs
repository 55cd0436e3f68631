//! The minimal slice of the DNS wire format that the query-handling core
//! needs: normalized questions, their coalescing keys, and the builders for
//! upstream query packets and synthesized SERVFAIL answers.

use vstd::prelude::*;

verus! {

/// Longest wire-format name accepted in a normalized question.
pub const DNS_MAX_QNAME_LEN: usize = 255;

/// Pair of hashes reserved for policy extensions; part of the fingerprint
/// and of the cache key.
#[derive(Clone, Copy, PartialEq, Eq, Structural)]
pub struct CustomHash {
    pub h0: u64,
    pub h1: u64,
}

impl CustomHash {
    /// The default pair used while no policy extension sets one.
    pub fn zero() -> (r: CustomHash)
        ensures
            r.h0 == 0,
            r.h1 == 0,
    {
        CustomHash { h0: 0, h1: 0 }
    }
}

/// Canonical form of a client DNS question. `qname` holds the uncompressed
/// wire-format name, already case-normalized by the listener side.
#[derive(Clone)]
pub struct NormalizedQuestion {
    pub qname: Vec<u8>,
    pub qtype: u16,
    pub qclass: u16,
    pub tid: u16,
    pub dnssec: bool,
}

/// Identity of a question for coalescing and cache keying: everything of the
/// question except the client's transaction id.
#[derive(Clone)]
pub struct NormalizedQuestionKey {
    pub qname: Vec<u8>,
    pub qtype: u16,
    pub qclass: u16,
    pub dnssec: bool,
}

/// What is kept of the question actually sent upstream: enough to match the
/// response, including the randomized upstream transaction id.
#[derive(Clone)]
pub struct NormalizedQuestionMinimal {
    pub qname: Vec<u8>,
    pub tid: u16,
    pub qtype: u16,
    pub qclass: u16,
}

/// Mathematical value of a question key.
pub struct QuestionKeyView {
    pub qname: Seq<u8>,
    pub qtype: u16,
    pub qclass: u16,
    pub dnssec: bool,
}

impl View for NormalizedQuestionKey {
    type V = QuestionKeyView;

    open spec fn view(&self) -> QuestionKeyView {
        QuestionKeyView {
            qname: self.qname@,
            qtype: self.qtype,
            qclass: self.qclass,
            dnssec: self.dnssec,
        }
    }
}

impl NormalizedQuestion {
    /// A question the core accepts: the name fits the wire-format bound.
    pub open spec fn wf(&self) -> bool {
        self.qname@.len() <= DNS_MAX_QNAME_LEN
    }

    /// Key of this question.
    pub open spec fn key_view(&self) -> QuestionKeyView {
        QuestionKeyView {
            qname: self.qname@,
            qtype: self.qtype,
            qclass: self.qclass,
            dnssec: self.dnssec,
        }
    }

    pub fn key(&self) -> (k: NormalizedQuestionKey)
        ensures
            k@ == self.key_view(),
    {
        NormalizedQuestionKey {
            qname: self.qname.clone(),
            qtype: self.qtype,
            qclass: self.qclass,
            dnssec: self.dnssec,
        }
    }
}

/// Exact bytes of a query packet: a 12-byte header carrying the transaction
/// id, the recursion-desired flag and a question count of one, followed by
/// the question section.
pub open spec fn spec_query_packet(qname: Seq<u8>, tid: u16, qtype: u16, qclass: u16) -> Seq<u8> {
    seq![
        (tid / 256) as u8,
        (tid % 256) as u8,
        0x01u8,
        0x00u8,
        0u8,
        1u8,
        0u8,
        0u8,
        0u8,
        0u8,
        0u8,
        0u8,
    ] + qname + seq![
        (qtype / 256) as u8,
        (qtype % 256) as u8,
        (qclass / 256) as u8,
        (qclass % 256) as u8,
    ]
}

/// Exact bytes of a synthesized SERVFAIL answer: a response header echoing
/// the client's transaction id, with recursion desired and available and a
/// SERVFAIL response code, followed by the question section.
pub open spec fn spec_servfail_packet(q: NormalizedQuestion) -> Seq<u8> {
    seq![
        (q.tid / 256) as u8,
        (q.tid % 256) as u8,
        0x81u8,
        0x82u8,
        0u8,
        1u8,
        0u8,
        0u8,
        0u8,
        0u8,
        0u8,
        0u8,
    ] + q.qname@ + seq![
        (q.qtype / 256) as u8,
        (q.qtype % 256) as u8,
        (q.qclass / 256) as u8,
        (q.qclass % 256) as u8,
    ]
}

/// Appends the question section (name, type, class) to a packet under
/// construction.
fn push_question_section(packet: &mut Vec<u8>, qname: &Vec<u8>, qtype: u16, qclass: u16)
    requires
        old(packet)@.len() + qname@.len() + 4 <= usize::MAX,
    ensures
        final(packet)@ == old(packet)@ + qname@ + seq![
            (qtype / 256) as u8,
            (qtype % 256) as u8,
            (qclass / 256) as u8,
            (qclass % 256) as u8,
        ],
{
    let ghost base = packet@;
    let mut i: usize = 0;
    while i < qname.len()
        invariant
            i <= qname@.len(),
            packet@ == base + qname@.subrange(0, i as int),
            base.len() + qname@.len() + 4 <= usize::MAX,
        decreases qname@.len() - i,
    {
        packet.push(qname[i]);
        proof {
            assert(qname@.subrange(0, i + 1 as int) == qname@.subrange(0, i as int).push(
                qname@[i as int],
            ));
        }
        i = i + 1;
    }
    proof {
        assert(qname@.subrange(0, qname@.len() as int) == qname@);
    }
    packet.push((qtype / 256) as u8);
    packet.push((qtype % 256) as u8);
    packet.push((qclass / 256) as u8);
    packet.push((qclass % 256) as u8);
    proof {
        assert(packet@ =~= base + qname@ + seq![
            (qtype / 256) as u8,
            (qtype % 256) as u8,
            (qclass / 256) as u8,
            (qclass % 256) as u8,
        ]);
    }
}

/// Builds the packet sent upstream, with the freshly drawn upstream
/// transaction id `tid`, and the minimal record kept for matching the
/// response.
pub fn build_query_packet(question: &NormalizedQuestion, tid: u16) -> (r: (
    Vec<u8>,
    NormalizedQuestionMinimal,
))
    requires
        question.wf(),
    ensures
        r.0@ == spec_query_packet(question.qname@, tid, question.qtype, question.qclass),
        r.1.qname@ == question.qname@,
        r.1.tid == tid,
        r.1.qtype == question.qtype,
        r.1.qclass == question.qclass,
{
    let mut packet: Vec<u8> = Vec::new();
    packet.push((tid / 256) as u8);
    packet.push((tid % 256) as u8);
    packet.push(0x01u8);
    packet.push(0x00u8);
    packet.push(0u8);
    packet.push(1u8);
    packet.push(0u8);
    packet.push(0u8);
    packet.push(0u8);
    packet.push(0u8);
    packet.push(0u8);
    packet.push(0u8);
    push_question_section(&mut packet, &question.qname, question.qtype, question.qclass);
    proof {
        assert(packet@ =~= spec_query_packet(
            question.qname@,
            tid,
            question.qtype,
            question.qclass,
        ));
    }
    let minimal = NormalizedQuestionMinimal {
        qname: question.qname.clone(),
        tid,
        qtype: question.qtype,
        qclass: question.qclass,
    };
    (packet, minimal)
}

/// Builds the SERVFAIL answer returned to a client when no upstream answer
/// can be obtained and no stale cache entry exists.
pub fn build_servfail_packet(question: &NormalizedQuestion) -> (r: Vec<u8>)
    requires
        question.wf(),
    ensures
        r@ == spec_servfail_packet(*question),
{
    let mut packet: Vec<u8> = Vec::new();
    packet.push((question.tid / 256) as u8);
    packet.push((question.tid % 256) as u8);
    packet.push(0x81u8);
    packet.push(0x82u8);
    packet.push(0u8);
    packet.push(1u8);
    packet.push(0u8);
    packet.push(0u8);
    packet.push(0u8);
    packet.push(0u8);
    packet.push(0u8);
    packet.push(0u8);
    push_question_section(&mut packet, &question.qname, question.qtype, question.qclass);
    proof {
        assert(packet@ =~= spec_servfail_packet(*question));
    }
    packet
}

/// Byte-for-byte equality of two byte vectors.
pub fn bytes_eq(a: &Vec<u8>, b: &Vec<u8>) -> (r: bool)
    ensures
        r <==> a@ == b@,
{
    if a.len() != b.len() {
        proof {
            assert(a@.len() != b@.len());
        }
        return false;
    }
    let mut i: usize = 0;
    while i < a.len()
        invariant
            i <= a@.len(),
            a@.len() == b@.len(),
            forall|j: int| 0 <= j < i ==> a@[j] == b@[j],
        decreases a@.len() - i,
    {
        if a[i] != b[i] {
            return false;
        }
        i = i + 1;
    }
    proof {
        assert(a@ =~= b@);
    }
    true
}

/// Field-for-field equality of two question keys.
pub fn question_key_eq(a: &NormalizedQuestionKey, b: &NormalizedQuestionKey) -> (r: bool)
    ensures
        r <==> a@ == b@,
{
    let r = bytes_eq(&a.qname, &b.qname) && a.qtype == b.qtype && a.qclass == b.qclass && a.dnssec
        == b.dnssec;
    proof {
        if a.qname@ == b.qname@ && a.qtype == b.qtype && a.qclass == b.qclass && a.dnssec
            == b.dnssec {
            assert(a@ == b@);
        }
        if a@ == b@ {
            assert(a.qname@ == b.qname@);
        }
    }
    r
}

} // verus!
