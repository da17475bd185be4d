//! The plain-value model of a DNS exchange as the responder core sees it:
//! queries, answer payloads, response decisions, and the error taxonomy.
//!
//! A name is a sequence of dot-separated labels, each a byte string compared
//! case-insensitively. Addresses are carried as their big-endian integer
//! values: 32 bits for IPv4, 128 bits for IPv6.

use vstd::prelude::*;

verus! {

/// Every synthesized answer record carries this time to live, in seconds.
pub const ANSWER_TTL: u32 = 60;

/// An IP address as a plain big-endian integer of its family's width.
#[derive(Clone, Copy, Debug, PartialEq, Eq, Structural)]
pub enum IpAddress {
    V4(u32),
    V6(u128),
}

/// DNS operation codes, as far as the dispatcher distinguishes them.
#[derive(Clone, Copy, Debug, PartialEq, Eq, Structural)]
pub enum DnsOpCode {
    Query,
    Status,
    Notify,
    Update,
}

/// Whether a message is a query or a response.
#[derive(Clone, Copy, Debug, PartialEq, Eq, Structural)]
pub enum DnsMessageType {
    Query,
    Response,
}

/// The response codes the core emits.
#[derive(Clone, Copy, Debug, PartialEq, Eq, Structural)]
pub enum ResponseCodeKind {
    NoError,
    NxDomain,
    ServFail,
}

/// The payload of one synthesized answer record: an address record of either
/// family, or a single text string.
#[derive(Clone, Debug)]
pub enum RecordData {
    A(u32),
    Aaaa(u128),
    Txt(Vec<u8>),
}

/// The mathematical value of a record payload: text as a byte sequence.
pub enum RecordDataView {
    A(u32),
    Aaaa(u128),
    Txt(Seq<u8>),
}

impl View for RecordData {
    type V = RecordDataView;

    open spec fn view(&self) -> RecordDataView {
        match self {
            RecordData::A(a) => RecordDataView::A(*a),
            RecordData::Aaaa(a) => RecordDataView::Aaaa(*a),
            RecordData::Txt(t) => RecordDataView::Txt(t@),
        }
    }
}

/// One answer record: the echoed query name, a time to live, and the payload.
#[derive(Clone, Debug)]
pub struct DnsRecord {
    pub name: Vec<Vec<u8>>,
    pub ttl: u32,
    pub data: RecordData,
}

/// A complete response decision, ready for the transport layer to serialize:
/// header flags, response code, and zero or more answer records.
#[derive(Clone, Debug)]
pub struct DnsResponse {
    pub authoritative: bool,
    pub code: ResponseCodeKind,
    pub answers: Vec<DnsRecord>,
}

/// An incoming request, already parsed off the wire: operation code, message
/// type, question name as labels, and the client's source address.
#[derive(Clone, Debug)]
pub struct Query {
    pub op_code: DnsOpCode,
    pub message_type: DnsMessageType,
    pub name: Vec<Vec<u8>>,
    pub src: IpAddress,
}

/// The closed set of zones, each with its own answer synthesis.
#[derive(Clone, Copy, Debug, PartialEq, Eq, Structural)]
pub enum Zone {
    Root,
    Counter,
    MyIp,
    Coin,
    Dice,
    Cidr,
    Time,
}

/// What can go wrong while handling one request. Each variant is reported to
/// the dispatch boundary, never allowed to escape as a fault.
#[derive(Clone, Debug)]
pub enum Error {
    /// The operation code is not the standard query code.
    InvalidOpCode(DnsOpCode),
    /// The message is not a query.
    InvalidMessageType(DnsMessageType),
    /// The name is not under the configured root domain; it is carried along.
    InvalidZone(Vec<Vec<u8>>),
    /// A Cidr-zone name with the wrong label count, an unparsable address, or
    /// an out-of-range prefix length.
    InvalidCidrQuery,
    /// A Time-zone name with the wrong shape, or a timestamp that is not a
    /// decimal number in range.
    InvalidEpochQuery,
}

/// A response holding exactly one record with the given payload, addressed
/// back to the query name, authoritative and successful.
pub open spec fn is_single_answer(r: DnsResponse, name: Seq<Seq<u8>>, data: RecordDataView) -> bool {
    &&& r.authoritative
    &&& r.code == ResponseCodeKind::NoError
    &&& r.answers@.len() == 1
    &&& r.answers@[0].name.deep_view() == name
    &&& r.answers@[0].ttl == ANSWER_TTL
    &&& r.answers@[0].data@ == data
}

/// The bare server-failure shape: no records and no authority claimed.
pub open spec fn is_servfail(r: DnsResponse) -> bool {
    &&& !r.authoritative
    &&& r.code == ResponseCodeKind::ServFail
    &&& r.answers@.len() == 0
}

/// Builds the response carrying one answer record for `name`.
pub fn single_answer(name: Vec<Vec<u8>>, data: RecordData) -> (r: DnsResponse)
    ensures
        is_single_answer(r, name.deep_view(), data@),
{
    let record = DnsRecord { name, ttl: ANSWER_TTL, data };
    let mut answers: Vec<DnsRecord> = Vec::new();
    answers.push(record);
    DnsResponse { authoritative: true, code: ResponseCodeKind::NoError, answers }
}

/// The authoritative "no such name" response: no records at all.
pub fn nxdomain_response() -> (r: DnsResponse)
    ensures
        r.authoritative,
        r.code == ResponseCodeKind::NxDomain,
        r.answers@.len() == 0,
{
    DnsResponse { authoritative: true, code: ResponseCodeKind::NxDomain, answers: Vec::new() }
}

/// The bare server-failure response used when dispatch fails: no records and
/// no authority claimed.
pub fn servfail_response() -> (r: DnsResponse)
    ensures
        is_servfail(r),
{
    DnsResponse { authoritative: false, code: ResponseCodeKind::ServFail, answers: Vec::new() }
}

/// Copies a label sequence; used to echo the query name into an answer.
pub fn copy_labels(v: &Vec<Vec<u8>>) -> (r: Vec<Vec<u8>>)
    ensures
        r.deep_view() == v.deep_view(),
{
    let mut r: Vec<Vec<u8>> = Vec::new();
    let mut i: usize = 0;
    while i < v.len()
        invariant
            i <= v@.len(),
            r.deep_view().len() == i as int,
            forall|j: int| 0 <= j < i ==> r.deep_view()[j] == v.deep_view()[j],
        decreases v@.len() - i,
    {
        let mut lab: Vec<u8> = Vec::new();
        let mut k: usize = 0;
        while k < v[i].len()
            invariant
                i < v@.len(),
                k <= v@[i as int]@.len(),
                lab@ == v@[i as int]@.take(k as int),
            decreases v@[i as int]@.len() - k,
        {
            lab.push(v[i][k]);
            proof {
                assert(lab@ =~= v@[i as int]@.take(k + 1));
            }
            k += 1;
        }
        proof {
            assert(v@[i as int]@.take(v@[i as int]@.len() as int) =~= v@[i as int]@);
        }
        r.push(lab);
        i += 1;
    }
    proof {
        assert(r.deep_view() =~~= v.deep_view());
    }
    r
}

} // verus!
