//! The request dispatcher: it validates the message shape, classifies the
//! name, runs the matching zone handler — each handler increments the shared
//! counter exactly once on invocation — and, at the outermost boundary,
//! turns every failure into a server-failure response, so that each request
//! receives exactly one response.

use vstd::prelude::*;
use crate::cidr::{cidr_range, cidr_range_spec, range_bytes, range_text};
use crate::counter::{counter_after, RequestCounter};
use crate::epoch::{chrono_format_epoch, epoch_answer, epoch_tag, epoch_text, lemma_epoch_tag_lower,
    make_epoch_label};
use crate::ip::{parse_ip, parse_ip_label};
use crate::random::{coin_flip, coin_text, heads_text, roll_die, tails_text};
use crate::text::{bytes_eq_ci, dec_bytes, dec_str, dec_val, label_lower, lemma_vec_u8_deep_view,
    parse_u64, parses_u64};
use crate::types::{copy_labels, is_single_answer, is_servfail, nxdomain_response, servfail_response,
    single_answer, DnsMessageType, DnsOpCode, DnsResponse, Error, IpAddress, Query, RecordData,
    RecordDataView, ResponseCodeKind, Zone};
use crate::zone::{lemma_unmatched_name_unclassified, zone_of, Handler};

verus! {

broadcast use lemma_vec_u8_deep_view;

/// The record payload that echoes a client address: an address record of
/// the client's own family.
pub open spec fn addr_data(src: IpAddress) -> RecordDataView {
    match src {
        IpAddress::V4(a) => RecordDataView::A(a),
        IpAddress::V6(a) => RecordDataView::Aaaa(a),
    }
}

/// What the Cidr zone answers for a name of `zone_len` trailing zone labels:
/// the name must hold exactly an address label and a prefix label ahead of
/// the zone name, the address must parse, and the prefix length must be a
/// decimal number no larger than the address width.
pub open spec fn cidr_reply(zone_len: int, name: Seq<Seq<u8>>) -> Option<Seq<u8>> {
    if name.len() == zone_len + 2 && parse_ip(name[0]) is Some && parses_u64(name[1]) {
        match cidr_range_spec(parse_ip(name[0])->0, dec_val(name[1]) as u64) {
            Some(p) => Some(range_text(p.0, p.1)),
            None => None,
        }
    } else {
        None
    }
}

/// What the Time zone answers for a name of `zone_len` trailing zone labels:
/// the label "epoch", then a decimal timestamp that fits a signed 64-bit
/// count of seconds, then the zone name; chrono has the last word on the
/// calendar range.
pub open spec fn epoch_reply(zone_len: int, name: Seq<Seq<u8>>) -> Option<Seq<u8>> {
    if name.len() == zone_len + 2 && label_lower(name[0]) == epoch_tag() && parses_u64(name[1])
        && dec_val(name[1]) <= i64::MAX {
        epoch_text(dec_val(name[1]) as i64)
    } else {
        None
    }
}

/// The refusal of a name outside every zone: the invalid-zone error carrying
/// the offending name.
pub open spec fn is_invalid_zone_err(r: Result<DnsResponse, Error>, name: Seq<Seq<u8>>) -> bool {
    match r {
        Err(Error::InvalidZone(n)) => n.deep_view() == name,
        _ => false,
    }
}

/// Whether a request gets as far as a zone handler — exactly then is the
/// counter incremented, exactly once.
pub open spec fn dispatch_counts(h: Handler, q: Query) -> bool {
    &&& q.op_code == DnsOpCode::Query
    &&& q.message_type == DnsMessageType::Query
    &&& h.classify_spec(q.name.deep_view()) is Some
}

/// What the handler of zone `z` may hand back for query `q`, the counter
/// having stood at `c0` when the handler started.
pub open spec fn zone_outcome(
    h: Handler,
    z: Zone,
    q: Query,
    c0: u64,
    r: Result<DnsResponse, Error>,
) -> bool {
    match z {
        Zone::MyIp => r matches Ok(resp) && is_single_answer(
            resp,
            q.name.deep_view(),
            addr_data(q.src),
        ),
        Zone::Counter => r matches Ok(resp) && is_single_answer(
            resp,
            q.name.deep_view(),
            RecordDataView::Txt(dec_str(counter_after(c0) as nat)),
        ),
        Zone::Coin => r matches Ok(resp) && (is_single_answer(
            resp,
            q.name.deep_view(),
            RecordDataView::Txt(heads_text()),
        ) || is_single_answer(resp, q.name.deep_view(), RecordDataView::Txt(tails_text()))),
        Zone::Dice => r matches Ok(resp) && (exists|d: u64|
            1 <= d <= 6 && is_single_answer(
                resp,
                q.name.deep_view(),
                RecordDataView::Txt(dec_str(d as nat)),
            )),
        Zone::Cidr => match cidr_reply(h.cidr_zone.deep_view().len() as int, q.name.deep_view()) {
            Some(t) => r matches Ok(resp) && is_single_answer(
                resp,
                q.name.deep_view(),
                RecordDataView::Txt(t),
            ),
            None => r == Err::<DnsResponse, _>(Error::InvalidCidrQuery),
        },
        Zone::Time => match epoch_reply(h.time_zone.deep_view().len() as int, q.name.deep_view()) {
            Some(t) => r matches Ok(resp) && is_single_answer(
                resp,
                q.name.deep_view(),
                RecordDataView::Txt(t),
            ),
            None => r == Err::<DnsResponse, _>(Error::InvalidEpochQuery),
        },
        Zone::Root => r matches Ok(resp) && resp.authoritative && resp.code
            == ResponseCodeKind::NxDomain && resp.answers@.len() == 0,
    }
}

/// As `zone_outcome`, at the outermost boundary: a handler failure has
/// become a server-failure response.
pub open spec fn zone_response(h: Handler, z: Zone, q: Query, c0: u64, resp: DnsResponse) -> bool {
    match z {
        Zone::MyIp => is_single_answer(resp, q.name.deep_view(), addr_data(q.src)),
        Zone::Counter => is_single_answer(
            resp,
            q.name.deep_view(),
            RecordDataView::Txt(dec_str(counter_after(c0) as nat)),
        ),
        Zone::Coin => is_single_answer(resp, q.name.deep_view(), RecordDataView::Txt(heads_text()))
            || is_single_answer(resp, q.name.deep_view(), RecordDataView::Txt(tails_text())),
        Zone::Dice => exists|d: u64|
            1 <= d <= 6 && is_single_answer(
                resp,
                q.name.deep_view(),
                RecordDataView::Txt(dec_str(d as nat)),
            ),
        Zone::Cidr => match cidr_reply(h.cidr_zone.deep_view().len() as int, q.name.deep_view()) {
            Some(t) => is_single_answer(resp, q.name.deep_view(), RecordDataView::Txt(t)),
            None => is_servfail(resp),
        },
        Zone::Time => match epoch_reply(h.time_zone.deep_view().len() as int, q.name.deep_view()) {
            Some(t) => is_single_answer(resp, q.name.deep_view(), RecordDataView::Txt(t)),
            None => is_servfail(resp),
        },
        Zone::Root => resp.authoritative && resp.code == ResponseCodeKind::NxDomain
            && resp.answers@.len() == 0,
    }
}

impl Handler {
    /// Echoes the client's source address: an A record for an IPv4 client,
    /// an AAAA record for an IPv6 client.
    pub fn do_handle_request_myip(&self, counter: &mut RequestCounter, q: &Query) -> (r: Result<
        DnsResponse,
        Error,
    >)
        ensures
            final(counter).value == counter_after(old(counter).value),
            r matches Ok(resp) && is_single_answer(resp, q.name.deep_view(), addr_data(q.src)),
    {
        counter.increment();
        let data = match q.src {
            IpAddress::V4(a) => RecordData::A(a),
            IpAddress::V6(a) => RecordData::Aaaa(a),
        };
        Ok(single_answer(copy_labels(&q.name), data))
    }

    /// Reports the counter value after this request's own increment, in
    /// decimal text.
    pub fn do_handle_request_counter(&self, counter: &mut RequestCounter, q: &Query) -> (r: Result<
        DnsResponse,
        Error,
    >)
        ensures
            final(counter).value == counter_after(old(counter).value),
            r matches Ok(resp) && is_single_answer(
                resp,
                q.name.deep_view(),
                RecordDataView::Txt(dec_str(counter_after(old(counter).value) as nat)),
            ),
    {
        let value = counter.increment();
        Ok(single_answer(copy_labels(&q.name), RecordData::Txt(dec_bytes(value))))
    }

    /// Answers "heads" or "tails", each with probability one half.
    pub fn do_handle_request_coin(&self, counter: &mut RequestCounter, q: &Query) -> (r: Result<
        DnsResponse,
        Error,
    >)
        ensures
            final(counter).value == counter_after(old(counter).value),
            r matches Ok(resp) && (is_single_answer(
                resp,
                q.name.deep_view(),
                RecordDataView::Txt(heads_text()),
            ) || is_single_answer(resp, q.name.deep_view(), RecordDataView::Txt(tails_text()))),
    {
        counter.increment();
        let text = coin_text(coin_flip());
        Ok(single_answer(copy_labels(&q.name), RecordData::Txt(text)))
    }

    /// Answers a uniform die roll, one through six, in decimal text.
    pub fn do_handle_request_dice(&self, counter: &mut RequestCounter, q: &Query) -> (r: Result<
        DnsResponse,
        Error,
    >)
        ensures
            final(counter).value == counter_after(old(counter).value),
            r matches Ok(resp) && (exists|d: u64|
                1 <= d <= 6 && is_single_answer(
                    resp,
                    q.name.deep_view(),
                    RecordDataView::Txt(dec_str(d as nat)),
                )),
    {
        counter.increment();
        let d = roll_die();
        let resp = single_answer(copy_labels(&q.name), RecordData::Txt(dec_bytes(d)));
        proof {
            assert(is_single_answer(
                resp,
                q.name.deep_view(),
                RecordDataView::Txt(dec_str(d as nat)),
            ));
        }
        Ok(resp)
    }

    /// Parses "<address>.<prefix>." off the front of a Cidr-zone name and
    /// answers the usable range; any deviation is the malformed-query error.
    pub fn do_handle_request_cidr(&self, counter: &mut RequestCounter, q: &Query) -> (r: Result<
        DnsResponse,
        Error,
    >)
        ensures
            final(counter).value == counter_after(old(counter).value),
            match cidr_reply(self.cidr_zone.deep_view().len() as int, q.name.deep_view()) {
                Some(t) => r matches Ok(resp) && is_single_answer(
                    resp,
                    q.name.deep_view(),
                    RecordDataView::Txt(t),
                ),
                None => r == Err::<DnsResponse, _>(Error::InvalidCidrQuery),
            },
    {
        counter.increment();
        if q.name.len() < 2 || q.name.len() - 2 != self.cidr_zone.len() {
            return Err(Error::InvalidCidrQuery);
        }
        proof {
            assert(q.name.deep_view()[0] == q.name@[0]@);
            assert(q.name.deep_view()[1] == q.name@[1]@);
        }
        let addr = match parse_ip_label(&q.name[0]) {
            Some(a) => a,
            None => {
                return Err(Error::InvalidCidrQuery);
            },
        };
        let prefix = match parse_u64(&q.name[1]) {
            Some(p) => p,
            None => {
                return Err(Error::InvalidCidrQuery);
            },
        };
        match cidr_range(addr, prefix) {
            Ok((start, end)) => Ok(
                single_answer(copy_labels(&q.name), RecordData::Txt(range_bytes(start, end))),
            ),
            Err(e) => Err(e),
        }
    }

    /// Parses "epoch.<digits>." off the front of a Time-zone name and
    /// answers the calendar rendering of that Unix timestamp; any deviation,
    /// and any timestamp out of range, is the invalid-query error.
    pub fn handle_epoch_request(&self, counter: &mut RequestCounter, q: &Query) -> (r: Result<
        DnsResponse,
        Error,
    >)
        ensures
            final(counter).value == counter_after(old(counter).value),
            match epoch_reply(self.time_zone.deep_view().len() as int, q.name.deep_view()) {
                Some(t) => r matches Ok(resp) && is_single_answer(
                    resp,
                    q.name.deep_view(),
                    RecordDataView::Txt(t),
                ),
                None => r == Err::<DnsResponse, _>(Error::InvalidEpochQuery),
            },
    {
        counter.increment();
        if q.name.len() < 2 || q.name.len() - 2 != self.time_zone.len() {
            return Err(Error::InvalidEpochQuery);
        }
        proof {
            assert(q.name.deep_view()[0] == q.name@[0]@);
            assert(q.name.deep_view()[1] == q.name@[1]@);
            lemma_epoch_tag_lower();
        }
        let tag = make_epoch_label();
        if !bytes_eq_ci(&q.name[0], &tag) {
            return Err(Error::InvalidEpochQuery);
        }
        let secs = match parse_u64(&q.name[1]) {
            Some(v) => {
                if v <= 0x7fffffffffffffffu64 {
                    v as i64
                } else {
                    return Err(Error::InvalidEpochQuery);
                }
            },
            None => {
                return Err(Error::InvalidEpochQuery);
            },
        };
        epoch_answer(&q.name, chrono_format_epoch(secs))
    }

    /// The default zone: nothing to synthesize — an authoritative NXDOMAIN
    /// with no records, after the one counter increment.
    pub fn do_handle_request_default(&self, counter: &mut RequestCounter, q: &Query) -> (r: Result<
        DnsResponse,
        Error,
    >)
        ensures
            final(counter).value == counter_after(old(counter).value),
            r matches Ok(resp) && resp.authoritative && resp.code == ResponseCodeKind::NxDomain
                && resp.answers@.len() == 0,
    {
        counter.increment();
        Ok(nxdomain_response())
    }

    /// Validates the message shape, classifies the name, and runs the one
    /// matching handler. The counter moves exactly when a handler runs.
    pub fn do_handle_request(&self, counter: &mut RequestCounter, q: &Query) -> (r: Result<
        DnsResponse,
        Error,
    >)
        ensures
            dispatch_counts(*self, *q) ==> final(counter).value == counter_after(
                old(counter).value,
            ),
            !dispatch_counts(*self, *q) ==> *final(counter) == *old(counter),
            q.op_code != DnsOpCode::Query ==> r == Err::<DnsResponse, _>(
                Error::InvalidOpCode(q.op_code),
            ),
            q.op_code == DnsOpCode::Query && q.message_type != DnsMessageType::Query ==> r == Err::<
                DnsResponse,
                _,
            >(Error::InvalidMessageType(q.message_type)),
            q.op_code == DnsOpCode::Query && q.message_type == DnsMessageType::Query ==> (match self.classify_spec(
                q.name.deep_view(),
            ) {
                Some(z) => zone_outcome(*self, z, *q, old(counter).value, r),
                None => is_invalid_zone_err(r, q.name.deep_view()),
            }),
    {
        if q.op_code != DnsOpCode::Query {
            return Err(Error::InvalidOpCode(q.op_code));
        }
        if q.message_type != DnsMessageType::Query {
            return Err(Error::InvalidMessageType(q.message_type));
        }
        match self.classify(&q.name) {
            Some(Zone::MyIp) => self.do_handle_request_myip(counter, q),
            Some(Zone::Counter) => self.do_handle_request_counter(counter, q),
            Some(Zone::Coin) => self.do_handle_request_coin(counter, q),
            Some(Zone::Dice) => self.do_handle_request_dice(counter, q),
            Some(Zone::Cidr) => self.do_handle_request_cidr(counter, q),
            Some(Zone::Time) => self.handle_epoch_request(counter, q),
            Some(Zone::Root) => self.do_handle_request_default(counter, q),
            None => Err(Error::InvalidZone(copy_labels(&q.name))),
        }
    }

    /// The outermost boundary: every request gets exactly one response — the
    /// zone's answer, or a server-failure response for any dispatch error.
    pub fn handle_request(&self, counter: &mut RequestCounter, q: &Query) -> (resp: DnsResponse)
        ensures
            dispatch_counts(*self, *q) ==> final(counter).value == counter_after(
                old(counter).value,
            ),
            !dispatch_counts(*self, *q) ==> *final(counter) == *old(counter),
            !dispatch_counts(*self, *q) ==> is_servfail(resp),
            dispatch_counts(*self, *q) ==> (match self.classify_spec(q.name.deep_view()) {
                Some(z) => zone_response(*self, z, *q, old(counter).value, resp),
                None => true,
            }),
    {
        match self.do_handle_request(counter, q) {
            Ok(resp) => resp,
            Err(_) => servfail_response(),
        }
    }
}

/// A name that shares no suffix with the configured root domain is never
/// classified, so such a request is refused as an invalid zone and the
/// counter stands still — see `do_handle_request`'s contract.
pub proof fn lemma_unmatched_request_not_counted(h: Handler, q: Query)
    requires
        h.wf(),
        !zone_of(h.root_zone.deep_view(), q.name.deep_view()),
    ensures
        h.classify_spec(q.name.deep_view()) is None,
        !dispatch_counts(h, q),
{
    lemma_unmatched_name_unclassified(h, q.name.deep_view());
}

} // verus!
