use dns_zones::counter::RequestCounter;
use dns_zones::types::{DnsMessageType, DnsOpCode, DnsResponse, Error, IpAddress, Query,
    RecordData, ResponseCodeKind, Zone};
use dns_zones::zone::Handler;

fn labels(name: &str) -> Vec<Vec<u8>> {
    name.split('.').map(|l| l.as_bytes().to_vec()).collect()
}

fn query(name: &str) -> Query {
    Query {
        op_code: DnsOpCode::Query,
        message_type: DnsMessageType::Query,
        name: labels(name),
        src: IpAddress::V4(0x7f000001),
    }
}

fn handler() -> Handler {
    Handler::from_options(&b"mentisnovae.tech".to_vec())
}

fn txt_of(resp: &DnsResponse) -> String {
    assert_eq!(resp.answers.len(), 1);
    match &resp.answers[0].data {
        RecordData::Txt(v) => String::from_utf8(v.clone()).unwrap(),
        other => panic!("expected a text record, got {:?}", other),
    }
}

#[test]
fn zones_derive_from_the_domain() {
    let h = handler();
    assert_eq!(h.root_zone, labels("mentisnovae.tech"));
    assert_eq!(h.counter_zone, labels("counter.mentisnovae.tech"));
    assert_eq!(h.myip_zone, labels("myip.mentisnovae.tech"));
    assert_eq!(h.coin_zone, labels("coin.mentisnovae.tech"));
    assert_eq!(h.dice_zone, labels("dice.mentisnovae.tech"));
    assert_eq!(h.cidr_zone, labels("cidr.mentisnovae.tech"));
    assert_eq!(h.time_zone, labels("time.mentisnovae.tech"));
}

#[test]
fn classification_prefers_derived_zones_over_root() {
    let h = handler();
    assert_eq!(h.classify(&labels("counter.mentisnovae.tech")), Some(Zone::Counter));
    assert_eq!(h.classify(&labels("myip.mentisnovae.tech")), Some(Zone::MyIp));
    assert_eq!(h.classify(&labels("coin.mentisnovae.tech")), Some(Zone::Coin));
    assert_eq!(h.classify(&labels("dice.mentisnovae.tech")), Some(Zone::Dice));
    assert_eq!(h.classify(&labels("a.b.cidr.mentisnovae.tech")), Some(Zone::Cidr));
    assert_eq!(h.classify(&labels("epoch.0.time.mentisnovae.tech")), Some(Zone::Time));
    assert_eq!(h.classify(&labels("mentisnovae.tech")), Some(Zone::Root));
    assert_eq!(h.classify(&labels("www.mentisnovae.tech")), Some(Zone::Root));
    assert_eq!(h.classify(&labels("example.com")), None);
    assert_eq!(h.classify(&labels("tech")), None);
}

#[test]
fn classification_is_case_insensitive() {
    let h = handler();
    assert_eq!(h.classify(&labels("Counter.MentisNovae.TECH")), Some(Zone::Counter));
    assert_eq!(h.classify(&labels("MYIP.mentisnovae.tech")), Some(Zone::MyIp));
}

#[test]
fn unmatched_name_fails_without_counting() {
    // A name sharing no suffix with the root domain: InvalidZone, counter still.
    let h = handler();
    let mut c = RequestCounter::new();
    let q = query("example.com");
    let r = h.do_handle_request(&mut c, &q);
    assert!(matches!(r, Err(Error::InvalidZone(ref n)) if *n == labels("example.com")));
    assert_eq!(c.value, 0);
}

#[test]
fn non_query_op_code_is_rejected_without_counting() {
    let h = handler();
    let mut c = RequestCounter::new();
    let mut q = query("counter.mentisnovae.tech");
    q.op_code = DnsOpCode::Status;
    let r = h.do_handle_request(&mut c, &q);
    assert!(matches!(r, Err(Error::InvalidOpCode(DnsOpCode::Status))));
    assert_eq!(c.value, 0);
}

#[test]
fn non_query_message_type_is_rejected_without_counting() {
    let h = handler();
    let mut c = RequestCounter::new();
    let mut q = query("counter.mentisnovae.tech");
    q.message_type = DnsMessageType::Response;
    let r = h.do_handle_request(&mut c, &q);
    assert!(matches!(r, Err(Error::InvalidMessageType(DnsMessageType::Response))));
    assert_eq!(c.value, 0);
}

#[test]
fn default_zone_answers_nxdomain_and_counts() {
    let h = handler();
    let mut c = RequestCounter::new();
    let r = h.do_handle_request(&mut c, &query("anything.mentisnovae.tech")).unwrap();
    assert!(r.authoritative);
    assert_eq!(r.code, ResponseCodeKind::NxDomain);
    assert_eq!(r.answers.len(), 0);
    assert_eq!(c.value, 1);
}

#[test]
fn myip_echoes_the_client_address() {
    let h = handler();
    let mut c = RequestCounter::new();
    let mut q = query("myip.mentisnovae.tech");
    q.src = IpAddress::V4(0xc0000201);
    let r = h.do_handle_request(&mut c, &q).unwrap();
    assert!(r.authoritative);
    assert_eq!(r.code, ResponseCodeKind::NoError);
    assert_eq!(r.answers.len(), 1);
    assert_eq!(r.answers[0].ttl, 60);
    assert_eq!(r.answers[0].name, labels("myip.mentisnovae.tech"));
    assert!(matches!(r.answers[0].data, RecordData::A(0xc0000201)));

    q.src = IpAddress::V6(0x20010db8_00000000_00000000_00000001);
    let r = h.do_handle_request(&mut c, &q).unwrap();
    assert!(matches!(r.answers[0].data, RecordData::Aaaa(0x20010db8_00000000_00000000_00000001)));
    assert_eq!(c.value, 2);
}

#[test]
fn counter_zone_reports_the_post_increment_value() {
    let h = handler();
    let mut c = RequestCounter::new();
    let q = query("counter.mentisnovae.tech");
    let r = h.do_handle_request(&mut c, &q).unwrap();
    assert_eq!(txt_of(&r), "1");
    let r = h.do_handle_request(&mut c, &q).unwrap();
    assert_eq!(txt_of(&r), "2");
    assert_eq!(c.value, 2);
}

#[test]
fn counter_values_are_distinct_and_gapless() {
    // Serializable increments: n requests from a fresh counter report 1..=n.
    let h = handler();
    let mut c = RequestCounter::new();
    let q = query("counter.mentisnovae.tech");
    let mut seen: Vec<u64> = Vec::new();
    for _ in 0..100 {
        let r = h.do_handle_request(&mut c, &q).unwrap();
        seen.push(txt_of(&r).parse().unwrap());
    }
    let expected: Vec<u64> = (1..=100).collect();
    assert_eq!(seen, expected);
}

#[test]
fn every_zone_increments_the_counter_once() {
    let h = handler();
    let mut c = RequestCounter::new();
    for name in [
        "myip.mentisnovae.tech",
        "counter.mentisnovae.tech",
        "coin.mentisnovae.tech",
        "dice.mentisnovae.tech",
        "mentisnovae.tech",
    ] {
        let before = c.value;
        let _ = h.do_handle_request(&mut c, &query(name));
        assert_eq!(c.value, before + 1);
    }
    // A malformed Cidr query still counts: the handler was invoked.
    let before = c.value;
    let r = h.do_handle_request(&mut c, &query("junk.cidr.mentisnovae.tech"));
    assert!(matches!(r, Err(Error::InvalidCidrQuery)));
    assert_eq!(c.value, before + 1);
}

#[test]
fn handle_request_turns_errors_into_servfail() {
    let h = handler();
    let mut c = RequestCounter::new();
    let mut q = query("counter.mentisnovae.tech");
    q.op_code = DnsOpCode::Notify;
    let r = h.handle_request(&mut c, &q);
    assert_eq!(r.code, ResponseCodeKind::ServFail);
    assert!(!r.authoritative);
    assert_eq!(r.answers.len(), 0);
    assert_eq!(c.value, 0);

    let r = h.handle_request(&mut c, &query("example.org"));
    assert_eq!(r.code, ResponseCodeKind::ServFail);
    assert_eq!(c.value, 0);

    let r = h.handle_request(&mut c, &query("counter.mentisnovae.tech"));
    assert_eq!(r.code, ResponseCodeKind::NoError);
    assert_eq!(c.value, 1);
}
