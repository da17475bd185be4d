use dns_zones::cidr::cidr_range;
use dns_zones::counter::RequestCounter;
use dns_zones::ip::{ip_bytes, parse_ip_label};
use dns_zones::types::{DnsMessageType, DnsOpCode, DnsResponse, Error, IpAddress, Query,
    RecordData};
use dns_zones::zone::Handler;

fn labels(name: &str) -> Vec<Vec<u8>> {
    name.split('.').map(|l| l.as_bytes().to_vec()).collect()
}

fn query(name: &str) -> Query {
    Query {
        op_code: DnsOpCode::Query,
        message_type: DnsMessageType::Query,
        name: labels(name),
        src: IpAddress::V4(0x7f000001),
    }
}

fn handler() -> Handler {
    Handler::from_options(&b"mentisnovae.tech".to_vec())
}

fn txt_of(resp: &DnsResponse) -> String {
    match &resp.answers[0].data {
        RecordData::Txt(v) => String::from_utf8(v.clone()).unwrap(),
        other => panic!("expected a text record, got {:?}", other),
    }
}

fn cidr_answer(name: &str) -> Result<String, Error> {
    let h = handler();
    let mut c = RequestCounter::new();
    h.do_handle_request(&mut c, &query(name)).map(|r| txt_of(&r))
}

const V4_EXAMPLE: u32 = 0xc0000282; // 192.0.2.130
const V6_EXAMPLE: u128 = 0x20010db8_00000000_00000000_00000001; // 2001:db8::1

#[test]
fn ipv4_prefix_24_gives_the_slash_24_block() {
    // 192.0.2.130/24 -> 192.0.2.0 through 192.0.2.255.
    let (start, end) = cidr_range(IpAddress::V4(V4_EXAMPLE), 24).unwrap();
    assert_eq!(start, IpAddress::V4(0xc0000200));
    assert_eq!(end, IpAddress::V4(0xc00002ff));
    assert_eq!(
        cidr_answer("192-0-2-130.24.cidr.mentisnovae.tech").unwrap(),
        "Usable IP Range: 192.0.2.0 - 192.0.2.255"
    );
}

#[test]
fn ipv6_prefix_64_gives_the_slash_64_block() {
    // 2001:db8::1/64 -> 2001:db8:: through 2001:db8::ffff:ffff:ffff:ffff.
    let (start, end) = cidr_range(IpAddress::V6(V6_EXAMPLE), 64).unwrap();
    assert_eq!(start, IpAddress::V6(0x20010db8_00000000_00000000_00000000));
    assert_eq!(end, IpAddress::V6(0x20010db8_00000000_ffffffff_ffffffff));
    assert_eq!(
        cidr_answer("2001-db8-0-0-0-0-0-1.64.cidr.mentisnovae.tech").unwrap(),
        "Usable IP Range: 2001:db8:: - 2001:db8::ffff:ffff:ffff:ffff"
    );
}

#[test]
fn prefix_zero_spans_the_whole_family() {
    let (start, end) = cidr_range(IpAddress::V4(V4_EXAMPLE), 0).unwrap();
    assert_eq!(start, IpAddress::V4(0));
    assert_eq!(end, IpAddress::V4(u32::MAX));
    let (start, end) = cidr_range(IpAddress::V6(V6_EXAMPLE), 0).unwrap();
    assert_eq!(start, IpAddress::V6(0));
    assert_eq!(end, IpAddress::V6(u128::MAX));
    assert_eq!(
        cidr_answer("192-0-2-130.0.cidr.mentisnovae.tech").unwrap(),
        "Usable IP Range: 0.0.0.0 - 255.255.255.255"
    );
}

#[test]
fn full_width_prefix_pins_the_single_address() {
    let (start, end) = cidr_range(IpAddress::V4(V4_EXAMPLE), 32).unwrap();
    assert_eq!(start, IpAddress::V4(V4_EXAMPLE));
    assert_eq!(end, IpAddress::V4(V4_EXAMPLE));
    let (start, end) = cidr_range(IpAddress::V6(V6_EXAMPLE), 128).unwrap();
    assert_eq!(start, IpAddress::V6(V6_EXAMPLE));
    assert_eq!(end, IpAddress::V6(V6_EXAMPLE));
    assert_eq!(
        cidr_answer("192-0-2-130.32.cidr.mentisnovae.tech").unwrap(),
        "Usable IP Range: 192.0.2.130 - 192.0.2.130"
    );
}

#[test]
fn out_of_range_prefix_is_an_invalid_cidr_query() {
    assert!(matches!(cidr_range(IpAddress::V4(V4_EXAMPLE), 33), Err(Error::InvalidCidrQuery)));
    assert!(matches!(cidr_range(IpAddress::V6(V6_EXAMPLE), 129), Err(Error::InvalidCidrQuery)));
    assert!(matches!(
        cidr_answer("192-0-2-130.33.cidr.mentisnovae.tech"),
        Err(Error::InvalidCidrQuery)
    ));
}

#[test]
fn malformed_cidr_queries_are_invalid() {
    // Wrong label count ahead of the zone name.
    assert!(matches!(cidr_answer("cidr.mentisnovae.tech"), Err(Error::InvalidCidrQuery)));
    assert!(matches!(cidr_answer("24.cidr.mentisnovae.tech"), Err(Error::InvalidCidrQuery)));
    assert!(matches!(
        cidr_answer("x.192-0-2-130.24.cidr.mentisnovae.tech"),
        Err(Error::InvalidCidrQuery)
    ));
    // Unparsable address.
    assert!(matches!(
        cidr_answer("192-0-2.24.cidr.mentisnovae.tech"),
        Err(Error::InvalidCidrQuery)
    ));
    assert!(matches!(
        cidr_answer("192-0-2-299.24.cidr.mentisnovae.tech"),
        Err(Error::InvalidCidrQuery)
    ));
    assert!(matches!(
        cidr_answer("2001-db8-0-0-0-0-1.64.cidr.mentisnovae.tech"),
        Err(Error::InvalidCidrQuery)
    ));
    // Unparsable prefix length.
    assert!(matches!(
        cidr_answer("192-0-2-130.x.cidr.mentisnovae.tech"),
        Err(Error::InvalidCidrQuery)
    ));
    assert!(matches!(
        cidr_answer("192-0-2-130.-3.cidr.mentisnovae.tech"),
        Err(Error::InvalidCidrQuery)
    ));
}

#[test]
fn address_labels_parse_in_either_family() {
    assert_eq!(
        parse_ip_label(&b"192-0-2-130".to_vec()),
        Some(IpAddress::V4(V4_EXAMPLE))
    );
    assert_eq!(
        parse_ip_label(&b"2001-db8-0-0-0-0-0-1".to_vec()),
        Some(IpAddress::V6(V6_EXAMPLE))
    );
    assert_eq!(
        parse_ip_label(&b"2001-DB8-0-0-0-0-0-1".to_vec()),
        Some(IpAddress::V6(V6_EXAMPLE))
    );
    assert_eq!(parse_ip_label(&b"0-0-0-0-0-0-0-0".to_vec()), Some(IpAddress::V6(0)));
    assert_eq!(parse_ip_label(&b"".to_vec()), None);
    assert_eq!(parse_ip_label(&b"1-2-3".to_vec()), None);
    assert_eq!(parse_ip_label(&b"1-2-3-4-5".to_vec()), None);
    assert_eq!(parse_ip_label(&b"12345-0-0-0-0-0-0-0".to_vec()), None);
    assert_eq!(parse_ip_label(&b"g-0-0-0-0-0-0-0".to_vec()), None);
}

#[test]
fn addresses_render_in_conventional_text() {
    assert_eq!(ip_bytes(IpAddress::V4(V4_EXAMPLE)), b"192.0.2.130".to_vec());
    assert_eq!(ip_bytes(IpAddress::V4(0)), b"0.0.0.0".to_vec());
    assert_eq!(ip_bytes(IpAddress::V4(u32::MAX)), b"255.255.255.255".to_vec());
    assert_eq!(ip_bytes(IpAddress::V6(V6_EXAMPLE)), b"2001:db8::1".to_vec());
    assert_eq!(ip_bytes(IpAddress::V6(0)), b"::".to_vec());
    assert_eq!(ip_bytes(IpAddress::V6(1)), b"::1".to_vec());
    assert_eq!(ip_bytes(IpAddress::V6(u128::MAX)),
        b"ffff:ffff:ffff:ffff:ffff:ffff:ffff:ffff".to_vec());
    // A single zero group is not compressed.
    assert_eq!(
        ip_bytes(IpAddress::V6(0x0001_0000_0002_0003_0004_0005_0006_0007)),
        b"1:0:2:3:4:5:6:7".to_vec()
    );
    // The leftmost of two equally long zero runs is compressed.
    assert_eq!(
        ip_bytes(IpAddress::V6(0x0001_0000_0000_0002_0000_0000_0003_0004)),
        b"1::2:0:0:3:4".to_vec()
    );
    // The longer run wins even when it comes second.
    assert_eq!(
        ip_bytes(IpAddress::V6(0x0001_0000_0000_0002_0000_0000_0000_0003)),
        b"1:0:0:2::3".to_vec()
    );
}
