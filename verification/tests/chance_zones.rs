use dns_zones::counter::RequestCounter;
use dns_zones::types::{DnsMessageType, DnsOpCode, DnsResponse, IpAddress, Query, RecordData};
use dns_zones::zone::Handler;

fn labels(name: &str) -> Vec<Vec<u8>> {
    name.split('.').map(|l| l.as_bytes().to_vec()).collect()
}

fn query(name: &str) -> Query {
    Query {
        op_code: DnsOpCode::Query,
        message_type: DnsMessageType::Query,
        name: labels(name),
        src: IpAddress::V4(0x7f000001),
    }
}

fn txt_of(resp: &DnsResponse) -> String {
    match &resp.answers[0].data {
        RecordData::Txt(v) => String::from_utf8(v.clone()).unwrap(),
        other => panic!("expected a text record, got {:?}", other),
    }
}

#[test]
fn coin_answers_heads_or_tails() {
    let h = Handler::from_options(&b"mentisnovae.tech".to_vec());
    let mut c = RequestCounter::new();
    for _ in 0..50 {
        let r = h.do_handle_request(&mut c, &query("coin.mentisnovae.tech")).unwrap();
        let t = txt_of(&r);
        assert!(t == "heads" || t == "tails", "unexpected coin text {t:?}");
    }
    assert_eq!(c.value, 50);
}

#[test]
fn dice_answers_one_through_six() {
    let h = Handler::from_options(&b"mentisnovae.tech".to_vec());
    let mut c = RequestCounter::new();
    for _ in 0..50 {
        let r = h.do_handle_request(&mut c, &query("dice.mentisnovae.tech")).unwrap();
        let d: u64 = txt_of(&r).parse().unwrap();
        assert!((1..=6).contains(&d), "unexpected die roll {d}");
    }
}

#[test]
fn coin_flips_are_roughly_even() {
    // Statistical: 4000 flips; the chance of leaving 1700..=2300 heads is
    // vanishingly small for a fair coin.
    let h = Handler::from_options(&b"mentisnovae.tech".to_vec());
    let mut c = RequestCounter::new();
    let mut heads: u32 = 0;
    for _ in 0..4000 {
        let r = h.do_handle_request(&mut c, &query("coin.mentisnovae.tech")).unwrap();
        if txt_of(&r) == "heads" {
            heads += 1;
        }
    }
    assert!((1700..=2300).contains(&heads), "suspicious heads count {heads} of 4000");
}

#[test]
fn die_rolls_are_roughly_uniform() {
    // Statistical: 6000 rolls; each face expects 1000, allow a wide band.
    let h = Handler::from_options(&b"mentisnovae.tech".to_vec());
    let mut c = RequestCounter::new();
    let mut counts = [0u32; 7];
    for _ in 0..6000 {
        let r = h.do_handle_request(&mut c, &query("dice.mentisnovae.tech")).unwrap();
        let d: usize = txt_of(&r).parse().unwrap();
        counts[d] += 1;
    }
    assert_eq!(counts[0], 0);
    for face in 1..=6 {
        assert!(
            (750..=1250).contains(&counts[face]),
            "suspicious count {} for face {face}",
            counts[face]
        );
    }
}
