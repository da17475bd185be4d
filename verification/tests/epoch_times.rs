use dns_zones::counter::RequestCounter;
use dns_zones::types::{DnsMessageType, DnsOpCode, DnsResponse, Error, IpAddress, Query,
    RecordData};
use dns_zones::zone::Handler;

fn labels(name: &str) -> Vec<Vec<u8>> {
    name.split('.').map(|l| l.as_bytes().to_vec()).collect()
}

fn query(name: &str) -> Query {
    Query {
        op_code: DnsOpCode::Query,
        message_type: DnsMessageType::Query,
        name: labels(name),
        src: IpAddress::V4(0x7f000001),
    }
}

fn txt_of(resp: &DnsResponse) -> String {
    match &resp.answers[0].data {
        RecordData::Txt(v) => String::from_utf8(v.clone()).unwrap(),
        other => panic!("expected a text record, got {:?}", other),
    }
}

fn epoch_answer(name: &str) -> Result<String, Error> {
    let h = Handler::from_options(&b"mentisnovae.tech".to_vec());
    let mut c = RequestCounter::new();
    h.do_handle_request(&mut c, &query(name)).map(|r| txt_of(&r))
}

#[test]
fn timestamp_zero_is_the_epoch() {
    assert_eq!(
        epoch_answer("epoch.0.time.mentisnovae.tech").unwrap(),
        "1970-01-01 00:00:00"
    );
}

#[test]
fn a_modern_timestamp_formats_in_utc() {
    assert_eq!(
        epoch_answer("epoch.1700000000.time.mentisnovae.tech").unwrap(),
        "2023-11-14 22:13:20"
    );
}

#[test]
fn the_tag_is_case_insensitive() {
    assert_eq!(
        epoch_answer("EPOCH.86400.Time.MentisNovae.tech").unwrap(),
        "1970-01-02 00:00:00"
    );
}

#[test]
fn negative_timestamps_are_invalid_epoch_queries() {
    assert!(matches!(
        epoch_answer("epoch.-5.time.mentisnovae.tech"),
        Err(Error::InvalidEpochQuery)
    ));
}

#[test]
fn non_numeric_timestamps_are_invalid_epoch_queries() {
    assert!(matches!(
        epoch_answer("epoch.soon.time.mentisnovae.tech"),
        Err(Error::InvalidEpochQuery)
    ));
    assert!(matches!(
        epoch_answer("epoch..time.mentisnovae.tech"),
        Err(Error::InvalidEpochQuery)
    ));
}

#[test]
fn out_of_range_timestamps_are_invalid_epoch_queries() {
    // Larger than a signed 64-bit count of seconds.
    assert!(matches!(
        epoch_answer("epoch.99999999999999999999.time.mentisnovae.tech"),
        Err(Error::InvalidEpochQuery)
    ));
    // Within 64 bits but beyond chrono's calendar range.
    assert!(matches!(
        epoch_answer("epoch.9223372036854775807.time.mentisnovae.tech"),
        Err(Error::InvalidEpochQuery)
    ));
}

#[test]
fn malformed_time_names_are_invalid_epoch_queries() {
    // No leading "epoch" label, or the wrong label count.
    assert!(matches!(
        epoch_answer("0.time.mentisnovae.tech"),
        Err(Error::InvalidEpochQuery)
    ));
    assert!(matches!(
        epoch_answer("time.mentisnovae.tech"),
        Err(Error::InvalidEpochQuery)
    ));
    assert!(matches!(
        epoch_answer("x.epoch.0.time.mentisnovae.tech"),
        Err(Error::InvalidEpochQuery)
    ));
    assert!(matches!(
        epoch_answer("clock.0.time.mentisnovae.tech"),
        Err(Error::InvalidEpochQuery)
    ));
}

#[test]
fn time_zone_requests_count_even_when_invalid() {
    let h = Handler::from_options(&b"mentisnovae.tech".to_vec());
    let mut c = RequestCounter::new();
    let r = h.do_handle_request(&mut c, &query("epoch.junk.time.mentisnovae.tech"));
    assert!(matches!(r, Err(Error::InvalidEpochQuery)));
    assert_eq!(c.value, 1);
}
