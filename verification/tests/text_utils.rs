use dns_zones::text::{dec_bytes, parse_u64, split_on};

#[test]
fn decimal_rendering_is_exact() {
    assert_eq!(dec_bytes(0), b"0".to_vec());
    assert_eq!(dec_bytes(7), b"7".to_vec());
    assert_eq!(dec_bytes(42), b"42".to_vec());
    assert_eq!(dec_bytes(255), b"255".to_vec());
    assert_eq!(dec_bytes(u64::MAX), b"18446744073709551615".to_vec());
}

#[test]
fn decimal_parsing_accepts_digits_only() {
    assert_eq!(parse_u64(&b"0".to_vec()), Some(0));
    assert_eq!(parse_u64(&b"007".to_vec()), Some(7));
    assert_eq!(parse_u64(&b"1700000000".to_vec()), Some(1_700_000_000));
    assert_eq!(parse_u64(&b"18446744073709551615".to_vec()), Some(u64::MAX));
    assert_eq!(parse_u64(&b"18446744073709551616".to_vec()), None);
    assert_eq!(parse_u64(&b"".to_vec()), None);
    assert_eq!(parse_u64(&b"-1".to_vec()), None);
    assert_eq!(parse_u64(&b"1x".to_vec()), None);
}

#[test]
fn splitting_keeps_empty_parts() {
    let parts = split_on(&b"a.b.c".to_vec(), b'.');
    assert_eq!(parts, vec![b"a".to_vec(), b"b".to_vec(), b"c".to_vec()]);
    let parts = split_on(&b"".to_vec(), b'.');
    assert_eq!(parts, vec![b"".to_vec()]);
    let parts = split_on(&b".a.".to_vec(), b'.');
    assert_eq!(parts, vec![b"".to_vec(), b"a".to_vec(), b"".to_vec()]);
    let parts = split_on(&b"a--b".to_vec(), b'-');
    assert_eq!(parts, vec![b"a".to_vec(), b"".to_vec(), b"b".to_vec()]);
}
