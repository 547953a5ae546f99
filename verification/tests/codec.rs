//! Text codecs and identifier generation.

use tinycomments::crypto::fresh_commenter_id;
use tinycomments::digits::decimal_digits;
use tinycomments::textcodec::base64_decode;

#[test]
fn decimal_renderings_are_exact() {
    assert_eq!(decimal_digits(0), b"0".to_vec());
    assert_eq!(decimal_digits(9), b"9".to_vec());
    assert_eq!(decimal_digits(10), b"10".to_vec());
    assert_eq!(decimal_digits(1234567890), b"1234567890".to_vec());
    assert_eq!(
        decimal_digits(u64::MAX),
        b"18446744073709551615".to_vec()
    );
}

#[test]
fn decimal_matches_display_rendering() {
    for n in [0u64, 1, 7, 99, 100, 65535, 131071] {
        assert_eq!(decimal_digits(n), n.to_string().into_bytes());
    }
}

#[test]
fn commenter_ids_are_hex_and_fresh() {
    let a = fresh_commenter_id();
    let b = fresh_commenter_id();
    assert_eq!(a.len(), 64);
    assert_eq!(b.len(), 64);
    assert!(a.chars().all(|c| c.is_ascii_hexdigit()));
    assert_ne!(a, b);
}

#[test]
fn article_ids_decode_from_base64() {
    assert_eq!(
        base64_decode(String::from("aGVsbG8=")),
        Some(String::from("hello"))
    );
    assert_eq!(base64_decode(String::from("")), Some(String::from("")));
}

#[test]
fn bad_base64_is_rejected() {
    assert_eq!(base64_decode(String::from("not base64!")), None);
    assert_eq!(base64_decode(String::from("aGVsbG8")), None);
}

#[test]
fn non_utf8_payload_is_rejected() {
    assert_eq!(base64_decode(String::from("/w==")), None);
}
