use nicorandompicker::api::session::{
    create_session_cookie_value, generate_session_id, parse_session_cookie_at, session_id_text,
};
use nicorandompicker::datetime::DateTime;

fn at(unix_seconds: i64) -> DateTime {
    DateTime::from_unix_seconds(unix_seconds)
}

#[test]
fn parse_session_cookie_at_accepts_unexpired_cookie_value_as_opaque_identifier() {
    let session = parse_session_cookie_at("session-id:100", at(100)).unwrap();
    assert_eq!(session.as_str(), "session-id");
}

#[test]
fn parse_session_cookie_at_rejects_expired_cookie_value() {
    assert!(parse_session_cookie_at("session-id:100", at(101)).is_none());
}

#[test]
fn parse_session_cookie_at_rejects_invalid_cookie_value() {
    assert!(parse_session_cookie_at("session-id", at(100)).is_none());
    assert!(parse_session_cookie_at(":100", at(100)).is_none());
    assert!(parse_session_cookie_at("session-id:not-number", at(100)).is_none());
}

#[test]
fn parse_session_cookie_expires_within_the_second() {
    let later = DateTime { unix_seconds: 100, nanosecond: 1, offset_seconds: 0 };
    assert!(parse_session_cookie_at("id:100", later).is_none());
}

#[test]
fn parse_session_cookie_trims_and_splits_at_first_colon() {
    let session = parse_session_cookie_at("  a:b:100 ", at(0));
    assert!(session.is_none());
    let session = parse_session_cookie_at("\tab:+100\n", at(0)).unwrap();
    assert_eq!(session.as_str(), "ab");
    assert!(parse_session_cookie_at("ab:253402300800", at(0)).is_none());
    assert!(parse_session_cookie_at("ab:253402300799", at(0)).is_some());
}

#[test]
fn session_cookie_value_roundtrips() {
    let value = create_session_cookie_value("0123abcd", 1_700_000_000);
    assert_eq!(value, "0123abcd:1700000000");
    let session = parse_session_cookie_at(&value, at(1_699_999_999)).unwrap();
    assert_eq!(session.as_str(), "0123abcd");
    assert_eq!(create_session_cookie_value("x", -5), "x:-5");
}

#[test]
fn generated_session_ids_are_hexadecimal() {
    let id = generate_session_id();
    assert_eq!(id.len(), 64);
    assert!(id.chars().all(|c| c.is_ascii_digit() || ('a'..='f').contains(&c)));
    let value = create_session_cookie_value(&id, 10);
    assert_eq!(parse_session_cookie_at(&value, at(10)).unwrap().as_str(), id);
}

#[test]
fn session_id_text_formats_each_number_as_sixteen_hex_digits() {
    assert_eq!(
        session_id_text(0, 1, 255, u64::MAX),
        "0000000000000000000000000000000100000000000000ffffffffffffffffff"
    );
    assert_eq!(
        session_id_text(0x0123456789abcdef, 0xfedcba9876543210, 10, 16),
        "0123456789abcdeffedcba9876543210000000000000000a0000000000000010"
    );
}
