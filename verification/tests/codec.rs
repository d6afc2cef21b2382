use atom_profiles::codec::decode;
use atom_profiles::codec::encode;
use atom_profiles::errors::StoreError;

#[test]
fn round_trip_plain() {
    assert_eq!(decode(&encode("hello")), Ok("hello".to_string()));
}

#[test]
fn round_trip_empty() {
    assert_eq!(encode(""), "".to_string());
    assert_eq!(decode(""), Ok("".to_string()));
}

#[test]
fn round_trip_specials() {
    for s in ["a.b", "$", ".", "$d", "$$..", "x$p.y", "a.b$c"] {
        assert_eq!(decode(&encode(s)), Ok(s.to_string()));
    }
}

#[test]
fn encode_escapes_leader() {
    assert_eq!(encode("x$y"), "x$dy".to_string());
}

#[test]
fn encode_escapes_separator() {
    assert_eq!(encode("a.b"), "a$pb".to_string());
}

#[test]
fn encode_passes_other_characters() {
    assert_eq!(encode("plain-key_7"), "plain-key_7".to_string());
}

#[test]
fn decode_unknown_marker_is_validation_error() {
    assert_eq!(decode("$q"), Err(StoreError::Validation));
    assert_eq!(decode("x$!y"), Err(StoreError::Validation));
}

#[test]
fn decode_trailing_leader_is_dropped() {
    assert_eq!(decode("a$"), Ok("a".to_string()));
}

#[test]
fn decode_recognized_markers() {
    assert_eq!(decode("$d"), Ok("$".to_string()));
    assert_eq!(decode("$p"), Ok(".".to_string()));
}

#[test]
fn validation_reason_text() {
    assert_eq!(StoreError::Validation.reason(), "unknown escape sequence".to_string());
}
