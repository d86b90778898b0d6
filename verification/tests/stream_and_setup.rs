use blvflag::setup::{bearer_auth_value, parse_api_key, ApiKeyError};
use blvflag::stream::{ResponseAction, StreamCollector};

#[test]
fn hidden_stream_is_collected() {
    let mut c = StreamCollector::new(false);
    assert_eq!(c.accept("Hel".to_string()), ResponseAction::Progress);
    assert_eq!(c.accept("lo".to_string()), ResponseAction::Progress);
    assert_eq!(c.finish("> "), Some("> Hello".to_string()));
}

#[test]
fn shown_stream_prints_each_piece() {
    let mut c = StreamCollector::new(true);
    assert_eq!(c.accept("Hi".to_string()), ResponseAction::Print("Hi".to_string()));
    assert_eq!(c.finish(""), None);
}

#[test]
fn api_key_is_read_from_the_reply() {
    assert_eq!(parse_api_key(br#"{"api_key": "k-123"}"#), Ok("k-123".to_string()));
}

#[test]
fn api_key_errors() {
    assert_eq!(parse_api_key(b"not json"), Err(ApiKeyError::InvalidJson));
    assert_eq!(parse_api_key(br#"{"key": "x"}"#), Err(ApiKeyError::MissingKey));
    assert_eq!(parse_api_key(br#"{"api_key": 5}"#), Err(ApiKeyError::MissingKey));
    assert_eq!(parse_api_key(br#"["api_key"]"#), Err(ApiKeyError::MissingKey));
}

#[test]
fn bearer_header_value() {
    assert_eq!(bearer_auth_value("tok"), "Bearer tok");
}
