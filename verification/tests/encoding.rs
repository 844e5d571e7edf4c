//! JSON bounds, hexadecimal text and output budgets.
use mailctl::domain::ErrorCode;
use mailctl::encoding::{hex, request_buffer_bytes, validate_json_bounds, OutputBudget};

#[test]
fn json_bounds_ignore_structure_inside_escaped_strings() {
    let mut object = serde_json::Map::new();
    object.insert(
        "value".to_owned(),
        serde_json::Value::String("\\\"[{,:}]".to_owned()),
    );
    let bytes = serde_json::to_vec(&serde_json::Value::Object(object)).unwrap();
    validate_json_bounds(&bytes, 1, 3).unwrap();
    assert_eq!(
        validate_json_bounds(&bytes, 0, 3).unwrap_err().code,
        ErrorCode::InvalidRequest
    );
    assert_eq!(
        validate_json_bounds(&bytes, 1, 2).unwrap_err().code,
        ErrorCode::InvalidRequest
    );
}

#[test]
fn json_bounds_enforce_depth_and_nodes_independently() {
    let bytes = br#"{"values":[{},[]]}"#;
    validate_json_bounds(bytes, 3, 7).unwrap();
    assert!(validate_json_bounds(bytes, 2, usize::MAX).is_err());
    assert!(validate_json_bounds(bytes, 3, 6).is_err());
    validate_json_bounds(b"[[],[]]", 2, usize::MAX).unwrap();
}

#[test]
fn hexadecimal_text_has_two_digits_for_each_byte() {
    assert_eq!(hex(&[0x00, 0x0f, 0xa0, 0xff]), "000fa0ff");
    assert_eq!(hex(&[]), "");
}

#[test]
fn request_buffers_grow_with_the_request() {
    assert_eq!(request_buffer_bytes(0), 24);
    assert_eq!(request_buffer_bytes(1024), 2048 + 1024 + 256 * 24);
}

#[test]
fn budgets_stop_at_their_ceiling() {
    let mut budget = OutputBudget::new(11);
    budget.reserve(11).unwrap();
    assert_eq!(
        budget.reserve(1).unwrap_err().code,
        ErrorCode::ResponseTooLarge
    );
    assert_eq!(budget.remaining, 0);
}
