use libsts::{decode_with, obfuscate, unobfuscate, xor_key, RunError, SaveError};

fn parse_json(bytes: Vec<u8>) -> Result<serde_json::Value, SaveError> {
    serde_json::from_slice(&bytes).map_err(|e| SaveError::JSONError {
        error_string: e.to_string(),
    })
}

#[test]
fn obfuscate_exact_text() {
    assert_eq!(obfuscate(b"{}"), "EBg=");
    assert_eq!(obfuscate(b""), "");
}

#[test]
fn unobfuscate_exact_bytes() {
    assert_eq!(unobfuscate(b"EBg="), Some(b"{}".to_vec()));
}

#[test]
fn unobfuscate_rejects_text_that_is_not_base64() {
    assert_eq!(unobfuscate(b"{\"gold\":1}"), None);
    assert_eq!(unobfuscate(b"a"), None);
}

#[test]
fn obfuscation_round_trip() {
    let payload = b"{\"gold\":99,\"hand_size\":7,\"purgeCost\":75}".to_vec();
    let text = obfuscate(&payload);
    assert_ne!(text.as_bytes(), &payload[..]);
    assert_eq!(unobfuscate(text.as_bytes()), Some(payload));
}

#[test]
fn decode_obfuscated_payload() {
    let payload = b"{\"gold\":99}";
    let text = obfuscate(payload);
    let v = decode_with(text.as_bytes(), &parse_json).unwrap();
    assert_eq!(v["gold"], 99);
}

#[test]
fn decode_falls_back_to_raw_payload() {
    let raw = b"{\"gold\":99,\"name\":\"IRONCLAD\"}";
    let from_raw = decode_with(raw, &parse_json).unwrap();
    let text = obfuscate(raw);
    let from_obfuscated = decode_with(text.as_bytes(), &parse_json).unwrap();
    assert_eq!(from_raw, from_obfuscated);
    assert_eq!(from_raw["name"], "IRONCLAD");
}

#[test]
fn decode_falls_back_when_base64_payload_does_not_parse() {
    // "1234" is valid base64, but its unobfuscated bytes are not JSON; as it stands it is.
    let v = decode_with(b"1234", &parse_json).unwrap();
    assert_eq!(v, 1234);
}

#[test]
fn decode_prefers_the_unobfuscated_payload() {
    let calls = std::cell::RefCell::new(Vec::new());
    let text = obfuscate(b"7");
    let parse = |bytes: Vec<u8>| -> Result<Vec<u8>, String> {
        calls.borrow_mut().push(bytes.clone());
        Ok(bytes)
    };
    assert_eq!(decode_with(text.as_bytes(), &parse), Ok(b"7".to_vec()));
    assert_eq!(calls.borrow().len(), 1);
}

#[test]
fn decode_corrupt_input_is_an_error_with_a_message() {
    let r = decode_with(b"\x00not json, not base64!", &parse_json);
    match r {
        Err(SaveError::JSONError { error_string }) => assert!(!error_string.is_empty()),
        Ok(_) => panic!("corrupt input decoded"),
    }
}

#[test]
fn decode_keeps_the_first_error_when_all_attempts_fail() {
    let text = obfuscate(b"x");
    let parse = |bytes: Vec<u8>| -> Result<(), Vec<u8>> { Err(bytes) };
    assert_eq!(decode_with(text.as_bytes(), &parse), Err(b"x".to_vec()));
    let parse_raw = |bytes: Vec<u8>| -> Result<(), Vec<u8>> { Err(bytes) };
    assert_eq!(decode_with(b"{x", &parse_raw), Err(b"{x".to_vec()));
}

#[test]
fn decode_empty_input_is_an_error() {
    assert!(decode_with(b"", &parse_json).is_err());
}

#[test]
fn obfuscate_exact_text_of_a_longer_payload() {
    let text = obfuscate(b"[1,2,3]");
    assert_eq!(text, "MFRVWUlKNg==");
    assert_eq!(unobfuscate(text.as_bytes()), Some(b"[1,2,3]".to_vec()));
}

#[test]
fn save_error_message() {
    let e = SaveError::JSONError {
        error_string: "expected value".to_string(),
    };
    assert_eq!(e.message(), "JSON error: expected value");
    let empty = SaveError::JSONError {
        error_string: String::new(),
    };
    assert_eq!(empty.message(), "JSON error: ");
}

#[test]
fn run_error_message() {
    let e = RunError::JSONError {
        error_string: "EOF while parsing".to_string(),
    };
    assert_eq!(e.message(), "JSON error: EOF while parsing");
}
