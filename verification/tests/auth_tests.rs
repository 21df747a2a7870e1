use traverse_cli::auth::{base64url_decode, hex_decode, is_jwt_shaped, validate_subject_id, validate_workspace_id};

#[test]
fn validate_workspace_id_rejects_invalid_inputs() {
    validate_workspace_id("ok-id_1.2").expect("conservative id must be accepted");
    let empty = validate_workspace_id(" ").expect_err("blank id must be rejected");
    assert!(empty.contains("non-empty"));
    let long = validate_workspace_id(&"a".repeat(129)).expect_err("long id must be rejected");
    assert!(long.contains("128"));
    let nul = validate_workspace_id("a\0b").expect_err("null byte must be rejected");
    assert!(nul.contains("null"));
    let bad = validate_workspace_id("bad/ws").expect_err("path separator must be rejected");
    assert!(bad.contains("ASCII"));
}

#[test]
fn validate_subject_id_rejects_invalid_inputs() {
    validate_subject_id("subject").expect("plain subject must be accepted");
    let empty = validate_subject_id("  ").expect_err("blank subject must be rejected");
    assert!(empty.contains("non-empty"));
    let long = validate_subject_id(&"s".repeat(257)).expect_err("long subject must be rejected");
    assert!(long.contains("256"));
    let nul = validate_subject_id("a\0b").expect_err("null byte must be rejected");
    assert!(nul.contains("null"));
}

#[test]
fn hex_decode_rejects_odd_length_input() {
    let err = hex_decode("abc").expect_err("odd-length hex must be rejected");
    assert!(err.contains("even number"));
}

#[test]
fn base64url_decode_handles_edge_cases() {
    assert!(base64url_decode("").expect("empty input must decode to empty output").is_empty());
    let padded = base64url_decode("aa==").expect_err("padding must be rejected");
    assert!(padded.contains("padding"));
    let invalid = base64url_decode("a!").expect_err("invalid character must be rejected");
    assert!(invalid.contains("invalid characters"));
    let length = base64url_decode("aaaaa").expect_err("length % 4 == 1 must be rejected");
    assert!(length.contains("invalid length"));
}

#[test]
fn workspace_id_limit_counts_bytes() {
    assert!(validate_workspace_id(&"a".repeat(128)).is_ok());
    assert!(validate_subject_id(&"é".repeat(129)).is_err());
    assert!(validate_subject_id(&"s".repeat(256)).is_ok());
}

#[test]
fn hex_decode_reads_both_cases() {
    assert_eq!(hex_decode("00ffA0"), Ok(vec![0x00, 0xff, 0xa0]));
    let bad = hex_decode("zz").expect_err("non-hex must be rejected");
    assert!(bad.contains("non-hex"));
}

#[test]
fn base64url_decode_reads_unpadded_groups() {
    assert_eq!(base64url_decode("TWFu"), Ok(b"Man".to_vec()));
    assert_eq!(base64url_decode("TWE"), Ok(b"Ma".to_vec()));
    assert_eq!(base64url_decode("TQ"), Ok(b"M".to_vec()));
    assert_eq!(base64url_decode("-_8"), Ok(vec![0xfb, 0xff]));
}

#[test]
fn jwt_shape_is_three_non_empty_parts() {
    assert!(is_jwt_shaped("a.b.c"));
    assert!(!is_jwt_shaped("a.b"));
    assert!(!is_jwt_shaped("a..c"));
    assert!(!is_jwt_shaped("a.b.c.d"));
}
