use skirk_desktop::inline_config::{extract_inline_config, is_raw_url_base64_char, looks_like_inline_config};

#[test]
fn detects_inline_config_inside_pasted_text() {
    assert!(looks_like_inline_config("skirk:abc"));
    assert!(looks_like_inline_config("SKIRK_CONFIG=skirk:abc"));
    assert!(looks_like_inline_config(
        "skirk serve-client --config 'skirk:abc' --listen 127.0.0.1:18080"
    ));
    assert!(!looks_like_inline_config(r#"{"secret":"abc"}"#));
}

#[test]
fn extracts_inline_config_from_full_client_command() {
    assert_eq!(
        extract_inline_config(
            "skirk serve-client --config 'skirk:abc_DEF-123' --listen 127.0.0.1:18080"
        )
        .as_deref(),
        Some("skirk:abc_DEF-123")
    );
}

#[test]
fn extracts_inline_config_from_env_assignment() {
    assert_eq!(
        extract_inline_config("SKIRK_CONFIG=\"skirk:abc_DEF-123\"").as_deref(),
        Some("skirk:abc_DEF-123")
    );
}

#[test]
fn inline_config_extraction_is_idempotent() {
    let first = extract_inline_config("  SKIRK_CONFIG='skirk:abc_DEF-123'  ").expect("inline config");
    assert_eq!(first, "skirk:abc_DEF-123");
    assert_eq!(extract_inline_config(&first).as_deref(), Some(first.as_str()));
}

#[test]
fn inline_config_requires_a_payload() {
    assert_eq!(extract_inline_config("skirk:"), None);
    assert_eq!(extract_inline_config(""), None);
    assert_eq!(extract_inline_config("plain text"), None);
}

#[test]
fn raw_url_base64_alphabet() {
    for ch in ['a', 'Z', '0', '9', '-', '_'] {
        assert!(is_raw_url_base64_char(ch));
    }
    for ch in ['+', '/', '=', ' ', '\'', 'é'] {
        assert!(!is_raw_url_base64_char(ch));
    }
}
