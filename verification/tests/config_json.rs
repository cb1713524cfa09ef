use skirk_desktop::config_json::{config_fields_from_json, decode_failure_message, decoded_config_file_name};

#[test]
fn config_fields_are_read_from_json() {
    let text = r#"{"route":{"mode":"google_front_pinned","google_ip":"8.8.8.8"},"drive":{"space":"appDataFolder","folder_id":"abc"}}"#;
    let fields = config_fields_from_json(text, false).expect("valid JSON");
    assert_eq!(fields.route_mode.as_deref(), Some("google_front_pinned"));
    assert_eq!(fields.google_ip.as_deref(), Some("8.8.8.8"));
    assert_eq!(fields.drive_space.as_deref(), Some("appDataFolder"));
    assert_eq!(fields.drive_folder_id.as_deref(), Some("abc"));

    let sparse = config_fields_from_json(r#"{"route":{"mode":7}}"#, true).expect("valid JSON");
    assert_eq!(sparse.route_mode, None);
    assert_eq!(sparse.google_ip, None);
    assert_eq!(sparse.drive_space, None);
}

#[test]
fn invalid_json_is_refused_with_its_source() {
    let pasted = config_fields_from_json("{not json", false).err().expect("error");
    assert!(pasted.starts_with("invalid JSON: "), "{pasted}");
    assert!(pasted.len() > "invalid JSON: ".len());
    let decoded = config_fields_from_json("", true).err().expect("error");
    assert!(decoded.starts_with("decoded config is invalid JSON: "), "{decoded}");
}

#[test]
fn decode_failure_prefers_error_output() {
    assert_eq!(
        decode_failure_message("exit status: 2", "  bad payload \n", "ignored"),
        "one-line config decode failed: exit status: 2: bad payload"
    );
    assert_eq!(
        decode_failure_message("exit status: 2", " \n", " from stdout "),
        "one-line config decode failed: exit status: 2: from stdout"
    );
    assert_eq!(
        decode_failure_message("exit status: 1", "", ""),
        "one-line config decode failed: exit status: 1"
    );
}

#[test]
fn decoded_scratch_file_name() {
    assert_eq!(decoded_config_file_name(1700000000000), "decode-1700000000000.json");
    assert_eq!(decoded_config_file_name(0), "decode-0.json");
}
