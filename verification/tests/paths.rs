use skirk_desktop::paths::{
    client_log_path, client_metrics_path, path_join, same_path_text, tunnel_config_path, tunnel_log_path,
};
use skirk_desktop::platform::TargetOs;

#[test]
fn runtime_file_paths() {
    assert_eq!(client_log_path("/data/logs", TargetOs::Linux), "/data/logs/skirk-client.log");
    assert_eq!(tunnel_log_path("/data/logs/", TargetOs::Linux), "/data/logs/skirk-tunnel.log");
    assert_eq!(
        client_metrics_path(r"C:\Skirk\runtime", TargetOs::Windows),
        r"C:\Skirk\runtime\skirk-client-metrics.json"
    );
    assert_eq!(
        tunnel_config_path("C:/Skirk/runtime/", TargetOs::Windows),
        "C:/Skirk/runtime/skirk-tunnel.json"
    );
}

#[test]
fn joining_paths() {
    assert_eq!(path_join("", "a", TargetOs::Linux), "a");
    assert_eq!(path_join("/x", "a", TargetOs::Macos), "/x/a");
    assert_eq!(path_join(r"C:\x\", "a", TargetOs::Windows), r"C:\x\a");
    assert_eq!(path_join(r"C:\x\", "a", TargetOs::Linux), r"C:\x\/a");
}

#[test]
fn joining_onto_prefixed_windows_paths() {
    let w = TargetOs::Windows;
    assert_eq!(path_join("C:", "name", w), "C:name");
    assert_eq!(path_join(r"C:\x", r"\y", w), r"C:\y");
    assert_eq!(path_join(r"C:\x", r"D:\y", w), r"D:\y");
    assert_eq!(path_join(r"\\srv\sh", "a", w), r"\\srv\sh\a");
    assert_eq!(path_join(r"\\?\C:\app", "sidecars", w), r"\\?\C:\app\sidecars");
    assert_eq!(path_join(r"\\?\C:\app\x", "../../bin", w), r"\\?\C:\bin");
    assert_eq!(path_join(r"\\?\C:\a\\b\", "./c", w), r"\\?\C:\a\b\c");
    assert_eq!(path_join("/x", "/abs", TargetOs::Linux), "/abs");
}

#[test]
fn windows_prefixes_take_part_in_comparison() {
    let w = TargetOs::Windows;
    assert!(!same_path_text(r"\\srv\sh\x", r"\srv\sh\x", w));
    assert!(same_path_text(r"\\srv\sh\x", "//srv/sh/x/", w));
    assert!(same_path_text(r"\\srv\sh", r"\\srv\sh\", w));
    assert!(same_path_text(r"C:\a", "c:/a/", w));
    assert!(!same_path_text(r"\\?\C:\a", r"C:\a", w));
    assert!(!same_path_text(r"\\?\C:\a\.", r"\\?\C:\a", w));
    assert!(!same_path_text(r"\\?\C:\a/b", r"\\?\C:\a\b", w));
    assert!(same_path_text(r"\\?\UNC\srv\sh\x", r"\\?\UNC\srv\sh\x\", w));
    assert!(!same_path_text(r"C:a", r"C:\a", w));
    assert!(same_path_text(r"\\.\pipe\x", r"//./pipe/x", w));
}
