use skirk_desktop::platform::{sidecar_names, sidecar_os_dir, TargetOs};
use skirk_desktop::sidecar::{
    push_sidecar_candidate, sidecar_candidate_paths, sidecar_not_found_message,
    sidecar_override_vars, tunnel_sidecar_not_found_message, SidecarKind,
};

#[test]
fn sidecar_candidates_cover_portable_and_tauri_resource_layouts() {
    let os = TargetOs::Linux;
    let os_dir = sidecar_os_dir(os);
    let sidecar_name = "skirk";
    let exe_dir = "/opt/skirk";
    let resource_dir = "/opt/skirk/resources";
    let candidates = sidecar_candidate_paths(
        SidecarKind::Client,
        os,
        &vec![None, None],
        Some(exe_dir),
        Some(resource_dir),
        Some("/tmp"),
    );

    assert!(candidates.contains(&format!("{exe_dir}/sidecars/{os_dir}/{sidecar_name}")));
    assert!(candidates.contains(&format!("{exe_dir}/resources/sidecars/{os_dir}/{sidecar_name}")));
    assert!(candidates.contains(&format!("{resource_dir}/sidecars/{os_dir}/{sidecar_name}")));
}

#[test]
fn linux_client_candidates_in_order_without_repeats() {
    let candidates = sidecar_candidate_paths(
        SidecarKind::Client,
        TargetOs::Linux,
        &vec![Some("  ".to_string()), Some("/custom/skirk".to_string())],
        Some("/opt/skirk"),
        Some("/opt/skirk/resources"),
        Some("/tmp"),
    );
    let expected = vec![
        "/custom/skirk",
        "/opt/skirk/sidecars/linux/skirk",
        "/opt/skirk/resources/sidecars/linux/skirk",
        "/opt/skirk/skirk",
        "/opt/skirk/sidecars/linux/skirk-linux-amd64",
        "/opt/skirk/resources/sidecars/linux/skirk-linux-amd64",
        "/opt/skirk/skirk-linux-amd64",
        "/opt/skirk/resources/resources/sidecars/linux/skirk",
        "/opt/skirk/resources/resources/sidecars/linux/skirk-linux-amd64",
        "/tmp/../../bin/skirk",
        "/tmp/../bin/skirk",
        "/tmp/bin/skirk",
        "/tmp/../../bin/skirk-linux-amd64",
        "/tmp/../bin/skirk-linux-amd64",
        "/tmp/bin/skirk-linux-amd64",
    ];
    assert_eq!(candidates, expected);
}

#[test]
fn windows_client_candidates_beside_exe_only_for_primary_name() {
    let candidates = sidecar_candidate_paths(
        SidecarKind::Client,
        TargetOs::Windows,
        &vec![None, None],
        Some(r"C:\Skirk"),
        None,
        None,
    );
    assert_eq!(candidates.len(), 7);
    assert_eq!(candidates[0], r"C:\Skirk\sidecars\windows\skirk-sidecar.exe");
    assert_eq!(candidates[2], r"C:\Skirk\skirk-sidecar.exe");
    assert!(!candidates.contains(&r"C:\Skirk\skirk.exe".to_string()));
    assert_eq!(sidecar_names(TargetOs::Windows)[0], "skirk-sidecar.exe");
}

#[test]
fn tunnel_candidates_include_exe_dir() {
    let candidates = sidecar_candidate_paths(
        SidecarKind::Tunnel,
        TargetOs::Linux,
        &vec![None, None],
        Some("/opt/skirk/"),
        None,
        None,
    );
    assert_eq!(
        candidates,
        vec![
            "/opt/skirk/sidecars/linux/skirk-tunnel",
            "/opt/skirk/resources/sidecars/linux/skirk-tunnel",
            "/opt/skirk/skirk-tunnel",
            "/opt/skirk/sidecars/linux/sing-box",
            "/opt/skirk/resources/sidecars/linux/sing-box",
            "/opt/skirk/sing-box",
        ]
    );
    assert_eq!(sidecar_override_vars(SidecarKind::Tunnel), vec!["SKIRK_TUNNEL_SIDECAR", "SKIRK_DESKTOP_TUNNEL"]);
    assert_eq!(sidecar_override_vars(SidecarKind::Client), vec!["SKIRK_DESKTOP_SIDECAR", "SKIRK_SIDECAR"]);
}

#[test]
fn candidate_list_keeps_first_occurrence() {
    let mut v = vec!["a".to_string()];
    push_sidecar_candidate(&mut v, "b".to_string(), TargetOs::Linux);
    push_sidecar_candidate(&mut v, "a".to_string(), TargetOs::Linux);
    assert_eq!(v, vec!["a", "b"]);
}

#[test]
fn candidates_compare_as_paths() {
    let mut v = vec!["/a".to_string()];
    for same in ["/a/", "//a", "/./a", "/a/."] {
        push_sidecar_candidate(&mut v, same.to_string(), TargetOs::Linux);
    }
    assert_eq!(v, vec!["/a"]);
    for other in ["a", "./a", "/a/..", "/A"] {
        push_sidecar_candidate(&mut v, other.to_string(), TargetOs::Linux);
    }
    assert_eq!(v, vec!["/a", "a", "./a", "/a/..", "/A"]);

    let mut w = vec![r"C:\Skirk\skirk.exe".to_string()];
    push_sidecar_candidate(&mut w, "c:/Skirk//skirk.exe".to_string(), TargetOs::Windows);
    push_sidecar_candidate(&mut w, r"C:Skirk\skirk.exe".to_string(), TargetOs::Windows);
    assert_eq!(w, vec![r"C:\Skirk\skirk.exe", r"C:Skirk\skirk.exe"]);
    let mut u = vec![r"a\b".to_string()];
    push_sidecar_candidate(&mut u, "a/b".to_string(), TargetOs::Linux);
    assert_eq!(u.len(), 2);
}

#[test]
fn override_naming_an_exe_dir_candidate_is_listed_once() {
    let candidates = sidecar_candidate_paths(
        SidecarKind::Client,
        TargetOs::Linux,
        &vec![Some("/opt/skirk//sidecars/linux/skirk/".to_string()), None],
        Some("/opt/skirk"),
        None,
        None,
    );
    assert_eq!(candidates[0], "/opt/skirk//sidecars/linux/skirk/");
    assert!(!candidates.contains(&"/opt/skirk/sidecars/linux/skirk".to_string()));
    assert_eq!(candidates.len(), 6);
}

#[test]
fn not_found_messages_list_at_most_twelve_paths() {
    let candidates: Vec<String> = (0..14).map(|i| format!("/p{i}")).collect();
    let message = sidecar_not_found_message(SidecarKind::Client, TargetOs::Linux, &candidates);
    let listed: Vec<String> = (0..12).map(|i| format!("/p{i}")).collect();
    assert_eq!(
        message,
        format!(
            "skirk sidecar not found; place skirk under sidecars/linux/ or resources/sidecars/linux/, or set SKIRK_DESKTOP_SIDECAR. searched: {}",
            listed.join("; ")
        )
    );
    assert_eq!(
        tunnel_sidecar_not_found_message(TargetOs::Windows, &vec!["x".into(), "y".into()]),
        "VPN mode needs the bundled TUN sidecar skirk-tunnel.exe. searched: x; y"
    );
    assert_eq!(
        tunnel_sidecar_not_found_message(TargetOs::Linux, &vec!["x".into()]),
        "VPN mode needs the bundled TUN sidecar skirk-tunnel. searched: x"
    );
    assert_eq!(
        sidecar_not_found_message(SidecarKind::Tunnel, TargetOs::Macos, &Vec::new()),
        "VPN mode is not available on this platform. A TUN sidecar was searched only for diagnostics: "
    );
}
