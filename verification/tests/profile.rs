use skirk_desktop::performance::{default_performance_settings, PerformancePreset};
use skirk_desktop::profile::{
    apply_profile_performance, build_imported_profile, choose_connect_profile, config_file_name,
    find_profile, import_route, listener_addresses_for_mode, load_profiles, load_settings,
    new_profile_id,
    normalize_loaded_profiles, prepare_raw_config, profile_display_name, reconcile_selected_profile,
    remove_profile, settings_after_delete, settings_with_mode, settings_with_selection,
    stored_config_text, upsert_profile, ClientProfile, ConfigFields, ConnectionMode, Settings,
};

fn test_profile(share_lan: bool) -> ClientProfile {
    ClientProfile {
        id: "profile-test".into(),
        name: "Test profile".into(),
        config_path: "/tmp/client.skirk".into(),
        socks_host: if share_lan { "0.0.0.0" } else { "127.0.0.1" }.into(),
        socks_port: 18080,
        http_host: if share_lan { "0.0.0.0" } else { "127.0.0.1" }.into(),
        http_port: 18081,
        share_lan,
        route_mode: "google_front_pinned".into(),
        google_ip: "216.239.38.120".into(),
        drive_space: "appDataFolder".into(),
        drive_folder_id: String::new(),
        performance: default_performance_settings(),
    }
}

fn named(id: &str) -> ClientProfile {
    let mut p = test_profile(false);
    p.id = id.to_string();
    p.config_path = format!("/tmp/{id}.json");
    p
}

fn ids(profiles: &[ClientProfile]) -> Vec<&str> {
    profiles.iter().map(|p| p.id.as_str()).collect()
}

fn settings(selected: Option<&str>) -> Settings {
    Settings { selected_profile_id: selected.map(String::from), connection_mode: ConnectionMode::Proxy }
}

#[test]
fn listener_addresses_force_loopback_for_vpn_when_profile_shares_lan() {
    let profile = test_profile(true);
    let (socks, http) = listener_addresses_for_mode(&profile, ConnectionMode::Vpn);
    assert_eq!(socks, "127.0.0.1:18080");
    assert_eq!(http, "127.0.0.1:18081");
}

#[test]
fn listener_addresses_preserve_lan_for_proxy_and_system() {
    let profile = test_profile(true);
    assert_eq!(
        listener_addresses_for_mode(&profile, ConnectionMode::Proxy),
        ("0.0.0.0:18080".into(), "0.0.0.0:18081".into())
    );
    assert_eq!(
        listener_addresses_for_mode(&profile, ConnectionMode::System),
        ("0.0.0.0:18080".into(), "0.0.0.0:18081".into())
    );
}

#[test]
fn connection_mode_defaults_to_proxy() {
    assert_eq!(ConnectionMode::default(), ConnectionMode::Proxy);
    let s = Settings::default();
    assert_eq!(s.selected_profile_id, None);
    assert_eq!(s.connection_mode, ConnectionMode::Proxy);
}

#[test]
fn upsert_replaces_same_id_and_appends() {
    let profiles = vec![named("a"), named("b"), named("c")];
    let mut replacement = named("b");
    replacement.name = "new".into();
    let result = upsert_profile(profiles, replacement);
    assert_eq!(ids(&result), vec!["a", "c", "b"]);
    assert_eq!(result[2].name, "new");
    let result = upsert_profile(result, named("d"));
    assert_eq!(ids(&result), vec!["a", "c", "b", "d"]);
}

#[test]
fn remove_drops_every_match_and_reports_config_path() {
    let profiles = vec![named("a"), named("b"), named("a")];
    let (left, path) = remove_profile(profiles, "a");
    assert_eq!(ids(&left), vec!["b"]);
    assert_eq!(path.as_deref(), Some("/tmp/a.json"));
    let (left, path) = remove_profile(left, "zzz");
    assert_eq!(ids(&left), vec!["b"]);
    assert_eq!(path, None);
}

#[test]
fn find_profile_gives_first_match() {
    let profiles = vec![named("a"), named("b"), named("b")];
    assert_eq!(find_profile(&profiles, "b"), Some(1));
    assert_eq!(find_profile(&profiles, "c"), None);
}

#[test]
fn selection_is_reconciled_with_profiles() {
    let profiles = vec![named("a"), named("b")];
    let (s, changed) = reconcile_selected_profile(settings(Some("b")), &profiles);
    assert_eq!((s.selected_profile_id.as_deref(), changed), (Some("b"), false));
    let (s, changed) = reconcile_selected_profile(settings(Some("gone")), &profiles);
    assert_eq!((s.selected_profile_id.as_deref(), changed), (Some("a"), true));
    let (s, changed) = reconcile_selected_profile(settings(None), &profiles);
    assert_eq!((s.selected_profile_id.as_deref(), changed), (Some("a"), true));
    let (s, changed) = reconcile_selected_profile(settings(Some("a")), &Vec::new());
    assert_eq!((s.selected_profile_id, changed), (None, true));
    let (again, changed) = reconcile_selected_profile(
        reconcile_selected_profile(settings(Some("gone")), &profiles).0,
        &profiles,
    );
    assert_eq!((again.selected_profile_id.as_deref(), changed), (Some("a"), false));
}

#[test]
fn deleting_the_selected_profile_moves_the_selection() {
    let (remaining, _) = remove_profile(vec![named("a"), named("b")], "a");
    let (s, changed) = settings_after_delete(settings(Some("a")), "a", &remaining);
    assert_eq!((s.selected_profile_id.as_deref(), changed), (Some("b"), true));
    let (s, changed) = settings_after_delete(settings(Some("b")), "a", &remaining);
    assert_eq!((s.selected_profile_id.as_deref(), changed), (Some("b"), false));
    let (none_left, _) = remove_profile(vec![named("a")], "a");
    let (s, changed) = settings_after_delete(settings(Some("a")), "a", &none_left);
    assert_eq!((s.selected_profile_id, changed), (None, true));
}

#[test]
fn settings_updates_keep_the_other_field() {
    let s = settings_with_mode(settings(Some("a")), ConnectionMode::Vpn);
    assert_eq!((s.selected_profile_id.as_deref(), s.connection_mode), (Some("a"), ConnectionMode::Vpn));
    let s = settings_with_selection(s, Some("b".into()));
    assert_eq!((s.selected_profile_id.as_deref(), s.connection_mode), (Some("b"), ConnectionMode::Vpn));
}

#[test]
fn connect_uses_selected_profile_or_first() {
    let profiles = vec![named("a"), named("b")];
    assert_eq!(choose_connect_profile(&profiles, &settings(Some("b"))), Ok(1));
    assert_eq!(choose_connect_profile(&profiles, &settings(Some("x"))), Ok(0));
    assert_eq!(choose_connect_profile(&profiles, &settings(None)), Ok(0));
    assert_eq!(
        choose_connect_profile(&Vec::new(), &settings(Some("a"))),
        Err("no profile selected".to_string())
    );
}

#[test]
fn loaded_profiles_listening_everywhere_share_the_lan() {
    let mut a = named("a");
    a.http_host = "0.0.0.0".into();
    let b = named("b");
    let loaded = normalize_loaded_profiles(vec![a, b]);
    assert!(loaded[0].share_lan);
    assert!(!loaded[1].share_lan);
}

#[test]
fn raw_config_is_trimmed_and_inline_config_extracted() {
    assert_eq!(prepare_raw_config("   "), Err("client config is empty".to_string()));
    assert_eq!(
        prepare_raw_config("  SKIRK_CONFIG=\"skirk:abc\"  ").as_deref(),
        Ok("skirk:abc")
    );
    assert_eq!(prepare_raw_config(" {\"a\":1} ").as_deref(), Ok("{\"a\":1}"));
}

fn fields(google_ip: Option<&str>, space: Option<&str>, folder: Option<&str>) -> ConfigFields {
    ConfigFields {
        route_mode: None,
        google_ip: google_ip.map(String::from),
        drive_space: space.map(String::from),
        drive_folder_id: folder.map(String::from),
    }
}

#[test]
fn import_route_reads_fields_and_refuses_bad_ones() {
    let route = import_route(&fields(None, Some("appDataFolder"), None), 18080, 18081).expect("route");
    assert_eq!(route.route_mode, "direct");
    assert_eq!(route.google_ip, "216.239.38.120");
    assert_eq!(route.drive_space, "appDataFolder");
    assert_eq!(route.drive_folder_id, "");
    let route = import_route(&fields(Some(" 8.8.4.4 "), Some("drive"), Some("folder")), 1, 2).expect("route");
    assert_eq!((route.google_ip.as_str(), route.drive_folder_id.as_str()), ("8.8.4.4", "folder"));
    assert_eq!(
        import_route(&fields(Some("bad"), Some("appDataFolder"), None), 1, 2).err().as_deref(),
        Some("profile route.google_ip must be an IP address")
    );
    assert_eq!(
        import_route(&fields(None, Some("drive"), Some("")), 1, 2).err().as_deref(),
        Some("client config is missing a Drive mailbox")
    );
    assert_eq!(
        import_route(&fields(None, Some("appDataFolder"), None), 7, 7).err().as_deref(),
        Some("SOCKS and HTTP proxy ports must be different")
    );
}

#[test]
fn imported_profile_shape() {
    let route = import_route(&fields(None, Some("appDataFolder"), None), 18080, 18081).expect("route");
    let id = new_profile_id(1700000000123);
    assert_eq!(id, "profile-1700000000123");
    assert_eq!(config_file_name(&id, "skirk:abc"), "profile-1700000000123.skirk");
    assert_eq!(config_file_name(&id, "{}"), "profile-1700000000123.json");
    let p = build_imported_profile(id, "  ", "/cfg/p.json".into(), 18080, 18081, true, route);
    assert_eq!(p.name, "Skirk profile");
    assert_eq!((p.socks_host.as_str(), p.http_host.as_str()), ("0.0.0.0", "0.0.0.0"));
    assert!(p.share_lan);
    assert_eq!(p.performance, default_performance_settings());
    assert_eq!(profile_display_name("  Home  "), "Home");
}

#[test]
fn stored_config_must_not_be_blank() {
    assert_eq!(stored_config_text(" skirk:abc\n").as_deref(), Ok("skirk:abc"));
    assert_eq!(stored_config_text(" \n"), Err("profile config is empty".to_string()));
}

#[test]
fn performance_update_targets_one_profile() {
    let mut perf = default_performance_settings();
    perf.preset = PerformancePreset::Responsive;
    perf.burst_poll = true;
    let updated = apply_profile_performance(vec![named("a"), named("b")], "b", perf).expect("found");
    assert_eq!(updated[1].performance, perf);
    assert_eq!(updated[0].performance, default_performance_settings());
    assert_eq!(
        apply_profile_performance(vec![named("a")], "z", perf).err().as_deref(),
        Some("profile was not found")
    );
}

#[test]
fn loading_tolerates_missing_files_only() {
    let mut shared = named("a");
    shared.socks_host = "0.0.0.0".into();
    let loaded = load_profiles(Ok(vec![shared]), true).expect("loaded");
    assert!(loaded[0].share_lan);
    assert_eq!(load_profiles(Err("gone".into()), false).map(|p| p.len()), Ok(0));
    assert_eq!(load_profiles(Err("bad json".into()), true).err().as_deref(), Some("bad json"));
    let s = load_settings(Err("missing".into()), false).expect("defaults");
    assert_eq!((s.selected_profile_id, s.connection_mode), (None, ConnectionMode::Proxy));
    let s = load_settings(Ok(settings(Some("a"))), true).expect("stored");
    assert_eq!(s.selected_profile_id.as_deref(), Some("a"));
    assert_eq!(load_settings(Err("bad".into()), true).err().as_deref(), Some("bad"));
}
