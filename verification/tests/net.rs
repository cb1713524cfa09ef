use skirk_desktop::net::{
    canonical_google_ip, default_google_ip, default_http_host, default_http_port,
    google_control_cidr, loopback_probe_address, normalize_windows_process_path, parse_google_ip,
    record_lan_ip, share_addresses, socks5_accepts_no_auth, socks5_no_auth_greeting,
};

#[test]
fn process_path_for_rules_uses_win32_style_paths() {
    assert_eq!(
        normalize_windows_process_path(r"\\?\C:\Skirk\skirk-sidecar.exe"),
        r"C:\Skirk\skirk-sidecar.exe"
    );
    assert_eq!(
        normalize_windows_process_path(r"\\?\UNC\server\share\skirk-sidecar.exe"),
        r"\\server\share\skirk-sidecar.exe"
    );
}

#[test]
fn plain_paths_are_left_alone() {
    assert_eq!(normalize_windows_process_path("/opt/skirk/skirk"), "/opt/skirk/skirk");
    assert_eq!(normalize_windows_process_path(r"C:\Skirk\skirk.exe"), r"C:\Skirk\skirk.exe");
}

#[test]
fn google_control_ip_is_canonicalized() {
    assert_eq!(
        canonical_google_ip("").expect("default Google IP"),
        "216.239.38.120"
    );
    assert_eq!(
        canonical_google_ip(" 8.8.8.8 ").expect("custom Google IP"),
        "8.8.8.8"
    );
    assert!(canonical_google_ip("not-an-ip").is_err());
}

#[test]
fn google_ip_errors_and_ipv6_forms() {
    assert_eq!(
        canonical_google_ip("256.1.1.1"),
        Err("profile route.google_ip must be an IP address".to_string())
    );
    assert!(canonical_google_ip("01.2.3.4").is_err());
    assert_eq!(canonical_google_ip("2001:DB8:0:0:0:0:0:1").as_deref(), Ok("2001:db8::1"));
    assert_eq!(canonical_google_ip("::ffff:1.2.3.4").as_deref(), Ok("::ffff:1.2.3.4"));
    assert_eq!(canonical_google_ip("0:0:0:0:0:0:0:0").as_deref(), Ok("::"));
    assert_eq!(canonical_google_ip("1:0:0:2:0:0:0:3").as_deref(), Ok("1:0:0:2::3"));
    assert!(parse_google_ip("1::2::3").is_err());
    assert!(parse_google_ip("216.239.38.120").is_ok());
}

#[test]
fn canonical_ip_is_stable() {
    for input in [" 10.0.0.1", "2001:0DB8:0000:0000:0000:0000:0000:0001", "::FFFF:192.0.2.1", "::", "0:0:0:0:0:0:0:1", "1:2:3:4:5:6:7:8", "fe80::1:0:0:0"] {
        let once = canonical_google_ip(input).expect("ip");
        assert_eq!(canonical_google_ip(&once).as_deref(), Ok(once.as_str()), "{input}");
    }
    assert_eq!(canonical_google_ip("0:0:0:0:0:0:0:1").as_deref(), Ok("::1"));
    assert_eq!(canonical_google_ip("fe80:0:0:0:1:0:0:0").as_deref(), Ok("fe80::1:0:0:0"));
}

#[test]
fn control_cidr_covers_one_address() {
    assert_eq!(google_control_cidr("216.239.38.120"), "216.239.38.120/32");
    assert_eq!(google_control_cidr(""), "216.239.38.120/32");
    assert_eq!(google_control_cidr("2001:db8::1"), "2001:db8::1/128");
}

#[test]
fn defaults() {
    assert_eq!(default_http_host(), "127.0.0.1");
    assert_eq!(default_http_port(), 18081);
    assert_eq!(default_google_ip(), "216.239.38.120");
}

#[test]
fn loopback_probe_replaces_unspecified_host() {
    assert_eq!(loopback_probe_address("0.0.0.0:18080"), "127.0.0.1:18080");
    assert_eq!(loopback_probe_address("127.0.0.1:18080"), "127.0.0.1:18080");
    assert_eq!(loopback_probe_address("192.168.1.2:1"), "192.168.1.2:1");
}

#[test]
fn lan_addresses_only_for_shared_listeners() {
    let ips = vec!["192.168.1.20".to_string(), "10.0.0.5".to_string()];
    assert_eq!(
        share_addresses("0.0.0.0:18080", &ips),
        vec!["192.168.1.20:18080".to_string(), "10.0.0.5:18080".to_string()]
    );
    assert_eq!(share_addresses(":::18081", &ips), vec!["192.168.1.20:18081".to_string(), "10.0.0.5:18081".to_string()]);
    assert!(share_addresses("127.0.0.1:18080", &ips).is_empty());
    assert!(share_addresses("no-port", &ips).is_empty());
}

#[test]
fn lan_ips_skip_unspecified_and_repeats() {
    let mut ips = Vec::new();
    record_lan_ip(&mut ips, "192.168.1.20".to_string());
    record_lan_ip(&mut ips, "0.0.0.0".to_string());
    record_lan_ip(&mut ips, "192.168.1.20".to_string());
    record_lan_ip(&mut ips, "10.0.0.5".to_string());
    assert_eq!(ips, vec!["192.168.1.20".to_string(), "10.0.0.5".to_string()]);
}

#[test]
fn socks5_no_auth_handshake_bytes() {
    assert_eq!(socks5_no_auth_greeting(), [0x05, 0x01, 0x00]);
    assert!(socks5_accepts_no_auth([0x05, 0x00]));
    assert!(!socks5_accepts_no_auth([0x05, 0xff]));
    assert!(!socks5_accepts_no_auth([0x04, 0x00]));
}
