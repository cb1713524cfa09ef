use serde_json::Value;
use skirk_desktop::platform::TargetOs;
use skirk_desktop::tunnel::{tunnel_config, tunnel_config_checked, tunnel_config_text};

fn config_text(os: TargetOs, socks_port: u16, path: &str, google_ip: &str) -> String {
    tunnel_config_text(&tunnel_config(os, socks_port, path, google_ip)).expect("tunnel config text")
}

fn config(google_ip: &str) -> Value {
    let text = config_text(TargetOs::Linux, 18080, r"C:\Skirk\skirk-sidecar.exe", google_ip);
    serde_json::from_str(&text).expect("tunnel config is JSON")
}

#[test]
fn tunnel_config_uses_sing_box_1_13_tun_fields() {
    let config = config("216.239.38.120");
    let inbound = config
        .pointer("/inbounds/0")
        .and_then(Value::as_object)
        .expect("tun inbound object");

    assert_eq!(
        inbound
            .get("address")
            .and_then(Value::as_array)
            .map(Vec::len),
        Some(1)
    );
    assert_eq!(
        inbound
            .get("address")
            .and_then(Value::as_array)
            .and_then(|addresses| addresses.first())
            .and_then(Value::as_str),
        Some("172.19.0.1/30")
    );
    assert!(inbound.get("sniff").is_none());
    assert!(inbound.get("sniff_override_destination").is_none());
    assert!(inbound.get("inet4_address").is_none());
    assert!(inbound.get("inet6_address").is_none());

    assert_eq!(
        config.pointer("/log/level").and_then(Value::as_str),
        Some("warn")
    );
    assert_eq!(
        config.pointer("/dns/strategy").and_then(Value::as_str),
        Some("ipv4_only")
    );
    assert!(config
        .pointer("/inbounds/0/route_exclude_address")
        .and_then(Value::as_array)
        .expect("route_exclude_address")
        .iter()
        .any(|value| value.as_str() == Some("216.239.38.120/32")));
    assert_eq!(
        config
            .pointer("/route/rules/0/ip_cidr/0")
            .and_then(Value::as_str),
        Some("216.239.38.120/32")
    );
    assert_eq!(
        config
            .pointer("/route/rules/0/outbound")
            .and_then(Value::as_str),
        Some("direct")
    );
    assert_eq!(
        config
            .pointer("/route/rules/0/network")
            .and_then(Value::as_str),
        Some("tcp")
    );
    assert_eq!(
        config
            .pointer("/route/rules/0/port")
            .and_then(Value::as_i64),
        Some(443)
    );
    assert_eq!(
        config
            .pointer("/route/rules/1/action")
            .and_then(Value::as_str),
        Some("route")
    );
    assert_eq!(
        config
            .pointer("/route/rules/1/outbound")
            .and_then(Value::as_str),
        Some("direct")
    );
    assert_eq!(
        config
            .pointer("/route/rules/1/rules/0/process_name/0")
            .and_then(Value::as_str),
        Some("skirk")
    );
    assert_eq!(
        config
            .pointer("/route/rules/1/rules/1/process_path/0")
            .and_then(Value::as_str),
        Some(r"C:\Skirk\skirk-sidecar.exe")
    );
    assert_eq!(
        config
            .pointer("/route/rules/2/action")
            .and_then(Value::as_str),
        Some("sniff")
    );
    assert_eq!(
        config
            .pointer("/route/rules/2/inbound")
            .and_then(Value::as_str),
        Some("tun-in")
    );
    assert_eq!(
        config
            .pointer("/route/rules/2/timeout")
            .and_then(Value::as_str),
        Some("1s")
    );
    assert_eq!(
        config
            .pointer("/route/rules/5/action")
            .and_then(Value::as_str),
        Some("reject")
    );
    assert_eq!(
        config
            .pointer("/route/rules/5/network")
            .and_then(Value::as_str),
        Some("udp")
    );
    assert_eq!(
        config
            .pointer("/route/rules/5/no_drop")
            .and_then(Value::as_bool),
        Some(true)
    );
    assert_eq!(
        config
            .pointer("/route/find_process")
            .and_then(Value::as_bool),
        Some(true)
    );
    assert!(config.pointer("/inbounds/0/auto_redirect").is_none());
}

#[test]
fn tunnel_config_uses_custom_google_control_ip() {
    let config = config("8.8.8.8");
    assert!(config
        .pointer("/inbounds/0/route_exclude_address")
        .and_then(Value::as_array)
        .expect("route_exclude_address")
        .iter()
        .any(|value| value.as_str() == Some("8.8.8.8/32")));
    assert_eq!(
        config
            .pointer("/route/rules/0/ip_cidr/0")
            .and_then(Value::as_str),
        Some("8.8.8.8/32")
    );
}

#[test]
fn tunnel_config_windows_names_and_interface() {
    let text = config_text(TargetOs::Windows, 18080, r"C:\Skirk\skirk-sidecar.exe", "");
    let config: Value = serde_json::from_str(&text).expect("JSON");
    assert_eq!(
        config.pointer("/route/rules/1/rules/0/process_name").and_then(Value::as_array).map(Vec::len),
        Some(3)
    );
    assert_eq!(
        config.pointer("/route/rules/1/rules/0/process_name/0").and_then(Value::as_str),
        Some("skirk-sidecar.exe")
    );
    assert_eq!(
        config.pointer("/inbounds/0/interface_name").and_then(Value::as_str),
        Some("Skirk Tunnel")
    );
    assert_eq!(
        config.pointer("/outbounds/0/tag").and_then(Value::as_str).is_some(),
        true
    );
}

#[test]
fn tunnel_config_matches_pretty_serialization() {
    let text = config_text(TargetOs::Linux, 18080, "/opt/skirk/skirk", "2001:db8::1");
    let value: Value = serde_json::from_str(&text).expect("JSON");
    assert_eq!(serde_json::to_string_pretty(&value).expect("pretty"), text);
    assert_eq!(
        value.pointer("/route/rules/0/ip_cidr/0").and_then(Value::as_str),
        Some("2001:db8::1/128")
    );
    assert_eq!(
        value.pointer("/inbounds/0/interface_name").and_then(Value::as_str),
        Some("skirk-tun0")
    );
}

#[test]
fn tunnel_config_refuses_unparsable_ip() {
    assert!(tunnel_config_checked(TargetOs::Linux, 1, "x", "nope").is_none());
    assert!(tunnel_config_checked(TargetOs::Linux, 1, "x", "1.2.3.4").is_some());
}

#[test]
fn tunnel_config_keeps_special_characters_of_the_sidecar_path() {
    let path = "/opt/sk\"irk\\bin/skirk\n";
    let text = config_text(TargetOs::Linux, 2080, path, "");
    let value: Value = serde_json::from_str(&text).expect("JSON");
    assert_eq!(
        value.pointer("/route/rules/1/rules/1/process_path/0").and_then(Value::as_str),
        Some(path)
    );
    assert_eq!(value.pointer("/outbounds/0/server_port").and_then(Value::as_u64), Some(2080));
    assert_eq!(value.pointer("/outbounds/0/server").and_then(Value::as_str), Some("127.0.0.1"));
    assert_eq!(value.pointer("/route/final").and_then(Value::as_str), Some("proxy"));
    assert!(text.starts_with("{\n  \""));
}
