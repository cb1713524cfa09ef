use skirk_desktop::platform::{
    platform_capabilities, platform_has_tun_privileges, portable_flag_enabled, sidecar_os_dir,
    linux_has_net_admin, tunnel_interface_name, tunnel_sidecar_names, vpn_admin_required_message,
    vpn_unavailable_message, PlatformCapabilities, TargetOs,
};

#[test]
fn os_folders_and_interface_names() {
    assert_eq!(sidecar_os_dir(TargetOs::Windows), "windows");
    assert_eq!(sidecar_os_dir(TargetOs::Macos), "macos");
    assert_eq!(sidecar_os_dir(TargetOs::Linux), "linux");
    assert_eq!(sidecar_os_dir(TargetOs::Other), "linux");
    assert_eq!(tunnel_interface_name(TargetOs::Linux), "skirk-tun0");
    assert_eq!(tunnel_interface_name(TargetOs::Windows), "Skirk Tunnel");
    assert_eq!(tunnel_sidecar_names(TargetOs::Windows), vec!["skirk-tunnel.exe", "sing-box.exe"]);
}

#[test]
fn vpn_messages_follow_platform_then_privileges() {
    assert_eq!(
        vpn_unavailable_message(TargetOs::Macos, true),
        "VPN mode is only available on Windows and Linux"
    );
    assert_eq!(
        vpn_unavailable_message(TargetOs::Windows, false),
        "VPN mode needs Administrator privileges to create the Windows TUN adapter"
    );
    assert_eq!(
        vpn_unavailable_message(TargetOs::Linux, false),
        "VPN mode needs root or CAP_NET_ADMIN privileges to create the Linux TUN interface"
    );
    assert_eq!(
        vpn_unavailable_message(TargetOs::Windows, true),
        "VPN mode needs the bundled TUN sidecar skirk-tunnel.exe"
    );
    assert_eq!(
        vpn_unavailable_message(TargetOs::Linux, true),
        "VPN mode needs the bundled TUN sidecar skirk-tunnel"
    );
    assert_eq!(vpn_admin_required_message(TargetOs::Linux), vpn_unavailable_message(TargetOs::Linux, false));
}

#[test]
fn tun_privileges_per_platform() {
    assert!(platform_has_tun_privileges(TargetOs::Windows, true, false));
    assert!(!platform_has_tun_privileges(TargetOs::Windows, false, true));
    assert!(platform_has_tun_privileges(TargetOs::Linux, false, true));
    assert!(!platform_has_tun_privileges(TargetOs::Macos, true, true));
}

#[test]
fn capabilities_per_platform() {
    assert_eq!(
        platform_capabilities(TargetOs::Windows, true, false),
        PlatformCapabilities {
            system_proxy_supported: true,
            vpn_mode_supported: true,
            vpn_requires_admin: true,
            vpn_admin: false,
            vpn_sidecar_present: true,
        }
    );
    let linux = platform_capabilities(TargetOs::Linux, false, true);
    assert!(!linux.system_proxy_supported && !linux.vpn_mode_supported && linux.vpn_requires_admin);
    let mac = platform_capabilities(TargetOs::Macos, true, false);
    assert!(!mac.vpn_mode_supported && !mac.vpn_requires_admin && mac.vpn_sidecar_present);
}

#[test]
fn net_admin_read_from_effective_capabilities() {
    let status = "Name:\tskirk\nCapInh:\t0000000000000000\nCapEff:\t0000000000001000\n";
    assert!(linux_has_net_admin(status));
    assert!(!linux_has_net_admin("CapEff:\t0000000000000fff\n"));
    assert!(!linux_has_net_admin("CapPrm:\t0000000000001000\n"));
    assert!(linux_has_net_admin("CapEff: 000001ffffffffff"));
    assert!(!linux_has_net_admin("CapEff:\tzz\n"));
    assert!(!linux_has_net_admin(""));
}

#[test]
fn portable_switch_values() {
    for on in ["1", "true", "TRUE", "Yes", "yEs"] {
        assert!(portable_flag_enabled(on), "{on}");
    }
    for off in ["", "0", "false", "no", " yes", "yes ", "truee"] {
        assert!(!portable_flag_enabled(off), "{off}");
    }
}
