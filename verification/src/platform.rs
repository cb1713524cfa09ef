//! What the desktop client decides from the platform it runs on: sidecar
//! names and folders, VPN availability and its messages, and TUN privileges.
use vstd::prelude::*;

use crate::ip::{digits_value, is_digit};
use crate::ipv6::{hex_val, hex_value};
use crate::text::{chars_of, has_prefix, split_at_char, split_chars, trim, trim_chars, CharClass, pieces_view};

verus! {

/// The operating system the client was built for.
#[derive(Clone, Copy, Debug, PartialEq, Eq, Structural)]
pub enum TargetOs {
    Windows,
    Macos,
    Linux,
    Other,
}

pub open spec fn texts(v: Seq<String>) -> Seq<Seq<char>> {
    v.map_values(|s: String| s@)
}

/// Folder under `sidecars/` that holds this platform's sidecars.
pub open spec fn spec_sidecar_os_dir(os: TargetOs) -> Seq<char> {
    match os {
        TargetOs::Windows => "windows"@,
        TargetOs::Macos => "macos"@,
        _ => "linux"@,
    }
}

pub fn sidecar_os_dir(os: TargetOs) -> (s: &'static str)
    ensures
        s@ == spec_sidecar_os_dir(os),
{
    match os {
        TargetOs::Windows => "windows",
        TargetOs::Macos => "macos",
        _ => "linux",
    }
}

/// File names the client sidecar may have on this platform, preferred first.
pub open spec fn spec_sidecar_names(os: TargetOs) -> Seq<Seq<char>> {
    match os {
        TargetOs::Windows => seq!["skirk-sidecar.exe"@, "skirk.exe"@, "skirk-windows-amd64.exe"@],
        TargetOs::Macos => seq!["skirk"@, "skirk-darwin-arm64"@, "skirk-darwin-amd64"@],
        _ => seq!["skirk"@, "skirk-linux-amd64"@],
    }
}

pub fn sidecar_names(os: TargetOs) -> (v: Vec<String>)
    ensures
        texts(v@) == spec_sidecar_names(os),
{
    let v = match os {
        TargetOs::Windows => vec![
            String::from_str("skirk-sidecar.exe"),
            String::from_str("skirk.exe"),
            String::from_str("skirk-windows-amd64.exe"),
        ],
        TargetOs::Macos => vec![
            String::from_str("skirk"),
            String::from_str("skirk-darwin-arm64"),
            String::from_str("skirk-darwin-amd64"),
        ],
        _ => vec![String::from_str("skirk"), String::from_str("skirk-linux-amd64")],
    };
    assert(texts(v@) =~= spec_sidecar_names(os));
    v
}

/// The client sidecar is looked for under its plain name first, then under
/// the name of each build made for the platform: on macOS the Apple Silicon
/// build before the Intel one, on Linux the x86-64 build, and on Windows
/// the bundled `skirk-sidecar.exe` before `skirk.exe` and the x86-64 build.
pub proof fn lemma_sidecar_names_cover_builds()
    ensures
        spec_sidecar_names(TargetOs::Macos) =~= seq![
            "skirk"@,
            "skirk-darwin-arm64"@,
            "skirk-darwin-amd64"@,
        ],
        spec_sidecar_names(TargetOs::Macos).contains("skirk-darwin-arm64"@),
        spec_sidecar_names(TargetOs::Macos).contains("skirk-darwin-amd64"@),
        spec_sidecar_names(TargetOs::Linux) =~= seq!["skirk"@, "skirk-linux-amd64"@],
        spec_sidecar_names(TargetOs::Other) =~= seq!["skirk"@, "skirk-linux-amd64"@],
        spec_sidecar_names(TargetOs::Windows) =~= seq![
            "skirk-sidecar.exe"@,
            "skirk.exe"@,
            "skirk-windows-amd64.exe"@,
        ],
{
    assert(spec_sidecar_names(TargetOs::Macos)[1] == "skirk-darwin-arm64"@);
    assert(spec_sidecar_names(TargetOs::Macos)[2] == "skirk-darwin-amd64"@);
}

/// File names the TUN sidecar may have on this platform, preferred first.
pub open spec fn spec_tunnel_sidecar_names(os: TargetOs) -> Seq<Seq<char>> {
    match os {
        TargetOs::Windows => seq!["skirk-tunnel.exe"@, "sing-box.exe"@],
        _ => seq!["skirk-tunnel"@, "sing-box"@],
    }
}

pub fn tunnel_sidecar_names(os: TargetOs) -> (v: Vec<String>)
    ensures
        texts(v@) == spec_tunnel_sidecar_names(os),
{
    let v = match os {
        TargetOs::Windows => vec![
            String::from_str("skirk-tunnel.exe"),
            String::from_str("sing-box.exe"),
        ],
        _ => vec![String::from_str("skirk-tunnel"), String::from_str("sing-box")],
    };
    assert(texts(v@) =~= spec_tunnel_sidecar_names(os));
    v
}

/// Name of the TUN interface the VPN sidecar creates.
pub open spec fn spec_tunnel_interface_name(os: TargetOs) -> Seq<char> {
    if os == TargetOs::Linux {
        "skirk-tun0"@
    } else {
        "Skirk Tunnel"@
    }
}

pub fn tunnel_interface_name(os: TargetOs) -> (s: String)
    ensures
        s@ == spec_tunnel_interface_name(os),
{
    match os {
        TargetOs::Linux => String::from_str("skirk-tun0"),
        _ => String::from_str("Skirk Tunnel"),
    }
}

/// VPN mode exists on Windows and Linux only.
pub open spec fn vpn_platform(os: TargetOs) -> bool {
    os == TargetOs::Windows || os == TargetOs::Linux
}

pub open spec fn spec_vpn_admin_required_message(os: TargetOs) -> Seq<char> {
    if os == TargetOs::Windows {
        "VPN mode needs Administrator privileges to create the Windows TUN adapter"@
    } else {
        "VPN mode needs root or CAP_NET_ADMIN privileges to create the Linux TUN interface"@
    }
}

pub fn vpn_admin_required_message(os: TargetOs) -> (s: String)
    ensures
        s@ == spec_vpn_admin_required_message(os),
{
    match os {
        TargetOs::Windows => String::from_str(
            "VPN mode needs Administrator privileges to create the Windows TUN adapter",
        ),
        _ => String::from_str(
            "VPN mode needs root or CAP_NET_ADMIN privileges to create the Linux TUN interface",
        ),
    }
}

/// Why VPN mode cannot be used: the platform, missing privileges, or the
/// missing TUN sidecar, checked in that order.
pub open spec fn spec_vpn_unavailable_message(os: TargetOs, has_tun_privileges: bool) -> Seq<char> {
    if !vpn_platform(os) {
        "VPN mode is only available on Windows and Linux"@
    } else if !has_tun_privileges {
        spec_vpn_admin_required_message(os)
    } else if os == TargetOs::Windows {
        "VPN mode needs the bundled TUN sidecar skirk-tunnel.exe"@
    } else {
        "VPN mode needs the bundled TUN sidecar skirk-tunnel"@
    }
}

pub fn vpn_unavailable_message(os: TargetOs, has_tun_privileges: bool) -> (s: String)
    ensures
        s@ == spec_vpn_unavailable_message(os, has_tun_privileges),
{
    match os {
        TargetOs::Windows | TargetOs::Linux => {},
        _ => return String::from_str("VPN mode is only available on Windows and Linux"),
    }
    if !has_tun_privileges {
        return vpn_admin_required_message(os);
    }
    match os {
        TargetOs::Windows => String::from_str(
            "VPN mode needs the bundled TUN sidecar skirk-tunnel.exe",
        ),
        _ => String::from_str("VPN mode needs the bundled TUN sidecar skirk-tunnel"),
    }
}

/// Whether the process may create a TUN interface: an elevated token on
/// Windows, `CAP_NET_ADMIN` on Linux, never elsewhere.
pub open spec fn spec_has_tun_privileges(os: TargetOs, windows_admin: bool, linux_net_admin: bool) -> bool {
    match os {
        TargetOs::Windows => windows_admin,
        TargetOs::Linux => linux_net_admin,
        _ => false,
    }
}

pub fn platform_has_tun_privileges(os: TargetOs, windows_admin: bool, linux_net_admin: bool) -> (b: bool)
    ensures
        b == spec_has_tun_privileges(os, windows_admin, linux_net_admin),
{
    match os {
        TargetOs::Windows => windows_admin,
        TargetOs::Linux => linux_net_admin,
        _ => false,
    }
}

/// What the desktop UI may offer on this platform.
#[derive(Clone, Copy, Debug, PartialEq, Eq, Structural)]
pub struct PlatformCapabilities {
    pub system_proxy_supported: bool,
    pub vpn_mode_supported: bool,
    pub vpn_requires_admin: bool,
    pub vpn_admin: bool,
    pub vpn_sidecar_present: bool,
}

/// The platform's capabilities: the system proxy on Windows; VPN mode on
/// Windows and Linux when the TUN sidecar is present.
pub fn platform_capabilities(os: TargetOs, vpn_sidecar_present: bool, vpn_admin: bool) -> (c:
    PlatformCapabilities)
    ensures
        c == (PlatformCapabilities {
            system_proxy_supported: os == TargetOs::Windows,
            vpn_mode_supported: vpn_platform(os) && vpn_sidecar_present,
            vpn_requires_admin: vpn_platform(os),
            vpn_admin,
            vpn_sidecar_present,
        }),
{
    let windows = match os {
        TargetOs::Windows => true,
        _ => false,
    };
    let vpn_platform = match os {
        TargetOs::Windows | TargetOs::Linux => true,
        _ => false,
    };
    PlatformCapabilities {
        system_proxy_supported: windows,
        vpn_mode_supported: vpn_platform && vpn_sidecar_present,
        vpn_requires_admin: vpn_platform,
        vpn_admin,
        vpn_sidecar_present,
    }
}

/// Bit of `CAP_NET_ADMIN` in a Linux capability mask.
pub open spec fn net_admin_bit(caps: int) -> bool {
    (caps / 4096) % 2 == 1
}

/// `s` without a leading `+`.
pub open spec fn unsigned_part(s: Seq<char>) -> Seq<char> {
    if s.len() > 0 && s[0] == '+' {
        s.skip(1)
    } else {
        s
    }
}

pub open spec fn hex_digits_only(d: Seq<char>) -> bool {
    forall|i: int| 0 <= i < d.len() ==> hex_val(#[trigger] d[i]) >= 0
}

/// An unsigned hexadecimal number as `u64::from_str_radix(_, 16)` accepts
/// it: an optional `+`, then one or more hex digits, below 2^64.
pub open spec fn spec_parse_hex_u64(s: Seq<char>) -> Option<int> {
    let d = unsigned_part(s);
    if d.len() > 0 && hex_digits_only(d) && hex_value(d, 0, d.len() as int)
        < 0x1_0000_0000_0000_0000 {
        Some(hex_value(d, 0, d.len() as int))
    } else {
        None
    }
}

/// A line of `/proc/self/status` that reports an effective capability mask
/// with `CAP_NET_ADMIN` in it.
pub open spec fn line_grants_net_admin(line: Seq<char>) -> bool {
    has_prefix(line, "CapEff:"@) && (spec_parse_hex_u64(trim(line.skip("CapEff:"@.len() as int)))
        matches Some(caps) && net_admin_bit(caps))
}

/// Whether `/proc/self/status` text grants `CAP_NET_ADMIN`.
pub open spec fn spec_status_has_net_admin(status: Seq<char>) -> bool {
    exists|i: int|
        0 <= i < split_at_char(status, '\n').len() && line_grants_net_admin(
            #[trigger] split_at_char(status, '\n')[i],
        )
}

proof fn lemma_hex_value_nonneg_grows(d: Seq<char>, k: int, n: int)
    requires
        0 <= k <= n <= d.len(),
        forall|m: int| 0 <= m < n ==> hex_val(#[trigger] d[m]) >= 0,
    ensures
        hex_value(d, 0, n) >= hex_value(d, 0, k) >= 0,
    decreases n,
{
    if n > 0 {
        if k < n {
            lemma_hex_value_nonneg_grows(d, k, n - 1);
        } else {
            lemma_hex_value_nonneg_grows(d, n - 1, n - 1);
        }
    }
}

fn parse_hex_u64(s: &Vec<char>) -> (r: Option<u64>)
    ensures
        match r {
            Some(v) => spec_parse_hex_u64(s@) == Some(v as int),
            None => spec_parse_hex_u64(s@) is None,
        },
{
    let start: usize = if s.len() > 0 && s[0] == '+' {
        1
    } else {
        0
    };
    let ghost d = unsigned_part(s@);
    assert(d =~= s@.skip(start as int));
    if start >= s.len() {
        return None;
    }
    let mut val: u128 = 0;
    let mut k = start;
    while k < s.len()
        invariant
            start <= k <= s.len(),
            d == unsigned_part(s@),
            d =~= s@.skip(start as int),
            forall|m: int| 0 <= m < k - start ==> hex_val(#[trigger] d[m]) >= 0,
            val == hex_value(d, 0, k - start),
            val < 0x1_0000_0000_0000_0000,
        decreases s.len() - k,
    {
        let c = s[k];
        assert(d[k - start] == c);
        let digit: u128 = if '0' <= c && c <= '9' {
            ((c as u32) - ('0' as u32)) as u128
        } else if 'a' <= c && c <= 'f' {
            ((c as u32) - ('a' as u32) + 10) as u128
        } else if 'A' <= c && c <= 'F' {
            ((c as u32) - ('A' as u32) + 10) as u128
        } else {
            assert(hex_val(d[k - start]) < 0);
            assert(!hex_digits_only(d));
            return None;
        };
        val = val * 16 + digit;
        k = k + 1;
        if val >= 0x1_0000_0000_0000_0000 {
            proof {
                if hex_digits_only(d) {
                    lemma_hex_value_nonneg_grows(d, k - start, d.len() as int);
                }
            }
            return None;
        }
    }
    Some(val as u64)
}

/// Whether the text of `/proc/self/status` grants `CAP_NET_ADMIN`: some
/// line `CapEff:` carries a hexadecimal mask with bit 12 set.
pub fn linux_has_net_admin(status: &str) -> (b: bool)
    ensures
        b == spec_status_has_net_admin(status@),
{
    let lines = split_chars(&chars_of(status), '\n');
    let prefix = chars_of("CapEff:");
    let ghost ls = split_at_char(status@, '\n');
    let mut i: usize = 0;
    while i < lines.len()
        invariant
            i <= lines@.len(),
            pieces_view(lines@) == ls,
            ls == split_at_char(status@, '\n'),
            prefix@ == "CapEff:"@,
            forall|j: int| 0 <= j < i ==> !line_grants_net_admin(#[trigger] ls[j]),
        decreases lines.len() - i,
    {
        assert(ls[i as int] == lines@[i as int]@);
        let line = &lines[i];
        let grants = if crate::text::chars_at(line, 0, &prefix) {
            let rest = crate::text::slice_chars(line, prefix.len(), line.len());
            let hex = trim_chars(&rest, CharClass::Space);
            assert(rest@ =~= line@.skip("CapEff:"@.len() as int));
            match parse_hex_u64(&hex) {
                Some(caps) => (caps / 4096) % 2 == 1,
                None => false,
            }
        } else {
            false
        };
        assert(grants == line_grants_net_admin(ls[i as int]));
        if grants {
            assert(split_at_char(status@, '\n')[i as int] == ls[i as int]);
            return true;
        }
        i = i + 1;
    }
    false
}

/// The code of `c` with ASCII capitals folded to lower case.
pub open spec fn lower_code(c: char) -> u32 {
    if 'A' <= c && c <= 'Z' {
        (c as u32 + 32) as u32
    } else {
        c as u32
    }
}

/// `value` equals the lower-case text `lower` once ASCII capitals in
/// `value` are folded.
pub open spec fn same_folding_ascii_case(value: Seq<char>, lower: Seq<char>) -> bool {
    value.len() == lower.len() && forall|i: int|
        0 <= i < value.len() ==> lower_code(#[trigger] value[i]) == lower[i] as u32
}

/// The portable-mode switch is on: `1`, `true` or `yes`, in any ASCII case.
pub open spec fn spec_portable_flag(value: Seq<char>) -> bool {
    same_folding_ascii_case(value, "1"@) || same_folding_ascii_case(value, "true"@)
        || same_folding_ascii_case(value, "yes"@)
}

fn folds_to(v: &Vec<char>, lower: &str) -> (b: bool)
    ensures
        b == same_folding_ascii_case(v@, lower@),
{
    let t = chars_of(lower);
    if v.len() != t.len() {
        return false;
    }
    for i in 0..v.len()
        invariant
            v@.len() == t@.len(),
            t@ == lower@,
            forall|j: int| 0 <= j < i ==> lower_code(#[trigger] v@[j]) == t@[j] as u32,
    {
        let c = v[i];
        let code = if 'A' <= c && c <= 'Z' {
            c as u32 + 32
        } else {
            c as u32
        };
        if code != t[i] as u32 {
            return false;
        }
    }
    true
}

/// Whether the portable-mode switch's value turns it on.
pub fn portable_flag_enabled(value: &str) -> (b: bool)
    ensures
        b == spec_portable_flag(value@),
{
    let v = chars_of(value);
    folds_to(&v, "1") || folds_to(&v, "true") || folds_to(&v, "yes")
}

} // verus!
