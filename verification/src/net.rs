//! Listener addresses, LAN sharing addresses, the pinned Google control IP
//! and the path form that routing rules match the sidecar by.
use vstd::prelude::*;

use crate::ip::{
    dotted_quad, ip_text, ip_view, is_digit, lemma_decimal_digits, lemma_ip_text_round_trip,
    lemma_parse_ip_valid, parse_ip, spec_ip_text, spec_parse_ip, well_formed_ip, IpAddress,
};
use crate::ipv6::{ipv6_text_char, lemma_ipv6_text_shape};
use crate::platform::texts;
use crate::text::{chars_of, decimal, has_prefix, lemma_trim_keeps, same_text, string_of, strip_prefix_str, trim, trim_str};

verus! {

/// Host that local-only listeners bind to.
pub fn default_http_host() -> (s: String)
    ensures
        s@ == "127.0.0.1"@,
{
    String::from_str("127.0.0.1")
}

/// Port of the local HTTP proxy when a profile names none.
pub fn default_http_port() -> (p: u16)
    ensures
        p == 18081,
{
    18081
}

/// The Google front IP that the sidecar pins its control traffic to by
/// default.
pub fn default_google_ip() -> (s: String)
    ensures
        s@ == "216.239.38.120"@,
{
    String::from_str("216.239.38.120")
}

/// The address to probe a listener at: a listener on all interfaces is
/// probed through loopback on the same port.
pub open spec fn spec_loopback_probe_address(address: Seq<char>) -> Seq<char> {
    if has_prefix(address, "0.0.0.0:"@) {
        "127.0.0.1:"@ + address.skip("0.0.0.0:"@.len() as int)
    } else {
        address
    }
}

pub fn loopback_probe_address(address: &str) -> (s: String)
    ensures
        s@ == spec_loopback_probe_address(address@),
{
    match strip_prefix_str(address, "0.0.0.0:") {
        Some(port) => {
            let mut s = String::from_str("127.0.0.1:");
            s.append(port.as_str());
            s
        },
        None => String::from_str(address),
    }
}

/// The Win32 form of an extended-length path: `\\?\UNC\server\share` becomes
/// `\\server\share` and `\\?\C:\dir` becomes `C:\dir`; other paths are kept.
pub open spec fn spec_normalize_windows_process_path(path: Seq<char>) -> Seq<char> {
    if has_prefix(path, "\\\\?\\UNC\\"@) {
        "\\\\"@ + path.skip("\\\\?\\UNC\\"@.len() as int)
    } else if has_prefix(path, "\\\\?\\"@) {
        path.skip("\\\\?\\"@.len() as int)
    } else {
        path
    }
}

pub fn normalize_windows_process_path(path: &str) -> (s: String)
    ensures
        s@ == spec_normalize_windows_process_path(path@),
{
    if let Some(rest) = strip_prefix_str(path, "\\\\?\\UNC\\") {
        let mut s = String::from_str("\\\\");
        s.append(rest.as_str());
        return s;
    }
    match strip_prefix_str(path, "\\\\?\\") {
        Some(rest) => rest,
        None => String::from_str(path),
    }
}

/// Index of the last `c` in `s`.
pub open spec fn last_index_of(s: Seq<char>, c: char) -> Option<int> {
    if exists|k: int| 0 <= k < s.len() && s[k] == c {
        Some(choose|k: int| 0 <= k < s.len() && s[k] == c && forall|m: int| k < m < s.len() ==> s[m] != c)
    } else {
        None
    }
}

/// The port part of a listener address bound to all interfaces (`0.0.0.0`
/// or `::`), split at the last `:`; `None` for any other address.
pub open spec fn shared_port(address: Seq<char>) -> Option<Seq<char>> {
    match last_index_of(address, ':') {
        Some(k) => if address.take(k) == "0.0.0.0"@ || address.take(k) == "::"@ {
            Some(address.skip(k + 1))
        } else {
            None
        },
        None => None,
    }
}

fn last_colon(v: &Vec<char>) -> (r: Option<usize>)
    ensures
        match r {
            Some(k) => last_index_of(v@, ':') == Some(k as int) && k < v@.len(),
            None => last_index_of(v@, ':') is None,
        },
{
    let mut i = v.len();
    while i > 0
        invariant
            i <= v.len(),
            forall|m: int| i <= m < v.len() ==> v@[m] != ':',
        decreases i,
    {
        if v[i - 1] == ':' {
            let k = (i - 1) as usize;
            proof {
                assert(0 <= k < v@.len() && v@[k as int] == ':' && forall|m: int|
                    k < m < v@.len() ==> v@[m] != ':');
                let w = choose|j: int|
                    0 <= j < v@.len() && v@[j] == ':' && forall|m: int| j < m < v@.len() ==> v@[m]
                        != ':';
                if w < k {
                    assert(v@[k as int] != ':');
                } else if w > k {
                    assert(v@[w] != ':');
                }
            }
            return Some(k);
        }
        i = i - 1;
    }
    None
}

/// The addresses under which LAN clients reach a listener: each LAN IP
/// paired with the listener's port, or none when the listener is not
/// bound to all interfaces.
pub open spec fn spec_share_addresses(address: Seq<char>, lan_ips: Seq<Seq<char>>) -> Seq<Seq<char>> {
    match shared_port(address) {
        Some(port) => lan_ips.map_values(|ip: Seq<char>| ip + ":"@ + port),
        None => Seq::empty(),
    }
}

pub fn share_addresses(address: &str, lan_ips: &Vec<String>) -> (r: Vec<String>)
    ensures
        texts(r@) == spec_share_addresses(address@, texts(lan_ips@)),
{
    let v = chars_of(address);
    let k = match last_colon(&v) {
        Some(k) => k,
        None => {
            assert(texts(Seq::<String>::empty()) =~= Seq::<Seq<char>>::empty());
            return Vec::new();
        },
    };
    let host = crate::text::string_of(&crate::text::slice_chars(&v, 0, k));
    let port = crate::text::string_of(&crate::text::slice_chars(&v, k + 1, v.len()));
    assert(host@ =~= address@.take(k as int));
    assert(port@ =~= address@.skip(k + 1));
    if !same_text(host.as_str(), "0.0.0.0") && !same_text(host.as_str(), "::") {
        assert(texts(Seq::<String>::empty()) =~= Seq::<Seq<char>>::empty());
        return Vec::new();
    }
    let mut r: Vec<String> = Vec::new();
    for i in 0..lan_ips.len()
        invariant
            shared_port(address@) == Some(port@),
            r@.len() == i,
            forall|j: int| 0 <= j < i ==> #[trigger] r@[j]@ == lan_ips@[j]@ + ":"@ + port@,
    {
        let mut s = lan_ips[i].clone();
        s.append(":");
        s.append(port.as_str());
        r.push(s);
    }
    assert(texts(r@) =~= spec_share_addresses(address@, texts(lan_ips@)));
    r
}

/// Records one discovered LAN IP: the unspecified address and repeats are
/// left out.
pub fn record_lan_ip(ips: &mut Vec<String>, ip: String)
    ensures
        if ip@ != "0.0.0.0"@ && forall|i: int| 0 <= i < old(ips)@.len() ==> old(ips)@[i]@ != ip@ {
            final(ips)@ == old(ips)@.push(ip)
        } else {
            final(ips)@ == old(ips)@
        },
{
    if same_text(ip.as_str(), "0.0.0.0") {
        return;
    }
    let mut i: usize = 0;
    while i < ips.len()
        invariant
            i <= ips.len(),
            ips@ == old(ips)@,
            forall|j: int| 0 <= j < i ==> ips@[j]@ != ip@,
        decreases ips.len() - i,
    {
        if same_text(ips[i].as_str(), ip.as_str()) {
            return;
        }
        i = i + 1;
    }
    ips.push(ip);
}

/// The text read as the Google control IP: the trimmed value, or the default
/// IP when that is empty.
pub open spec fn google_ip_input(value: Seq<char>) -> Seq<char> {
    if trim(value).len() == 0 {
        "216.239.38.120"@
    } else {
        trim(value)
    }
}

/// Parses the configured Google control IP; blank means the default IP.
pub fn parse_google_ip(value: &str) -> (r: Result<IpAddress, String>)
    ensures
        match r {
            Ok(a) => spec_parse_ip(google_ip_input(value@)) == Some(ip_view(a)) && well_formed_ip(
                a,
            ),
            Err(e) => spec_parse_ip(google_ip_input(value@)) is None && e@
                == "profile route.google_ip must be an IP address"@,
        },
{
    let trimmed = trim_str(value);
    let text = if trimmed.as_str().unicode_len() == 0 {
        default_google_ip()
    } else {
        trimmed
    };
    match parse_ip(&chars_of(text.as_str())) {
        Some(a) => Ok(a),
        None => Err(String::from_str("profile route.google_ip must be an IP address")),
    }
}

/// The canonical text of the configured Google control IP.
pub fn canonical_google_ip(value: &str) -> (r: Result<String, String>)
    ensures
        match r {
            Ok(s) => spec_parse_ip(google_ip_input(value@)) matches Some(a) && s@ == spec_ip_text(a),
            Err(e) => spec_parse_ip(google_ip_input(value@)) is None && e@
                == "profile route.google_ip must be an IP address"@,
        },
{
    let a = parse_google_ip(value)?;
    Ok(string_of(&ip_text(&a)))
}

/// Whether the configured Google control IP parses.
pub open spec fn google_ip_parses(google_ip: Seq<char>) -> bool {
    spec_parse_ip(google_ip_input(google_ip)) is Some
}

/// The route prefix covering exactly the control IP: `/32` for IPv4,
/// `/128` for IPv6.
pub open spec fn spec_google_control_cidr(google_ip: Seq<char>) -> Seq<char> {
    let a = spec_parse_ip(google_ip_input(google_ip))->0;
    spec_ip_text(a) + if a.0 {
        "/32"@
    } else {
        "/128"@
    }
}

pub fn google_control_cidr(google_ip: &str) -> (s: String)
    requires
        google_ip_parses(google_ip@),
    ensures
        s@ == spec_google_control_cidr(google_ip@),
{
    let a = match parse_google_ip(google_ip) {
        Ok(a) => a,
        Err(_) => {
            assert(false);
            IpAddress::V4(Vec::new())
        },
    };
    let mut s = string_of(&ip_text(&a));
    match a {
        IpAddress::V4(_) => s.append("/32"),
        IpAddress::V6(_) => s.append("/128"),
    }
    s
}

proof fn lemma_dotted_quad_is_trimmed(o: Seq<u8>)
    requires
        o.len() == 4,
    ensures
        dotted_quad(o).len() > 0,
        trim(dotted_quad(o)) == dotted_quad(o),
{
    let t = dotted_quad(o);
    lemma_decimal_digits(o[0] as nat);
    lemma_decimal_digits(o[3] as nat);
    let d0 = decimal(o[0] as nat);
    let d3 = decimal(o[3] as nat);
    let mid = seq!['.'] + decimal(o[1] as nat) + seq!['.'] + decimal(o[2] as nat) + seq!['.'];
    assert(t =~= d0 + mid + d3);
    assert(t[0] == d0[0]);
    assert(t[t.len() - 1] == d3[d3.len() - 1]);
    assert(is_digit(d0[0]));
    assert(is_digit(d3[d3.len() - 1]));
    lemma_trim_keeps(t);
}

/// The canonical text of the control IP is read back as the same address,
/// so canonicalizing it again changes nothing: an IP stored at import is
/// accepted, unchanged, when connecting.
pub proof fn lemma_canonical_google_ip_stable(value: Seq<char>)
    requires
        spec_parse_ip(google_ip_input(value)) is Some,
    ensures
        spec_parse_ip(google_ip_input(spec_ip_text(spec_parse_ip(google_ip_input(value))->0)))
            == spec_parse_ip(google_ip_input(value)),
        spec_ip_text(spec_parse_ip(google_ip_input(spec_ip_text(
            spec_parse_ip(google_ip_input(value))->0,
        )))->0) == spec_ip_text(spec_parse_ip(google_ip_input(value))->0),
{
    let a = spec_parse_ip(google_ip_input(value))->0;
    lemma_parse_ip_valid(google_ip_input(value));
    lemma_ip_text_round_trip(a);
    let t = spec_ip_text(a);
    if a.0 {
        let o = Seq::new(4, |i: int| a.1[i] as u8);
        lemma_dotted_quad_is_trimmed(o);
    } else {
        lemma_ipv6_text_shape(a.1);
        assert(ipv6_text_char(t[0]));
        assert(ipv6_text_char(t[t.len() - 1]));
        lemma_trim_keeps(t);
    }
    assert(google_ip_input(t) == t);
}

/// The SOCKS5 greeting that offers only the no-authentication method.
pub fn socks5_no_auth_greeting() -> (g: [u8; 3])
    ensures
        g@ == seq![5u8, 1u8, 0u8],
{
    let g = [5u8, 1u8, 0u8];
    assert(g@ =~= seq![5u8, 1u8, 0u8]);
    g
}

/// Whether a SOCKS5 server's method reply accepts no authentication.
pub fn socks5_accepts_no_auth(reply: [u8; 2]) -> (b: bool)
    ensures
        b == (reply@ == seq![5u8, 0u8]),
{
    let b = reply[0] == 5 && reply[1] == 0;
    proof {
        if b {
            assert(reply@ =~= seq![5u8, 0u8]);
        }
        if reply@ == seq![5u8, 0u8] {
            assert(reply@[0] == 5u8);
        }
    }
    b
}

} // verus!
