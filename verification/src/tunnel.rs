//! The configuration document of the VPN tunnel sidecar (sing-box 1.13):
//! a TUN inbound that leaves local networks and the Google control IP
//! outside the tunnel, a SOCKS outbound to the client sidecar, and rules
//! that keep the sidecar's own traffic direct. The document is built as a
//! JSON value and written by `serde_json`.
use vstd::prelude::*;

use crate::json::{
    json_array, json_at, json_at_from, json_entry, json_get, lemma_json_get, lemma_json_get_absent, json_object, json_pretty, json_text,
    json_view, pretty_json, Json, JsonStep, JsonValue,
};
use crate::net::{google_control_cidr, google_ip_parses, parse_google_ip, spec_google_control_cidr};
use crate::platform::{spec_tunnel_interface_name, tunnel_interface_name, TargetOs};

verus! {

pub open spec fn key(k: Seq<char>) -> JsonStep {
    JsonStep::Key(k)
}

pub open spec fn s(t: Seq<char>) -> JsonValue {
    JsonValue::Str(t)
}

pub open spec fn obj(es: Seq<(Seq<char>, JsonValue)>) -> JsonValue {
    JsonValue::Obj(es)
}

pub open spec fn arr(items: Seq<JsonValue>) -> JsonValue {
    JsonValue::Arr(items)
}

pub open spec fn spec_log() -> JsonValue {
    obj(seq![("level"@, s("warn"@)), ("timestamp"@, JsonValue::Bool(true))])
}

pub open spec fn spec_dns() -> JsonValue {
    obj(
        seq![
            ("servers"@, arr(seq![obj(seq![("type"@, s("local"@)), ("tag"@, s("local"@))])])),
            ("final"@, s("local"@)),
            ("strategy"@, s("ipv4_only"@)),
        ],
    )
}

/// Networks that stay outside the tunnel, then the control CIDR.
pub open spec fn spec_excluded(cidr: Seq<char>) -> JsonValue {
    arr(
        seq![
            s("127.0.0.0/8"@),
            s("10.0.0.0/8"@),
            s("100.64.0.0/10"@),
            s("169.254.0.0/16"@),
            s("172.16.0.0/12"@),
            s("192.168.0.0/16"@),
            s("224.0.0.0/4"@),
            s("::1/128"@),
            s("fc00::/7"@),
            s("fe80::/10"@),
            s(cidr),
        ],
    )
}

pub open spec fn spec_inbound(os: TargetOs, cidr: Seq<char>) -> JsonValue {
    obj(
        seq![
            ("type"@, s("tun"@)),
            ("tag"@, s("tun-in"@)),
            ("interface_name"@, s(spec_tunnel_interface_name(os))),
            ("address"@, arr(seq![s("172.19.0.1/30"@)])),
            ("auto_route"@, JsonValue::Bool(true)),
            ("strict_route"@, JsonValue::Bool(true)),
            ("stack"@, s("mixed"@)),
            ("route_exclude_address"@, spec_excluded(cidr)),
        ],
    )
}

pub open spec fn spec_outbounds(socks_port: u16) -> JsonValue {
    arr(
        seq![
            obj(
                seq![
                    ("type"@, s("socks"@)),
                    ("tag"@, s("proxy"@)),
                    ("server"@, s("127.0.0.1"@)),
                    ("server_port"@, JsonValue::Num(socks_port as nat)),
                    ("version"@, s("5"@)),
                ],
            ),
            obj(seq![("type"@, s("direct"@)), ("tag"@, s("direct"@))]),
        ],
    )
}

/// The process names whose traffic bypasses the tunnel.
pub open spec fn spec_process_names(os: TargetOs) -> JsonValue {
    if os == TargetOs::Windows {
        arr(seq![s("skirk-sidecar.exe"@), s("skirk.exe"@), s("skirk-windows-amd64.exe"@)])
    } else {
        arr(seq![s("skirk"@), s("skirk-linux-amd64"@)])
    }
}

pub open spec fn spec_control_rule(cidr: Seq<char>) -> JsonValue {
    obj(
        seq![
            ("ip_cidr"@, arr(seq![s(cidr)])),
            ("network"@, s("tcp"@)),
            ("port"@, JsonValue::Num(443)),
            ("action"@, s("route"@)),
            ("outbound"@, s("direct"@)),
        ],
    )
}

pub open spec fn spec_sidecar_rule(os: TargetOs, path: Seq<char>) -> JsonValue {
    obj(
        seq![
            ("type"@, s("logical"@)),
            ("mode"@, s("or"@)),
            (
                "rules"@,
                arr(
                    seq![
                        obj(seq![("process_name"@, spec_process_names(os))]),
                        obj(seq![("process_path"@, arr(seq![s(path)]))]),
                    ],
                ),
            ),
            ("action"@, s("route"@)),
            ("outbound"@, s("direct"@)),
        ],
    )
}

pub open spec fn spec_other_rules() -> Seq<JsonValue> {
    seq![
        obj(seq![("inbound"@, s("tun-in"@)), ("action"@, s("sniff"@)), ("timeout"@, s("1s"@))]),
        obj(
            seq![
                ("type"@, s("logical"@)),
                ("mode"@, s("or"@)),
                (
                    "rules"@,
                    arr(
                        seq![
                            obj(seq![("protocol"@, s("dns"@))]),
                            obj(seq![("port"@, JsonValue::Num(53))]),
                        ],
                    ),
                ),
                ("action"@, s("hijack-dns"@)),
            ],
        ),
        obj(
            seq![
                ("ip_is_private"@, JsonValue::Bool(true)),
                ("action"@, s("route"@)),
                ("outbound"@, s("direct"@)),
            ],
        ),
        obj(
            seq![
                ("network"@, s("udp"@)),
                ("action"@, s("reject"@)),
                ("method"@, s("default"@)),
                ("no_drop"@, JsonValue::Bool(true)),
            ],
        ),
    ]
}

pub open spec fn spec_route(os: TargetOs, path: Seq<char>, cidr: Seq<char>) -> JsonValue {
    obj(
        seq![
            (
                "rules"@,
                arr(seq![spec_control_rule(cidr), spec_sidecar_rule(os, path)] + spec_other_rules()),
            ),
            ("final"@, s("proxy"@)),
            ("auto_detect_interface"@, JsonValue::Bool(true)),
            ("find_process"@, JsonValue::Bool(true)),
            ("default_domain_resolver"@, s("local"@)),
        ],
    )
}

/// The tunnel sidecar's configuration for a client sidecar listening for
/// SOCKS on loopback at `socks_port`, running as `path`, with control
/// traffic to `cidr` kept out of the tunnel.
pub open spec fn spec_tunnel_json(os: TargetOs, socks_port: u16, path: Seq<char>, cidr: Seq<char>) -> JsonValue {
    obj(
        seq![
            ("log"@, spec_log()),
            ("dns"@, spec_dns()),
            ("inbounds"@, arr(seq![spec_inbound(os, cidr)])),
            ("outbounds"@, spec_outbounds(socks_port)),
            ("route"@, spec_route(os, path, cidr)),
        ],
    )
}

/// What the tunnel document routes where: the SOCKS outbound points at the
/// client sidecar on loopback at `socks_port`, control traffic to `cidr`
/// goes direct by the first rule and is left out of the tunnel by the last
/// excluded address, the sidecar's own path goes direct by the second rule,
/// and everything else goes to the proxy.
pub proof fn lemma_tunnel_routes(os: TargetOs, socks_port: u16, path: Seq<char>, cidr: Seq<char>)
    ensures
        ({
            let doc = spec_tunnel_json(os, socks_port, path, cidr);
            &&& json_at(doc, seq![key("outbounds"@), JsonStep::Index(0), key("server"@)]) == Some(
                s("127.0.0.1"@),
            )
            &&& json_at(doc, seq![key("outbounds"@), JsonStep::Index(0), key("server_port"@)])
                == Some(JsonValue::Num(socks_port as nat))
            &&& json_at(doc, seq![key("route"@), key("final"@)]) == Some(s("proxy"@))
            &&& json_at(doc, seq![key("route"@), key("rules"@), JsonStep::Index(0), key("ip_cidr"@)])
                == Some(arr(seq![s(cidr)]))
            &&& json_at(
                doc,
                seq![
                    key("route"@),
                    key("rules"@),
                    JsonStep::Index(1),
                    key("rules"@),
                    JsonStep::Index(1),
                    key("process_path"@),
                ],
            ) == Some(arr(seq![s(path)]))
            &&& json_at(
                doc,
                seq![
                    key("inbounds"@),
                    JsonStep::Index(0),
                    key("route_exclude_address"@),
                    JsonStep::Index(10),
                ],
            ) == Some(s(cidr))
            &&& json_at(doc, seq![key("inbounds"@), JsonStep::Index(0), key("route_exclude_address"@)])
                matches Some(JsonValue::Arr(excluded)) && excluded.len() == 11
        }),
{
    lemma_document_fields(os, socks_port, path, cidr);
    lemma_socks_fields(socks_port);
    lemma_route_fields(os, path, cidr);
    lemma_control_fields(cidr);
    lemma_sidecar_fields(os, path);
    lemma_json_get(seq![("process_path"@, arr(seq![s(path)]))], "process_path"@, 0);
    lemma_inbound_fields(os, cidr);
    reveal_with_fuel(json_at_from, 7);
}

/// The field `name` of routing rule `i` of document `doc`.
pub open spec fn rule_field(doc: JsonValue, i: int, name: Seq<char>) -> Option<JsonValue> {
    json_at(doc, seq![key("route"@), key("rules"@), JsonStep::Index(i), key(name)])
}

/// Where the tunnel's routing rules send traffic: every rule that names an
/// outbound sends what it matches direct (the control traffic, the
/// sidecars' own traffic and private networks), the private-network rule
/// among them, and only the final fallback names the proxy.
pub proof fn lemma_tunnel_rules_go_direct(os: TargetOs, socks_port: u16, path: Seq<char>, cidr: Seq<char>)
    ensures
        ({
            let doc = spec_tunnel_json(os, socks_port, path, cidr);
            &&& forall|i: int|
                #[trigger] rule_field(doc, i, "outbound"@) is None || rule_field(doc, i, "outbound"@)
                    == Some(s("direct"@))
            &&& rule_field(doc, 4, "ip_is_private"@) == Some(JsonValue::Bool(true))
            &&& rule_field(doc, 4, "outbound"@) == Some(s("direct"@))
            &&& rule_field(doc, 0, "outbound"@) == Some(s("direct"@))
            &&& rule_field(doc, 1, "outbound"@) == Some(s("direct"@))
            &&& json_at(doc, seq![key("route"@), key("final"@)]) == Some(s("proxy"@))
        }),
{
    lemma_document_fields(os, socks_port, path, cidr);
    lemma_route_fields(os, path, cidr);
    lemma_rule_outbounds(os, path, cidr);
    let doc = spec_tunnel_json(os, socks_port, path, cidr);
    let rules = seq![spec_control_rule(cidr), spec_sidecar_rule(os, path)] + spec_other_rules();
    assert(rules.len() == 6);
    assert forall|i: int| #[trigger] rule_field(doc, i, "outbound"@) is None || rule_field(
        doc,
        i,
        "outbound"@,
    ) == Some(s("direct"@)) by {
        reveal_with_fuel(json_at_from, 5);
        if 0 <= i < 6 {
            assert(json_get(rules[i], "outbound"@) is None || json_get(rules[i], "outbound"@) == Some(
                s("direct"@),
            ));
        }
    }
    reveal_with_fuel(json_at_from, 5);
    assert(rules[4] == spec_other_rules()[2]);
    assert(rules[0] == spec_control_rule(cidr));
    assert(rules[1] == spec_sidecar_rule(os, path));
}

/// What each routing rule says of the outbound, and the private-network
/// rule's match.
proof fn lemma_rule_outbounds(os: TargetOs, path: Seq<char>, cidr: Seq<char>)
    ensures
        ({
            let rules = seq![spec_control_rule(cidr), spec_sidecar_rule(os, path)] + spec_other_rules();
            &&& forall|i: int| 0 <= i < 6 ==> #[trigger] json_get(rules[i], "outbound"@) is None || json_get(
                rules[i],
                "outbound"@,
            ) == Some(s("direct"@))
            &&& json_get(rules[0], "outbound"@) == Some(s("direct"@))
            &&& json_get(rules[1], "outbound"@) == Some(s("direct"@))
            &&& json_get(rules[4], "outbound"@) == Some(s("direct"@))
            &&& json_get(rules[4], "ip_is_private"@) == Some(JsonValue::Bool(true))
        }),
{
    reveal_strlit("outbound");
    reveal_strlit("ip_is_private");
    reveal_strlit("action");
    reveal_strlit("inbound");
    reveal_strlit("timeout");
    reveal_strlit("type");
    reveal_strlit("mode");
    reveal_strlit("rules");
    reveal_strlit("network");
    reveal_strlit("method");
    reveal_strlit("no_drop");
    let rules = seq![spec_control_rule(cidr), spec_sidecar_rule(os, path)] + spec_other_rules();
    assert(rules[0] == spec_control_rule(cidr));
    assert(rules[1] == spec_sidecar_rule(os, path));
    assert(rules[2] == spec_other_rules()[0]);
    assert(rules[3] == spec_other_rules()[1]);
    assert(rules[4] == spec_other_rules()[2]);
    assert(rules[5] == spec_other_rules()[3]);
    assert("outbound"@.len() == 8);
    lemma_json_get(rules[0]->Obj_0, "outbound"@, 4);
    lemma_json_get(rules[1]->Obj_0, "outbound"@, 4);
    let e2 = rules[2]->Obj_0;
    assert(e2[0].0.len() == 7 && e2[1].0.len() == 6 && e2[2].0.len() == 7);
    lemma_json_get_absent(e2, "outbound"@);
    let e3 = rules[3]->Obj_0;
    assert(e3[0].0.len() == 4 && e3[1].0.len() == 4 && e3[2].0.len() == 5 && e3[3].0.len() == 6);
    lemma_json_get_absent(e3, "outbound"@);
    let e4 = rules[4]->Obj_0;
    lemma_json_get(e4, "outbound"@, 2);
    assert(e4[1].0.len() == 6 && e4[2].0.len() == 8 && "ip_is_private"@.len() == 13);
    lemma_json_get(e4, "ip_is_private"@, 0);
    let e5 = rules[5]->Obj_0;
    assert(e5[0].0.len() == 7 && e5[1].0.len() == 6 && e5[2].0.len() == 6 && e5[3].0.len() == 7);
    lemma_json_get_absent(e5, "outbound"@);
    assert forall|i: int| 0 <= i < 6 implies #[trigger] json_get(rules[i], "outbound"@) is None
        || json_get(rules[i], "outbound"@) == Some(s("direct"@)) by {
        if i == 0 {
        } else if i == 1 {
        } else if i == 2 {
        } else if i == 3 {
        } else if i == 4 {
        } else {
        }
    }
}

proof fn lemma_document_fields(os: TargetOs, socks_port: u16, path: Seq<char>, cidr: Seq<char>)
    ensures
        json_get(spec_tunnel_json(os, socks_port, path, cidr), "inbounds"@) == Some(
            arr(seq![spec_inbound(os, cidr)]),
        ),
        json_get(spec_tunnel_json(os, socks_port, path, cidr), "outbounds"@) == Some(
            spec_outbounds(socks_port),
        ),
        json_get(spec_tunnel_json(os, socks_port, path, cidr), "route"@) == Some(
            spec_route(os, path, cidr),
        ),
{
    reveal_strlit("log");
    reveal_strlit("dns");
    reveal_strlit("inbounds");
    reveal_strlit("outbounds");
    reveal_strlit("route");
    let es = spec_tunnel_json(os, socks_port, path, cidr)->Obj_0;
    assert(es[3].0.len() == 9 && es[4].0.len() == 5 && "inbounds"@.len() == 8);
    lemma_json_get(es, "inbounds"@, 2);
    lemma_json_get(es, "outbounds"@, 3);
    lemma_json_get(es, "route"@, 4);
}

proof fn lemma_socks_fields(socks_port: u16)
    ensures
        json_get(spec_outbounds(socks_port)->Arr_0[0], "server"@) == Some(s("127.0.0.1"@)),
        json_get(spec_outbounds(socks_port)->Arr_0[0], "server_port"@) == Some(
            JsonValue::Num(socks_port as nat),
        ),
{
    reveal_strlit("type");
    reveal_strlit("tag");
    reveal_strlit("server");
    reveal_strlit("server_port");
    let es = spec_outbounds(socks_port)->Arr_0[0]->Obj_0;
    reveal_strlit("version");
    assert(es[3].0.len() == 11 && es[4].0.len() == 7 && "server"@.len() == 6);
    lemma_json_get(es, "server"@, 2);
    lemma_json_get(es, "server_port"@, 3);
}

proof fn lemma_route_fields(os: TargetOs, path: Seq<char>, cidr: Seq<char>)
    ensures
        json_get(spec_route(os, path, cidr), "rules"@) == Some(
            arr(seq![spec_control_rule(cidr), spec_sidecar_rule(os, path)] + spec_other_rules()),
        ),
        json_get(spec_route(os, path, cidr), "final"@) == Some(s("proxy"@)),
{
    reveal_strlit("rules");
    reveal_strlit("final");
    reveal_strlit("auto_detect_interface");
    reveal_strlit("find_process");
    reveal_strlit("default_domain_resolver");
    let es = spec_route(os, path, cidr)->Obj_0;
    assert(es[1].0.len() == 5 && "rules"@.len() == 5 && es[1].0[0] != "rules"@[0]);
    assert(es[2].0.len() == 21 && es[3].0.len() == 12 && es[4].0.len() == 23);
    lemma_json_get(es, "rules"@, 0);
    lemma_json_get(es, "final"@, 1);
}

proof fn lemma_control_fields(cidr: Seq<char>)
    ensures
        json_get(spec_control_rule(cidr), "ip_cidr"@) == Some(arr(seq![s(cidr)])),
{
    reveal_strlit("ip_cidr");
    reveal_strlit("network");
    reveal_strlit("port");
    reveal_strlit("action");
    reveal_strlit("outbound");
    let es = spec_control_rule(cidr)->Obj_0;
    assert(es[1].0.len() == 7 && "ip_cidr"@.len() == 7 && es[1].0[0] != "ip_cidr"@[0]);
    assert(es[2].0.len() == 4 && es[3].0.len() == 6 && es[4].0.len() == 8);
    lemma_json_get(es, "ip_cidr"@, 0);
}

proof fn lemma_sidecar_fields(os: TargetOs, path: Seq<char>)
    ensures
        json_get(spec_sidecar_rule(os, path), "rules"@) == Some(
            arr(
                seq![
                    obj(seq![("process_name"@, spec_process_names(os))]),
                    obj(seq![("process_path"@, arr(seq![s(path)]))]),
                ],
            ),
        ),
{
    reveal_strlit("rules");
    reveal_strlit("action");
    reveal_strlit("outbound");
    let es = spec_sidecar_rule(os, path)->Obj_0;
    assert(es[3].0.len() == 6 && es[4].0.len() == 8 && "rules"@.len() == 5);
    lemma_json_get(es, "rules"@, 2);
}

proof fn lemma_inbound_fields(os: TargetOs, cidr: Seq<char>)
    ensures
        json_get(spec_inbound(os, cidr), "route_exclude_address"@) == Some(spec_excluded(cidr)),
{
    let es = spec_inbound(os, cidr)->Obj_0;
    lemma_json_get(es, "route_exclude_address"@, 7);
}

fn log_value() -> (j: Json)
    ensures
        json_view(j) == spec_log(),
{
    let e = vec![json_entry("level", json_text("warn")), json_entry("timestamp", Json::Bool(true))];
    let j = json_object(e);
    assert(e@.map_values(|e: (String, Json)| (e.0@, json_view(e.1))) =~= seq![
        ("level"@, s("warn"@)),
        ("timestamp"@, JsonValue::Bool(true)),
    ]);
    j
}

fn dns_value() -> (j: Json)
    ensures
        json_view(j) == spec_dns(),
{
    let se = vec![json_entry("type", json_text("local")), json_entry("tag", json_text("local"))];
    let server = json_object(se);
    assert(se@.map_values(|e: (String, Json)| (e.0@, json_view(e.1))) =~= seq![
        ("type"@, s("local"@)),
        ("tag"@, s("local"@)),
    ]);
    let sv = vec![server];
    let servers = json_array(sv);
    assert(sv@.map_values(|i: Json| json_view(i)) =~= seq![json_view(server)]);
    let e = vec![
        json_entry("servers", servers),
        json_entry("final", json_text("local")),
        json_entry("strategy", json_text("ipv4_only")),
    ];
    let j = json_object(e);
    assert(e@.map_values(|e: (String, Json)| (e.0@, json_view(e.1))) =~= seq![
        ("servers"@, arr(seq![obj(seq![("type"@, s("local"@)), ("tag"@, s("local"@))])])),
        ("final"@, s("local"@)),
        ("strategy"@, s("ipv4_only"@)),
    ]);
    j
}

fn excluded_value(cidr: &str) -> (j: Json)
    ensures
        json_view(j) == spec_excluded(cidr@),
{
    let v = vec![
        json_text("127.0.0.0/8"),
        json_text("10.0.0.0/8"),
        json_text("100.64.0.0/10"),
        json_text("169.254.0.0/16"),
        json_text("172.16.0.0/12"),
        json_text("192.168.0.0/16"),
        json_text("224.0.0.0/4"),
        json_text("::1/128"),
        json_text("fc00::/7"),
        json_text("fe80::/10"),
        json_text(cidr),
    ];
    let j = json_array(v);
    assert(v@.map_values(|i: Json| json_view(i)) =~= seq![
        s("127.0.0.0/8"@),
        s("10.0.0.0/8"@),
        s("100.64.0.0/10"@),
        s("169.254.0.0/16"@),
        s("172.16.0.0/12"@),
        s("192.168.0.0/16"@),
        s("224.0.0.0/4"@),
        s("::1/128"@),
        s("fc00::/7"@),
        s("fe80::/10"@),
        s(cidr@),
    ]);
    j
}

fn inbound_value(os: TargetOs, cidr: &str) -> (j: Json)
    ensures
        json_view(j) == spec_inbound(os, cidr@),
{
    let av = vec![json_text("172.19.0.1/30")];
    let address = json_array(av);
    assert(av@.map_values(|i: Json| json_view(i)) =~= seq![s("172.19.0.1/30"@)]);
    let name = tunnel_interface_name(os);
    let excluded = excluded_value(cidr);
    let e = vec![
        json_entry("type", json_text("tun")),
        json_entry("tag", json_text("tun-in")),
        json_entry("interface_name", json_text(name.as_str())),
        json_entry("address", address),
        json_entry("auto_route", Json::Bool(true)),
        json_entry("strict_route", Json::Bool(true)),
        json_entry("stack", json_text("mixed")),
        json_entry("route_exclude_address", excluded),
    ];
    let j = json_object(e);
    assert(e@.map_values(|e: (String, Json)| (e.0@, json_view(e.1))) =~= seq![
        ("type"@, s("tun"@)),
        ("tag"@, s("tun-in"@)),
        ("interface_name"@, s(spec_tunnel_interface_name(os))),
        ("address"@, arr(seq![s("172.19.0.1/30"@)])),
        ("auto_route"@, JsonValue::Bool(true)),
        ("strict_route"@, JsonValue::Bool(true)),
        ("stack"@, s("mixed"@)),
        ("route_exclude_address"@, spec_excluded(cidr@)),
    ]);
    j
}

fn outbounds_value(socks_port: u16) -> (j: Json)
    ensures
        json_view(j) == spec_outbounds(socks_port),
{
    let pe = vec![
        json_entry("type", json_text("socks")),
        json_entry("tag", json_text("proxy")),
        json_entry("server", json_text("127.0.0.1")),
        json_entry("server_port", Json::Num(socks_port as u64)),
        json_entry("version", json_text("5")),
    ];
    let proxy = json_object(pe);
    assert(pe@.map_values(|e: (String, Json)| (e.0@, json_view(e.1))) =~= seq![
        ("type"@, s("socks"@)),
        ("tag"@, s("proxy"@)),
        ("server"@, s("127.0.0.1"@)),
        ("server_port"@, JsonValue::Num(socks_port as nat)),
        ("version"@, s("5"@)),
    ]);
    let de = vec![json_entry("type", json_text("direct")), json_entry("tag", json_text("direct"))];
    let direct = json_object(de);
    assert(de@.map_values(|e: (String, Json)| (e.0@, json_view(e.1))) =~= seq![
        ("type"@, s("direct"@)),
        ("tag"@, s("direct"@)),
    ]);
    let v = vec![proxy, direct];
    let j = json_array(v);
    assert(v@.map_values(|i: Json| json_view(i)) =~= seq![json_view(proxy), json_view(direct)]);
    j
}

fn process_names_value(os: TargetOs) -> (j: Json)
    ensures
        json_view(j) == spec_process_names(os),
{
    match os {
        TargetOs::Windows => {
            let v = vec![
                json_text("skirk-sidecar.exe"),
                json_text("skirk.exe"),
                json_text("skirk-windows-amd64.exe"),
            ];
            let j = json_array(v);
            assert(v@.map_values(|i: Json| json_view(i)) =~= seq![
                s("skirk-sidecar.exe"@),
                s("skirk.exe"@),
                s("skirk-windows-amd64.exe"@),
            ]);
            j
        },
        _ => {
            let v = vec![json_text("skirk"), json_text("skirk-linux-amd64")];
            let j = json_array(v);
            assert(v@.map_values(|i: Json| json_view(i)) =~= seq![
                s("skirk"@),
                s("skirk-linux-amd64"@),
            ]);
            j
        },
    }
}

fn control_rule_value(cidr: &str) -> (j: Json)
    ensures
        json_view(j) == spec_control_rule(cidr@),
{
    let cv = vec![json_text(cidr)];
    let cidrs = json_array(cv);
    assert(cv@.map_values(|i: Json| json_view(i)) =~= seq![s(cidr@)]);
    let e = vec![
        json_entry("ip_cidr", cidrs),
        json_entry("network", json_text("tcp")),
        json_entry("port", Json::Num(443)),
        json_entry("action", json_text("route")),
        json_entry("outbound", json_text("direct")),
    ];
    let j = json_object(e);
    assert(e@.map_values(|e: (String, Json)| (e.0@, json_view(e.1))) =~= seq![
        ("ip_cidr"@, arr(seq![s(cidr@)])),
        ("network"@, s("tcp"@)),
        ("port"@, JsonValue::Num(443)),
        ("action"@, s("route"@)),
        ("outbound"@, s("direct"@)),
    ]);
    j
}

fn sidecar_rule_value(os: TargetOs, path: &str) -> (j: Json)
    ensures
        json_view(j) == spec_sidecar_rule(os, path@),
{
    let ne = vec![json_entry("process_name", process_names_value(os))];
    let names = json_object(ne);
    assert(ne@.map_values(|e: (String, Json)| (e.0@, json_view(e.1))) =~= seq![
        ("process_name"@, spec_process_names(os)),
    ]);
    let pv = vec![json_text(path)];
    let paths = json_array(pv);
    assert(pv@.map_values(|i: Json| json_view(i)) =~= seq![s(path@)]);
    let pe = vec![json_entry("process_path", paths)];
    let by_path = json_object(pe);
    assert(pe@.map_values(|e: (String, Json)| (e.0@, json_view(e.1))) =~= seq![
        ("process_path"@, arr(seq![s(path@)])),
    ]);
    let rv = vec![names, by_path];
    let rules = json_array(rv);
    assert(rv@.map_values(|i: Json| json_view(i)) =~= seq![json_view(names), json_view(by_path)]);
    let e = vec![
        json_entry("type", json_text("logical")),
        json_entry("mode", json_text("or")),
        json_entry("rules", rules),
        json_entry("action", json_text("route")),
        json_entry("outbound", json_text("direct")),
    ];
    let j = json_object(e);
    assert(e@.map_values(|e: (String, Json)| (e.0@, json_view(e.1))) =~= seq![
        ("type"@, s("logical"@)),
        ("mode"@, s("or"@)),
        (
            "rules"@,
            arr(
                seq![
                    obj(seq![("process_name"@, spec_process_names(os))]),
                    obj(seq![("process_path"@, arr(seq![s(path@)]))]),
                ],
            ),
        ),
        ("action"@, s("route"@)),
        ("outbound"@, s("direct"@)),
    ]);
    j
}

fn sniff_rule_value() -> (j: Json)
    ensures
        json_view(j) == spec_other_rules()[0],
{
    let e = vec![
        json_entry("inbound", json_text("tun-in")),
        json_entry("action", json_text("sniff")),
        json_entry("timeout", json_text("1s")),
    ];
    let j = json_object(e);
    assert(e@.map_values(|e: (String, Json)| (e.0@, json_view(e.1))) =~= seq![
        ("inbound"@, s("tun-in"@)),
        ("action"@, s("sniff"@)),
        ("timeout"@, s("1s"@)),
    ]);
    j
}

fn dns_rule_value() -> (j: Json)
    ensures
        json_view(j) == spec_other_rules()[1],
{
    let qe = vec![json_entry("protocol", json_text("dns"))];
    let by_protocol = json_object(qe);
    assert(qe@.map_values(|e: (String, Json)| (e.0@, json_view(e.1))) =~= seq![
        ("protocol"@, s("dns"@)),
    ]);
    let pe = vec![json_entry("port", Json::Num(53))];
    let by_port = json_object(pe);
    assert(pe@.map_values(|e: (String, Json)| (e.0@, json_view(e.1))) =~= seq![
        ("port"@, JsonValue::Num(53)),
    ]);
    let rv = vec![by_protocol, by_port];
    let rules = json_array(rv);
    assert(rv@.map_values(|i: Json| json_view(i)) =~= seq![json_view(by_protocol), json_view(by_port)]);
    let e = vec![
        json_entry("type", json_text("logical")),
        json_entry("mode", json_text("or")),
        json_entry("rules", rules),
        json_entry("action", json_text("hijack-dns")),
    ];
    let j = json_object(e);
    assert(e@.map_values(|e: (String, Json)| (e.0@, json_view(e.1))) =~= seq![
        ("type"@, s("logical"@)),
        ("mode"@, s("or"@)),
        (
            "rules"@,
            arr(seq![obj(seq![("protocol"@, s("dns"@))]), obj(seq![("port"@, JsonValue::Num(53))])]),
        ),
        ("action"@, s("hijack-dns"@)),
    ]);
    j
}

fn private_rule_value() -> (j: Json)
    ensures
        json_view(j) == spec_other_rules()[2],
{
    let e = vec![
        json_entry("ip_is_private", Json::Bool(true)),
        json_entry("action", json_text("route")),
        json_entry("outbound", json_text("direct")),
    ];
    let j = json_object(e);
    assert(e@.map_values(|e: (String, Json)| (e.0@, json_view(e.1))) =~= seq![
        ("ip_is_private"@, JsonValue::Bool(true)),
        ("action"@, s("route"@)),
        ("outbound"@, s("direct"@)),
    ]);
    j
}

fn udp_rule_value() -> (j: Json)
    ensures
        json_view(j) == spec_other_rules()[3],
{
    let e = vec![
        json_entry("network", json_text("udp")),
        json_entry("action", json_text("reject")),
        json_entry("method", json_text("default")),
        json_entry("no_drop", Json::Bool(true)),
    ];
    let j = json_object(e);
    assert(e@.map_values(|e: (String, Json)| (e.0@, json_view(e.1))) =~= seq![
        ("network"@, s("udp"@)),
        ("action"@, s("reject"@)),
        ("method"@, s("default"@)),
        ("no_drop"@, JsonValue::Bool(true)),
    ]);
    j
}

fn route_value(os: TargetOs, path: &str, cidr: &str) -> (j: Json)
    ensures
        json_view(j) == spec_route(os, path@, cidr@),
{
    let rv = vec![
        control_rule_value(cidr),
        sidecar_rule_value(os, path),
        sniff_rule_value(),
        dns_rule_value(),
        private_rule_value(),
        udp_rule_value(),
    ];
    let rules = json_array(rv);
    assert(rv@.map_values(|i: Json| json_view(i)) =~= seq![
        spec_control_rule(cidr@),
        spec_sidecar_rule(os, path@),
    ] + spec_other_rules());
    let e = vec![
        json_entry("rules", rules),
        json_entry("final", json_text("proxy")),
        json_entry("auto_detect_interface", Json::Bool(true)),
        json_entry("find_process", Json::Bool(true)),
        json_entry("default_domain_resolver", json_text("local")),
    ];
    let j = json_object(e);
    assert(e@.map_values(|e: (String, Json)| (e.0@, json_view(e.1))) =~= seq![
        (
            "rules"@,
            arr(seq![spec_control_rule(cidr@), spec_sidecar_rule(os, path@)] + spec_other_rules()),
        ),
        ("final"@, s("proxy"@)),
        ("auto_detect_interface"@, JsonValue::Bool(true)),
        ("find_process"@, JsonValue::Bool(true)),
        ("default_domain_resolver"@, s("local"@)),
    ]);
    j
}

/// The tunnel sidecar's configuration for a client sidecar listening for
/// SOCKS on loopback at `socks_port`, running as `sidecar_process_path`,
/// with control traffic to `google_ip` kept out of the tunnel.
pub fn tunnel_config(os: TargetOs, socks_port: u16, sidecar_process_path: &str, google_ip: &str) -> (j:
    Json)
    requires
        google_ip_parses(google_ip@),
    ensures
        json_view(j) == spec_tunnel_json(
            os,
            socks_port,
            sidecar_process_path@,
            spec_google_control_cidr(google_ip@),
        ),
{
    let cidr = google_control_cidr(google_ip);
    let iv = vec![inbound_value(os, cidr.as_str())];
    let inbounds = json_array(iv);
    assert(iv@.map_values(|i: Json| json_view(i)) =~= seq![spec_inbound(os, cidr@)]);
    let e = vec![
        json_entry("log", log_value()),
        json_entry("dns", dns_value()),
        json_entry("inbounds", inbounds),
        json_entry("outbounds", outbounds_value(socks_port)),
        json_entry("route", route_value(os, sidecar_process_path, cidr.as_str())),
    ];
    let j = json_object(e);
    assert(e@.map_values(|e: (String, Json)| (e.0@, json_view(e.1))) =~= seq![
        ("log"@, spec_log()),
        ("dns"@, spec_dns()),
        ("inbounds"@, arr(seq![spec_inbound(os, cidr@)])),
        ("outbounds"@, spec_outbounds(socks_port)),
        ("route"@, spec_route(os, sidecar_process_path@, cidr@)),
    ]);
    j
}

/// The tunnel configuration, or `None` when the control IP does not parse.
pub fn tunnel_config_checked(
    os: TargetOs,
    socks_port: u16,
    sidecar_process_path: &str,
    google_ip: &str,
) -> (r: Option<Json>)
    ensures
        match r {
            Some(j) => google_ip_parses(google_ip@) && json_view(j) == spec_tunnel_json(
                os,
                socks_port,
                sidecar_process_path@,
                spec_google_control_cidr(google_ip@),
            ),
            None => !google_ip_parses(google_ip@),
        },
{
    match parse_google_ip(google_ip) {
        Ok(_) => Some(tunnel_config(os, socks_port, sidecar_process_path, google_ip)),
        Err(_) => None,
    }
}

/// The text of the tunnel configuration as `serde_json` writes it, pretty
/// printed; a failure to write it is reported with its cause.
pub fn tunnel_config_text(config: &Json) -> (r: Result<String, String>)
    ensures
        match pretty_json(json_view(*config)) {
            Ok(text) => r matches Ok(t) && t@ == text,
            Err(cause) => r matches Err(e) && e@ == "failed to serialize VPN config: "@ + cause,
        },
{
    match json_pretty(config) {
        Ok(text) => Ok(text),
        Err(error) => {
            let mut message = String::from_str("failed to serialize VPN config: ");
            message.append(error.as_str());
            Err(message)
        },
    }
}

} // verus!
