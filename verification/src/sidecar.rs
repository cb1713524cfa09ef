//! Where the client and TUN sidecars are looked for, in order of
//! preference, and the message when none is found.
use vstd::prelude::*;

use crate::platform::{
    sidecar_names, sidecar_os_dir, spec_sidecar_names, spec_sidecar_os_dir,
    spec_tunnel_sidecar_names, texts, tunnel_sidecar_names, TargetOs,
};
use crate::paths::{join_all, join_path, path_join, same_path, same_path_text};
use crate::text::{chars_of, opt_text, same_text, trim, trim_str};

verus! {

/// Which sidecar is looked for.
#[derive(Clone, Copy, Debug, PartialEq, Eq, Structural)]
pub enum SidecarKind {
    /// The Skirk client sidecar.
    Client,
    /// The TUN sidecar that VPN mode runs.
    Tunnel,
}

/// Where a candidate path is rooted.
#[derive(Clone, Copy, Debug, PartialEq, Eq, Structural)]
pub enum SearchRoot {
    /// The folder of the running executable.
    ExeDir,
    /// The bundle's resource folder.
    ResourceDir,
    /// The working directory (a development checkout).
    CurrentDir,
}

/// Environment variables whose values override the search, in order.
pub open spec fn spec_override_vars(kind: SidecarKind) -> Seq<Seq<char>> {
    match kind {
        SidecarKind::Client => seq!["SKIRK_DESKTOP_SIDECAR"@, "SKIRK_SIDECAR"@],
        SidecarKind::Tunnel => seq!["SKIRK_TUNNEL_SIDECAR"@, "SKIRK_DESKTOP_TUNNEL"@],
    }
}

pub fn sidecar_override_vars(kind: SidecarKind) -> (v: Vec<String>)
    ensures
        texts(v@) == spec_override_vars(kind),
{
    let v = match kind {
        SidecarKind::Client => vec![
            String::from_str("SKIRK_DESKTOP_SIDECAR"),
            String::from_str("SKIRK_SIDECAR"),
        ],
        SidecarKind::Tunnel => vec![
            String::from_str("SKIRK_TUNNEL_SIDECAR"),
            String::from_str("SKIRK_DESKTOP_TUNNEL"),
        ],
    };
    assert(texts(v@) =~= spec_override_vars(kind));
    v
}

pub open spec fn spec_kind_names(kind: SidecarKind, os: TargetOs) -> Seq<Seq<char>> {
    match kind {
        SidecarKind::Client => spec_sidecar_names(os),
        SidecarKind::Tunnel => spec_tunnel_sidecar_names(os),
    }
}

/// A sidecar directly beside the executable is tried for every name,
/// except that a Windows client sidecar is only tried as
/// `skirk-sidecar.exe` there.
pub open spec fn beside_exe(kind: SidecarKind, os: TargetOs, name: Seq<char>) -> bool {
    kind == SidecarKind::Tunnel || os != TargetOs::Windows || name == "skirk-sidecar.exe"@
}

/// The candidates one name gives under one root.
pub open spec fn name_entries(
    kind: SidecarKind,
    os: TargetOs,
    root: SearchRoot,
    dir: Seq<char>,
    name: Seq<char>,
) -> Seq<Seq<char>> {
    let osd = spec_sidecar_os_dir(os);
    match root {
        SearchRoot::ExeDir => seq![
            join_all(dir, seq!["sidecars"@, osd, name], os),
            join_all(dir, seq!["resources"@, "sidecars"@, osd, name], os),
        ] + if beside_exe(kind, os, name) {
            seq![join_path(dir, name, os)]
        } else {
            seq![]
        },
        SearchRoot::ResourceDir => seq![
            join_all(dir, seq!["sidecars"@, osd, name], os),
            join_all(dir, seq!["resources"@, "sidecars"@, osd, name], os),
        ],
        SearchRoot::CurrentDir => seq![
            join_all(dir, seq!["../../bin"@, name], os),
            join_all(dir, seq!["../bin"@, name], os),
            join_all(dir, seq!["bin"@, name], os),
        ],
    }
}

/// The candidates all names give under one root, name by name.
pub open spec fn root_entries(
    kind: SidecarKind,
    os: TargetOs,
    root: SearchRoot,
    dir: Seq<char>,
    names: Seq<Seq<char>>,
) -> Seq<Seq<char>>
    decreases names.len(),
{
    if names.len() == 0 {
        seq![]
    } else {
        root_entries(kind, os, root, dir, names.drop_last()) + name_entries(
            kind,
            os,
            root,
            dir,
            names.last(),
        )
    }
}

/// The override values that are set and not blank, in order.
pub open spec fn override_entries(values: Seq<Option<Seq<char>>>) -> Seq<Seq<char>>
    decreases values.len(),
{
    if values.len() == 0 {
        seq![]
    } else {
        override_entries(values.drop_last()) + match values.last() {
            Some(v) => if trim(v).len() > 0 {
                seq![v]
            } else {
                seq![]
            },
            None => seq![],
        }
    }
}

pub open spec fn opt_root_entries(
    kind: SidecarKind,
    os: TargetOs,
    root: SearchRoot,
    dir: Option<Seq<char>>,
) -> Seq<Seq<char>> {
    match dir {
        Some(d) => root_entries(kind, os, root, d, spec_kind_names(kind, os)),
        None => seq![],
    }
}

/// Every candidate, before repeats are dropped: the overrides, then the
/// executable's folder, the resource folder and the working directory.
pub open spec fn raw_candidates(
    kind: SidecarKind,
    os: TargetOs,
    overrides: Seq<Option<Seq<char>>>,
    exe_dir: Option<Seq<char>>,
    resource_dir: Option<Seq<char>>,
    current_dir: Option<Seq<char>>,
) -> Seq<Seq<char>> {
    override_entries(overrides) + opt_root_entries(kind, os, SearchRoot::ExeDir, exe_dir)
        + opt_root_entries(kind, os, SearchRoot::ResourceDir, resource_dir) + opt_root_entries(
        kind,
        os,
        SearchRoot::CurrentDir,
        current_dir,
    )
}

/// Some entry of `cs` names the same path as `p`.
pub open spec fn has_same_path(cs: Seq<Seq<char>>, p: Seq<char>, os: TargetOs) -> bool {
    exists|j: int| 0 <= j < cs.len() && same_path(#[trigger] cs[j], p, os)
}

/// `s` with each entry dropped that names the same path as an earlier one.
pub open spec fn dedup(s: Seq<Seq<char>>, os: TargetOs) -> Seq<Seq<char>>
    decreases s.len(),
{
    if s.len() == 0 {
        seq![]
    } else {
        let r = dedup(s.drop_last(), os);
        if has_same_path(r, s.last(), os) {
            r
        } else {
            r.push(s.last())
        }
    }
}

/// No two entries of `cs` name the same path.
pub open spec fn paths_distinct(cs: Seq<Seq<char>>, os: TargetOs) -> bool {
    forall|i: int, j: int| 0 <= i < j < cs.len() ==> !same_path(#[trigger] cs[i], #[trigger] cs[j], os)
}

/// `cs` with `p` added unless an entry already names the same path.
pub open spec fn with_candidate(cs: Seq<Seq<char>>, p: Seq<char>, os: TargetOs) -> Seq<Seq<char>> {
    if has_same_path(cs, p, os) {
        cs
    } else {
        cs.push(p)
    }
}

/// Adding a candidate keeps the entries apart as paths, and afterwards the
/// paths named are those named before together with the added one.
pub proof fn lemma_with_candidate(cs: Seq<Seq<char>>, p: Seq<char>, os: TargetOs)
    ensures
        paths_distinct(cs, os) ==> paths_distinct(with_candidate(cs, p, os), os),
        has_same_path(with_candidate(cs, p, os), p, os),
        forall|x: Seq<char>|
            #[trigger] has_same_path(with_candidate(cs, p, os), x, os) <==> (has_same_path(cs, x, os)
                || same_path(x, p, os)),
{
    let n = with_candidate(cs, p, os);
    if !has_same_path(cs, p, os) {
        assert(n[cs.len() as int] == p);
        assert(same_path(n[cs.len() as int], p, os));
        assert forall|x: Seq<char>| #[trigger] has_same_path(n, x, os) <==> (has_same_path(cs, x, os)
            || same_path(x, p, os)) by {
            if has_same_path(n, x, os) {
                let j = choose|j: int| 0 <= j < n.len() && same_path(#[trigger] n[j], x, os);
                if j < cs.len() {
                    assert(n[j] == cs[j]);
                }
            }
            if has_same_path(cs, x, os) {
                let j = choose|j: int| 0 <= j < cs.len() && same_path(#[trigger] cs[j], x, os);
                assert(n[j] == cs[j]);
            }
            if same_path(x, p, os) {
                assert(same_path(n[cs.len() as int], x, os));
            }
        }
        if paths_distinct(cs, os) {
            assert forall|i: int, j: int| 0 <= i < j < n.len() implies !same_path(
                #[trigger] n[i],
                #[trigger] n[j],
                os,
            ) by {
                assert(n[i] == cs[i]);
                if j == cs.len() {
                    if same_path(n[i], n[j], os) {
                        assert(same_path(cs[i], p, os));
                    }
                } else {
                    assert(n[j] == cs[j]);
                }
            }
        }
    } else {
        let k = choose|k: int| 0 <= k < cs.len() && same_path(#[trigger] cs[k], p, os);
        assert forall|x: Seq<char>| #[trigger] has_same_path(n, x, os) <==> (has_same_path(cs, x, os)
            || same_path(x, p, os)) by {
            if same_path(x, p, os) {
                assert(same_path(cs[k], x, os));
            }
        }
    }
}

/// Adds `path` to the candidates unless one of them already names the same
/// path, as paths compare on `os`. Entries that were apart as paths stay
/// apart, and the paths named afterwards are those named before and `path`.
pub fn push_sidecar_candidate(candidates: &mut Vec<String>, path: String, os: TargetOs)
    ensures
        texts(final(candidates)@) == with_candidate(texts(old(candidates)@), path@, os),
        paths_distinct(texts(old(candidates)@), os) ==> paths_distinct(texts(final(candidates)@), os),
        has_same_path(texts(final(candidates)@), path@, os),
        forall|x: Seq<char>|
            #[trigger] has_same_path(texts(final(candidates)@), x, os) <==> (has_same_path(
                texts(old(candidates)@),
                x,
                os,
            ) || same_path(x, path@, os)),
{
    proof {
        lemma_with_candidate(texts(candidates@), path@, os);
    }
    let mut i: usize = 0;
    while i < candidates.len()
        invariant
            i <= candidates.len(),
            candidates@ == old(candidates)@,
            forall|j: int| 0 <= j < i ==> !same_path(#[trigger] candidates@[j]@, path@, os),
        decreases candidates.len() - i,
    {
        if same_path_text(candidates[i].as_str(), path.as_str(), os) {
            assert(texts(candidates@)[i as int] == candidates@[i as int]@);
            return;
        }
        i = i + 1;
    }
    proof {
        if has_same_path(texts(old(candidates)@), path@, os) {
            let j = choose|j: int|
                0 <= j < texts(old(candidates)@).len() && same_path(
                    #[trigger] texts(old(candidates)@)[j],
                    path@,
                    os,
                );
            assert(texts(old(candidates)@)[j] == candidates@[j]@);
        }
    }
    let ghost before = texts(candidates@);
    candidates.push(path);
    assert(texts(candidates@) =~= before.push(path@));
}

fn push_name_entries(
    out: &mut Vec<String>,
    kind: SidecarKind,
    os: TargetOs,
    root: SearchRoot,
    dir: &str,
    name: &str,
)
    ensures
        texts(final(out)@) == texts(old(out)@) + name_entries(kind, os, root, dir@, name@),
{
    let osd = sidecar_os_dir(os);
    let ghost before = texts(out@);
    match root {
        SearchRoot::ExeDir | SearchRoot::ResourceDir => {
            let a = path_join(path_join(path_join(dir, "sidecars", os).as_str(), osd, os).as_str(), name, os);
            let b = path_join(
                path_join(
                    path_join(path_join(dir, "resources", os).as_str(), "sidecars", os).as_str(),
                    osd,
                    os,
                ).as_str(),
                name,
                os,
            );
            proof {
                let s1 = seq!["sidecars"@, spec_sidecar_os_dir(os), name@];
                assert(s1.drop_last().drop_last().drop_last() =~= Seq::<Seq<char>>::empty());
                assert(s1.drop_last().drop_last() =~= seq!["sidecars"@]);
                assert(s1.drop_last() =~= seq!["sidecars"@, spec_sidecar_os_dir(os)]);
                let s2 = seq!["resources"@, "sidecars"@, spec_sidecar_os_dir(os), name@];
                assert(s2.drop_last().drop_last().drop_last().drop_last() =~= Seq::<Seq<char>>::empty());
                assert(s2.drop_last().drop_last().drop_last() =~= seq!["resources"@]);
                assert(s2.drop_last().drop_last() =~= seq!["resources"@, "sidecars"@]);
                assert(s2.drop_last() =~= seq!["resources"@, "sidecars"@, spec_sidecar_os_dir(os)]);
            }
            let ghost osd_v = spec_sidecar_os_dir(os);
            proof {
                reveal_with_fuel(join_all, 5);
            }
            assert(a@ == join_all(dir@, seq!["sidecars"@, osd_v, name@], os));
            assert(b@ == join_all(dir@, seq!["resources"@, "sidecars"@, osd_v, name@], os));
            out.push(a);
            out.push(b);
            let bare = match root {
                SearchRoot::ExeDir => match kind {
                    SidecarKind::Tunnel => true,
                    SidecarKind::Client => match os {
                        TargetOs::Windows => same_text(name, "skirk-sidecar.exe"),
                        _ => true,
                    },
                },
                _ => false,
            };
            assert(bare == (root == SearchRoot::ExeDir && beside_exe(kind, os, name@)));
            if bare {
                let c = path_join(dir, name, os);
                out.push(c);
                assert(texts(out@) =~= before + seq![a@, b@, c@]);
            } else {
                assert(texts(out@) =~= before + seq![a@, b@]);
            }
        },
        SearchRoot::CurrentDir => {
            let a = path_join(path_join(dir, "../../bin", os).as_str(), name, os);
            let b = path_join(path_join(dir, "../bin", os).as_str(), name, os);
            let c = path_join(path_join(dir, "bin", os).as_str(), name, os);
            proof {
                reveal_with_fuel(join_all, 3);
                assert(seq!["../../bin"@, name@].drop_last().drop_last() =~= Seq::<Seq<char>>::empty());
                assert(seq!["../../bin"@, name@].drop_last() =~= seq!["../../bin"@]);
                assert(seq!["../bin"@, name@].drop_last().drop_last() =~= Seq::<Seq<char>>::empty());
                assert(seq!["../bin"@, name@].drop_last() =~= seq!["../bin"@]);
                assert(seq!["bin"@, name@].drop_last().drop_last() =~= Seq::<Seq<char>>::empty());
                assert(seq!["bin"@, name@].drop_last() =~= seq!["bin"@]);
            }
            assert(a@ == join_all(dir@, seq!["../../bin"@, name@], os));
            assert(b@ == join_all(dir@, seq!["../bin"@, name@], os));
            assert(c@ == join_all(dir@, seq!["bin"@, name@], os));
            out.push(a);
            out.push(b);
            out.push(c);
            assert(texts(out@) =~= before + seq![a@, b@, c@]);
        },
    }
    assert(texts(out@) =~= before + name_entries(kind, os, root, dir@, name@));
}

fn push_root_entries(
    out: &mut Vec<String>,
    kind: SidecarKind,
    os: TargetOs,
    root: SearchRoot,
    dir: &str,
    names: &Vec<String>,
)
    ensures
        texts(final(out)@) == texts(old(out)@) + root_entries(kind, os, root, dir@, texts(names@)),
{
    let ghost start = texts(out@);
    let ghost ns = texts(names@);
    for i in 0..names.len()
        invariant
            ns == texts(names@),
            texts(out@) == start + root_entries(kind, os, root, dir@, ns.take(i as int)),
    {
        let ghost before = texts(out@);
        push_name_entries(out, kind, os, root, dir, names[i].as_str());
        proof {
            assert(ns.take(i + 1).drop_last() =~= ns.take(i as int));
            assert(ns.take(i + 1).last() == names@[i as int]@);
        }
        assert(texts(out@) =~= start + root_entries(kind, os, root, dir@, ns.take(i + 1)));
    }
    assert(ns.take(ns.len() as int) =~= ns);
}

pub open spec fn opt_texts(v: Seq<Option<String>>) -> Seq<Option<Seq<char>>> {
    v.map_values(|o: Option<String>| opt_text(o))
}

/// The paths a sidecar of `kind` is looked for at, preferred first and
/// without repeats: the override variables' values (`overrides`, in the
/// order `sidecar_override_vars` names them), then the executable's folder,
/// the resource folder and the working directory.
pub fn sidecar_candidate_paths(
    kind: SidecarKind,
    os: TargetOs,
    overrides: &Vec<Option<String>>,
    exe_dir: Option<&str>,
    resource_dir: Option<&str>,
    current_dir: Option<&str>,
) -> (r: Vec<String>)
    ensures
        texts(r@) == dedup(
            raw_candidates(
                kind,
                os,
                opt_texts(overrides@),
                match exe_dir {
                    Some(d) => Some(d@),
                    None => None,
                },
                match resource_dir {
                    Some(d) => Some(d@),
                    None => None,
                },
                match current_dir {
                    Some(d) => Some(d@),
                    None => None,
                },
            ),
            os,
        ),
{
    let mut raw: Vec<String> = Vec::new();
    let ghost ov = opt_texts(overrides@);
    for i in 0..overrides.len()
        invariant
            ov == opt_texts(overrides@),
            texts(raw@) == override_entries(ov.take(i as int)),
    {
        let ghost before = texts(raw@);
        proof {
            assert(ov.take(i + 1).drop_last() =~= ov.take(i as int));
            assert(ov.take(i + 1).last() == opt_text(overrides@[i as int]));
        }
        match &overrides[i] {
            Some(v) => {
                if trim_str(v.as_str()).as_str().unicode_len() > 0 {
                    raw.push(v.clone());
                    assert(texts(raw@) =~= before.push(v@));
                }
            },
            None => {},
        }
        assert(texts(raw@) =~= override_entries(ov.take(i + 1)));
    }
    assert(ov.take(ov.len() as int) =~= ov);
    let names = match kind {
        SidecarKind::Client => sidecar_names(os),
        SidecarKind::Tunnel => tunnel_sidecar_names(os),
    };
    match exe_dir {
        Some(d) => push_root_entries(&mut raw, kind, os, SearchRoot::ExeDir, d, &names),
        None => {},
    }
    match resource_dir {
        Some(d) => push_root_entries(&mut raw, kind, os, SearchRoot::ResourceDir, d, &names),
        None => {},
    }
    match current_dir {
        Some(d) => push_root_entries(&mut raw, kind, os, SearchRoot::CurrentDir, d, &names),
        None => {},
    }
    let ghost all = texts(raw@);
    assert(all =~= raw_candidates(
        kind,
        os,
        ov,
        match exe_dir {
            Some(d) => Some(d@),
            None => None,
        },
        match resource_dir {
            Some(d) => Some(d@),
            None => None,
        },
        match current_dir {
            Some(d) => Some(d@),
            None => None,
        },
    ));
    let mut out: Vec<String> = Vec::new();
    for i in 0..raw.len()
        invariant
            all == texts(raw@),
            texts(out@) == dedup(all.take(i as int), os),
    {
        proof {
            assert(all.take(i + 1).drop_last() =~= all.take(i as int));
            assert(all.take(i + 1).last() == raw@[i as int]@);
        }
        push_sidecar_candidate(&mut out, raw[i].clone(), os);
    }
    assert(all.take(all.len() as int) =~= all);
    out
}

/// Dropping repeats leaves no two entries that name the same path, keeps
/// an entry for every path there was, and adds nothing.
pub proof fn lemma_dedup(s: Seq<Seq<char>>, os: TargetOs)
    ensures
        forall|i: int, j: int|
            0 <= i < j < dedup(s, os).len() ==> !same_path(
                #[trigger] dedup(s, os)[i],
                #[trigger] dedup(s, os)[j],
                os,
            ),
        forall|x: Seq<char>| #[trigger] s.contains(x) ==> has_same_path(dedup(s, os), x, os),
        forall|x: Seq<char>| #[trigger] dedup(s, os).contains(x) ==> s.contains(x),
    decreases s.len(),
{
    if s.len() > 0 {
        let init = s.drop_last();
        lemma_dedup(init, os);
        let r = dedup(init, os);
        let d = dedup(s, os);
        let last = s.last();
        if !has_same_path(r, last, os) {
            assert(d == r.push(last));
            assert forall|i: int, j: int| 0 <= i < j < d.len() implies !same_path(
                #[trigger] d[i],
                #[trigger] d[j],
                os,
            ) by {
                if j == r.len() {
                    assert(d[i] == r[i]);
                    assert(d[j] == last);
                    if same_path(d[i], d[j], os) {
                        assert(same_path(r[i], last, os));
                        assert(has_same_path(r, last, os));
                    }
                } else {
                    assert(d[i] == r[i] && d[j] == r[j]);
                }
            }
        }
        assert forall|x: Seq<char>| #[trigger] s.contains(x) implies has_same_path(d, x, os) by {
            let k = choose|k: int| 0 <= k < s.len() && s[k] == x;
            if k < s.len() - 1 {
                assert(init[k] == x);
                assert(init.contains(x));
                assert(has_same_path(r, x, os));
                let j = choose|j: int| 0 <= j < r.len() && same_path(#[trigger] r[j], x, os);
                if !has_same_path(r, last, os) {
                    assert(d[j] == r[j]);
                }
                assert(same_path(d[j], x, os));
            } else {
                assert(x == last);
                if has_same_path(r, last, os) {
                    let j = choose|j: int| 0 <= j < r.len() && same_path(#[trigger] r[j], last, os);
                    assert(same_path(d[j], x, os));
                } else {
                    assert(d[r.len() as int] == x);
                    assert(same_path(d[r.len() as int], x, os));
                }
            }
        }
        assert forall|x: Seq<char>| #[trigger] d.contains(x) implies s.contains(x) by {
            let j = choose|j: int| 0 <= j < d.len() && d[j] == x;
            if j < r.len() {
                assert(r[j] == x);
                assert(r.contains(x));
                assert(init.contains(x));
                let k = choose|k: int| 0 <= k < init.len() && init[k] == x;
                assert(s[k] == x);
            } else {
                assert(s[s.len() - 1] == x);
            }
        }
    }
}

/// The message when no sidecar of `kind` was found: guidance for the
/// platform, then the first twelve paths searched, separated by `; `.
pub open spec fn spec_not_found_guidance(kind: SidecarKind, os: TargetOs) -> Seq<char> {
    match kind {
        SidecarKind::Client => match os {
            TargetOs::Windows => "skirk sidecar not found; place skirk-sidecar.exe under sidecars/windows/ or resources/sidecars/windows/, or set SKIRK_DESKTOP_SIDECAR. searched: "@,
            TargetOs::Macos => "skirk sidecar not found; place skirk under sidecars/macos/ or resources/sidecars/macos/, or set SKIRK_DESKTOP_SIDECAR. searched: "@,
            _ => "skirk sidecar not found; place skirk under sidecars/linux/ or resources/sidecars/linux/, or set SKIRK_DESKTOP_SIDECAR. searched: "@,
        },
        SidecarKind::Tunnel => match os {
            TargetOs::Windows => "VPN mode needs the bundled TUN sidecar skirk-tunnel.exe. searched: "@,
            TargetOs::Linux => "VPN mode needs the bundled TUN sidecar skirk-tunnel. searched: "@,
            _ => "VPN mode is not available on this platform. A TUN sidecar was searched only for diagnostics: "@,
        },
    }
}

/// `items` joined with `sep` between them.
pub open spec fn join_with(items: Seq<Seq<char>>, sep: Seq<char>) -> Seq<char>
    decreases items.len(),
{
    if items.len() == 0 {
        seq![]
    } else if items.len() == 1 {
        items[0]
    } else {
        join_with(items.drop_last(), sep) + sep + items.last()
    }
}

pub open spec fn spec_not_found_message(kind: SidecarKind, os: TargetOs, candidates: Seq<Seq<char>>) -> Seq<char> {
    spec_not_found_guidance(kind, os) + join_with(
        candidates.take(if candidates.len() < 12 {
            candidates.len() as int
        } else {
            12
        }),
        "; "@,
    )
}

fn not_found_guidance(kind: SidecarKind, os: TargetOs) -> (s: String)
    ensures
        s@ == spec_not_found_guidance(kind, os),
{
    match kind {
        SidecarKind::Client => match os {
            TargetOs::Windows => String::from_str("skirk sidecar not found; place skirk-sidecar.exe under sidecars/windows/ or resources/sidecars/windows/, or set SKIRK_DESKTOP_SIDECAR. searched: "),
            TargetOs::Macos => String::from_str("skirk sidecar not found; place skirk under sidecars/macos/ or resources/sidecars/macos/, or set SKIRK_DESKTOP_SIDECAR. searched: "),
            _ => String::from_str("skirk sidecar not found; place skirk under sidecars/linux/ or resources/sidecars/linux/, or set SKIRK_DESKTOP_SIDECAR. searched: "),
        },
        SidecarKind::Tunnel => match os {
            TargetOs::Windows => String::from_str("VPN mode needs the bundled TUN sidecar skirk-tunnel.exe. searched: "),
            TargetOs::Linux => String::from_str("VPN mode needs the bundled TUN sidecar skirk-tunnel. searched: "),
            _ => String::from_str("VPN mode is not available on this platform. A TUN sidecar was searched only for diagnostics: "),
        },
    }
}

/// The message when no sidecar of `kind` was found among `candidates`.
pub fn sidecar_not_found_message(kind: SidecarKind, os: TargetOs, candidates: &Vec<String>) -> (s:
    String)
    ensures
        s@ == spec_not_found_message(kind, os, texts(candidates@)),
{
    let mut s = not_found_guidance(kind, os);
    let ghost g = s@;
    let ghost cs = texts(candidates@);
    let n: usize = if candidates.len() < 12 {
        candidates.len()
    } else {
        12
    };
    let mut i: usize = 0;
    while i < n
        invariant
            i <= n <= candidates@.len(),
            n == if candidates@.len() < 12 {
                candidates@.len()
            } else {
                12
            },
            cs == texts(candidates@),
            s@ == g + join_with(cs.take(i as int), "; "@),
        decreases n - i,
    {
        if i > 0 {
            s.append("; ");
        }
        s.append(candidates[i].as_str());
        proof {
            let t = cs.take(i + 1);
            assert(t.drop_last() =~= cs.take(i as int));
            assert(t.last() == candidates@[i as int]@);
            if i == 0 {
                assert(t.len() == 1);
                assert(cs.take(0) =~= Seq::<Seq<char>>::empty());
            }
        }
        assert(s@ =~= g + join_with(cs.take(i + 1), "; "@));
        i = i + 1;
    }
    s
}

/// The message when no TUN sidecar was found among `candidates`.
pub fn tunnel_sidecar_not_found_message(os: TargetOs, candidates: &Vec<String>) -> (s: String)
    ensures
        s@ == spec_not_found_message(SidecarKind::Tunnel, os, texts(candidates@)),
{
    sidecar_not_found_message(SidecarKind::Tunnel, os, candidates)
}

} // verus!
