//! Paths of the files the desktop client keeps (its logs, the client's
//! metrics and the tunnel configuration), and paths as each platform reads
//! them: joined one onto another, and compared by their components. On
//! Windows a path may start with a prefix: a drive (`C:`), a UNC share
//! (`\\server\share`), a device (`\\.\name`) or a verbatim form
//! (`\\?\...`), in which only `\` separates and nothing is normalised.
use vstd::prelude::*;

use crate::platform::TargetOs;
use crate::text::{
    chars_of, lemma_split_at_char_nonempty, pieces_view, slice_chars, split_at_char, split_chars,
    string_of,
};

verus! {

/// The kinds of Windows path prefix; a drive carries its letter's code in
/// upper case.
#[derive(Clone, Copy, Debug, PartialEq, Eq, Structural)]
pub enum PrefixKind {
    Verbatim,
    VerbatimUnc,
    VerbatimDisk(u32),
    DeviceNs,
    Unc,
    Disk(u32),
}

pub open spec fn any_sep(c: char) -> bool {
    c == '\\' || c == '/'
}

/// A separator: in a verbatim path only `\`.
pub open spec fn sep_in(c: char, verbatim: bool) -> bool {
    if verbatim {
        c == '\\'
    } else {
        any_sep(c)
    }
}

/// Index of the first separator in `s` at or after `i`, or the length.
pub open spec fn sep_from(s: Seq<char>, i: int, verbatim: bool) -> int
    decreases s.len() - i,
{
    if i < 0 || i >= s.len() {
        s.len() as int
    } else if sep_in(s[i], verbatim) {
        i
    } else {
        sep_from(s, i + 1, verbatim)
    }
}

pub proof fn lemma_sep_from_bounds(s: Seq<char>, i: int, verbatim: bool)
    requires
        0 <= i <= s.len(),
    ensures
        i <= sep_from(s, i, verbatim) <= s.len(),
    decreases s.len() - i,
{
    if i < s.len() && !sep_in(s[i], verbatim) {
        lemma_sep_from_bounds(s, i + 1, verbatim);
    }
}

pub open spec fn is_letter(c: char) -> bool {
    ('a' <= c && c <= 'z') || ('A' <= c && c <= 'Z')
}

/// The code of `c` with an ASCII lower-case letter made upper-case.
pub open spec fn upper_code(c: char) -> u32 {
    if 'a' <= c && c <= 'z' {
        (c as u32 - 32) as u32
    } else {
        c as u32
    }
}

/// The prefix Windows reads at the start of `s`: its kind, its server and
/// share (or its name) where it has them, and its length.
pub open spec fn windows_prefix(s: Seq<char>) -> Option<(PrefixKind, Seq<char>, Seq<char>, int)> {
    let n = s.len() as int;
    if n >= 2 && any_sep(s[0]) && any_sep(s[1]) {
        if n >= 4 && s[0] == '\\' && s[1] == '\\' && s[2] == '?' && s[3] == '\\' {
            if n >= 8 && s[4] == 'U' && s[5] == 'N' && s[6] == 'C' && any_sep(s[7]) {
                let e1 = sep_from(s, 8, true);
                let server = s.subrange(8, e1);
                if e1 < n {
                    let e2 = sep_from(s, e1 + 1, true);
                    let share = s.subrange(e1 + 1, e2);
                    Some(
                        (
                            PrefixKind::VerbatimUnc,
                            server,
                            share,
                            if share.len() > 0 {
                                e2
                            } else {
                                e1
                            },
                        ),
                    )
                } else {
                    Some((PrefixKind::VerbatimUnc, server, seq![], e1))
                }
            } else if n >= 6 && is_letter(s[4]) && s[5] == ':' && (n == 6 || s[6] == '\\') {
                Some((PrefixKind::VerbatimDisk(upper_code(s[4])), seq![], seq![], 6))
            } else {
                let e = sep_from(s, 4, true);
                Some((PrefixKind::Verbatim, s.subrange(4, e), seq![], e))
            }
        } else if n >= 4 && s[2] == '.' && any_sep(s[3]) {
            let e = sep_from(s, 4, false);
            Some((PrefixKind::DeviceNs, s.subrange(4, e), seq![], e))
        } else {
            let e1 = sep_from(s, 2, false);
            if e1 < n {
                let e2 = sep_from(s, e1 + 1, false);
                if e1 > 2 && e2 > e1 + 1 {
                    Some((PrefixKind::Unc, s.subrange(2, e1), s.subrange(e1 + 1, e2), e2))
                } else {
                    None
                }
            } else {
                None
            }
        }
    } else if n >= 2 && is_letter(s[0]) && s[1] == ':' {
        Some((PrefixKind::Disk(upper_code(s[0])), seq![], seq![], 2))
    } else {
        None
    }
}

/// The prefix of `s` on `os`; only Windows paths have one.
pub open spec fn path_prefix(s: Seq<char>, os: TargetOs) -> Option<(PrefixKind, Seq<char>, Seq<char>, int)> {
    if os == TargetOs::Windows {
        windows_prefix(s)
    } else {
        None
    }
}

pub open spec fn prefix_len(s: Seq<char>, os: TargetOs) -> int {
    match path_prefix(s, os) {
        Some(p) => p.3,
        None => 0,
    }
}

pub open spec fn is_verbatim_kind(k: PrefixKind) -> bool {
    k is Verbatim || k is VerbatimUnc || k is VerbatimDisk
}

/// `s` starts with a verbatim prefix on `os`.
pub open spec fn is_verbatim(s: Seq<char>, os: TargetOs) -> bool {
    path_prefix(s, os) matches Some(p) && is_verbatim_kind(p.0)
}

/// The separator paths are written with on `os`.
pub open spec fn main_sep(os: TargetOs) -> char {
    if os == TargetOs::Windows {
        '\\'
    } else {
        '/'
    }
}

/// `c` with `/` written as `\`.
pub open spec fn backslashed(c: char) -> char {
    if c == '/' {
        '\\'
    } else {
        c
    }
}

/// What follows the prefix of `s`, with every separator written as the
/// main one of `os`.
pub open spec fn path_body(s: Seq<char>, os: TargetOs) -> Seq<char> {
    let rest = s.subrange(prefix_len(s, os), s.len() as int);
    if os == TargetOs::Windows && !is_verbatim(s, os) {
        rest.map_values(|c: char| backslashed(c))
    } else {
        rest
    }
}

/// The named components among the pieces between separators: empty pieces
/// are not components, nor is `.` unless `keep_dot`.
pub open spec fn name_parts(ps: Seq<Seq<char>>, keep_dot: bool) -> Seq<Seq<char>>
    decreases ps.len(),
{
    if ps.len() == 0 {
        seq![]
    } else {
        let r = name_parts(ps.drop_last(), keep_dot);
        if ps.last().len() == 0 || (!keep_dot && ps.last() == seq!['.']) {
            r
        } else {
            r.push(ps.last())
        }
    }
}

/// The components of path `s` on `os`, as paths are compared: the prefix
/// (a drive by its letter in upper case), whether a root follows it (always
/// for a UNC share or a device), whether the path starts with `.`, and the
/// other components in order. A trailing separator, repeated separators
/// and `.` in the middle are not components, except that in a verbatim
/// path `.` is one.
pub open spec fn path_key(s: Seq<char>, os: TargetOs) -> (
    Option<(PrefixKind, Seq<char>, Seq<char>)>,
    bool,
    bool,
    Seq<Seq<char>>,
) {
    let body = path_body(s, os);
    let pieces = split_at_char(body, main_sep(os));
    let physical = body.len() > 0 && body[0] == main_sep(os);
    let prefix = path_prefix(s, os);
    let implicit = prefix matches Some(p) && (p.0 is Unc || p.0 is DeviceNs);
    let has_root = physical || (prefix matches Some(p) && !(p.0 is Disk));
    (
        match prefix {
            Some(p) => Some((p.0, p.1, p.2)),
            None => None,
        },
        physical || implicit,
        !has_root && pieces[0] == seq!['.'],
        name_parts(pieces, is_verbatim(s, os)),
    )
}

/// `a` and `b` name the same path on `os`: they have the same components.
pub open spec fn same_path(a: Seq<char>, b: Seq<char>, os: TargetOs) -> bool {
    path_key(a, os) == path_key(b, os)
}

/// `comps` each after a `\\`.
pub open spec fn rooted_text(comps: Seq<Seq<char>>) -> Seq<char>
    decreases comps.len(),
{
    if comps.len() == 0 {
        seq![]
    } else {
        rooted_text(comps.drop_last()) + seq!['\\'] + comps.last()
    }
}

/// One piece of a joined relative path applied to the components of a
/// verbatim path: `.` and empty pieces do nothing, `..` removes a last
/// named component, anything else is added.
pub open spec fn apply_piece(comps: Seq<Seq<char>>, piece: Seq<char>) -> Seq<Seq<char>> {
    if piece.len() == 0 || piece == seq!['.'] {
        comps
    } else if piece == seq!['.', '.'] {
        if comps.len() > 0 && comps.last() != seq!['.'] && comps.last() != seq!['.', '.'] {
            comps.drop_last()
        } else {
            comps
        }
    } else {
        comps.push(piece)
    }
}

pub open spec fn apply_pieces(comps: Seq<Seq<char>>, pieces: Seq<Seq<char>>) -> Seq<Seq<char>>
    decreases pieces.len(),
{
    if pieces.len() == 0 {
        comps
    } else {
        apply_piece(apply_pieces(comps, pieces.drop_last()), pieces.last())
    }
}

/// `part` (without a prefix, not empty) joined onto a verbatim Windows path
/// `base`: the components are rebuilt, since a verbatim path cannot hold
/// `.` or `..` to be read later.
pub open spec fn verbatim_join(base: Seq<char>, part: Seq<char>) -> Seq<char> {
    let os = TargetOs::Windows;
    let body = path_body(base, os);
    let part_root = any_sep(part[0]);
    let start = if part_root {
        seq![]
    } else {
        name_parts(split_at_char(body, '\\'), true)
    };
    let comps = apply_pieces(start, split_at_char(part.map_values(|c: char| backslashed(c)), '\\'));
    let root = part_root || (body.len() > 0 && body[0] == '\\');
    base.subrange(0, prefix_len(base, os)) + if comps.len() > 0 {
        rooted_text(comps)
    } else if root {
        seq!['\\']
    } else {
        seq![]
    }
}

/// `part` joined onto `base` as a path is joined on `os`: a part with a
/// prefix, or an absolute one, replaces the base; on Windows a part with a
/// root keeps only the base's prefix, and a part joined onto a verbatim
/// path rebuilds its components; otherwise a separator goes between them
/// unless `base` is empty, already ends in one, or is a bare drive.
#[verifier::opaque]
pub open spec fn join_path(base: Seq<char>, part: Seq<char>, os: TargetOs) -> Seq<char> {
    if os != TargetOs::Windows {
        if part.len() > 0 && part[0] == '/' {
            part
        } else if base.len() > 0 && base.last() != '/' {
            base + seq!['/'] + part
        } else {
            base + part
        }
    } else if windows_prefix(part) is Some {
        part
    } else if is_verbatim(base, os) && part.len() > 0 {
        verbatim_join(base, part)
    } else if part.len() > 0 && any_sep(part[0]) {
        base.subrange(0, prefix_len(base, os)) + part
    } else if base.len() > 0 && !any_sep(base.last()) && !(windows_prefix(base) matches Some(p) && p.0 is Disk
        && p.3 == base.len()) {
        base + seq!['\\'] + part
    } else {
        base + part
    }
}

/// `base` with each of `parts` joined on in turn.
pub open spec fn join_all(base: Seq<char>, parts: Seq<Seq<char>>, os: TargetOs) -> Seq<char>
    decreases parts.len(),
{
    if parts.len() == 0 {
        base
    } else {
        join_path(join_all(base, parts.drop_last(), os), parts.last(), os)
    }
}

/// The client sidecar's log in the logs folder.
pub fn client_log_path(logs_dir: &str, os: TargetOs) -> (s: String)
    ensures
        s@ == join_path(logs_dir@, "skirk-client.log"@, os),
{
    path_join(logs_dir, "skirk-client.log", os)
}

/// Where the client sidecar writes its metrics, in the runtime folder.
pub fn client_metrics_path(runtime_dir: &str, os: TargetOs) -> (s: String)
    ensures
        s@ == join_path(runtime_dir@, "skirk-client-metrics.json"@, os),
{
    path_join(runtime_dir, "skirk-client-metrics.json", os)
}

/// The tunnel sidecar's log in the logs folder.
pub fn tunnel_log_path(logs_dir: &str, os: TargetOs) -> (s: String)
    ensures
        s@ == join_path(logs_dir@, "skirk-tunnel.log"@, os),
{
    path_join(logs_dir, "skirk-tunnel.log", os)
}

/// The tunnel sidecar's configuration document, in the runtime folder.
pub fn tunnel_config_path(runtime_dir: &str, os: TargetOs) -> (s: String)
    ensures
        s@ == join_path(runtime_dir@, "skirk-tunnel.json"@, os),
{
    path_join(runtime_dir, "skirk-tunnel.json", os)
}

pub proof fn lemma_prefix_len(s: Seq<char>, os: TargetOs)
    ensures
        0 <= prefix_len(s, os) <= s.len(),
{
    let n = s.len() as int;
    if n >= 8 {
        lemma_sep_from_bounds(s, 8, true);
        let e1 = sep_from(s, 8, true);
        if e1 < n {
            lemma_sep_from_bounds(s, e1 + 1, true);
        }
    }
    if n >= 4 {
        lemma_sep_from_bounds(s, 4, true);
        lemma_sep_from_bounds(s, 4, false);
    }
    if n >= 2 {
        lemma_sep_from_bounds(s, 2, false);
        let e1 = sep_from(s, 2, false);
        if e1 < n {
            lemma_sep_from_bounds(s, e1 + 1, false);
        }
    }
}

fn sep_end(v: &Vec<char>, i: usize, verbatim: bool) -> (e: usize)
    requires
        i <= v.len(),
    ensures
        e == sep_from(v@, i as int, verbatim),
        i <= e <= v.len(),
{
    let mut j = i;
    while j < v.len()
        invariant
            i <= j <= v.len(),
            sep_from(v@, i as int, verbatim) == sep_from(v@, j as int, verbatim),
        decreases v.len() - j,
    {
        let c = v[j];
        let sep = if verbatim {
            c == '\\'
        } else {
            c == '\\' || c == '/'
        };
        if sep {
            return j;
        }
        j = j + 1;
    }
    j
}

fn letter(c: char) -> (b: bool)
    ensures
        b == is_letter(c),
{
    ('a' <= c && c <= 'z') || ('A' <= c && c <= 'Z')
}

fn upper(c: char) -> (u: u32)
    ensures
        u == upper_code(c),
{
    if 'a' <= c && c <= 'z' {
        c as u32 - 32
    } else {
        c as u32
    }
}

/// `r` holds the prefix `p` as executable values.
pub open spec fn prefix_matches(
    r: Option<(PrefixKind, Vec<char>, Vec<char>, usize)>,
    p: Option<(PrefixKind, Seq<char>, Seq<char>, int)>,
) -> bool {
    match r {
        Some(x) => p matches Some(y) && x.0 == y.0 && x.1@ == y.1 && x.2@ == y.2 && x.3 == y.3,
        None => p is None,
    }
}

fn windows_prefix_of(v: &Vec<char>) -> (r: Option<(PrefixKind, Vec<char>, Vec<char>, usize)>)
    ensures
        prefix_matches(r, windows_prefix(v@)),
{
    let n = v.len();
    if n >= 2 && (v[0] == '\\' || v[0] == '/') && (v[1] == '\\' || v[1] == '/') {
        if n >= 4 && v[0] == '\\' && v[1] == '\\' && v[2] == '?' && v[3] == '\\' {
            if n >= 8 && v[4] == 'U' && v[5] == 'N' && v[6] == 'C' && (v[7] == '\\' || v[7] == '/') {
                let e1 = sep_end(v, 8, true);
                let server = slice_chars(v, 8, e1);
                if e1 < n {
                    let e2 = sep_end(v, e1 + 1, true);
                    let share = slice_chars(v, e1 + 1, e2);
                    let len = if share.len() > 0 {
                        e2
                    } else {
                        e1
                    };
                    Some((PrefixKind::VerbatimUnc, server, share, len))
                } else {
                    let share: Vec<char> = Vec::new();
                    assert(share@ =~= seq![]);
                    Some((PrefixKind::VerbatimUnc, server, share, e1))
                }
            } else if n >= 6 && letter(v[4]) && v[5] == ':' && (n == 6 || v[6] == '\\') {
                let a: Vec<char> = Vec::new();
                let b: Vec<char> = Vec::new();
                assert(a@ =~= seq![]);
                Some((PrefixKind::VerbatimDisk(upper(v[4])), a, b, 6))
            } else {
                let e = sep_end(v, 4, true);
                let b: Vec<char> = Vec::new();
                assert(b@ =~= seq![]);
                Some((PrefixKind::Verbatim, slice_chars(v, 4, e), b, e))
            }
        } else if n >= 4 && v[2] == '.' && (v[3] == '\\' || v[3] == '/') {
            let e = sep_end(v, 4, false);
            let b: Vec<char> = Vec::new();
            assert(b@ =~= seq![]);
            Some((PrefixKind::DeviceNs, slice_chars(v, 4, e), b, e))
        } else {
            let e1 = sep_end(v, 2, false);
            if e1 < n {
                let e2 = sep_end(v, e1 + 1, false);
                if e1 > 2 && e2 > e1 + 1 {
                    Some((PrefixKind::Unc, slice_chars(v, 2, e1), slice_chars(v, e1 + 1, e2), e2))
                } else {
                    None
                }
            } else {
                None
            }
        }
    } else if n >= 2 && letter(v[0]) && v[1] == ':' {
        let a: Vec<char> = Vec::new();
        let b: Vec<char> = Vec::new();
        assert(a@ =~= seq![]);
        Some((PrefixKind::Disk(upper(v[0])), a, b, 2))
    } else {
        None
    }
}

/// The prefix of `v` on `os` with its length and whether it is verbatim.
fn prefix_info(v: &Vec<char>, os: TargetOs) -> (r: (
    Option<(PrefixKind, Vec<char>, Vec<char>, usize)>,
    usize,
    bool,
))
    ensures
        prefix_matches(r.0, path_prefix(v@, os)),
        r.1 == prefix_len(v@, os),
        r.2 == is_verbatim(v@, os),
        r.1 <= v.len(),
{
    proof {
        lemma_prefix_len(v@, os);
    }
    let p = match os {
        TargetOs::Windows => windows_prefix_of(v),
        _ => None,
    };
    match &p {
        Some(x) => {
            let verbatim = match x.0 {
                PrefixKind::Verbatim | PrefixKind::VerbatimUnc | PrefixKind::VerbatimDisk(_) => true,
                _ => false,
            };
            let len = x.3;
            (p, len, verbatim)
        },
        None => (p, 0, false),
    }
}

fn body_of(v: &Vec<char>, os: TargetOs, plen: usize, verbatim: bool) -> (b: Vec<char>)
    requires
        plen == prefix_len(v@, os),
        verbatim == is_verbatim(v@, os),
    ensures
        b@ == path_body(v@, os),
{
    proof {
        lemma_prefix_len(v@, os);
    }
    let normalize = match os {
        TargetOs::Windows => !verbatim,
        _ => false,
    };
    let mut b: Vec<char> = Vec::new();
    let mut i = plen;
    while i < v.len()
        invariant
            plen <= i <= v.len(),
            b@ == if normalize {
                v@.subrange(plen as int, i as int).map_values(|c: char| backslashed(c))
            } else {
                v@.subrange(plen as int, i as int)
            },
        decreases v.len() - i,
    {
        let c = v[i];
        b.push(if normalize && c == '/' {
            '\\'
        } else {
            c
        });
        i = i + 1;
        assert(v@.subrange(plen as int, i as int) =~= v@.subrange(plen as int, i - 1).push(c));
        if normalize {
            assert(b@ =~= v@.subrange(plen as int, i as int).map_values(|c: char| backslashed(c)));
        } else {
            assert(b@ =~= v@.subrange(plen as int, i as int));
        }
    }
    b
}

fn name_parts_of(pieces: &Vec<Vec<char>>, keep_dot: bool) -> (r: Vec<Vec<char>>)
    ensures
        pieces_view(r@) == name_parts(pieces_view(pieces@), keep_dot),
{
    let ghost ps = pieces_view(pieces@);
    let dot = vec!['.'];
    let mut names: Vec<Vec<char>> = Vec::new();
    for j in 0..pieces.len()
        invariant
            ps == pieces_view(pieces@),
            pieces_view(names@) == name_parts(ps.take(j as int), keep_dot),
            dot@ == seq!['.'],
    {
        proof {
            assert(ps.take(j + 1).drop_last() =~= ps.take(j as int));
            assert(ps.take(j + 1).last() == pieces@[j as int]@);
        }
        let piece = &pieces[j];
        if piece.len() > 0 && (keep_dot || !same_chars(piece, &dot)) {
            let ghost before = pieces_view(names@);
            assert(piece@.subrange(0, piece@.len() as int) =~= piece@);
            names.push(slice_chars(piece, 0, piece.len()));
            assert(pieces_view(names@) =~= before.push(pieces@[j as int]@));
        }
    }
    assert(ps.take(ps.len() as int) =~= ps);
    names
}

fn same_chars(x: &Vec<char>, y: &Vec<char>) -> (b: bool)
    ensures
        b == (x@ == y@),
{
    if x.len() != y.len() {
        return false;
    }
    for i in 0..x.len()
        invariant
            x@.len() == y@.len(),
            forall|j: int| 0 <= j < i ==> x@[j] == y@[j],
    {
        if x[i] != y[i] {
            return false;
        }
    }
    assert(x@ =~= y@);
    true
}

fn same_pieces(x: &Vec<Vec<char>>, y: &Vec<Vec<char>>) -> (b: bool)
    ensures
        b == (pieces_view(x@) == pieces_view(y@)),
{
    if x.len() != y.len() {
        assert(pieces_view(x@).len() != pieces_view(y@).len());
        return false;
    }
    for i in 0..x.len()
        invariant
            x@.len() == y@.len(),
            forall|j: int| 0 <= j < i ==> x@[j]@ == y@[j]@,
    {
        if !same_chars(&x[i], &y[i]) {
            assert(pieces_view(x@)[i as int] != pieces_view(y@)[i as int]);
            return false;
        }
    }
    assert(pieces_view(x@) =~= pieces_view(y@));
    true
}

/// The components of `s` on `os`, as `path_key` gives them.
fn path_key_of(s: &str, os: TargetOs) -> (k: (
    Option<(PrefixKind, Vec<char>, Vec<char>, usize)>,
    bool,
    bool,
    Vec<Vec<char>>,
))
    ensures
        prefix_matches(k.0, path_prefix(s@, os)),
        k.1 == path_key(s@, os).1,
        k.2 == path_key(s@, os).2,
        pieces_view(k.3@) == path_key(s@, os).3,
{
    let v = chars_of(s);
    let (prefix, plen, verbatim) = prefix_info(&v, os);
    let body = body_of(&v, os, plen, verbatim);
    let sep = match os {
        TargetOs::Windows => '\\',
        _ => '/',
    };
    assert(sep == main_sep(os));
    let pieces = split_chars(&body, sep);
    proof {
        lemma_split_at_char_nonempty(body@, sep);
    }
    let ghost ps = split_at_char(body@, sep);
    assert(ps[0] == pieces@[0]@);
    let physical = body.len() > 0 && body[0] == sep;
    let (implicit, prefixed_root) = match &prefix {
        Some(p) => (
            match p.0 {
                PrefixKind::Unc | PrefixKind::DeviceNs => true,
                _ => false,
            },
            match p.0 {
                PrefixKind::Disk(_) => false,
                _ => true,
            },
        ),
        None => (false, false),
    };
    assert(prefixed_root == (path_prefix(s@, os) matches Some(q) && !(q.0 is Disk)));
    assert(implicit == (path_prefix(s@, os) matches Some(q) && (q.0 is Unc || q.0 is DeviceNs)));
    assert(physical == (body@.len() > 0 && body@[0] == main_sep(os)));
    let dot = vec!['.'];
    assert(dot@ == seq!['.']);
    let here = !(physical || prefixed_root) && same_chars(&pieces[0], &dot);
    let names = name_parts_of(&pieces, verbatim);
    (prefix, physical || implicit, here, names)
}

/// Whether `a` and `b` name the same path on `os`.
pub fn same_path_text(a: &str, b: &str, os: TargetOs) -> (r: bool)
    ensures
        r == same_path(a@, b@, os),
{
    let ka = path_key_of(a, os);
    let kb = path_key_of(b, os);
    let same_prefix = match (&ka.0, &kb.0) {
        (Some(x), Some(y)) => x.0 == y.0 && same_chars(&x.1, &y.1) && same_chars(&x.2, &y.2),
        (None, None) => true,
        _ => false,
    };
    let r = same_prefix && ka.1 == kb.1 && ka.2 == kb.2 && same_pieces(&ka.3, &kb.3);
    proof {
        let pa = path_key(a@, os);
        let pb = path_key(b@, os);
        if r {
            assert(pa.0 == pb.0);
        } else if !same_prefix {
            assert(pa.0 != pb.0);
        }
    }
    r
}

fn rooted_text_of(out: &mut Vec<char>, comps: &Vec<Vec<char>>)
    ensures
        final(out)@ == old(out)@ + rooted_text(pieces_view(comps@)),
{
    let ghost start = out@;
    let ghost cs = pieces_view(comps@);
    for j in 0..comps.len()
        invariant
            cs == pieces_view(comps@),
            out@ == start + rooted_text(cs.take(j as int)),
    {
        proof {
            assert(cs.take(j + 1).drop_last() =~= cs.take(j as int));
        }
        out.push('\\');
        let mut c = slice_chars(&comps[j], 0, comps[j].len());
        assert(comps@[j as int]@.subrange(0, comps@[j as int]@.len() as int) =~= cs[j as int]);
        out.append(&mut c);
        assert(out@ =~= start + rooted_text(cs.take(j + 1)));
    }
    assert(cs.take(cs.len() as int) =~= cs);
}

fn verbatim_join_of(b: &Vec<char>, p: &Vec<char>) -> (r: Vec<char>)
    requires
        is_verbatim(b@, TargetOs::Windows),
        p.len() > 0,
    ensures
        r@ == verbatim_join(b@, p@),
{
    let os = TargetOs::Windows;
    let (_, plen, verbatim) = prefix_info(b, os);
    let body = body_of(b, os, plen, verbatim);
    let part_root = p[0] == '\\' || p[0] == '/';
    let mut comps: Vec<Vec<char>> = if part_root {
        let e: Vec<Vec<char>> = Vec::new();
        assert(pieces_view(e@) =~= seq![]);
        e
    } else {
        let pieces = split_chars(&body, '\\');
        name_parts_of(&pieces, true)
    };
    let ghost start = pieces_view(comps@);
    let mut pn: Vec<char> = Vec::new();
    for i in 0..p.len()
        invariant
            pn@ == p@.take(i as int).map_values(|c: char| backslashed(c)),
    {
        pn.push(if p[i] == '/' {
            '\\'
        } else {
            p[i]
        });
        assert(pn@ =~= p@.take(i + 1).map_values(|c: char| backslashed(c)));
    }
    assert(p@.take(p@.len() as int) =~= p@);
    let pieces = split_chars(&pn, '\\');
    let ghost ps = pieces_view(pieces@);
    let dot = vec!['.'];
    let dots = vec!['.', '.'];
    for j in 0..pieces.len()
        invariant
            ps == pieces_view(pieces@),
            pieces_view(comps@) == apply_pieces(start, ps.take(j as int)),
            dot@ == seq!['.'],
            dots@ == seq!['.', '.'],
    {
        proof {
            assert(ps.take(j + 1).drop_last() =~= ps.take(j as int));
            assert(ps.take(j + 1).last() == pieces@[j as int]@);
        }
        let piece = &pieces[j];
        let ghost before = pieces_view(comps@);
        if piece.len() == 0 || same_chars(piece, &dot) {
        } else if same_chars(piece, &dots) {
            let n = comps.len();
            if n > 0 && !same_chars(&comps[n - 1], &dot) && !same_chars(&comps[n - 1], &dots) {
                comps.pop();
                assert(pieces_view(comps@) =~= before.drop_last());
            }
        } else {
            assert(piece@.subrange(0, piece@.len() as int) =~= piece@);
            comps.push(slice_chars(piece, 0, piece.len()));
            assert(pieces_view(comps@) =~= before.push(pieces@[j as int]@));
        }
    }
    assert(ps.take(ps.len() as int) =~= ps);
    let root = part_root || (body.len() > 0 && body[0] == '\\');
    let mut r = slice_chars(b, 0, plen);
    if comps.len() > 0 {
        rooted_text_of(&mut r, &comps);
    } else if root {
        r.push('\\');
    }
    r
}

/// `part` joined onto `base` as a path on `os`.
pub fn path_join(base: &str, part: &str, os: TargetOs) -> (s: String)
    ensures
        s@ == join_path(base@, part@, os),
{
    reveal(join_path);
    let b = chars_of(base);
    let p = chars_of(part);
    match os {
        TargetOs::Windows => {},
        _ => {
            if p.len() > 0 && p[0] == '/' {
                return String::from_str(part);
            }
            let mut s = String::from_str(base);
            if b.len() > 0 && b[b.len() - 1] != '/' {
                s.append("/");
                proof {
                    reveal_strlit("/");
                }
            }
            s.append(part);
            return s;
        },
    }
    if windows_prefix_of(&p).is_some() {
        return String::from_str(part);
    }
    let (bp, plen, verbatim) = prefix_info(&b, os);
    if verbatim && p.len() > 0 {
        let r = verbatim_join_of(&b, &p);
        return string_of(&r);
    }
    if p.len() > 0 && (p[0] == '\\' || p[0] == '/') {
        let head = slice_chars(&b, 0, plen);
        let mut s = string_of(&head);
        s.append(part);
        return s;
    }
    let bare_drive = match &bp {
        Some(x) => match x.0 {
            PrefixKind::Disk(_) => x.3 == b.len(),
            _ => false,
        },
        None => false,
    };
    let mut s = String::from_str(base);
    if b.len() > 0 && !(b[b.len() - 1] == '\\' || b[b.len() - 1] == '/') && !bare_drive {
        s.append("\\");
        proof {
            reveal_strlit("\\");
        }
    }
    s.append(part);
    s
}

} // verus!
