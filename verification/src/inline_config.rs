//! Recognising a one-line `skirk:` configuration inside pasted text.
use vstd::prelude::*;

use crate::text::{
    back_class, chars_at, lemma_find_from_some, chars_of, find_chars, find_from, in_class, is_space, lemma_skip_class_bounds, occurs_at, skip_class,
    opt_text, skip_class_from, slice_chars, space_char, string_of, trim, trim_chars, trim_class, CharClass,
};

verus! {

/// The raw URL-safe base64 alphabet: ASCII letters, digits, `-` and `_`.
pub open spec fn is_b64(c: char) -> bool {
    ('a' <= c && c <= 'z') || ('A' <= c && c <= 'Z') || ('0' <= c && c <= '9') || c == '-'
        || c == '_'
}

pub open spec fn is_quote(c: char) -> bool {
    in_class(CharClass::Quote, c)
}

/// The marker that starts a one-line configuration.
pub open spec fn inline_marker() -> Seq<char> {
    seq!['s', 'k', 'i', 'r', 'k', ':']
}

/// The environment-assignment prefix that pasted text may carry.
pub open spec fn env_prefix() -> Seq<char> {
    seq!['S', 'K', 'I', 'R', 'K', '_', 'C', 'O', 'N', 'F', 'I', 'G', '=']
}

pub open spec fn option_marker() -> Seq<char> {
    seq!['-', '-']
}

/// Reads the encoded payload that follows the marker, starting at `i`
/// with `acc` already kept. `None` means the text after the marker is not a
/// configuration at all.
pub open spec fn scan_payload(p: Seq<char>, i: int, acc: Seq<char>) -> Option<Seq<char>>
    decreases p.len() - i,
{
    if i < 0 || i >= p.len() {
        Some(acc)
    } else {
        let ch = p[i];
        if is_b64(ch) {
            scan_payload(p, i + 1, acc.push(ch))
        } else if is_space(ch) {
            if acc.len() == 0 {
                scan_payload(p, i + 1, acc)
            } else {
                let j = skip_class(p, i + 1, CharClass::Space);
                proof {
                    lemma_skip_class_bounds(p, i + 1, CharClass::Space);
                }
                if j >= p.len() || occurs_at(p, j, option_marker()) || is_quote(p[j]) || !is_b64(
                    p[j],
                ) {
                    Some(acc)
                } else {
                    scan_payload(p, j, acc)
                }
            }
        } else if is_quote(ch) {
            if acc.len() > 0 {
                Some(acc)
            } else {
                scan_payload(p, i + 1, acc)
            }
        } else if acc.len() > 0 {
            Some(acc)
        } else {
            None
        }
    }
}

/// The text after trimming, dropping an environment-assignment prefix and
/// trimming surrounding quotes.
pub open spec fn unwrapped_text(raw: Seq<char>) -> Seq<char> {
    let t0 = trim(raw);
    let t1 = if occurs_at(t0, 0, env_prefix()) {
        trim(t0.skip(env_prefix().len() as int))
    } else {
        t0
    };
    trim_class(t1, CharClass::Quote)
}

/// The one-line configuration carried by `raw`, if any: the marker followed
/// by the encoded payload, with quoting, whitespace and trailing options
/// removed.
pub open spec fn spec_extract_inline_config(raw: Seq<char>) -> Option<Seq<char>> {
    let t = unwrapped_text(raw);
    match find_from(t, inline_marker(), 0) {
        None => None,
        Some(start) => match scan_payload(t.skip(start + inline_marker().len()), 0, seq![]) {
            Some(enc) => if enc.len() > 0 {
                Some(inline_marker() + enc)
            } else {
                None
            },
            None => None,
        },
    }
}

/// Whether `ch` belongs to the raw URL-safe base64 alphabet.
pub fn is_raw_url_base64_char(ch: char) -> (b: bool)
    ensures
        b == is_b64(ch),
{
    ('a' <= ch && ch <= 'z') || ('A' <= ch && ch <= 'Z') || ('0' <= ch && ch <= '9') || ch == '-'
        || ch == '_'
}

fn marker_chars() -> (v: Vec<char>)
    ensures
        v@ == inline_marker(),
{
    let v = vec!['s', 'k', 'i', 'r', 'k', ':'];
    assert(v@ =~= inline_marker());
    v
}

fn env_prefix_chars() -> (v: Vec<char>)
    ensures
        v@ == env_prefix(),
{
    let v = vec!['S', 'K', 'I', 'R', 'K', '_', 'C', 'O', 'N', 'F', 'I', 'G', '='];
    assert(v@ =~= env_prefix());
    v
}

fn option_marker_chars() -> (v: Vec<char>)
    ensures
        v@ == option_marker(),
{
    let v = vec!['-', '-'];
    assert(v@ =~= option_marker());
    v
}

fn unwrap_text(raw: &str) -> (t: Vec<char>)
    ensures
        t@ == unwrapped_text(raw@),
{
    let chars = chars_of(raw);
    let t0 = trim_chars(&chars, CharClass::Space);
    let prefix = env_prefix_chars();
    let t1 = if chars_at(&t0, 0, &prefix) {
        let rest = slice_chars(&t0, prefix.len(), t0.len());
        assert(rest@ =~= t0@.skip(env_prefix().len() as int));
        trim_chars(&rest, CharClass::Space)
    } else {
        t0
    };
    trim_chars(&t1, CharClass::Quote)
}

/// Scans the payload `p`; `Some(encoded)` as `scan_payload` gives it.
fn scan(p: &Vec<char>) -> (r: Option<Vec<char>>)
    ensures
        match r {
            Some(v) => scan_payload(p@, 0, seq![]) == Some(v@),
            None => scan_payload(p@, 0, seq![]) is None,
        },
{
    let dashes = option_marker_chars();
    let mut acc: Vec<char> = Vec::new();
    let mut i: usize = 0;
    loop
        invariant
            i <= p.len(),
            dashes@ == option_marker(),
            scan_payload(p@, 0, seq![]) == scan_payload(p@, i as int, acc@),
        decreases p.len() - i,
    {
        if i >= p.len() {
            return Some(acc);
        }
        let ch = p[i];
        if is_raw_url_base64_char(ch) {
            acc.push(ch);
            i = i + 1;
        } else if space_char(ch) {
            if acc.len() == 0 {
                i = i + 1;
            } else {
                let j = skip_class_from(p, i + 1, CharClass::Space);
                proof {
                    lemma_skip_class_bounds(p@, i + 1, CharClass::Space);
                }
                if j >= p.len() || chars_at(p, j, &dashes) || class_char_quote(p[j])
                    || !is_raw_url_base64_char(p[j]) {
                    return Some(acc);
                }
                i = j;
            }
        } else if class_char_quote(ch) {
            if acc.len() > 0 {
                return Some(acc);
            }
            i = i + 1;
        } else if acc.len() > 0 {
            return Some(acc);
        } else {
            return None;
        }
    }
}

fn class_char_quote(c: char) -> (b: bool)
    ensures
        b == is_quote(c),
{
    c == '"' || c == '\'' || c == '`'
}

/// The one-line configuration inside `raw_config`: `skirk:` followed by the
/// encoded payload, found in a bare value, an environment assignment or a
/// full client command line.
pub fn extract_inline_config(raw_config: &str) -> (r: Option<String>)
    ensures
        opt_text(r) == spec_extract_inline_config(raw_config@),
        r matches Some(s) ==> {
            &&& s@.len() > inline_marker().len()
            &&& s@.subrange(0, inline_marker().len() as int) == inline_marker()
            &&& forall|m: int| inline_marker().len() <= m < s@.len() ==> is_b64(#[trigger] s@[m])
        },
{
    let t = unwrap_text(raw_config);
    let marker = marker_chars();
    let start = match find_chars(&t, &marker) {
        Some(k) => k,
        None => return None,
    };
    proof {
        lemma_find_from_some(t@, inline_marker(), 0);
        assert(occurs_at(t@, start as int, inline_marker()));
        assert(start + marker@.len() <= t@.len());
    }
    let payload = slice_chars(&t, start + marker.len(), t.len());
    assert(payload@ =~= t@.skip(start + inline_marker().len()));
    match scan(&payload) {
        Some(enc) => {
            if enc.len() == 0 {
                None
            } else {
                let mut out = marker_chars();
                let mut k: usize = 0;
                while k < enc.len()
                    invariant
                        k <= enc.len(),
                        out@ == inline_marker() + enc@.take(k as int),
                    decreases enc.len() - k,
                {
                    out.push(enc[k]);
                    k = k + 1;
                    assert(out@ =~= inline_marker() + enc@.take(k as int));
                }
                assert(enc@.take(enc.len() as int) =~= enc@);
                proof {
                    lemma_scan_keeps_b64(payload@, 0, seq![]);
                }
                let s = string_of(&out);
                assert forall|m: int| inline_marker().len() <= m < s@.len() implies is_b64(
                    #[trigger] s@[m],
                ) by {
                    assert(s@[m] == enc@[m - inline_marker().len()]);
                }
                assert(s@.subrange(0, inline_marker().len() as int) =~= inline_marker());
                Some(s)
            }
        },
        None => None,
    }
}

/// Whether `raw_config` carries a one-line configuration.
pub fn looks_like_inline_config(raw_config: &str) -> (b: bool)
    ensures
        b == spec_extract_inline_config(raw_config@) is Some,
{
    extract_inline_config(raw_config).is_some()
}

/// Every character kept by the payload scan is from the base64 alphabet.
pub proof fn lemma_scan_keeps_b64(p: Seq<char>, i: int, acc: Seq<char>)
    requires
        forall|m: int| 0 <= m < acc.len() ==> is_b64(#[trigger] acc[m]),
    ensures
        scan_payload(p, i, acc) matches Some(enc) ==> (forall|m: int|
            0 <= m < enc.len() ==> is_b64(#[trigger] enc[m])) && acc.len() <= enc.len(),
    decreases p.len() - i,
{
    if i < 0 || i >= p.len() {
    } else {
        let ch = p[i];
        if is_b64(ch) {
            assert forall|m: int| 0 <= m < acc.push(ch).len() implies is_b64(
                #[trigger] acc.push(ch)[m],
            ) by {
                if m < acc.len() {
                    assert(acc.push(ch)[m] == acc[m]);
                }
            }
            lemma_scan_keeps_b64(p, i + 1, acc.push(ch));
        } else if is_space(ch) {
            if acc.len() == 0 {
                lemma_scan_keeps_b64(p, i + 1, acc);
            } else {
                let j = skip_class(p, i + 1, CharClass::Space);
                lemma_skip_class_bounds(p, i + 1, CharClass::Space);
                if j >= p.len() || occurs_at(p, j, option_marker()) || is_quote(p[j]) || !is_b64(
                    p[j],
                ) {
                } else {
                    lemma_scan_keeps_b64(p, j, acc);
                }
            }
        } else if is_quote(ch) {
            if acc.len() == 0 {
                lemma_scan_keeps_b64(p, i + 1, acc);
            }
        }
    }
}

/// A payload made only of base64 characters is kept whole.
proof fn lemma_scan_all_b64(p: Seq<char>, i: int, acc: Seq<char>)
    requires
        0 <= i <= p.len(),
        forall|m: int| i <= m < p.len() ==> is_b64(#[trigger] p[m]),
    ensures
        scan_payload(p, i, acc) == Some(acc + p.skip(i)),
    decreases p.len() - i,
{
    if i < p.len() {
        lemma_scan_all_b64(p, i + 1, acc.push(p[i]));
        assert(acc.push(p[i]) + p.skip(i + 1) =~= acc + p.skip(i));
    } else {
        assert(acc + p.skip(i) =~= acc);
    }
}

/// Skipping a run of class `k` from `i` stops at the first character after
/// it.
proof fn lemma_skip_class_run(s: Seq<char>, i: int, m: int, k: CharClass)
    requires
        0 <= i <= m <= s.len(),
        forall|x: int| i <= x < m ==> in_class(k, #[trigger] s[x]),
        m == s.len() || !in_class(k, s[m]),
    ensures
        skip_class(s, i, k) == m,
    decreases m - i,
{
    if i < m {
        lemma_skip_class_run(s, i + 1, m, k);
    }
}

/// A configuration whose encoded payload was broken over lines (or by other
/// whitespace) when pasted is read whole: for base64 runs `p` and `q`
/// separated by whitespace `w`, where `q` does not start an option (`--`),
/// `skirk:` `p` `w` `q` gives `skirk:` followed by `p` and `q` joined.
pub proof fn lemma_wrapped_payload_is_joined(p: Seq<char>, w: Seq<char>, q: Seq<char>)
    requires
        p.len() > 0,
        w.len() > 0,
        q.len() > 0,
        forall|m: int| 0 <= m < p.len() ==> is_b64(#[trigger] p[m]),
        forall|m: int| 0 <= m < w.len() ==> is_space(#[trigger] w[m]),
        forall|m: int| 0 <= m < q.len() ==> is_b64(#[trigger] q[m]),
        !(q.len() >= 2 && q[0] == '-' && q[1] == '-'),
    ensures
        spec_extract_inline_config(inline_marker() + p + w + q) == Some(inline_marker() + p + q),
{
    let c = inline_marker() + p + w + q;
    let n = c.len() as int;
    assert(c[0] == 's');
    assert(c[n - 1] == q[q.len() - 1]);
    assert(skip_class(c, 0, CharClass::Space) == 0);
    assert(back_class(c, n, 0, CharClass::Space) == n);
    assert(trim(c) =~= c);
    assert(!occurs_at(c, 0, env_prefix())) by {
        if occurs_at(c, 0, env_prefix()) {
            assert(c.subrange(0, env_prefix().len() as int)[0] == env_prefix()[0]);
        }
    }
    assert(skip_class(c, 0, CharClass::Quote) == 0);
    assert(back_class(c, n, 0, CharClass::Quote) == n);
    assert(trim_class(c, CharClass::Quote) =~= c);
    assert(unwrapped_text(c) == c);
    assert(c.subrange(0, 6) =~= inline_marker());
    assert(occurs_at(c, 0, inline_marker()));
    assert(find_from(c, inline_marker(), 0) == Some(0int));
    let pay = c.skip(6);
    assert(pay =~= p + w + q);
    let a = p.len() as int;
    let b = a + w.len();
    // the first run is kept
    lemma_scan_run(pay, 0, a, seq![]);
    assert(pay.subrange(0, a) =~= p);
    // the whitespace is skipped up to the second run
    assert forall|x: int| a + 1 <= x < b implies in_class(CharClass::Space, #[trigger] pay[x]) by {
        assert(pay[x] == w[x - a]);
    }
    assert(!is_space(pay[b])) by {
        assert(pay[b] == q[0]);
    }
    lemma_skip_class_run(pay, a + 1, b, CharClass::Space);
    assert(is_space(pay[a])) by {
        assert(pay[a] == w[0]);
    }
    assert(!is_b64(pay[a]));
    assert(!is_quote(pay[b]));
    assert(!occurs_at(pay, b, option_marker())) by {
        if occurs_at(pay, b, option_marker()) {
            assert(pay.subrange(b, b + 2)[0] == q[0]);
            assert(pay.subrange(b, b + 2)[1] == q[1]);
        }
    }
    assert(scan_payload(pay, a, p) == scan_payload(pay, b, p));
    assert forall|m: int| b <= m < pay.len() implies is_b64(#[trigger] pay[m]) by {
        assert(pay[m] == q[m - b]);
    }
    lemma_scan_all_b64(pay, b, p);
    assert(p + pay.skip(b) =~= p + q);
}

/// Scanning a base64 run from `i` to `m` adds the run to what was kept.
proof fn lemma_scan_run(s: Seq<char>, i: int, m: int, acc: Seq<char>)
    requires
        0 <= i <= m <= s.len(),
        forall|x: int| i <= x < m ==> is_b64(#[trigger] s[x]),
    ensures
        scan_payload(s, i, acc) == scan_payload(s, m, acc + s.subrange(i, m)),
    decreases m - i,
{
    if i < m {
        lemma_scan_run(s, i + 1, m, acc.push(s[i]));
        assert(acc.push(s[i]) + s.subrange(i + 1, m) =~= acc + s.subrange(i, m));
    } else {
        assert(acc + s.subrange(i, m) =~= acc);
    }
}

/// Extracting the one-line configuration from an extracted configuration
/// gives it back unchanged: a stored configuration is recognised again, as
/// itself, wherever it is read later.
pub proof fn lemma_extract_inline_config_idempotent(raw: Seq<char>)
    requires
        spec_extract_inline_config(raw) is Some,
    ensures
        spec_extract_inline_config(spec_extract_inline_config(raw)->0) == spec_extract_inline_config(
            raw,
        ),
{
    let t = unwrapped_text(raw);
    let start = find_from(t, inline_marker(), 0)->0;
    let p = t.skip(start + inline_marker().len());
    lemma_find_from_some(t, inline_marker(), 0);
    lemma_scan_keeps_b64(p, 0, seq![]);
    let enc = scan_payload(p, 0, seq![])->0;
    let c = inline_marker() + enc;
    assert(c.len() > 6);
    assert(c[0] == 's');
    assert(c[c.len() - 1] == enc[enc.len() - 1]);
    assert(is_b64(c[c.len() - 1]));
    // the configuration has no surrounding whitespace or quotes
    assert(skip_class(c, 0, CharClass::Space) == 0);
    assert(back_class(c, c.len() as int, 0, CharClass::Space) == c.len());
    assert(trim(c) =~= c);
    assert(!occurs_at(c, 0, env_prefix())) by {
        if occurs_at(c, 0, env_prefix()) {
            assert(c.subrange(0, env_prefix().len() as int)[0] == env_prefix()[0]);
        }
    }
    assert(skip_class(c, 0, CharClass::Quote) == 0);
    assert(back_class(c, c.len() as int, 0, CharClass::Quote) == c.len());
    assert(trim_class(c, CharClass::Quote) =~= c);
    assert(unwrapped_text(c) == c);
    assert(c.subrange(0, 6) =~= inline_marker());
    assert(occurs_at(c, 0, inline_marker()));
    assert(find_from(c, inline_marker(), 0) == Some(0int));
    assert(c.skip(6) =~= enc);
    assert forall|m: int| 0 <= m < enc.len() implies is_b64(#[trigger] enc[m]) by {}
    lemma_scan_all_b64(enc, 0, seq![]);
    assert(seq![] + enc.skip(0) =~= enc);
}

} // verus!
