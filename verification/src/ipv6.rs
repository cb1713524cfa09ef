//! IPv6 address text: the colon-separated form, with `::` compression and
//! an embedded IPv4 tail, and the canonical display.
use vstd::prelude::*;

use crate::ip::{digits_value, dotted_quad, is_digit, lemma_decimal_digits, spec_parse_ipv4};
use crate::text::{first_index_of, lemma_first_index_of, split_at_char};
use crate::text::decimal;

verus! {

/// Value of a hexadecimal digit, or -1.
pub open spec fn hex_val(c: char) -> int {
    if '0' <= c && c <= '9' {
        (c as u32) - ('0' as u32)
    } else if 'a' <= c && c <= 'f' {
        (c as u32) - ('a' as u32) + 10
    } else if 'A' <= c && c <= 'F' {
        (c as u32) - ('A' as u32) + 10
    } else {
        -1
    }
}

/// End of the run of characters from `i` that satisfy `hex` (hex digits) or
/// decimal digits otherwise.
pub open spec fn digit_run(s: Seq<char>, i: int, hex: bool) -> int
    decreases s.len() - i,
{
    if 0 <= i < s.len() && (if hex {
        hex_val(s[i]) >= 0
    } else {
        is_digit(s[i])
    }) {
        digit_run(s, i + 1, hex)
    } else {
        i
    }
}

/// Value of the hexadecimal digits `s[a..b]`.
pub open spec fn hex_value(s: Seq<char>, a: int, b: int) -> int
    decreases b - a,
{
    if b <= a {
        0
    } else {
        hex_value(s, a, b - 1) * 16 + hex_val(s[b - 1])
    }
}

proof fn lemma_digit_run(s: Seq<char>, i: int, hex: bool)
    requires
        0 <= i <= s.len(),
    ensures
        i <= digit_run(s, i, hex) <= s.len(),
        forall|m: int|
            i <= m < digit_run(s, i, hex) ==> (if hex {
                hex_val(#[trigger] s[m]) >= 0
            } else {
                is_digit(s[m])
            }),
    decreases s.len() - i,
{
    if i < s.len() && (if hex {
        hex_val(s[i]) >= 0
    } else {
        is_digit(s[i])
    }) {
        lemma_digit_run(s, i + 1, hex);
    }
}

/// A decimal IPv4 octet read at `i`: its value and where it ends.
pub open spec fn read_octet_at(s: Seq<char>, i: int) -> Option<(int, int)> {
    let e = digit_run(s, i, false);
    let n = e - i;
    if i < 0 || i > s.len() || n == 0 || n > 3 || (n > 1 && s[i] == '0') || digits_value(
        s.subrange(i, e),
    ) > 255 {
        None
    } else {
        Some((digits_value(s.subrange(i, e)), e))
    }
}

/// `sep` stands at `i`.
pub open spec fn sep_at(s: Seq<char>, i: int, sep: char) -> bool {
    0 <= i < s.len() && s[i] == sep
}

/// A dotted-decimal IPv4 address read at `i`: its octets and where it ends.
pub open spec fn read_ipv4_at(s: Seq<char>, i: int) -> Option<(Seq<int>, int)> {
    match read_octet_at(s, i) {
        None => None,
        Some((a, e0)) => if !sep_at(s, e0, '.') {
            None
        } else {
            match read_octet_at(s, e0 + 1) {
                None => None,
                Some((b, e1)) => if !sep_at(s, e1, '.') {
                    None
                } else {
                    match read_octet_at(s, e1 + 1) {
                        None => None,
                        Some((c, e2)) => if !sep_at(s, e2, '.') {
                            None
                        } else {
                            match read_octet_at(s, e2 + 1) {
                                None => None,
                                Some((d, e3)) => Some((seq![a, b, c, d], e3)),
                            }
                        },
                    }
                },
            }
        },
    }
}

/// A group of one to four hexadecimal digits read at `i`.
pub open spec fn read_group_at(s: Seq<char>, i: int) -> Option<(int, int)> {
    let e = digit_run(s, i, true);
    let n = e - i;
    if i < 0 || i > s.len() || n == 0 || n > 4 {
        None
    } else {
        Some((hex_value(s, i, e), e))
    }
}

/// Where group number `k` starts when the previous one ended at `pos`: right
/// there for the first group, after a `:` for the others.
pub open spec fn group_start(s: Seq<char>, pos: int, k: int) -> Option<int> {
    if k == 0 {
        Some(pos)
    } else if sep_at(s, pos, ':') {
        Some(pos + 1)
    } else {
        None
    }
}

/// Reads colon-separated groups from `pos` until `limit` groups are read or
/// none follows; a trailing embedded IPv4 address counts as two groups and
/// ends the run. Gives the groups, where reading stopped, and whether an
/// IPv4 address ended it.
pub open spec fn read_groups(s: Seq<char>, pos: int, k: int, limit: int, acc: Seq<int>) -> (
    Seq<int>,
    int,
    bool,
)
    decreases limit - k,
{
    if k >= limit {
        (acc, pos, false)
    } else {
        match group_start(s, pos, k) {
            None => (acc, pos, false),
            Some(st) => if k < limit - 1 && read_ipv4_at(s, st) is Some {
                let (o, e) = read_ipv4_at(s, st)->0;
                (acc + seq![o[0] * 256 + o[1], o[2] * 256 + o[3]], e, true)
            } else {
                match read_group_at(s, st) {
                    None => (acc, pos, false),
                    Some((g, e)) => read_groups(s, e, k + 1, limit, acc.push(g)),
                }
            },
        }
    }
}

/// The eight 16-bit groups of the IPv6 address written as `s`: groups
/// separated by `:`, at most one `::` standing for one or more zero groups,
/// optionally ending in a dotted-decimal IPv4 address.
pub open spec fn spec_parse_ipv6(s: Seq<char>) -> Option<Seq<int>> {
    let (head, hp, h4) = read_groups(s, 0, 0, 8, seq![]);
    if head.len() == 8 {
        if hp == s.len() {
            Some(head)
        } else {
            None
        }
    } else if h4 {
        None
    } else if sep_at(s, hp, ':') && sep_at(s, hp + 1, ':') {
        let (tail, tp, t4) = read_groups(s, hp + 2, 0, 8 - (head.len() + 1), seq![]);
        if tp == s.len() {
            Some(head + Seq::new((8 - head.len() - tail.len()) as nat, |i: int| 0int) + tail)
        } else {
            None
        }
    } else {
        None
    }
}


pub open spec fn ints(v: Seq<u32>) -> Seq<int> {
    v.map_values(|x: u32| x as int)
}

fn hex_digit(c: char) -> (d: Option<u32>)
    ensures
        match d {
            Some(x) => hex_val(c) >= 0 && x == hex_val(c) && x < 16,
            None => hex_val(c) < 0,
        },
{
    if '0' <= c && c <= '9' {
        Some((c as u32) - ('0' as u32))
    } else if 'a' <= c && c <= 'f' {
        Some((c as u32) - ('a' as u32) + 10)
    } else if 'A' <= c && c <= 'F' {
        Some((c as u32) - ('A' as u32) + 10)
    } else {
        None
    }
}

fn digit_of_kind(c: char, hex: bool) -> (b: bool)
    ensures
        b == (if hex {
            hex_val(c) >= 0
        } else {
            is_digit(c)
        }),
{
    if hex {
        hex_digit(c).is_some()
    } else {
        '0' <= c && c <= '9'
    }
}

fn digit_run_from(v: &Vec<char>, i: usize, hex: bool) -> (e: usize)
    requires
        i <= v.len(),
    ensures
        e == digit_run(v@, i as int, hex),
{
    let mut j = i;
    while j < v.len() && digit_of_kind(v[j], hex)
        invariant
            i <= j <= v.len(),
            digit_run(v@, i as int, hex) == digit_run(v@, j as int, hex),
        decreases v.len() - j,
    {
        j = j + 1;
    }
    j
}

fn read_octet(v: &Vec<char>, i: usize) -> (r: Option<(u32, usize)>)
    requires
        i <= v.len(),
    ensures
        match r {
            Some((x, e)) => read_octet_at(v@, i as int) == Some((x as int, e as int)) && x < 256
                && e <= v.len(),
            None => read_octet_at(v@, i as int) is None,
        },
{
    let e = digit_run_from(v, i, false);
    proof {
        lemma_digit_run(v@, i as int, false);
    }
    let n = e - i;
    if n == 0 || n > 3 || (n > 1 && v[i] == '0') {
        return None;
    }
    let mut val: u32 = 0;
    let mut k = i;
    while k < e
        invariant
            i <= k <= e <= v.len(),
            e - i <= 3,
            forall|m: int| i <= m < e ==> is_digit(#[trigger] v@[m]),
            val == digits_value(v@.subrange(i as int, k as int)),
            k - i == 0 ==> val == 0,
            k - i == 1 ==> val < 10,
            k - i == 2 ==> val < 100,
            k - i == 3 ==> val < 1000,
        decreases e - k,
    {
        assert(v@.subrange(i as int, k + 1).drop_last() =~= v@.subrange(i as int, k as int));
        val = val * 10 + ((v[k] as u32) - ('0' as u32));
        k = k + 1;
    }
    if val > 255 {
        return None;
    }
    Some((val, e))
}

fn read_ipv4(v: &Vec<char>, i: usize) -> (r: Option<([u32; 4], usize)>)
    requires
        i <= v.len(),
    ensures
        match r {
            Some((o, e)) => read_ipv4_at(v@, i as int) == Some((ints(o@), e as int)) && i < e <= v.len()
                && o[0] < 256 && o[1] < 256 && o[2] < 256 && o[3] < 256,
            None => read_ipv4_at(v@, i as int) is None,
        },
{
    let (a, e0) = match read_octet(v, i) {
        Some(x) => x,
        None => return None,
    };
    if !(e0 < v.len() && v[e0] == '.') {
        return None;
    }
    let (b, e1) = match read_octet(v, e0 + 1) {
        Some(x) => x,
        None => return None,
    };
    if !(e1 < v.len() && v[e1] == '.') {
        return None;
    }
    let (c, e2) = match read_octet(v, e1 + 1) {
        Some(x) => x,
        None => return None,
    };
    if !(e2 < v.len() && v[e2] == '.') {
        return None;
    }
    let (d, e3) = match read_octet(v, e2 + 1) {
        Some(x) => x,
        None => return None,
    };
    let o = [a, b, c, d];
    assert(ints(o@) =~= seq![a as int, b as int, c as int, d as int]);
    proof {
        lemma_read_ipv4_bounds(v@, i as int);
    }
    Some((o, e3))
}

proof fn lemma_hex_step(s: Seq<char>, a: int, k: int)
    requires
        a <= k,
    ensures
        hex_value(s, a, k + 1) == hex_value(s, a, k) * 16 + hex_val(s[k]),
{
}

fn read_group(v: &Vec<char>, i: usize) -> (r: Option<(u32, usize)>)
    requires
        i <= v.len(),
    ensures
        match r {
            Some((g, e)) => read_group_at(v@, i as int) == Some((g as int, e as int)) && g < 65536
                && i < e <= v.len(),
            None => read_group_at(v@, i as int) is None,
        },
{
    let e = digit_run_from(v, i, true);
    proof {
        lemma_digit_run(v@, i as int, true);
    }
    let n = e - i;
    if n == 0 || n > 4 {
        return None;
    }
    let mut val: u32 = 0;
    let mut k = i;
    while k < e
        invariant
            i <= k <= e <= v.len(),
            e - i <= 4,
            forall|m: int| i <= m < e ==> hex_val(#[trigger] v@[m]) >= 0,
            val == hex_value(v@, i as int, k as int),
            k - i == 0 ==> val == 0,
            k - i == 1 ==> val < 16,
            k - i == 2 ==> val < 256,
            k - i == 3 ==> val < 4096,
            k - i == 4 ==> val < 65536,
        decreases e - k,
    {
        let d = match hex_digit(v[k]) {
            Some(d) => d,
            None => {
                assert(hex_val(v@[k as int]) >= 0);
                return None;
            },
        };
        proof {
            lemma_hex_step(v@, i as int, k as int);
        }
        val = val * 16 + d;
        k = k + 1;
    }
    Some((val, e))
}

proof fn lemma_read_groups_bounds(s: Seq<char>, pos: int, k: int, limit: int, acc: Seq<int>)
    requires
        0 <= pos <= s.len(),
        0 <= k <= limit,
        acc.len() == k,
        forall|j: int| 0 <= j < acc.len() ==> 0 <= #[trigger] acc[j] < 65536,
    ensures
        ({
            let (g, p, f) = read_groups(s, pos, k, limit, acc);
            &&& k <= g.len() <= limit
            &&& pos <= p <= s.len()
            &&& forall|j: int| 0 <= j < g.len() ==> 0 <= #[trigger] g[j] < 65536
            &&& g.subrange(0, k) == acc
        }),
    decreases limit - k,
{
    if k < limit {
        match group_start(s, pos, k) {
            None => {},
            Some(st) => {
                if k < limit - 1 && read_ipv4_at(s, st) is Some {
                    let (o, e) = read_ipv4_at(s, st)->0;
                    lemma_read_ipv4_bounds(s, st);
                    let g = acc + seq![o[0] * 256 + o[1], o[2] * 256 + o[3]];
                    assert(g.subrange(0, k) =~= acc);
                } else {
                    match read_group_at(s, st) {
                        None => {},
                        Some((grp, e)) => {
                            lemma_read_group_bounds(s, st);
                            lemma_read_groups_bounds(s, e, k + 1, limit, acc.push(grp));
                            let (g, p, f) = read_groups(s, e, k + 1, limit, acc.push(grp));
                            assert(g.subrange(0, k) =~= g.subrange(0, k + 1).subrange(0, k));
                            assert(acc.push(grp).subrange(0, k) =~= acc);
                        },
                    }
                }
            },
        }
    } else {
        assert(acc.subrange(0, k) =~= acc);
    }
}

proof fn lemma_hex_value_bound(s: Seq<char>, a: int, b: int)
    requires
        a <= b,
        b - a <= 4,
        forall|m: int| a <= m < b ==> 0 <= hex_val(#[trigger] s[m]) < 16,
    ensures
        0 <= hex_value(s, a, b),
        b - a <= 1 ==> hex_value(s, a, b) < 16,
        b - a <= 2 ==> hex_value(s, a, b) < 256,
        b - a <= 3 ==> hex_value(s, a, b) < 4096,
        hex_value(s, a, b) < 65536,
    decreases b - a,
{
    if a < b {
        lemma_hex_value_bound(s, a, b - 1);
    }
}

proof fn lemma_read_group_bounds(s: Seq<char>, i: int)
    requires
        read_group_at(s, i) is Some,
    ensures
        ({
            let (g, e) = read_group_at(s, i)->0;
            0 <= g < 65536 && i < e <= s.len()
        }),
{
    lemma_digit_run(s, i, true);
    let e = digit_run(s, i, true);
    assert forall|m: int| i <= m < e implies 0 <= hex_val(#[trigger] s[m]) < 16 by {}
    lemma_hex_value_bound(s, i, e);
}

proof fn lemma_digits_value_nonneg(s: Seq<char>)
    requires
        forall|m: int| 0 <= m < s.len() ==> is_digit(#[trigger] s[m]),
    ensures
        digits_value(s) >= 0,
    decreases s.len(),
{
    if s.len() > 0 {
        assert forall|m: int| 0 <= m < s.drop_last().len() implies is_digit(
            #[trigger] s.drop_last()[m],
        ) by {
            assert(s.drop_last()[m] == s[m]);
        }
        lemma_digits_value_nonneg(s.drop_last());
    }
}

proof fn lemma_read_octet_bounds(s: Seq<char>, i: int)
    requires
        read_octet_at(s, i) is Some,
    ensures
        ({
            let (x, e) = read_octet_at(s, i)->0;
            0 <= x < 256 && i < e <= s.len()
        }),
{
    lemma_digit_run(s, i, false);
    let e = digit_run(s, i, false);
    assert forall|m: int| 0 <= m < s.subrange(i, e).len() implies is_digit(
        #[trigger] s.subrange(i, e)[m],
    ) by {
        assert(s.subrange(i, e)[m] == s[i + m]);
    }
    lemma_digits_value_nonneg(s.subrange(i, e));
}

proof fn lemma_read_ipv4_bounds(s: Seq<char>, i: int)
    requires
        read_ipv4_at(s, i) is Some,
    ensures
        ({
            let (o, e) = read_ipv4_at(s, i)->0;
            &&& o.len() == 4
            &&& forall|j: int| 0 <= j < 4 ==> 0 <= #[trigger] o[j] < 256
            &&& i < e <= s.len()
        }),
{
    lemma_read_octet_bounds(s, i);
    let (a, e0) = read_octet_at(s, i)->0;
    lemma_read_octet_bounds(s, e0 + 1);
    let (b, e1) = read_octet_at(s, e0 + 1)->0;
    lemma_read_octet_bounds(s, e1 + 1);
    let (c, e2) = read_octet_at(s, e1 + 1)->0;
    lemma_read_octet_bounds(s, e2 + 1);
}

fn read_groups_from(v: &Vec<char>, start: usize, limit: usize) -> (r: (Vec<u32>, usize, bool))
    requires
        start <= v.len(),
        limit <= 8,
    ensures
        read_groups(v@, start as int, 0, limit as int, seq![]) == (ints(r.0@), r.1 as int, r.2),
        r.0@.len() <= limit,
        start <= r.1 <= v.len(),
        forall|j: int| 0 <= j < r.0@.len() ==> #[trigger] r.0@[j] < 65536,
{
    let mut acc: Vec<u32> = Vec::new();
    let mut pos = start;
    let mut k: usize = 0;
    assert(ints(acc@) =~= Seq::<int>::empty());
    loop
        invariant
            k <= limit <= 8,
            start <= pos <= v.len(),
            acc@.len() == k,
            forall|j: int| 0 <= j < acc@.len() ==> #[trigger] acc@[j] < 65536,
            read_groups(v@, start as int, 0, limit as int, seq![]) == read_groups(
                v@,
                pos as int,
                k as int,
                limit as int,
                ints(acc@),
            ),
        decreases limit - k,
    {
        if k >= limit {
            return (acc, pos, false);
        }
        let st = if k == 0 {
            pos
        } else if pos < v.len() && v[pos] == ':' {
            pos + 1
        } else {
            return (acc, pos, false);
        };
        if k + 1 < limit {
            if let Some((o, e)) = read_ipv4(v, st) {
                let ghost before = ints(acc@);
                acc.push(o[0] * 256 + o[1]);
                acc.push(o[2] * 256 + o[3]);
                assert(ints(acc@) =~= before + seq![
                    o@[0] as int * 256 + o@[1] as int,
                    o@[2] as int * 256 + o@[3] as int,
                ]);
                return (acc, e, true);
            }
        }
        match read_group(v, st) {
            None => return (acc, pos, false),
            Some((g, e)) => {
                let ghost before = ints(acc@);
                acc.push(g);
                assert(ints(acc@) =~= before.push(g as int));
                pos = e;
                k = k + 1;
            },
        }
    }
}

pub open spec fn u16s(v: Seq<u16>) -> Seq<int> {
    v.map_values(|x: u16| x as int)
}

/// Parses IPv6 text into its eight groups.
pub fn parse_ipv6(v: &Vec<char>) -> (r: Option<Vec<u16>>)
    ensures
        match r {
            Some(g) => spec_parse_ipv6(v@) == Some(u16s(g@)) && g@.len() == 8,
            None => spec_parse_ipv6(v@) is None,
        },
{
    let (head, hp, h4) = read_groups_from(v, 0, 8);
    let mut out: Vec<u16> = Vec::new();
    if head.len() == 8 {
        if hp != v.len() {
            return None;
        }
        for i in 0..8
            invariant
                head@.len() == 8,
                forall|j: int| 0 <= j < 8 ==> #[trigger] head@[j] < 65536,
                out@.len() == i,
                forall|j: int| 0 <= j < i ==> #[trigger] out@[j] as int == head@[j] as int,
        {
            out.push(head[i] as u16);
        }
        assert(u16s(out@) =~= ints(head@));
        return Some(out);
    }
    if h4 {
        return None;
    }
    if !(v.len() >= 2 && hp <= v.len() - 2 && v[hp] == ':' && v[hp + 1] == ':') {
        return None;
    }
    let limit = 8 - (head.len() + 1);
    let (tail, tp, _t4) = read_groups_from(v, hp + 2, limit);
    if tp != v.len() {
        return None;
    }
    let zeros = 8 - head.len() - tail.len();
    let ghost expected = ints(head@) + Seq::new(zeros as nat, |i: int| 0int) + ints(tail@);
    let mut i: usize = 0;
    while i < head.len()
        invariant
            i <= head@.len(),
            head@.len() < 8,
            forall|j: int| 0 <= j < head@.len() ==> #[trigger] head@[j] < 65536,
            out@.len() == i,
            forall|j: int| 0 <= j < i ==> #[trigger] out@[j] as int == expected[j],
            expected == ints(head@) + Seq::new(zeros as nat, |i: int| 0int) + ints(tail@),
        decreases head.len() - i,
    {
        out.push(head[i] as u16);
        i = i + 1;
    }
    let mut z: usize = 0;
    while z < zeros
        invariant
            z <= zeros,
            head@.len() + zeros + tail@.len() == 8,
            out@.len() == head@.len() + z,
            forall|j: int| 0 <= j < out@.len() ==> #[trigger] out@[j] as int == expected[j],
            expected == ints(head@) + Seq::new(zeros as nat, |i: int| 0int) + ints(tail@),
        decreases zeros - z,
    {
        out.push(0);
        z = z + 1;
    }
    let mut t: usize = 0;
    while t < tail.len()
        invariant
            t <= tail@.len(),
            head@.len() + zeros + tail@.len() == 8,
            forall|j: int| 0 <= j < tail@.len() ==> #[trigger] tail@[j] < 65536,
            out@.len() == head@.len() + zeros + t,
            forall|j: int| 0 <= j < out@.len() ==> #[trigger] out@[j] as int == expected[j],
            expected == ints(head@) + Seq::new(zeros as nat, |i: int| 0int) + ints(tail@),
        decreases tail.len() - t,
    {
        out.push(tail[t] as u16);
        t = t + 1;
    }
    assert(u16s(out@) =~= expected);
    Some(out)
}


/// Lower-case hexadecimal digit for `d < 16`.
pub open spec fn hex_digit_char(d: nat) -> char {
    if d < 10 {
        crate::text::digit_char(d)
    } else if d == 10 {
        'a'
    } else if d == 11 {
        'b'
    } else if d == 12 {
        'c'
    } else if d == 13 {
        'd'
    } else if d == 14 {
        'e'
    } else {
        'f'
    }
}

/// Lower-case hexadecimal text of `n`, without leading zeros.
pub open spec fn hex_text(n: nat) -> Seq<char>
    decreases n,
{
    if n < 16 {
        seq![hex_digit_char(n)]
    } else {
        hex_text(n / 16).push(hex_digit_char(n % 16))
    }
}

/// Groups in hexadecimal, separated by `:`.
pub open spec fn join_groups(g: Seq<int>) -> Seq<char>
    decreases g.len(),
{
    if g.len() == 0 {
        seq![]
    } else if g.len() == 1 {
        hex_text(g[0] as nat)
    } else {
        join_groups(g.drop_last()) + seq![':'] + hex_text(g.last() as nat)
    }
}

/// Number of zero groups starting at `i`.
pub open spec fn zero_run(g: Seq<int>, i: int) -> int
    decreases g.len() - i,
{
    if 0 <= i < g.len() && g[i] == 0 {
        1 + zero_run(g, i + 1)
    } else {
        0
    }
}

/// Length of the longest run of zero groups at or after `i`.
pub open spec fn longest_zero_run(g: Seq<int>, i: int) -> int
    decreases g.len() - i,
{
    if i < 0 || i >= g.len() {
        0
    } else if zero_run(g, i) >= longest_zero_run(g, i + 1) {
        zero_run(g, i)
    } else {
        longest_zero_run(g, i + 1)
    }
}

/// First index at or after `i` where a run of `len` zero groups starts.
pub open spec fn run_start(g: Seq<int>, len: int, i: int) -> int
    decreases g.len() - i,
{
    if i < 0 || i >= g.len() || zero_run(g, i) == len {
        i
    } else {
        run_start(g, len, i + 1)
    }
}

/// The address is an IPv4 address mapped into IPv6 (`::ffff:a.b.c.d`).
pub open spec fn is_ipv4_mapped(g: Seq<int>) -> bool {
    g[0] == 0 && g[1] == 0 && g[2] == 0 && g[3] == 0 && g[4] == 0 && g[5] == 0xffff
}

/// The canonical text of the IPv6 address with groups `g`: a mapped IPv4
/// address as `::ffff:` and dotted decimal; otherwise lower-case hex groups
/// with the first longest run of two or more zero groups written as `::`.
pub open spec fn spec_ipv6_text(g: Seq<int>) -> Seq<char> {
    if is_ipv4_mapped(g) {
        seq![':', ':', 'f', 'f', 'f', 'f', ':'] + dotted_quad(
            seq![
                (g[6] / 256) as u8,
                (g[6] % 256) as u8,
                (g[7] / 256) as u8,
                (g[7] % 256) as u8,
            ],
        )
    } else {
        let len = longest_zero_run(g, 0);
        if len > 1 {
            let st = run_start(g, len, 0);
            join_groups(g.take(st)) + seq![':', ':'] + join_groups(g.skip(st + len))
        } else {
            join_groups(g)
        }
    }
}

pub(crate) fn hex_digit_out(d: u32) -> (c: char)
    requires
        d < 16,
    ensures
        c == hex_digit_char(d as nat),
{
    if d < 10 {
        crate::text::digit_out(d)
    } else if d == 10 {
        'a'
    } else if d == 11 {
        'b'
    } else if d == 12 {
        'c'
    } else if d == 13 {
        'd'
    } else if d == 14 {
        'e'
    } else {
        'f'
    }
}

fn push_hex(out: &mut Vec<char>, n: u32)
    ensures
        final(out)@ == old(out)@ + hex_text(n as nat),
    decreases n,
{
    if n >= 16 {
        push_hex(out, n / 16);
    }
    out.push(hex_digit_out(n % 16));
    assert(out@ =~= old(out)@ + hex_text(n as nat));
}

fn push_joined(out: &mut Vec<char>, g: &Vec<u16>, a: usize, b: usize)
    requires
        a <= b <= g.len(),
    ensures
        final(out)@ == old(out)@ + join_groups(u16s(g@).subrange(a as int, b as int)),
{
    let mut k = a;
    while k < b
        invariant
            a <= k <= b <= g.len(),
            out@ == old(out)@ + join_groups(u16s(g@).subrange(a as int, k as int)),
        decreases b - k,
    {
        let ghost before = out@;
        if k > a {
            out.push(':');
        }
        push_hex(out, g[k] as u32);
        proof {
            let sub = u16s(g@).subrange(a as int, k + 1);
            assert(sub.drop_last() =~= u16s(g@).subrange(a as int, k as int));
            assert(sub.last() == g@[k as int] as int);
            if k == a {
                assert(sub.len() == 1);
            }
        }
        assert(out@ =~= old(out)@ + join_groups(u16s(g@).subrange(a as int, k + 1)));
        k = k + 1;
    }
}

fn zero_run_at(g: &Vec<u16>, i: usize) -> (r: usize)
    requires
        i <= g.len(),
    ensures
        r == zero_run(u16s(g@), i as int),
        r <= g.len() - i,
{
    let mut j = g.len();
    let mut r: usize = 0;
    while j > i
        invariant
            i <= j <= g.len(),
            r == zero_run(u16s(g@), j as int),
            r <= g.len() - j,
        decreases j - i,
    {
        j = j - 1;
        if g[j] == 0 {
            r = r + 1;
        } else {
            r = 0;
        }
    }
    r
}

/// Canonical text of the IPv6 address with these eight groups.
pub fn ipv6_text(g: &Vec<u16>) -> (s: Vec<char>)
    requires
        g@.len() == 8,
    ensures
        s@ == spec_ipv6_text(u16s(g@)),
{
    let ghost gs = u16s(g@);
    if g[0] == 0 && g[1] == 0 && g[2] == 0 && g[3] == 0 && g[4] == 0 && g[5] == 0xffff {
        let mut out = vec![':', ':', 'f', 'f', 'f', 'f', ':'];
        let o = vec![(g[6] / 256) as u8, (g[6] % 256) as u8, (g[7] / 256) as u8, (g[7] % 256) as u8];
        crate::text::push_decimal(&mut out, o[0] as u128);
        out.push('.');
        crate::text::push_decimal(&mut out, o[1] as u128);
        out.push('.');
        crate::text::push_decimal(&mut out, o[2] as u128);
        out.push('.');
        crate::text::push_decimal(&mut out, o[3] as u128);
        assert(o@ =~= seq![
            (gs[6] / 256) as u8,
            (gs[6] % 256) as u8,
            (gs[7] / 256) as u8,
            (gs[7] % 256) as u8,
        ]);
        assert(out@ =~= spec_ipv6_text(gs));
        return out;
    }
    // longest run of zero groups, the first one among equals
    let mut best: usize = 0;
    let mut i: usize = 8;
    while i > 0
        invariant
            i <= 8,
            g@.len() == 8,
            best == longest_zero_run(gs, i as int),
            gs == u16s(g@),
        decreases i,
    {
        i = i - 1;
        let r = zero_run_at(g, i);
        if r >= best {
            best = r;
        }
    }
    let mut out: Vec<char> = Vec::new();
    if best > 1 {
        let mut st: usize = 0;
        while st < 8 && zero_run_at(g, st) != best
            invariant
                st <= 8,
                g@.len() == 8,
                gs == u16s(g@),
                run_start(gs, best as int, 0) == run_start(gs, best as int, st as int),
            decreases 8 - st,
        {
            st = st + 1;
        }
        proof {
            lemma_run_start_found(gs, best as int, st as int);
        }
        let end = st + best;
        push_joined(&mut out, g, 0, st);
        out.push(':');
        out.push(':');
        push_joined(&mut out, g, end, 8);
        assert(gs.take(st as int) =~= gs.subrange(0, st as int));
        assert(gs.skip(end as int) =~= gs.subrange(end as int, 8));
        assert(out@ =~= spec_ipv6_text(gs));
    } else {
        push_joined(&mut out, g, 0, 8);
        assert(gs =~= gs.subrange(0, 8));
    }
    out
}

proof fn lemma_zero_run_bound(g: Seq<int>, i: int)
    requires
        0 <= i <= g.len(),
    ensures
        0 <= zero_run(g, i) <= g.len() - i,
    decreases g.len() - i,
{
    if i < g.len() && g[i] == 0 {
        lemma_zero_run_bound(g, i + 1);
    }
}

proof fn lemma_longest_attained(g: Seq<int>, i: int)
    requires
        0 <= i <= g.len(),
        longest_zero_run(g, i) > 0,
    ensures
        exists|k: int| i <= k < g.len() && zero_run(g, k) == longest_zero_run(g, i),
    decreases g.len() - i,
{
    if zero_run(g, i) >= longest_zero_run(g, i + 1) {
        assert(zero_run(g, i) == longest_zero_run(g, i));
    } else {
        lemma_longest_attained(g, i + 1);
    }
}

proof fn lemma_run_start_found(g: Seq<int>, len: int, st: int)
    requires
        g.len() == 8,
        len == longest_zero_run(g, 0),
        len > 1,
        0 <= st <= 8,
        run_start(g, len, 0) == run_start(g, len, st),
        st >= 8 || zero_run(g, st) == len,
    ensures
        st < 8,
        st + len <= 8,
        run_start(g, len, 0) == st,
{
    lemma_longest_attained(g, 0);
    let k = choose|k: int| 0 <= k < g.len() && zero_run(g, k) == longest_zero_run(g, 0);
    lemma_run_start_le(g, len, 0, k);
    if st >= 8 {
        assert(run_start(g, len, st) == st);
    }
    lemma_zero_run_bound(g, st);
}

proof fn lemma_run_start_le(g: Seq<int>, len: int, i: int, k: int)
    requires
        0 <= i <= k < g.len(),
        zero_run(g, k) == len,
    ensures
        run_start(g, len, i) <= k,
    decreases k - i,
{
    if i < k && zero_run(g, i) != len {
        lemma_run_start_le(g, len, i + 1, k);
    }
}

// Reading the canonical text back.

proof fn lemma_hex_digit_char(d: nat)
    requires
        d < 16,
    ensures
        hex_val(hex_digit_char(d)) == d,
{
    if d < 10 {
        crate::ip::lemma_digit_char(d);
    }
}

/// `hex_value` over `s[a..b]` depends only on those characters.
proof fn lemma_hex_value_frame(s: Seq<char>, t: Seq<char>, a: int, b: int, c: int)
    requires
        0 <= a <= b <= s.len(),
        0 <= c,
        c + (b - a) <= t.len(),
        forall|m: int| a <= m < b ==> s[m] == t[c + m - a],
    ensures
        hex_value(s, a, b) == hex_value(t, c, c + b - a),
    decreases b - a,
{
    if a < b {
        lemma_hex_value_frame(s, t, a, b - 1, c);
    }
}

/// The hex text of a group: one to four hex digits that read back as it.
proof fn lemma_hex_text(n: nat)
    requires
        n < 65536,
    ensures
        1 <= hex_text(n).len() <= 4,
        forall|m: int| 0 <= m < hex_text(n).len() ==> hex_val(#[trigger] hex_text(n)[m]) >= 0,
        hex_value(hex_text(n), 0, hex_text(n).len() as int) == n,
    decreases n,
{
    let t = hex_text(n);
    if n < 16 {
        lemma_hex_digit_char(n);
        assert(t.len() == 1);
        assert(hex_value(t, 0, 1) == hex_value(t, 0, 0) * 16 + hex_val(t[0]));
    } else {
        lemma_hex_text(n / 16);
        lemma_hex_digit_char(n % 16);
        let h = hex_text(n / 16);
        assert(t == h.push(hex_digit_char(n % 16)));
        if n / 16 >= 4096 {
            assert(false);
        }
        assert(h.len() <= 3) by {
            if n / 16 < 16 {
            } else {
                lemma_hex_text((n / 16) / 16);
                if n / 16 / 16 >= 16 {
                    lemma_hex_text(n / 16 / 16 / 16);
                    assert(hex_text(n / 16 / 16) == hex_text(n / 16 / 16 / 16).push(
                        hex_digit_char(n / 16 / 16 % 16),
                    ));
                    assert(n / 16 / 16 / 16 < 16);
                }
                assert(h == hex_text(n / 16 / 16).push(hex_digit_char(n / 16 % 16)));
            }
        }
        assert forall|m: int| 0 <= m < t.len() implies hex_val(#[trigger] t[m]) >= 0 by {
            if m < h.len() {
                assert(t[m] == h[m]);
            }
        }
        lemma_hex_value_frame(t, h, 0, h.len() as int, 0);
        assert(hex_value(t, 0, t.len() as int) == hex_value(t, 0, h.len() as int) * 16 + hex_val(
            t[h.len() as int],
        ));
    }
}

/// Hex digits run from `i` up to the first character that is not one.
proof fn lemma_digit_run_stops(s: Seq<char>, i: int, e: int)
    requires
        0 <= i <= e <= s.len(),
        forall|m: int| i <= m < e ==> hex_val(#[trigger] s[m]) >= 0,
        e == s.len() || hex_val(s[e]) < 0,
    ensures
        digit_run(s, i, true) == e,
    decreases e - i,
{
    if i < e {
        lemma_digit_run_stops(s, i + 1, e);
    }
}

/// Groups in hexadecimal, each after a `:` except a leading first one:
/// `join_groups` read from the front.
pub open spec fn groups_text(g: Seq<int>, first: bool) -> Seq<char>
    decreases g.len(),
{
    if g.len() == 0 {
        seq![]
    } else {
        (if first {
            seq![]
        } else {
            seq![':']
        }) + hex_text(g[0] as nat) + groups_text(g.skip(1), false)
    }
}

proof fn lemma_groups_text_push(g: Seq<int>, x: int, first: bool)
    ensures
        groups_text(g.push(x), first) == groups_text(g, first) + (if g.len() == 0 && first {
            seq![]
        } else {
            seq![':']
        }) + hex_text(x as nat),
    decreases g.len(),
{
    if g.len() == 0 {
        assert(g.push(x).skip(1) =~= Seq::<int>::empty());
        assert(groups_text(Seq::<int>::empty(), false) == Seq::<char>::empty());
        assert(g.push(x)[0] == x);
        assert(groups_text(g, first) == Seq::<char>::empty());
        assert(groups_text(g.push(x), first) =~= (if first {
            seq![]
        } else {
            seq![':']
        }) + hex_text(x as nat));
    } else {
        assert(g.push(x).skip(1) =~= g.skip(1).push(x));
        lemma_groups_text_push(g.skip(1), x, false);
        assert(g.push(x)[0] == g[0]);
        let sep: Seq<char> = if first {
            seq![]
        } else {
            seq![':']
        };
        assert(groups_text(g.push(x), first) =~= sep + hex_text(g[0] as nat) + (groups_text(
            g.skip(1),
            false,
        ) + seq![':'] + hex_text(x as nat)));
    }
}

proof fn lemma_join_groups_text(g: Seq<int>)
    ensures
        join_groups(g) == groups_text(g, true),
    decreases g.len(),
{
    if g.len() == 1 {
        assert(g.skip(1) =~= Seq::<int>::empty());
        assert(groups_text(Seq::<int>::empty(), false) == Seq::<char>::empty());
        assert(groups_text(g, true) =~= hex_text(g[0] as nat));
    } else if g.len() > 1 {
        lemma_join_groups_text(g.drop_last());
        lemma_groups_text_push(g.drop_last(), g.last(), true);
        assert(g.drop_last().push(g.last()) =~= g);
    }
}

/// Every character of a groups text is `:` or a hex digit.
proof fn lemma_groups_text_chars(g: Seq<int>, first: bool)
    requires
        forall|j: int| 0 <= j < g.len() ==> 0 <= #[trigger] g[j] < 65536,
    ensures
        forall|m: int|
            0 <= m < groups_text(g, first).len() ==> #[trigger] groups_text(g, first)[m] == ':'
                || hex_val(groups_text(g, first)[m]) >= 0,
    decreases g.len(),
{
    if g.len() > 0 {
        lemma_groups_text_chars(g.skip(1), false);
        lemma_hex_text(g[0] as nat);
        let sep: Seq<char> = if first {
            seq![]
        } else {
            seq![':']
        };
        let h = hex_text(g[0] as nat);
        let r = groups_text(g.skip(1), false);
        assert(groups_text(g, first) == sep + h + r);
        assert forall|m: int| 0 <= m < groups_text(g, first).len() implies #[trigger] groups_text(
            g,
            first,
        )[m] == ':' || hex_val(groups_text(g, first)[m]) >= 0 by {
            let t = sep + h + r;
            if m < sep.len() {
                assert(t[m] == sep[m]);
            } else if m < sep.len() + h.len() {
                assert(t[m] == h[m - sep.len()]);
            } else {
                assert(t[m] == r[m - sep.len() - h.len()]);
            }
        }
    }
}

/// No group can be read at `pos` as group number `k`.
pub open spec fn no_group_at(s: Seq<char>, pos: int, k: int) -> bool {
    match group_start(s, pos, k) {
        None => true,
        Some(st) => read_group_at(s, st) is None,
    }
}

proof fn lemma_no_ipv4(s: Seq<char>, i: int)
    requires
        forall|m: int| 0 <= m < s.len() ==> #[trigger] s[m] != '.',
    ensures
        read_ipv4_at(s, i) is None,
{
    if let Some((a, e0)) = read_octet_at(s, i) {
        if sep_at(s, e0, '.') {
            assert(s[e0] != '.');
        }
    }
}

/// Reading groups over a groups text reads exactly its groups and stops
/// right after it.
proof fn lemma_read_groups_text(
    s: Seq<char>,
    pos: int,
    k: int,
    limit: int,
    acc: Seq<int>,
    gs: Seq<int>,
)
    requires
        0 <= k,
        k + gs.len() <= limit,
        0 <= pos,
        forall|j: int| 0 <= j < gs.len() ==> 0 <= #[trigger] gs[j] < 65536,
        forall|m: int| 0 <= m < s.len() ==> #[trigger] s[m] != '.',
        pos + groups_text(gs, k == 0).len() <= s.len(),
        s.subrange(pos, pos + groups_text(gs, k == 0).len()) == groups_text(gs, k == 0),
        pos + groups_text(gs, k == 0).len() == s.len() || hex_val(
            s[pos + groups_text(gs, k == 0).len()],
        ) < 0,
        k + gs.len() < limit ==> no_group_at(s, pos + groups_text(gs, k == 0).len(), k + gs.len()),
    ensures
        read_groups(s, pos, k, limit, acc) == (acc + gs, pos + groups_text(gs, k == 0).len(), false),
    decreases gs.len(),
{
    let t = groups_text(gs, k == 0);
    if gs.len() == 0 {
        assert(acc + gs =~= acc);
        if k < limit {
            if let Some(st) = group_start(s, pos, k) {
                lemma_no_ipv4(s, st);
            }
        }
    } else {
        let sep: Seq<char> = if k == 0 {
            seq![]
        } else {
            seq![':']
        };
        let h = hex_text(gs[0] as nat);
        let r = groups_text(gs.skip(1), false);
        assert(t == sep + h + r);
        lemma_hex_text(gs[0] as nat);
        let st = pos + sep.len();
        if k > 0 {
            assert(s.subrange(pos, pos + t.len())[0] == s[pos]);
            assert(t[0] == ':');
        }
        assert(group_start(s, pos, k) == Some(st));
        lemma_no_ipv4(s, st);
        let e = st + h.len();
        assert forall|m: int| st <= m < e implies hex_val(#[trigger] s[m]) >= 0 by {
            assert(s.subrange(pos, pos + t.len())[m - pos] == s[m]);
            assert(t[m - pos] == h[m - st]);
        }
        if gs.len() >= 2 {
            assert(gs.skip(1).len() > 0);
            assert(r[0] == ':');
            assert(s.subrange(pos, pos + t.len())[e - pos] == s[e]);
            assert(t[e - pos] == r[0]);
        } else {
            assert(gs.skip(1).len() == 0);
            assert(r.len() == 0);
        }
        lemma_digit_run_stops(s, st, e);
        assert forall|m: int| st <= m < e implies s[m] == h[0 + m - st] by {
            assert(s.subrange(pos, pos + t.len())[m - pos] == s[m]);
            assert(t[m - pos] == h[m - st]);
        }
        lemma_hex_value_frame(s, h, st, e, 0);
        assert(read_group_at(s, st) == Some((gs[0], e)));
        assert(s.subrange(e, e + r.len()) =~= r) by {
            assert forall|m: int| 0 <= m < r.len() implies s.subrange(e, e + r.len())[m] == r[m] by {
                assert(s.subrange(pos, pos + t.len())[e - pos + m] == s[e + m]);
                assert(t[e - pos + m] == r[m]);
            }
        }
        assert forall|j: int| 0 <= j < gs.skip(1).len() implies 0 <= #[trigger] gs.skip(1)[j]
            < 65536 by {
            assert(gs.skip(1)[j] == gs[j + 1]);
        }
        lemma_read_groups_text(s, e, k + 1, limit, acc.push(gs[0]), gs.skip(1));
        assert(acc.push(gs[0]) + gs.skip(1) =~= acc + gs);
    }
}

proof fn lemma_decimal_run_stops(s: Seq<char>, i: int, e: int)
    requires
        0 <= i <= e <= s.len(),
        forall|m: int| i <= m < e ==> is_digit(#[trigger] s[m]),
        e == s.len() || !is_digit(s[e]),
    ensures
        digit_run(s, i, false) == e,
    decreases e - i,
{
    if i < e {
        lemma_decimal_run_stops(s, i + 1, e);
    }
}

/// An octet written in decimal at `i`, followed by a non-digit or the end,
/// reads back as itself.
proof fn lemma_read_octet_decimal(s: Seq<char>, i: int, n: nat)
    requires
        0 <= i,
        n <= 255,
        i + decimal(n).len() <= s.len(),
        s.subrange(i, i + decimal(n).len()) == decimal(n),
        i + decimal(n).len() == s.len() || !is_digit(s[i + decimal(n).len()]),
    ensures
        read_octet_at(s, i) == Some((n as int, i + decimal(n).len())),
{
    let d = decimal(n);
    let e = i + d.len();
    lemma_decimal_digits(n);
    assert forall|m: int| i <= m < e implies is_digit(#[trigger] s[m]) by {
        assert(s.subrange(i, e)[m - i] == s[m]);
    }
    lemma_decimal_run_stops(s, i, e);
    assert(s[i] == d[0]) by {
        assert(s.subrange(i, e)[0] == s[i]);
    }
    if n >= 100 {
        assert(d.len() == 3);
    }
}

/// Dotted-decimal text at `i`, followed by the end of `s`, reads back as
/// its four octets.
proof fn lemma_read_ipv4_dotted(s: Seq<char>, i: int, o: Seq<u8>)
    requires
        0 <= i,
        o.len() == 4,
        i + dotted_quad(o).len() == s.len(),
        s.subrange(i, s.len() as int) == dotted_quad(o),
    ensures
        read_ipv4_at(s, i) == Some((seq![o[0] as int, o[1] as int, o[2] as int, o[3] as int], s.len() as int)),
{
    let d0 = decimal(o[0] as nat);
    let d1 = decimal(o[1] as nat);
    let d2 = decimal(o[2] as nat);
    let d3 = decimal(o[3] as nat);
    let q = dotted_quad(o);
    assert(q == d0 + seq!['.'] + d1 + seq!['.'] + d2 + seq!['.'] + d3);
    let e0 = i + d0.len();
    let e1 = e0 + 1 + d1.len();
    let e2 = e1 + 1 + d2.len();
    let e3 = e2 + 1 + d3.len();
    assert(e3 == s.len());
    assert forall|m: int| i <= m < s.len() implies #[trigger] s[m] == q[m - i] by {
        assert(s.subrange(i, s.len() as int)[m - i] == s[m]);
    }
    assert(s[e0] == '.');
    assert(s[e1] == '.');
    assert(s[e2] == '.');
    assert(s.subrange(i, e0) =~= d0);
    assert(s.subrange(e0 + 1, e1) =~= d1);
    assert(s.subrange(e1 + 1, e2) =~= d2);
    assert(s.subrange(e2 + 1, e3) =~= d3);
    lemma_read_octet_decimal(s, i, o[0] as nat);
    lemma_read_octet_decimal(s, e0 + 1, o[1] as nat);
    lemma_read_octet_decimal(s, e1 + 1, o[2] as nat);
    lemma_read_octet_decimal(s, e2 + 1, o[3] as nat);
}

proof fn lemma_zero_run_zeros(g: Seq<int>, i: int, n: int)
    requires
        0 <= i <= g.len(),
        0 <= n <= zero_run(g, i),
    ensures
        i + n <= g.len(),
        forall|m: int| i <= m < i + n ==> #[trigger] g[m] == 0,
    decreases n,
{
    if n > 0 {
        assert(0 <= i < g.len() && g[i] == 0);
        lemma_zero_run_zeros(g, i + 1, n - 1);
    }
}

proof fn lemma_run_start_zero_run(g: Seq<int>, len: int, i: int, k: int)
    requires
        0 <= i <= k < g.len(),
        zero_run(g, k) == len,
    ensures
        i <= run_start(g, len, i) <= k,
        zero_run(g, run_start(g, len, i)) == len,
    decreases k - i,
{
    if zero_run(g, i) != len {
        lemma_run_start_zero_run(g, len, i + 1, k);
    }
}

/// The canonical text without compression reads back as the eight groups.
proof fn lemma_plain_text_round_trip(g: Seq<int>)
    requires
        g.len() == 8,
        forall|j: int| 0 <= j < 8 ==> 0 <= #[trigger] g[j] < 65536,
    ensures
        spec_parse_ipv6(join_groups(g)) == Some(g),
        join_groups(g).len() > 0,
        forall|m: int|
            0 <= m < join_groups(g).len() ==> #[trigger] join_groups(g)[m] == ':' || hex_val(
                join_groups(g)[m],
            ) >= 0,
{
    let s = join_groups(g);
    lemma_join_groups_text(g);
    lemma_groups_text_chars(g, true);
    assert forall|m: int| 0 <= m < s.len() implies #[trigger] s[m] != '.' by {
        assert(s[m] == ':' || hex_val(s[m]) >= 0);
    }
    assert(s.subrange(0, s.len() as int) =~= s);
    lemma_read_groups_text(s, 0, 0, 8, seq![], g);
    assert(Seq::<int>::empty() + g =~= g);
    lemma_hex_text(g[0] as nat);
}

/// Text made of a groups text, `::` and another groups text reads back
/// both groups, stopping at the `::` and at the end.
#[verifier::spinoff_prover]
proof fn lemma_compressed_reads(s: Seq<char>, head: Seq<int>, tail: Seq<int>)
    requires
        head.len() + tail.len() <= 6,
        forall|j: int| 0 <= j < head.len() ==> 0 <= #[trigger] head[j] < 65536,
        forall|j: int| 0 <= j < tail.len() ==> 0 <= #[trigger] tail[j] < 65536,
        forall|m: int| 0 <= m < s.len() ==> #[trigger] s[m] != '.',
        s.len() == groups_text(head, true).len() + 2 + groups_text(tail, true).len(),
        s.subrange(0, groups_text(head, true).len() as int) == groups_text(head, true),
        s[groups_text(head, true).len() as int] == ':',
        s[groups_text(head, true).len() + 1int] == ':',
        s.subrange(groups_text(head, true).len() + 2int, s.len() as int) == groups_text(tail, true),
    ensures
        read_groups(s, 0, 0, 8, seq![]) == (head, groups_text(head, true).len() as int, false),
        read_groups(s, groups_text(head, true).len() + 2int, 0, 8 - (head.len() + 1), seq![]) == (
            tail,
            s.len() as int,
            false,
        ),
{
    let al = groups_text(head, true).len() as int;
    assert(digit_run(s, al + 1, true) == al + 1);
    assert(digit_run(s, al, true) == al);
    assert(no_group_at(s, al, head.len() as int));
    lemma_read_groups_text(s, 0, 0, 8, seq![], head);
    assert(Seq::<int>::empty() + head =~= head);
    assert(digit_run(s, s.len() as int, true) == s.len());
    assert(no_group_at(s, s.len() as int, tail.len() as int));
    lemma_read_groups_text(s, al + 2, 0, 8 - (head.len() + 1), seq![], tail);
    assert(Seq::<int>::empty() + tail =~= tail);
}

/// The text of two groups runs joined by `::`: its characters are colons
/// and hex digits, and it parses to the groups with zeros between them.
#[verifier::spinoff_prover]
proof fn lemma_compressed_text(head: Seq<int>, tail: Seq<int>)
    requires
        head.len() + tail.len() <= 6,
        forall|j: int| 0 <= j < head.len() ==> 0 <= #[trigger] head[j] < 65536,
        forall|j: int| 0 <= j < tail.len() ==> 0 <= #[trigger] tail[j] < 65536,
    ensures
        ({
            let s = join_groups(head) + seq![':', ':'] + join_groups(tail);
            &&& forall|m: int| 0 <= m < s.len() ==> #[trigger] s[m] == ':' || hex_val(s[m]) >= 0
            &&& spec_parse_ipv6(s) == Some(
                head + Seq::new((8 - head.len() - tail.len()) as nat, |i: int| 0int) + tail,
            )
        }),
{
    let a = join_groups(head);
    let b = join_groups(tail);
    let s = a + seq![':', ':'] + b;
    lemma_join_groups_text(head);
    lemma_join_groups_text(tail);
    lemma_groups_text_chars(head, true);
    lemma_groups_text_chars(tail, true);
    assert forall|m: int| 0 <= m < s.len() implies #[trigger] s[m] == ':' || hex_val(s[m]) >= 0 by {
        if m < a.len() {
            assert(s[m] == a[m]);
            assert(a[m] == ':' || hex_val(a[m]) >= 0);
        } else if m < a.len() + 2 {
        } else {
            assert(s[m] == b[m - a.len() - 2]);
            assert(b[m - a.len() - 2] == ':' || hex_val(b[m - a.len() - 2]) >= 0);
        }
    }
    assert forall|m: int| 0 <= m < s.len() implies #[trigger] s[m] != '.' by {
        assert(s[m] == ':' || hex_val(s[m]) >= 0);
    }
    assert(s.subrange(0, a.len() as int) =~= a);
    assert(s.subrange(a.len() + 2int, s.len() as int) =~= b);
    lemma_compressed_reads(s, head, tail);
}

/// The canonical text with its longest zero run written as `::` reads back
/// as the eight groups.
proof fn lemma_compressed_text_round_trip(g: Seq<int>, st: int, len: int)
    requires
        g.len() == 8,
        forall|j: int| 0 <= j < 8 ==> 0 <= #[trigger] g[j] < 65536,
        2 <= len,
        0 <= st,
        zero_run(g, st) == len,
    ensures
        ({
            let s = join_groups(g.take(st)) + seq![':', ':'] + join_groups(g.skip(st + len));
            &&& spec_parse_ipv6(s) == Some(g)
            &&& forall|m: int| 0 <= m < s.len() ==> #[trigger] s[m] == ':' || hex_val(s[m]) >= 0
        }),
{
    lemma_zero_run_bound(g, st);
    lemma_zero_run_zeros(g, st, len);
    let head = g.take(st);
    let tail = g.skip(st + len);
    assert forall|j: int| 0 <= j < head.len() implies 0 <= #[trigger] head[j] < 65536 by {
        assert(head[j] == g[j]);
    }
    assert forall|j: int| 0 <= j < tail.len() implies 0 <= #[trigger] tail[j] < 65536 by {
        assert(tail[j] == g[st + len + j]);
    }
    lemma_compressed_text(head, tail);
    assert(head + Seq::new((8 - head.len() - tail.len()) as nat, |i: int| 0int) + tail =~= g);
}

/// Text starting `::ffff:` reads no group before the `::`, and `ffff` as
/// the first group after it.
proof fn lemma_mapped_prefix(s: Seq<char>)
    requires
        s.len() >= 8,
        s[0] == ':',
        s[1] == ':',
        s[2] == 'f',
        s[3] == 'f',
        s[4] == 'f',
        s[5] == 'f',
        s[6] == ':',
    ensures
        read_groups(s, 0, 0, 8, seq![]) == (Seq::<int>::empty(), 0int, false),
        read_groups(s, 2, 0, 7, seq![]) == read_groups(s, 6, 1, 7, seq![0xffffint]),
{
    assert(digit_run(s, 0, false) == 0);
    assert(digit_run(s, 0, true) == 0);
    assert(read_octet_at(s, 0) is None);
    assert(read_ipv4_at(s, 0) is None);
    assert(read_group_at(s, 0) is None);
    assert(digit_run(s, 2, false) == 2);
    assert(read_octet_at(s, 2) is None);
    assert(read_ipv4_at(s, 2) is None);
    assert(hex_val('f') == 15);
    assert(hex_val(':') < 0);
    lemma_digit_run_stops(s, 2, 6);
    assert(hex_value(s, 2, 2) == 0);
    assert(hex_value(s, 2, 3) == 15);
    assert(hex_value(s, 2, 4) == 255);
    assert(hex_value(s, 2, 5) == 4095);
    assert(hex_value(s, 2, 6) == 0xffff);
    assert(read_group_at(s, 2) == Some((0xffffint, 6int)));
    assert(Seq::<int>::empty().push(0xffffint) =~= seq![0xffffint]);
}

proof fn lemma_byte_split(x: int)
    requires
        0 <= x < 65536,
    ensures
        ((x / 256) as u8) as int * 256 + ((x % 256) as u8) as int == x,
{
}

/// A group position where an embedded IPv4 address is read ends the run.
proof fn lemma_read_groups_ipv4_step(
    s: Seq<char>,
    pos: int,
    k: int,
    limit: int,
    acc: Seq<int>,
    st: int,
    o: Seq<int>,
    e: int,
)
    requires
        k < limit - 1,
        group_start(s, pos, k) == Some(st),
        read_ipv4_at(s, st) == Some((o, e)),
    ensures
        read_groups(s, pos, k, limit, acc) == (acc + seq![o[0] * 256 + o[1], o[2] * 256 + o[3]], e, true),
{
}

/// Text `::ffff:` followed by a dotted quad reads as `ffff` and the quad's
/// two groups after the `::`.
proof fn lemma_mapped_groups_at(s: Seq<char>, o: Seq<u8>)
    requires
        o.len() == 4,
        s.len() >= 8,
        s[0] == ':',
        s[1] == ':',
        s[2] == 'f',
        s[3] == 'f',
        s[4] == 'f',
        s[5] == 'f',
        s[6] == ':',
        7 + dotted_quad(o).len() == s.len(),
        s.subrange(7, s.len() as int) == dotted_quad(o),
    ensures
        read_groups(s, 0, 0, 8, seq![]) == (Seq::<int>::empty(), 0int, false),
        read_groups(s, 2, 0, 7, seq![]) == (seq![
            0xffffint,
            o[0] as int * 256 + o[1] as int,
            o[2] as int * 256 + o[3] as int,
        ], s.len() as int, true),
{
    lemma_mapped_prefix(s);
    lemma_read_ipv4_dotted(s, 7, o);
    let og = seq![o[0] as int, o[1] as int, o[2] as int, o[3] as int];
    assert(group_start(s, 6, 1) == Some(7int));
    lemma_read_groups_ipv4_step(s, 6, 1, 7, seq![0xffffint], 7, og, s.len() as int);
    assert(seq![0xffffint] + seq![og[0] * 256 + og[1], og[2] * 256 + og[3]] =~= seq![
        0xffffint,
        o[0] as int * 256 + o[1] as int,
        o[2] as int * 256 + o[3] as int,
    ]);
}

/// `::ffff:` and a dotted quad read as `ffff` and the quad's two groups
/// after the `::`.
proof fn lemma_mapped_groups(o: Seq<u8>)
    requires
        o.len() == 4,
    ensures
        ({
            let s = seq![':', ':', 'f', 'f', 'f', 'f', ':'] + dotted_quad(o);
            &&& read_groups(s, 0, 0, 8, seq![]) == (Seq::<int>::empty(), 0int, false)
            &&& read_groups(s, 2, 0, 7, seq![]) == (seq![
                0xffffint,
                o[0] as int * 256 + o[1] as int,
                o[2] as int * 256 + o[3] as int,
            ], s.len() as int, true)
        }),
{
    let d = dotted_quad(o);
    let p: Seq<char> = seq![':', ':', 'f', 'f', 'f', 'f', ':'];
    let s = p + d;
    assert(d.len() >= 7) by {
        lemma_decimal_digits(o[0] as nat);
        lemma_decimal_digits(o[1] as nat);
        lemma_decimal_digits(o[2] as nat);
        lemma_decimal_digits(o[3] as nat);
    }
    assert(s.subrange(7, s.len() as int) =~= d);
    assert(s[0] == ':' && s[1] == ':' && s[2] == 'f' && s[3] == 'f' && s[4] == 'f' && s[5] == 'f'
        && s[6] == ':');
    lemma_mapped_groups_at(s, o);
}

/// The text of an IPv4-mapped address reads back as the eight groups.
proof fn lemma_mapped_text_round_trip(g: Seq<int>)
    requires
        g.len() == 8,
        forall|j: int| 0 <= j < 8 ==> 0 <= #[trigger] g[j] < 65536,
        is_ipv4_mapped(g),
    ensures
        spec_parse_ipv6(spec_ipv6_text(g)) == Some(g),
{
    let o: Seq<u8> = seq![
        (g[6] / 256) as u8,
        (g[6] % 256) as u8,
        (g[7] / 256) as u8,
        (g[7] % 256) as u8,
    ];
    lemma_byte_split(g[6]);
    lemma_byte_split(g[7]);
    let s = seq![':', ':', 'f', 'f', 'f', 'f', ':'] + dotted_quad(o);
    assert(spec_ipv6_text(g) == s);
    lemma_mapped_groups(o);
    let tail = seq![0xffffint, g[6], g[7]];
    assert(read_groups(s, 2, 0, 7, seq![]) == (tail, s.len() as int, true));
    assert(sep_at(s, 0, ':') && sep_at(s, 1, ':'));
    assert(Seq::<int>::empty() + Seq::new(5, |i: int| 0int) + tail =~= g);
}

/// A character of canonical IPv6 text.
pub open spec fn ipv6_text_char(c: char) -> bool {
    c == ':' || c == '.' || hex_val(c) >= 0
}

proof fn lemma_dotted_quad_chars(o: Seq<u8>)
    requires
        o.len() == 4,
    ensures
        dotted_quad(o).len() > 0,
        forall|m: int| 0 <= m < dotted_quad(o).len() ==> ipv6_text_char(#[trigger] dotted_quad(o)[m]),
{
    let d0 = decimal(o[0] as nat);
    let d1 = decimal(o[1] as nat);
    let d2 = decimal(o[2] as nat);
    let d3 = decimal(o[3] as nat);
    lemma_decimal_digits(o[0] as nat);
    lemma_decimal_digits(o[1] as nat);
    lemma_decimal_digits(o[2] as nat);
    lemma_decimal_digits(o[3] as nat);
    let q = dotted_quad(o);
    assert forall|m: int| 0 <= m < q.len() implies ipv6_text_char(#[trigger] q[m]) by {
        let e0 = d0.len() as int;
        let e1 = e0 + 1 + d1.len();
        let e2 = e1 + 1 + d2.len();
        if m < e0 {
            assert(q[m] == d0[m]);
        } else if m == e0 || m == e1 || m == e2 {
        } else if m < e1 {
            assert(q[m] == d1[m - e0 - 1]);
        } else if m < e2 {
            assert(q[m] == d2[m - e1 - 1]);
        } else {
            assert(q[m] == d3[m - e2 - 1]);
        }
    }
}

proof fn lemma_mapped_text_shape(o: Seq<u8>)
    requires
        o.len() == 4,
    ensures
        ({
            let s = seq![':', ':', 'f', 'f', 'f', 'f', ':'] + dotted_quad(o);
            &&& spec_parse_ipv4(s) is None
            &&& forall|m: int| 0 <= m < s.len() ==> ipv6_text_char(#[trigger] s[m])
        }),
{
    let p: Seq<char> = seq![':', ':', 'f', 'f', 'f', 'f', ':'];
    let d = dotted_quad(o);
    let s = p + d;
    lemma_dotted_quad_chars(o);
    assert forall|m: int| 0 <= m < s.len() implies ipv6_text_char(#[trigger] s[m]) by {
        if m >= 7 {
            assert(s[m] == d[m - 7]);
        }
    }
    lemma_first_index_of(s, '.', 0);
    if let Some(k) = first_index_of(s, '.', 0) {
        assert(k >= 1);
        let f = split_at_char(s, '.');
        assert(f[0] == s.take(k));
        assert(f[0][0] == ':');
    } else {
        assert(split_at_char(s, '.') == seq![s]);
    }
}

proof fn lemma_hex_text_shape(s: Seq<char>)
    requires
        s.len() > 0,
        forall|m: int| 0 <= m < s.len() ==> #[trigger] s[m] == ':' || hex_val(s[m]) >= 0,
    ensures
        spec_parse_ipv4(s) is None,
        forall|m: int| 0 <= m < s.len() ==> ipv6_text_char(#[trigger] s[m]),
{
    assert forall|m: int| 0 <= m < s.len() implies s[m] != '.' by {
        assert(s[m] == ':' || hex_val(s[m]) >= 0);
    }
    crate::ip::lemma_split_no_sep(s, '.');
}

/// Canonical IPv6 text is never dotted-decimal IPv4 text, is not empty,
/// and is made of colons, dots and hex digits.
pub proof fn lemma_ipv6_text_shape(g: Seq<int>)
    requires
        g.len() == 8,
        forall|j: int| 0 <= j < 8 ==> 0 <= #[trigger] g[j] < 65536,
    ensures
        spec_parse_ipv4(spec_ipv6_text(g)) is None,
        spec_ipv6_text(g).len() > 0,
        forall|m: int|
            0 <= m < spec_ipv6_text(g).len() ==> ipv6_text_char(#[trigger] spec_ipv6_text(g)[m]),
{
    let s = spec_ipv6_text(g);
    if is_ipv4_mapped(g) {
        let o: Seq<u8> = seq![
            (g[6] / 256) as u8,
            (g[6] % 256) as u8,
            (g[7] / 256) as u8,
            (g[7] % 256) as u8,
        ];
        lemma_mapped_text_shape(o);
    } else {
        let len = longest_zero_run(g, 0);
        if len > 1 {
            lemma_longest_attained(g, 0);
            let k = choose|k: int| 0 <= k < g.len() && zero_run(g, k) == longest_zero_run(g, 0);
            lemma_run_start_zero_run(g, len, 0, k);
            let st = run_start(g, len, 0);
            lemma_compressed_text_round_trip(g, st, len);
            lemma_hex_text_shape(s);
        } else {
            lemma_plain_text_round_trip(g);
            lemma_hex_text_shape(s);
        }
    }
}

/// The canonical text of any IPv6 address reads back as that address.
pub proof fn lemma_ipv6_text_round_trip(g: Seq<int>)
    requires
        g.len() == 8,
        forall|j: int| 0 <= j < 8 ==> 0 <= #[trigger] g[j] < 65536,
    ensures
        spec_parse_ipv6(spec_ipv6_text(g)) == Some(g),
{
    if is_ipv4_mapped(g) {
        lemma_mapped_text_round_trip(g);
    } else {
        let len = longest_zero_run(g, 0);
        if len > 1 {
            lemma_longest_attained(g, 0);
            let k = choose|k: int| 0 <= k < g.len() && zero_run(g, k) == longest_zero_run(g, 0);
            lemma_run_start_zero_run(g, len, 0, k);
            let st = run_start(g, len, 0);
            lemma_compressed_text_round_trip(g, st, len);
        } else {
            lemma_plain_text_round_trip(g);
        }
    }
}

/// Parsed IPv6 text has eight groups of 16 bits.
pub proof fn lemma_parse_ipv6_bounds(s: Seq<char>)
    requires
        spec_parse_ipv6(s) is Some,
    ensures
        spec_parse_ipv6(s)->0.len() == 8,
        forall|j: int| 0 <= j < 8 ==> 0 <= #[trigger] spec_parse_ipv6(s)->0[j] < 65536,
{
    lemma_read_groups_bounds(s, 0, 0, 8, seq![]);
    let (head, hp, h4) = read_groups(s, 0, 0, 8, seq![]);
    if head.len() != 8 {
        lemma_read_groups_bounds(s, hp + 2, 0, 8 - (head.len() + 1), seq![]);
        let (tail, tp, t4) = read_groups(s, hp + 2, 0, 8 - (head.len() + 1), seq![]);
        let z = Seq::new((8 - head.len() - tail.len()) as nat, |i: int| 0int);
        let g = head + z + tail;
        assert(g == spec_parse_ipv6(s)->0);
        assert forall|j: int| 0 <= j < 8 implies 0 <= #[trigger] g[j] < 65536 by {
            if j < head.len() {
                assert(g[j] == head[j]);
            } else if j < head.len() + z.len() {
                assert(g[j] == z[j - head.len()]);
            } else {
                assert(g[j] == tail[j - head.len() - z.len()]);
            }
        }
    }
}

} // verus!
