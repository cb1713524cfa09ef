use vstd::prelude::*;

verus! {

/// Decimal digit character for `d < 10`.
pub open spec fn digit_char(d: nat) -> char {
    if d == 0 { '0' } else if d == 1 { '1' } else if d == 2 { '2' } else if d == 3 { '3' }
    else if d == 4 { '4' } else if d == 5 { '5' } else if d == 6 { '6' } else if d == 7 { '7' }
    else if d == 8 { '8' } else { '9' }
}

/// The decimal text of a natural number, most significant digit first.
pub open spec fn decimal(n: nat) -> Seq<char>
    decreases n,
{
    if n < 10 {
        seq![digit_char(n)]
    } else {
        decimal(n / 10).push(digit_char(n % 10))
    }
}

/// Decimal digit character of `d`.
pub fn digit_out(d: u32) -> (c: char)
    requires
        d < 10,
    ensures
        c == digit_char(d as nat),
{
    digit(d as u128)
}

fn digit(d: u128) -> (c: char)
    requires
        d < 10,
    ensures
        c == digit_char(d as nat),
{
    if d == 0 { '0' } else if d == 1 { '1' } else if d == 2 { '2' } else if d == 3 { '3' }
    else if d == 4 { '4' } else if d == 5 { '5' } else if d == 6 { '6' } else if d == 7 { '7' }
    else if d == 8 { '8' } else { '9' }
}

/// Appends the decimal text of `n` to `out`.
pub fn push_decimal(out: &mut Vec<char>, n: u128)
    ensures
        final(out)@ == old(out)@ + decimal(n as nat),
    decreases n,
{
    if n >= 10 {
        push_decimal(out, n / 10);
    }
    out.push(digit(n % 10));
    assert(final(out)@ =~= old(out)@ + decimal(n as nat));
}


/// The characters of `s`, in order.
pub fn chars_of(s: &str) -> (v: Vec<char>)
    ensures
        v@ == s@,
{
    let mut v: Vec<char> = Vec::new();
    for c in it: s.chars()
        invariant
            v@ == it.seq().take(it.index() as int),
    {
        v.push(c);
    }
    assert(v@ =~= s@);
    v
}


/// Unicode `White_Space` code points (the property that `char::is_whitespace`
/// and `str::trim` test).
pub open spec fn is_space(c: char) -> bool {
    let u = c as u32;
    (0x9 <= u && u <= 0xD) || u == 0x20 || u == 0x85 || u == 0xA0 || u == 0x1680
        || (0x2000 <= u && u <= 0x200A) || u == 0x2028 || u == 0x2029 || u == 0x202F
        || u == 0x205F || u == 0x3000
}

/// Whether `c` is Unicode whitespace.
pub fn space_char(c: char) -> (b: bool)
    ensures
        b == is_space(c),
{
    let u = c as u32;
    (0x9 <= u && u <= 0xD) || u == 0x20 || u == 0x85 || u == 0xA0 || u == 0x1680
        || (0x2000 <= u && u <= 0x200A) || u == 0x2028 || u == 0x2029 || u == 0x202F
        || u == 0x205F || u == 0x3000
}

/// `String::push`. Trusted: the string gains `c` at its end and is
/// otherwise unchanged.
#[verifier::external_body]
fn push_char(s: &mut String, c: char)
    ensures
        final(s)@ == old(s)@.push(c),
{
    s.push(c);
}

/// The text of an optional string.
pub open spec fn opt_text(o: Option<String>) -> Option<Seq<char>> {
    match o {
        Some(s) => Some(s@),
        None => None,
    }
}

/// A `String` holding exactly the characters of `v`.
pub fn string_of(v: &Vec<char>) -> (s: String)
    ensures
        s@ == v@,
{
    let mut s = String::new();
    for i in 0..v.len()
        invariant
            s@ == v@.take(i as int),
    {
        push_char(&mut s, v[i]);
        assert(s@ =~= v@.take(i + 1));
    }
    assert(v@.take(v.len() as int) =~= v@);
    s
}


/// A class of characters that the trimming helpers strip.
#[derive(Clone, Copy, PartialEq, Eq, Debug)]
pub enum CharClass {
    /// Unicode whitespace.
    Space,
    /// Double quote, single quote and backtick.
    Quote,
}

pub open spec fn in_class(k: CharClass, c: char) -> bool {
    match k {
        CharClass::Space => is_space(c),
        CharClass::Quote => c == '"' || c == '\'' || c == '`',
    }
}

fn class_char(k: CharClass, c: char) -> (b: bool)
    ensures
        b == in_class(k, c),
{
    match k {
        CharClass::Space => space_char(c),
        CharClass::Quote => c == '"' || c == '\'' || c == '`',
    }
}

/// First index at or after `i` whose character is not in class `k`
/// (or `s.len()`).
pub open spec fn skip_class(s: Seq<char>, i: int, k: CharClass) -> int
    decreases s.len() - i,
{
    if 0 <= i < s.len() && in_class(k, s[i]) {
        skip_class(s, i + 1, k)
    } else {
        i
    }
}

/// Smallest `j' <= j`, not below `lo`, such that `s[j'..j]` is all in class `k`.
pub open spec fn back_class(s: Seq<char>, j: int, lo: int, k: CharClass) -> int
    decreases j - lo,
{
    if lo < j && j <= s.len() && in_class(k, s[j - 1]) {
        back_class(s, j - 1, lo, k)
    } else {
        j
    }
}

/// `s` without its leading and trailing characters of class `k`.
pub open spec fn trim_class(s: Seq<char>, k: CharClass) -> Seq<char> {
    let a = skip_class(s, 0, k);
    s.subrange(a, back_class(s, s.len() as int, a, k))
}

/// `s` without leading and trailing whitespace, as `str::trim` gives it.
pub open spec fn trim(s: Seq<char>) -> Seq<char> {
    trim_class(s, CharClass::Space)
}

pub proof fn lemma_skip_class_bounds(s: Seq<char>, i: int, k: CharClass)
    requires
        0 <= i <= s.len(),
    ensures
        i <= skip_class(s, i, k) <= s.len(),
        forall|m: int| i <= m < skip_class(s, i, k) ==> in_class(k, #[trigger] s[m]),
        skip_class(s, i, k) < s.len() ==> !in_class(k, s[skip_class(s, i, k)]),
    decreases s.len() - i,
{
    if i < s.len() && in_class(k, s[i]) {
        lemma_skip_class_bounds(s, i + 1, k);
    }
}

pub proof fn lemma_back_class_bounds(s: Seq<char>, j: int, lo: int, k: CharClass)
    requires
        0 <= lo <= j <= s.len(),
    ensures
        lo <= back_class(s, j, lo, k) <= j,
        forall|m: int| back_class(s, j, lo, k) <= m < j ==> in_class(k, #[trigger] s[m]),
        back_class(s, j, lo, k) > lo ==> !in_class(k, s[back_class(s, j, lo, k) - 1]),
    decreases j - lo,
{
    if lo < j && in_class(k, s[j - 1]) {
        lemma_back_class_bounds(s, j - 1, lo, k);
    }
}

/// Index of the first character at or after `i` that is not in class `k`.
pub fn skip_class_from(v: &Vec<char>, i: usize, k: CharClass) -> (r: usize)
    requires
        i <= v.len(),
    ensures
        r as int == skip_class(v@, i as int, k),
{
    let mut j = i;
    while j < v.len() && class_char(k, v[j])
        invariant
            i <= j <= v.len(),
            skip_class(v@, i as int, k) == skip_class(v@, j as int, k),
        decreases v.len() - j,
    {
        j = j + 1;
    }
    j
}

fn back_class_from(v: &Vec<char>, j: usize, lo: usize, k: CharClass) -> (r: usize)
    requires
        lo <= j <= v.len(),
    ensures
        r as int == back_class(v@, j as int, lo as int, k),
{
    let mut e = j;
    while e > lo && class_char(k, v[e - 1])
        invariant
            lo <= e <= j <= v.len(),
            back_class(v@, j as int, lo as int, k) == back_class(v@, e as int, lo as int, k),
        decreases e,
    {
        e = e - 1;
    }
    e
}

/// The characters `v[a..b]`.
pub fn slice_chars(v: &Vec<char>, a: usize, b: usize) -> (r: Vec<char>)
    requires
        a <= b <= v.len(),
    ensures
        r@ == v@.subrange(a as int, b as int),
{
    let mut r: Vec<char> = Vec::new();
    let mut i = a;
    while i < b
        invariant
            a <= i <= b <= v.len(),
            r@ == v@.subrange(a as int, i as int),
        decreases b - i,
    {
        r.push(v[i]);
        i = i + 1;
        assert(r@ =~= v@.subrange(a as int, i as int));
    }
    r
}

/// `v` without its leading and trailing characters of class `k`.
pub fn trim_chars(v: &Vec<char>, k: CharClass) -> (r: Vec<char>)
    ensures
        r@ == trim_class(v@, k),
{
    let a = skip_class_from(v, 0, k);
    proof {
        lemma_skip_class_bounds(v@, 0, k);
    }
    let b = back_class_from(v, v.len(), a, k);
    proof {
        lemma_back_class_bounds(v@, v@.len() as int, a as int, k);
    }
    slice_chars(v, a, b)
}

/// `s` without leading and trailing whitespace.
pub fn trim_str(s: &str) -> (r: String)
    ensures
        r@ == trim(s@),
{
    let v = chars_of(s);
    let t = trim_chars(&v, CharClass::Space);
    string_of(&t)
}

/// `pat` occurs in `s` starting at index `i`.
pub open spec fn occurs_at(s: Seq<char>, i: int, pat: Seq<char>) -> bool {
    0 <= i && i + pat.len() <= s.len() && s.subrange(i, i + pat.len()) == pat
}

/// Index of the first occurrence of `pat` in `s` at or after `i`.
pub open spec fn find_from(s: Seq<char>, pat: Seq<char>, i: int) -> Option<int>
    decreases s.len() + 1 - i,
{
    if i < 0 || i + pat.len() > s.len() {
        None
    } else if occurs_at(s, i, pat) {
        Some(i)
    } else {
        find_from(s, pat, i + 1)
    }
}

/// Whether `pat` occurs in `v` at index `i`.
pub fn chars_at(v: &Vec<char>, i: usize, pat: &Vec<char>) -> (b: bool)
    ensures
        b == occurs_at(v@, i as int, pat@),
{
    if i > v.len() || pat.len() > v.len() - i {
        return false;
    }
    let mut j: usize = 0;
    while j < pat.len()
        invariant
            i + pat.len() <= v.len(),
            j <= pat.len(),
            forall|m: int| 0 <= m < j ==> v@[i + m] == pat@[m],
        decreases pat.len() - j,
    {
        if v[i + j] != pat[j] {
            assert(v@.subrange(i as int, i + pat.len())[j as int] != pat@[j as int]);
            return false;
        }
        j = j + 1;
    }
    assert(v@.subrange(i as int, i + pat.len()) =~= pat@);
    true
}

pub proof fn lemma_find_from_some(s: Seq<char>, pat: Seq<char>, i: int)
    requires
        find_from(s, pat, i) is Some,
    ensures
        occurs_at(s, find_from(s, pat, i)->0, pat),
        i <= find_from(s, pat, i)->0,
    decreases s.len() + 1 - i,
{
    if i < 0 || i + pat.len() > s.len() {
    } else if occurs_at(s, i, pat) {
    } else {
        lemma_find_from_some(s, pat, i + 1);
    }
}

/// Index of the first occurrence of `pat` in `v` at or after `start`.
pub fn find_chars_from(v: &Vec<char>, pat: &Vec<char>, start: usize) -> (r: Option<usize>)
    ensures
        match r {
            Some(k) => find_from(v@, pat@, start as int) == Some(k as int),
            None => find_from(v@, pat@, start as int) is None,
        },
{
    if start > v.len() || pat.len() > v.len() - start {
        return None;
    }
    let last = v.len() - pat.len();
    let mut i: usize = start;
    loop
        invariant
            start <= i <= last,
            last + pat.len() == v.len(),
            find_from(v@, pat@, start as int) == find_from(v@, pat@, i as int),
        decreases last - i,
    {
        if chars_at(v, i, pat) {
            return Some(i);
        }
        if i == last {
            assert(find_from(v@, pat@, i + 1) is None);
            return None;
        }
        i = i + 1;
    }
}

/// Index of the first occurrence of `pat` in `v`.
pub fn find_chars(v: &Vec<char>, pat: &Vec<char>) -> (r: Option<usize>)
    ensures
        match r {
            Some(k) => find_from(v@, pat@, 0) == Some(k as int),
            None => find_from(v@, pat@, 0) is None,
        },
{
    find_chars_from(v, pat, 0)
}

/// Text that starts and ends with a decimal digit is its own trim.
pub proof fn lemma_trim_keeps(s: Seq<char>)
    requires
        s.len() > 0,
        !is_space(s[0]),
        !is_space(s[s.len() - 1]),
    ensures
        trim(s) == s,
{
    assert(skip_class(s, 0, CharClass::Space) == 0);
    assert(back_class(s, s.len() as int, 0, CharClass::Space) == s.len());
    assert(s.subrange(0, s.len() as int) =~= s);
}

/// The decimal text of `n`.
pub fn decimal_string(n: u128) -> (s: String)
    ensures
        s@ == decimal(n as nat),
{
    let mut v: Vec<char> = Vec::new();
    push_decimal(&mut v, n);
    assert(v@ =~= decimal(n as nat));
    string_of(&v)
}

/// `s` starts with `pre`.
pub open spec fn has_prefix(s: Seq<char>, pre: Seq<char>) -> bool {
    occurs_at(s, 0, pre)
}

/// If `s` starts with `pre`, the rest of `s` after it.
pub fn strip_prefix_str(s: &str, pre: &str) -> (r: Option<String>)
    ensures
        match r {
            Some(rest) => has_prefix(s@, pre@) && rest@ == s@.skip(pre@.len() as int),
            None => !has_prefix(s@, pre@),
        },
{
    let v = chars_of(s);
    let p = chars_of(pre);
    if chars_at(&v, 0, &p) {
        let rest = slice_chars(&v, p.len(), v.len());
        assert(rest@ =~= s@.skip(pre@.len() as int));
        Some(string_of(&rest))
    } else {
        None
    }
}

/// Whether `a` and `b` hold the same text.
pub fn same_text(a: &str, b: &str) -> (r: bool)
    ensures
        r == (a@ == b@),
{
    let x = chars_of(a);
    let y = chars_of(b);
    if x.len() != y.len() {
        return false;
    }
    let r = chars_at(&x, 0, &y);
    proof {
        if r {
            assert(x@.subrange(0, y@.len() as int) =~= x@);
        } else if x@ == y@ {
            assert(x@.subrange(0, y@.len() as int) =~= x@);
        }
    }
    r
}


/// Index of the first `c` in `s` at or after `i`.
pub open spec fn first_index_of(s: Seq<char>, c: char, i: int) -> Option<int>
    decreases s.len() - i,
{
    if i < 0 || i >= s.len() {
        None
    } else if s[i] == c {
        Some(i)
    } else {
        first_index_of(s, c, i + 1)
    }
}

pub proof fn lemma_first_index_of(s: Seq<char>, c: char, i: int)
    requires
        0 <= i,
    ensures
        first_index_of(s, c, i) matches Some(k) ==> i <= k < s.len() && s[k] == c && forall|m: int|
            i <= m < k ==> s[m] != c,
        first_index_of(s, c, i) is None ==> forall|m: int| i <= m < s.len() ==> s[m] != c,
    decreases s.len() - i,
{
    if i < s.len() && s[i] != c {
        lemma_first_index_of(s, c, i + 1);
    }
}

/// `s` cut at every `c`: the pieces between separators, in order.
pub open spec fn split_at_char(s: Seq<char>, c: char) -> Seq<Seq<char>>
    decreases s.len(),
{
    match first_index_of(s, c, 0) {
        Some(k) => {
            proof {
                lemma_first_index_of(s, c, 0);
            }
            seq![s.take(k)] + split_at_char(s.skip(k + 1), c)
        },
        None => seq![s],
    }
}

/// `split_at_char` always gives at least one piece.
pub proof fn lemma_split_at_char_nonempty(s: Seq<char>, c: char)
    ensures
        split_at_char(s, c).len() >= 1,
    decreases s.len(),
{
    lemma_first_index_of(s, c, 0);
    if let Some(k) = first_index_of(s, c, 0) {
        lemma_split_at_char_nonempty(s.skip(k + 1), c);
    }
}

/// Index of the first `c` in `v` at or after `i`.
pub fn index_of_char(v: &Vec<char>, c: char, i: usize) -> (r: Option<usize>)
    ensures
        match r {
            Some(k) => first_index_of(v@, c, i as int) == Some(k as int),
            None => first_index_of(v@, c, i as int) is None,
        },
{
    let mut j = i;
    while j < v.len()
        invariant
            i <= j,
            first_index_of(v@, c, i as int) == first_index_of(v@, c, j as int),
        decreases v.len() - j,
    {
        if v[j] == c {
            return Some(j);
        }
        j = j + 1;
    }
    None
}

pub open spec fn pieces_view(p: Seq<Vec<char>>) -> Seq<Seq<char>> {
    p.map_values(|x: Vec<char>| x@)
}

/// `v` cut at every `c`.
pub fn split_chars(v: &Vec<char>, c: char) -> (r: Vec<Vec<char>>)
    ensures
        pieces_view(r@) == split_at_char(v@, c),
{
    let mut pieces: Vec<Vec<char>> = Vec::new();
    let mut rest = slice_chars(v, 0, v.len());
    assert(rest@ =~= v@);
    loop
        invariant
            split_at_char(v@, c) == pieces_view(pieces@) + split_at_char(rest@, c),
        decreases rest@.len(),
    {
        match index_of_char(&rest, c, 0) {
            Some(k) => {
                proof {
                    lemma_first_index_of(rest@, c, 0);
                }
                let head = slice_chars(&rest, 0, k);
                let tail = slice_chars(&rest, k + 1, rest.len());
                assert(head@ =~= rest@.take(k as int));
                assert(tail@ =~= rest@.skip(k + 1));
                let ghost old_pieces = pieces@;
                pieces.push(head);
                assert(pieces_view(pieces@) =~= pieces_view(old_pieces) + seq![head@]);
                rest = tail;
            },
            None => {
                let ghost old_pieces = pieces@;
                let ghost last = rest@;
                assert(split_at_char(last, c) == seq![last]);
                pieces.push(rest);
                assert(pieces_view(pieces@) =~= pieces_view(old_pieces) + split_at_char(last, c));
                return pieces;
            },
        }
    }
}

} // verus!
