//! IP address text: the dotted-decimal IPv4 form and its canonical display.
use vstd::prelude::*;

use crate::text::{
    chars_of, decimal, digit_char, first_index_of, lemma_first_index_of, pieces_view,
    split_at_char, split_chars,
};

verus! {

pub open spec fn is_digit(c: char) -> bool {
    '0' <= c && c <= '9'
}

pub open spec fn digit_val(c: char) -> int {
    (c as u32) - ('0' as u32)
}

/// The value of a run of decimal digits.
pub open spec fn digits_value(s: Seq<char>) -> int
    decreases s.len(),
{
    if s.len() == 0 {
        0
    } else {
        digits_value(s.drop_last()) * 10 + digit_val(s.last())
    }
}

/// An IPv4 octet as written in dotted-decimal: one to three digits, no
/// leading zero, at most 255.
pub open spec fn is_octet_text(s: Seq<char>) -> bool {
    &&& 1 <= s.len() <= 3
    &&& forall|i: int| 0 <= i < s.len() ==> is_digit(#[trigger] s[i])
    &&& !(s.len() > 1 && s[0] == '0')
    &&& digits_value(s) <= 255
}

/// The four octets that dotted-decimal `s` denotes, if it is one.
pub open spec fn spec_parse_ipv4(s: Seq<char>) -> Option<Seq<u8>> {
    let f = split_at_char(s, '.');
    if f.len() == 4 && is_octet_text(f[0]) && is_octet_text(f[1]) && is_octet_text(f[2])
        && is_octet_text(f[3]) {
        Some(
            seq![
                digits_value(f[0]) as u8,
                digits_value(f[1]) as u8,
                digits_value(f[2]) as u8,
                digits_value(f[3]) as u8,
            ],
        )
    } else {
        None
    }
}

/// Dotted-decimal text of four octets.
pub open spec fn dotted_quad(o: Seq<u8>) -> Seq<char> {
    decimal(o[0] as nat) + seq!['.'] + decimal(o[1] as nat) + seq!['.'] + decimal(o[2] as nat)
        + seq!['.'] + decimal(o[3] as nat)
}

fn parse_octet(v: &Vec<char>) -> (r: Option<u8>)
    ensures
        match r {
            Some(b) => is_octet_text(v@) && b == digits_value(v@),
            None => !is_octet_text(v@),
        },
{
    if v.len() == 0 || v.len() > 3 {
        return None;
    }
    if v.len() > 1 && v[0] == '0' {
        return None;
    }
    let mut val: u32 = 0;
    let mut i: usize = 0;
    while i < v.len()
        invariant
            1 <= v.len() <= 3,
            i <= v.len(),
            val == digits_value(v@.take(i as int)),
            i == 0 ==> val == 0,
            i == 1 ==> val < 10,
            i == 2 ==> val < 100,
            i == 3 ==> val < 1000,
            forall|j: int| 0 <= j < i ==> is_digit(#[trigger] v@[j]),
        decreases v.len() - i,
    {
        let c = v[i];
        if !('0' <= c && c <= '9') {
            return None;
        }
        assert(v@.take(i + 1).drop_last() =~= v@.take(i as int));
        val = val * 10 + ((c as u32) - ('0' as u32));
        i = i + 1;
    }
    assert(v@.take(v.len() as int) =~= v@);
    if val > 255 {
        return None;
    }
    Some(val as u8)
}

/// Parses dotted-decimal IPv4 text into its four octets.
pub fn parse_ipv4(text: &Vec<char>) -> (r: Option<Vec<u8>>)
    ensures
        match r {
            Some(o) => spec_parse_ipv4(text@) == Some(o@),
            None => spec_parse_ipv4(text@) is None,
        },
{
    let fields = split_chars(text, '.');
    assert(pieces_view(fields@).len() == fields@.len());
    if fields.len() != 4 {
        return None;
    }
    assert(pieces_view(fields@)[0] == fields@[0]@);
    assert(pieces_view(fields@)[1] == fields@[1]@);
    assert(pieces_view(fields@)[2] == fields@[2]@);
    assert(pieces_view(fields@)[3] == fields@[3]@);
    let a = match parse_octet(&fields[0]) {
        Some(b) => b,
        None => return None,
    };
    let b = match parse_octet(&fields[1]) {
        Some(b) => b,
        None => return None,
    };
    let c = match parse_octet(&fields[2]) {
        Some(b) => b,
        None => return None,
    };
    let d = match parse_octet(&fields[3]) {
        Some(b) => b,
        None => return None,
    };
    let o = vec![a, b, c, d];
    assert(o@ =~= spec_parse_ipv4(text@)->0);
    Some(o)
}

pub(crate) proof fn lemma_digit_char(d: nat)
    requires
        d < 10,
    ensures
        is_digit(digit_char(d)),
        digit_val(digit_char(d)) == d,
        digit_char(d) == '0' <==> d == 0,
{
    assert(('0' as u32) == 48);
    assert(('1' as u32) == 49);
    assert(('2' as u32) == 50);
    assert(('3' as u32) == 51);
    assert(('4' as u32) == 52);
    assert(('5' as u32) == 53);
    assert(('6' as u32) == 54);
    assert(('7' as u32) == 55);
    assert(('8' as u32) == 56);
    assert(('9' as u32) == 57);
}

proof fn lemma_decimal_octet(n: nat)
    requires
        n <= 255,
    ensures
        is_octet_text(decimal(n)),
        digits_value(decimal(n)) == n,
        forall|i: int| 0 <= i < decimal(n).len() ==> decimal(n)[i] != '.',
{
    lemma_decimal_digits(n);
    if n >= 10 {
        lemma_decimal_digits(n / 10);
        if n / 10 >= 10 {
            lemma_decimal_digits(n / 100);
            assert(decimal(n / 10) == decimal(n / 100).push(digit_char(n / 10 % 10)));
            assert(n / 100 < 10);
        }
    }
}

/// `decimal(n)` is made of digits, reads back as `n`, and starts with `0`
/// only for `n == 0`.
pub proof fn lemma_decimal_digits(n: nat)
    ensures
        digits_value(decimal(n)) == n,
        forall|i: int| 0 <= i < decimal(n).len() ==> is_digit(#[trigger] decimal(n)[i]),
        decimal(n).len() >= 1,
        decimal(n)[0] == '0' ==> n == 0,
        n < 10 ==> decimal(n).len() == 1,
        10 <= n < 100 ==> decimal(n).len() == 2,
        100 <= n < 1000 ==> decimal(n).len() == 3,
    decreases n,
{
    if n < 10 {
        lemma_digit_char(n);
        assert(decimal(n) =~= seq![digit_char(n)]);
        assert(decimal(n).drop_last() =~= Seq::<char>::empty());
        assert(decimal(n).last() == digit_char(n));
        assert(digits_value(decimal(n)) == digits_value(Seq::<char>::empty()) * 10 + digit_val(digit_char(n)));
    } else {
        lemma_decimal_digits(n / 10);
        lemma_digit_char(n % 10);
        let d = decimal(n / 10);
        assert(decimal(n).drop_last() =~= d);
        assert(decimal(n).last() == digit_char(n % 10));
        assert(digits_value(decimal(n)) == digits_value(d) * 10 + digit_val(digit_char(n % 10)));
        assert((n / 10) * 10 + n % 10 == n);
        assert(decimal(n)[0] == d[0]);
        assert forall|i: int| 0 <= i < decimal(n).len() implies is_digit(#[trigger] decimal(n)[i]) by {
            if i < d.len() {
                assert(decimal(n)[i] == d[i]);
            }
        }
    }
}

pub(crate) proof fn lemma_split_no_sep(a: Seq<char>, c: char)
    requires
        forall|i: int| 0 <= i < a.len() ==> a[i] != c,
    ensures
        split_at_char(a, c) == seq![a],
{
    lemma_first_index_of(a, c, 0);
}

proof fn lemma_split_join(a: Seq<char>, c: char, rest: Seq<char>)
    requires
        forall|i: int| 0 <= i < a.len() ==> a[i] != c,
    ensures
        split_at_char(a + seq![c] + rest, c) == seq![a] + split_at_char(rest, c),
{
    let s = a + seq![c] + rest;
    lemma_first_index_of(s, c, 0);
    assert(s[a.len() as int] == c);
    let k = first_index_of(s, c, 0)->0;
    if k < a.len() {
        assert(s[k] == a[k]);
    }
    assert(k == a.len());
    assert(s.take(k) =~= a);
    assert(s.skip(k + 1) =~= rest);
}

proof fn lemma_split_four(d0: Seq<char>, d1: Seq<char>, d2: Seq<char>, d3: Seq<char>)
    requires
        forall|i: int| 0 <= i < d0.len() ==> d0[i] != '.',
        forall|i: int| 0 <= i < d1.len() ==> d1[i] != '.',
        forall|i: int| 0 <= i < d2.len() ==> d2[i] != '.',
        forall|i: int| 0 <= i < d3.len() ==> d3[i] != '.',
    ensures
        split_at_char(d0 + seq!['.'] + d1 + seq!['.'] + d2 + seq!['.'] + d3, '.') == seq![
            d0,
            d1,
            d2,
            d3,
        ],
{
    let x2 = d2 + seq!['.'] + d3;
    let x1 = d1 + seq!['.'] + x2;
    let x0 = d0 + seq!['.'] + x1;
    lemma_split_no_sep(d3, '.');
    lemma_split_join(d2, '.', d3);
    lemma_split_join(d1, '.', x2);
    lemma_split_join(d0, '.', x1);
    assert(d0 + seq!['.'] + d1 + seq!['.'] + d2 + seq!['.'] + d3 =~= x0);
    assert(split_at_char(x2, '.') =~= seq![d2, d3]);
    assert(split_at_char(x1, '.') =~= seq![d1, d2, d3]);
    assert(split_at_char(x0, '.') =~= seq![d0, d1, d2, d3]);
}

/// Dotted-decimal text of any four octets reads back as those octets: the
/// canonical IPv4 text parses to the address it was made from.
pub proof fn lemma_ipv4_text_round_trip(o: Seq<u8>)
    requires
        o.len() == 4,
    ensures
        spec_parse_ipv4(dotted_quad(o)) == Some(o),
{
    let d0 = decimal(o[0] as nat);
    let d1 = decimal(o[1] as nat);
    let d2 = decimal(o[2] as nat);
    let d3 = decimal(o[3] as nat);
    lemma_decimal_octet(o[0] as nat);
    lemma_decimal_octet(o[1] as nat);
    lemma_decimal_octet(o[2] as nat);
    lemma_decimal_octet(o[3] as nat);
    lemma_split_four(d0, d1, d2, d3);
    let f = split_at_char(dotted_quad(o), '.');
    assert(f == seq![d0, d1, d2, d3]);
    assert(f[0] == d0 && f[1] == d1 && f[2] == d2 && f[3] == d3);
    assert(spec_parse_ipv4(dotted_quad(o))->0 =~= o);
}

/// An IP address: four octets or eight 16-bit groups.
#[derive(Debug)]
pub enum IpAddress {
    V4(Vec<u8>),
    V6(Vec<u16>),
}

/// The address as a family flag (`true` for IPv4) and its parts.
pub open spec fn ip_view(a: IpAddress) -> (bool, Seq<int>) {
    match a {
        IpAddress::V4(o) => (true, o@.map_values(|x: u8| x as int)),
        IpAddress::V6(g) => (false, crate::ipv6::u16s(g@)),
    }
}

pub open spec fn well_formed_ip(a: IpAddress) -> bool {
    match a {
        IpAddress::V4(o) => o@.len() == 4,
        IpAddress::V6(g) => g@.len() == 8,
    }
}

/// The address that `s` denotes: dotted-decimal IPv4 text, or else IPv6
/// text.
pub open spec fn spec_parse_ip(s: Seq<char>) -> Option<(bool, Seq<int>)> {
    match spec_parse_ipv4(s) {
        Some(o) => Some((true, o.map_values(|x: u8| x as int))),
        None => match crate::ipv6::spec_parse_ipv6(s) {
            Some(g) => Some((false, g)),
            None => None,
        },
    }
}

/// The canonical text of an address.
pub open spec fn spec_ip_text(a: (bool, Seq<int>)) -> Seq<char> {
    if a.0 {
        dotted_quad(Seq::new(4, |i: int| a.1[i] as u8))
    } else {
        crate::ipv6::spec_ipv6_text(a.1)
    }
}

/// Parses IPv4 or IPv6 text.
pub fn parse_ip(text: &Vec<char>) -> (r: Option<IpAddress>)
    ensures
        match r {
            Some(a) => spec_parse_ip(text@) == Some(ip_view(a)) && well_formed_ip(a),
            None => spec_parse_ip(text@) is None,
        },
{
    match parse_ipv4(text) {
        Some(o) => {
            assert(spec_parse_ipv4(text@)->0.len() == 4);
            Some(IpAddress::V4(o))
        },
        None => match crate::ipv6::parse_ipv6(text) {
            Some(g) => Some(IpAddress::V6(g)),
            None => None,
        },
    }
}

/// The canonical text of an address.
pub fn ip_text(a: &IpAddress) -> (s: Vec<char>)
    requires
        well_formed_ip(*a),
    ensures
        s@ == spec_ip_text(ip_view(*a)),
{
    match a {
        IpAddress::V4(o) => {
            let mut out: Vec<char> = Vec::new();
            crate::text::push_decimal(&mut out, o[0] as u128);
            out.push('.');
            crate::text::push_decimal(&mut out, o[1] as u128);
            out.push('.');
            crate::text::push_decimal(&mut out, o[2] as u128);
            out.push('.');
            crate::text::push_decimal(&mut out, o[3] as u128);
            let ghost v = ip_view(*a).1;
            assert(Seq::new(4, |i: int| v[i] as u8) =~= o@);
            assert(out@ =~= dotted_quad(o@));
            out
        },
        IpAddress::V6(g) => crate::ipv6::ipv6_text(g),
    }
}

/// An address view that names a real address: four octets, or eight
/// 16-bit groups.
pub open spec fn valid_ip_view(a: (bool, Seq<int>)) -> bool {
    if a.0 {
        a.1.len() == 4 && forall|j: int| 0 <= j < 4 ==> 0 <= #[trigger] a.1[j] < 256
    } else {
        a.1.len() == 8 && forall|j: int| 0 <= j < 8 ==> 0 <= #[trigger] a.1[j] < 65536
    }
}

/// Whatever text parses, it parses to a real address.
pub proof fn lemma_parse_ip_valid(s: Seq<char>)
    requires
        spec_parse_ip(s) is Some,
    ensures
        valid_ip_view(spec_parse_ip(s)->0),
{
    if spec_parse_ipv4(s) is None {
        crate::ipv6::lemma_parse_ipv6_bounds(s);
    }
}

/// The canonical text of any address reads back as that address.
pub proof fn lemma_ip_text_round_trip(a: (bool, Seq<int>))
    requires
        valid_ip_view(a),
    ensures
        spec_parse_ip(spec_ip_text(a)) == Some(a),
{
    if a.0 {
        let o = Seq::new(4, |i: int| a.1[i] as u8);
        lemma_ipv4_text_round_trip(o);
        assert(o.map_values(|x: u8| x as int) =~= a.1);
    } else {
        crate::ipv6::lemma_ipv6_text_shape(a.1);
        crate::ipv6::lemma_ipv6_text_round_trip(a.1);
    }
}

} // verus!
