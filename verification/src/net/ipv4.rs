//! The dotted quad: the text form of an IPv4 address.

use vstd::prelude::*;
use vstd::slice::slice_subrange;
use crate::digits::{
    decimal_of, decimal_text, is_digit, lemma_decimal_text, parse_decimal, push_decimal,
};
use crate::search::{has_char, lemma_split_add, lemma_split_plain, split, split_ranges};

verus! {

/// The octet that `s` stands for, where `s` is a decimal numeral of at most
/// three digits that has no leading zero and stands for at most 255.
pub open spec fn octet_of(s: Seq<char>) -> Option<u8> {
    match decimal_of(s) {
        Some(n) => if s.len() <= 3 && (s.len() == 1 || s[0] != '0') && n <= 255 {
            Some(n as u8)
        } else {
            None
        },
        None => None,
    }
}

/// The four octets that `s` stands for, where `s` is a dotted quad.
pub open spec fn ipv4_of(s: Seq<char>) -> Option<Seq<u8>> {
    let parts = split(s, '.');
    if parts.len() == 4 && octet_of(parts[0]) is Some && octet_of(parts[1]) is Some && octet_of(
        parts[2],
    ) is Some && octet_of(parts[3]) is Some {
        Some(
            seq![
                octet_of(parts[0]).unwrap(),
                octet_of(parts[1]).unwrap(),
                octet_of(parts[2]).unwrap(),
                octet_of(parts[3]).unwrap(),
            ],
        )
    } else {
        None
    }
}

/// The dotted quad of four octets.
pub open spec fn ipv4_text(ip: Seq<u8>) -> Seq<char> {
    decimal_text(ip[0] as nat) + seq!['.'] + decimal_text(ip[1] as nat) + seq!['.'] + decimal_text(
        ip[2] as nat,
    ) + seq!['.'] + decimal_text(ip[3] as nat)
}

/// Reads one octet of a dotted quad.
fn parse_octet(s: &[char]) -> (r: Option<u8>)
    ensures
        r == octet_of(s@),
{
    if s.len() == 0 || s.len() > 3 {
        return None;
    }
    if s.len() > 1 && s[0] == '0' {
        return None;
    }
    match parse_decimal(s, 255) {
        Some(n) => Some(n as u8),
        None => None,
    }
}

/// Reads a dotted quad.
pub fn parse_ipv4(s: &[char]) -> (r: Option<[u8; 4]>)
    ensures
        match r {
            Some(ip) => ipv4_of(s@) == Some(ip@),
            None => ipv4_of(s@) is None,
        },
{
    let ranges = split_ranges(s, '.');
    if ranges.len() != 4 {
        return None;
    }
    let a = parse_octet(slice_subrange(s, ranges[0].0, ranges[0].1));
    let b = parse_octet(slice_subrange(s, ranges[1].0, ranges[1].1));
    let c = parse_octet(slice_subrange(s, ranges[2].0, ranges[2].1));
    let d = parse_octet(slice_subrange(s, ranges[3].0, ranges[3].1));
    match (a, b, c, d) {
        (Some(a), Some(b), Some(c), Some(d)) => {
            let ip: [u8; 4] = [a, b, c, d];
            assert(ip@ =~= ipv4_of(s@).unwrap());
            Some(ip)
        },
        _ => None,
    }
}

/// Appends the dotted quad of `ip` to `out`.
pub fn push_ipv4(out: &mut Vec<char>, ip: &[u8; 4])
    ensures
        final(out)@ == old(out)@ + ipv4_text(ip@),
{
    push_decimal(out, ip[0] as u32);
    out.push('.');
    push_decimal(out, ip[1] as u32);
    out.push('.');
    push_decimal(out, ip[2] as u32);
    out.push('.');
    push_decimal(out, ip[3] as u32);
    assert(out@ =~= old(out)@ + ipv4_text(ip@));
}

/// A decimal numeral holds no character but digits.
pub proof fn lemma_decimal_text_plain(n: nat, c: char)
    requires
        !('0' <= c && c <= '9'),
    ensures
        !has_char(decimal_text(n), c),
{
    lemma_decimal_text(n);
}

/// The numeral of an octet stands for that octet.
pub proof fn lemma_octet_text(n: u8)
    ensures
        octet_of(decimal_text(n as nat)) == Some(n),
{
    lemma_decimal_text(n as nat);
}

/// A dotted quad stands for the octets it was written from.
pub proof fn lemma_ipv4_text(ip: Seq<u8>)
    requires
        ip.len() == 4,
    ensures
        ipv4_of(ipv4_text(ip)) == Some(ip),
        !has_char(ipv4_text(ip), ':'),
{
    let a = decimal_text(ip[0] as nat);
    let b = decimal_text(ip[1] as nat);
    let c = decimal_text(ip[2] as nat);
    let d = decimal_text(ip[3] as nat);
    lemma_decimal_text_plain(ip[0] as nat, '.');
    lemma_decimal_text_plain(ip[1] as nat, '.');
    lemma_decimal_text_plain(ip[2] as nat, '.');
    lemma_decimal_text_plain(ip[3] as nat, '.');
    lemma_split_plain(a, '.');
    lemma_split_add(a, b, '.');
    lemma_split_add(a + seq!['.'] + b, c, '.');
    lemma_split_add(a + seq!['.'] + b + seq!['.'] + c, d, '.');
    let parts = split(ipv4_text(ip), '.');
    assert(parts =~= seq![a, b, c, d]);
    lemma_octet_text(ip[0]);
    lemma_octet_text(ip[1]);
    lemma_octet_text(ip[2]);
    lemma_octet_text(ip[3]);
    assert(ipv4_of(ipv4_text(ip)).unwrap() =~= ip);
    lemma_decimal_text(ip[0] as nat);
    lemma_decimal_text(ip[1] as nat);
    lemma_decimal_text(ip[2] as nat);
    lemma_decimal_text(ip[3] as nat);
    let text = ipv4_text(ip);
    assert forall|i: int| 0 <= i < text.len() implies text[i] != ':' by {
        lemma_ipv4_chars(ip, i);
    }
}

/// A dotted quad holds nothing but digits and dots.
pub proof fn lemma_ipv4_chars(ip: Seq<u8>, i: int)
    requires
        ip.len() == 4,
        0 <= i < ipv4_text(ip).len(),
    ensures
        is_digit(ipv4_text(ip)[i]) || ipv4_text(ip)[i] == '.',
{
    let a = decimal_text(ip[0] as nat);
    let b = decimal_text(ip[1] as nat);
    let c = decimal_text(ip[2] as nat);
    let d = decimal_text(ip[3] as nat);
    lemma_decimal_text(ip[0] as nat);
    lemma_decimal_text(ip[1] as nat);
    lemma_decimal_text(ip[2] as nat);
    lemma_decimal_text(ip[3] as nat);
    let text = ipv4_text(ip);
    if i < a.len() {
        assert(text[i] == a[i]);
    } else if i < a.len() + 1 {
    } else if i < a.len() + 1 + b.len() {
        assert(text[i] == b[i - a.len() - 1]);
    } else if i < a.len() + 1 + b.len() + 1 {
    } else if i < a.len() + 1 + b.len() + 1 + c.len() {
        assert(text[i] == c[i - a.len() - 1 - b.len() - 1]);
    } else if i < a.len() + 1 + b.len() + 1 + c.len() + 1 {
    } else {
        assert(text[i] == d[i - a.len() - 1 - b.len() - 1 - c.len() - 1]);
    }
}

} // verus!
