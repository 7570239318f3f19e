//! The text forms of socket addresses: an IPv4 or a bracketed IPv6 address,
//! a colon and a port.

use vstd::prelude::*;
use vstd::slice::slice_subrange;
use crate::digits::{
    decimal_of, decimal_text, is_digit, lemma_decimal_text, parse_decimal, push_decimal,
};
use crate::net::ipv4::{
    ipv4_of, ipv4_text, lemma_decimal_text_plain, lemma_ipv4_text, octet_of, parse_ipv4, push_ipv4,
};
use crate::net::ipv6::{ipv6_of, ipv6_text, is_address_char, parse_ipv6, push_ipv6};
use crate::net::ipv6_laws::lemma_ipv6_text;
use crate::search::{
    find_char, first_index, has_char, is_char, lemma_first_char_after, lemma_first_index_is,
    lemma_split_add, lemma_split_covers, lemma_split_plain, split, split_ranges,
};

verus! {

/// The port that `s` stands for, where `s` is a decimal numeral that stands
/// for at most 65535. Leading zeros are accepted.
pub open spec fn port_of(s: Seq<char>) -> Option<u16> {
    match decimal_of(s) {
        Some(n) => if n <= 0xffff {
            Some(n as u16)
        } else {
            None
        },
        None => None,
    }
}

/// The port that `s` stands for, where `s` is a port numeral that a plus
/// sign may precede.
pub open spec fn signed_port_of(s: Seq<char>) -> Option<u16> {
    if s.len() > 0 && s[0] == '+' {
        port_of(s.skip(1))
    } else {
        port_of(s)
    }
}

/// The address and port that `s` stands for, where `s` is a dotted quad, a
/// colon and a port.
pub open spec fn socket_v4_of(s: Seq<char>) -> Option<(Seq<u8>, u16)> {
    let parts = split(s, ':');
    if parts.len() == 2 {
        match (ipv4_of(parts[0]), port_of(parts[1])) {
            (Some(ip), Some(port)) => Some((ip, port)),
            _ => None,
        }
    } else {
        None
    }
}

/// The scope id that `s` stands for, where `s` is a decimal numeral that
/// stands for less than 2^32.
pub open spec fn scope_of(s: Seq<char>) -> Option<u32> {
    match decimal_of(s) {
        Some(n) => if n <= 0xffff_ffff {
            Some(n as u32)
        } else {
            None
        },
        None => None,
    }
}

/// The address that `s` stands for, where `s` is the text of an IPv6
/// address, which a percent sign and a scope id may follow. The scope id is
/// not kept.
pub open spec fn scoped_ipv6_of(s: Seq<char>) -> Option<Seq<u8>> {
    let at = first_index(s, is_char('%'));
    if at >= s.len() {
        ipv6_of(s)
    } else if scope_of(s.skip(at + 1)) is Some {
        ipv6_of(s.take(at))
    } else {
        None
    }
}

/// The address and port that `s` stands for, where `s` is the text of an
/// IPv6 address in brackets, a colon and a port.
pub open spec fn socket_v6_of(s: Seq<char>) -> Option<(Seq<u8>, u16)> {
    let close = first_index(s, is_char(']'));
    if s.len() > 0 && s[0] == '[' && close + 1 < s.len() && s[close + 1] == ':' {
        match (scoped_ipv6_of(s.subrange(1, close)), port_of(s.skip(close + 2))) {
            (Some(ip), Some(port)) => Some((ip, port)),
            _ => None,
        }
    } else {
        None
    }
}

/// The text of an IPv4 socket address.
pub open spec fn socket_v4_text(ip: Seq<u8>, port: u16) -> Seq<char> {
    ipv4_text(ip) + seq![':'] + decimal_text(port as nat)
}

/// The text of an IPv6 socket address.
pub open spec fn socket_v6_text(ip: Seq<u8>, port: u16) -> Seq<char> {
    seq!['['] + ipv6_text(ip) + seq![']', ':'] + decimal_text(port as nat)
}

/// Reads a port numeral.
pub fn parse_port(s: &[char]) -> (r: Option<u16>)
    ensures
        r == port_of(s@),
{
    match parse_decimal(s, 0xffff) {
        Some(n) => Some(n as u16),
        None => None,
    }
}

/// Reads a port numeral that a plus sign may precede.
pub fn parse_signed_port(s: &[char]) -> (r: Option<u16>)
    ensures
        r == signed_port_of(s@),
{
    if s.len() > 0 && s[0] == '+' {
        let rest = slice_subrange(s, 1, s.len());
        assert(rest@ =~= s@.skip(1));
        parse_port(rest)
    } else {
        parse_port(s)
    }
}

/// Reads an IPv4 socket address.
pub fn parse_socket_v4(s: &[char]) -> (r: Option<([u8; 4], u16)>)
    ensures
        match r {
            Some((ip, port)) => socket_v4_of(s@) == Some((ip@, port)),
            None => socket_v4_of(s@) is None,
        },
{
    let ranges = split_ranges(s, ':');
    if ranges.len() != 2 {
        return None;
    }
    let host = slice_subrange(s, ranges[0].0, ranges[0].1);
    let port_text = slice_subrange(s, ranges[1].0, ranges[1].1);
    match parse_ipv4(host) {
        Some(ip) => match parse_port(port_text) {
            Some(port) => Some((ip, port)),
            None => None,
        },
        None => None,
    }
}

/// Reads the text of an IPv6 address that a scope id may follow.
fn parse_scoped_ipv6(s: &[char]) -> (r: Option<[u8; 16]>)
    ensures
        match r {
            Some(ip) => scoped_ipv6_of(s@) == Some(ip@),
            None => scoped_ipv6_of(s@) is None,
        },
{
    let at = find_char(s, '%');
    if at >= s.len() {
        return parse_ipv6(s);
    }
    let scope = slice_subrange(s, at + 1, s.len());
    assert(scope@ =~= s@.skip(at + 1));
    match parse_decimal(scope, 0xffff_ffff) {
        Some(_) => {
            let host = slice_subrange(s, 0, at);
            assert(host@ =~= s@.take(at as int));
            parse_ipv6(host)
        },
        None => None,
    }
}

/// Reads an IPv6 socket address.
pub fn parse_socket_v6(s: &[char]) -> (r: Option<([u8; 16], u16)>)
    ensures
        match r {
            Some((ip, port)) => socket_v6_of(s@) == Some((ip@, port)),
            None => socket_v6_of(s@) is None,
        },
{
    if s.len() == 0 || s[0] != '[' {
        return None;
    }
    let close = find_char(s, ']');
    if close >= s.len() - 1 || s[close + 1] != ':' {
        return None;
    }
    let host = slice_subrange(s, 1, close);
    let port_text = slice_subrange(s, close + 2, s.len());
    assert(port_text@ =~= s@.skip(close + 2));
    match parse_scoped_ipv6(host) {
        Some(ip) => match parse_port(port_text) {
            Some(port) => Some((ip, port)),
            None => None,
        },
        None => None,
    }
}

/// Appends the text of an IPv4 socket address to `out`.
pub fn push_socket_v4(out: &mut Vec<char>, ip: &[u8; 4], port: u16)
    ensures
        final(out)@ == old(out)@ + socket_v4_text(ip@, port),
{
    push_ipv4(out, ip);
    out.push(':');
    push_decimal(out, port as u32);
    assert(out@ =~= old(out)@ + socket_v4_text(ip@, port));
}

/// Appends the text of an IPv6 socket address to `out`.
pub fn push_socket_v6(out: &mut Vec<char>, ip: &[u8; 16], port: u16)
    ensures
        final(out)@ == old(out)@ + socket_v6_text(ip@, port),
{
    out.push('[');
    push_ipv6(out, ip);
    out.push(']');
    out.push(':');
    push_decimal(out, port as u32);
    assert(out@ =~= old(out)@ + socket_v6_text(ip@, port));
}

/// The numeral of a port stands for that port, with or without a sign in
/// front.
pub proof fn lemma_port_text(port: u16)
    ensures
        port_of(decimal_text(port as nat)) == Some(port),
        signed_port_of(decimal_text(port as nat)) == Some(port),
{
    lemma_decimal_text(port as nat);
}

/// A text that stands for an IPv4 socket address holds nothing but digits,
/// dots and colons.
pub proof fn lemma_socket_v4_chars(s: Seq<char>, i: int)
    requires
        socket_v4_of(s) is Some,
        0 <= i < s.len(),
    ensures
        is_digit(s[i]) || s[i] == '.' || s[i] == ':',
{
    if s[i] != ':' {
        let parts = split(s, ':');
        lemma_split_covers(s, ':', i);
        let (k, j) = choose|k: int, j: int|
            0 <= k < parts.len() && 0 <= j < parts[k].len() && #[trigger] parts[k][j] == s[i];
        if k == 1 {
            assert(is_digit(parts[1][j]));
        } else {
            let host = parts[0];
            if host[j] != '.' {
                let octets = split(host, '.');
                lemma_split_covers(host, '.', j);
                let (m, n) = choose|m: int, n: int|
                    0 <= m < octets.len() && 0 <= n < octets[m].len() && #[trigger] octets[m][n]
                        == host[j];
                assert(octet_of(octets[m]) is Some);
                assert(is_digit(octets[m][n]));
            }
        }
    }
}

/// The text of an IPv4 socket address stands for that address.
pub proof fn lemma_socket_v4_text(ip: Seq<u8>, port: u16)
    requires
        ip.len() == 4,
    ensures
        socket_v4_of(socket_v4_text(ip, port)) == Some((ip, port)),
{
    let host = ipv4_text(ip);
    let numeral = decimal_text(port as nat);
    lemma_ipv4_text(ip);
    lemma_port_text(port);
    lemma_decimal_text_plain(port as nat, ':');
    lemma_split_plain(host, ':');
    lemma_split_add(host, numeral, ':');
    assert(split(socket_v4_text(ip, port), ':') =~= seq![host, numeral]);
}

/// The text of an IPv6 socket address stands for that address, and is not
/// the text of an IPv4 socket address.
pub proof fn lemma_socket_v6_text(ip: Seq<u8>, port: u16)
    requires
        ip.len() == 16,
    ensures
        socket_v4_of(socket_v6_text(ip, port)) is None,
        socket_v6_of(socket_v6_text(ip, port)) == Some((ip, port)),
{
    let text = socket_v6_text(ip, port);
    let host = ipv6_text(ip);
    let numeral = decimal_text(port as nat);
    assert(text[0] == '[');
    if socket_v4_of(text) is Some {
        lemma_socket_v4_chars(text, 0);
    }
    lemma_ipv6_text(ip);
    lemma_port_text(port);
    let before = seq!['['] + host;
    assert(!has_char(before, ']')) by {
        assert forall|i: int| 0 <= i < before.len() implies before[i] != ']' by {
            if i > 0 {
                assert(before[i] == host[i - 1]);
                assert(is_address_char(host[i - 1]));
            }
        }
    }
    assert(scoped_ipv6_of(host) == Some(ip)) by {
        assert forall|i: int| 0 <= i < host.len() implies !is_char('%')(#[trigger] host[i]) by {
            assert(is_address_char(host[i]));
        }
        lemma_first_index_is(host, is_char('%'), host.len() as int);
    }
    let after = seq![':'] + numeral;
    lemma_first_char_after(before, ']', after);
    assert(text =~= before + seq![']'] + after);
    let close = first_index(text, is_char(']'));
    assert(close == host.len() + 1);
    assert(text[close + 1] == ':');
    assert(text.subrange(1, close) =~= host);
    assert(text.skip(close + 2) =~= numeral);
}

} // verus!
