//! Writing an address and reading it back agree, in text and in binary
//! form.

use vstd::prelude::*;
use vstd::utf8::encode_utf8;
use crate::address::{
    i2p_suffix, labelled, loki_suffix, onion_suffix, overlay_text, parsed, parsed_overlay,
    port_from_bytes, unpacked, without_suffix, PeerAddrView, PACKED_I2P_B32, PACKED_IPV4,
    PACKED_IPV6, PACKED_ONION_V2, PACKED_ONION_V3,
};
use crate::address::errors::ParseErrorView;
use crate::base32::base32_bytes;
use crate::digits::{decimal_text, lemma_decimal_text};
use crate::message::wire::packed;
use crate::net::socket::{
    lemma_port_text, lemma_socket_v4_chars, lemma_socket_v4_text, lemma_socket_v6_text,
    signed_port_of, socket_v4_of, socket_v6_of,
};
use crate::search::{
    first_index, has_char, is_char, lemma_first_index, lemma_split_add, lemma_split_plain, split,
};
use crate::text::has_suffix;

verus! {

/// The text of an overlay address is not the text of a socket address, and
/// its colon divides it into the host and the port.
proof fn lemma_overlay_text(label: Seq<char>, suffix: Seq<char>, port: u16)
    requires
        !has_char(label, ':'),
        suffix == onion_suffix() || suffix == i2p_suffix() || suffix == loki_suffix(),
    ensures
        socket_v4_of(overlay_text(label, suffix, port)) is None,
        socket_v6_of(overlay_text(label, suffix, port)) is None,
        split(overlay_text(label, suffix, port), ':') == seq![
            label + suffix,
            decimal_text(port as nat),
        ],
        signed_port_of(decimal_text(port as nat)) == Some(port),
{
    let text = overlay_text(label, suffix, port);
    let host = label + suffix;
    let numeral = decimal_text(port as nat);
    lemma_decimal_text(port as nat);
    lemma_port_text(port);
    assert(!has_char(host, ':')) by {
        assert forall|i: int| 0 <= i < host.len() implies host[i] != ':' by {
            if i < label.len() {
                assert(host[i] == label[i]);
            } else {
                assert(host[i] == suffix[i - label.len()]);
            }
        }
    }
    assert(!has_char(numeral, ':'));
    lemma_split_plain(host, ':');
    lemma_split_add(host, numeral, ':');
    assert(split(text, ':') =~= seq![host, numeral]);
    // A socket address holds no letter, and every suffix has one.
    let letter = label.len() as int + 1;
    assert(text[letter] == suffix[1]);
    if socket_v4_of(text) is Some {
        lemma_socket_v4_chars(text, letter);
    }
    // The colon of a bracketed socket address follows the bracket, but the
    // only colon here follows the suffix.
    let close = first_index(text, is_char(']'));
    lemma_first_index(text, is_char(']'));
    if text.len() > 0 && text[0] == '[' && close + 1 < text.len() && text[close + 1] == ':' {
        let at = close + 1;
        if at < host.len() {
            assert(text[at] == host[at]);
        } else if at > host.len() {
            assert(text[at] == numeral[at - host.len() - 1]);
        } else {
            assert(text[close] == suffix[suffix.len() - 1]);
        }
    }
}

/// A label put before its suffix is found again behind it.
proof fn lemma_without_suffix(label: Seq<char>, suffix: Seq<char>)
    ensures
        has_suffix(label + suffix, suffix),
        without_suffix(label + suffix, suffix.len()) == label,
{
    let host = label + suffix;
    assert(host.skip(host.len() - suffix.len()) =~= suffix);
    assert(host.take(host.len() - suffix.len()) =~= label);
}

/// The text of an overlay address with this label, suffix and port stands
/// for the host that label and suffix form, and for the port.
proof fn lemma_parse_overlay_text(label: Seq<char>, suffix: Seq<char>, port: u16)
    requires
        !has_char(label, ':'),
        suffix == onion_suffix() || suffix == i2p_suffix() || suffix == loki_suffix(),
    ensures
        parsed(overlay_text(label, suffix, port)) == labelled(label + suffix, port),
        has_suffix(label + suffix, suffix),
        without_suffix(label + suffix, suffix.len()) == label,
{
    lemma_overlay_text(label, suffix, port);
    lemma_without_suffix(label, suffix);
    let text = overlay_text(label, suffix, port);
    lemma_parsed_overlay(text, label + suffix, port);
    assert(parsed(text) == parsed_overlay(text));
}

/// A text that colons divide into a host and the numeral of a port is read
/// as that host with that port.
proof fn lemma_parsed_overlay(text: Seq<char>, host: Seq<char>, port: u16)
    requires
        split(text, ':') == seq![host, decimal_text(port as nat)],
        signed_port_of(decimal_text(port as nat)) == Some(port),
    ensures
        parsed_overlay(text) == labelled(host, port),
{
    let parts = split(text, ':');
    assert(parts.len() == 2);
    assert(parts[0] == host);
    assert(parts[1] == decimal_text(port as nat));
}

/// An I2P host does not end like an onion host, and a Loki host like
/// neither.
proof fn lemma_suffixes_differ(label: Seq<char>)
    ensures
        !has_suffix(label + i2p_suffix(), onion_suffix()),
        !has_suffix(label + loki_suffix(), onion_suffix()),
        !has_suffix(label + loki_suffix(), i2p_suffix()),
{
    let i2p = label + i2p_suffix();
    let loki = label + loki_suffix();
    if has_suffix(i2p, onion_suffix()) {
        assert(i2p.skip(i2p.len() - 6)[5] == 'n');
    }
    if has_suffix(loki, onion_suffix()) {
        assert(loki.skip(loki.len() - 6)[5] == 'n');
    }
    if has_suffix(loki, i2p_suffix()) {
        assert(loki.skip(loki.len() - 8)[7] == 'p');
    }
}

/// The text of a readable onion address stands for that address.
proof fn lemma_parse_onion_text(label: Seq<char>, port: u16)
    requires
        !has_char(label, ':'),
        encode_utf8(label).len() == 16 || encode_utf8(label).len() == 56,
    ensures
        parsed(overlay_text(label, onion_suffix(), port)) == Ok::<PeerAddrView, ParseErrorView>(
            if encode_utf8(label).len() == 16 {
                PeerAddrView::OnionV2(label, port)
            } else {
                PeerAddrView::OnionV3(label, port)
            },
        ),
{
    lemma_parse_overlay_text(label, onion_suffix(), port);
    let host = label + onion_suffix();
    assert(without_suffix(host, 6) == label);
}

/// The text of a readable I2P address stands for that address.
proof fn lemma_parse_i2p_text(label: Seq<char>, port: u16)
    requires
        !has_char(label, ':'),
    ensures
        parsed(overlay_text(label, i2p_suffix(), port)) == Ok::<PeerAddrView, ParseErrorView>(
            PeerAddrView::I2PB32(label, port),
        ),
{
    lemma_parse_overlay_text(label, i2p_suffix(), port);
    lemma_suffixes_differ(label);
    let host = label + i2p_suffix();
    assert(without_suffix(host, 8) == label);
}

/// The text of a readable Loki address stands for that address.
proof fn lemma_parse_loki_text(label: Seq<char>, port: u16)
    requires
        !has_char(label, ':'),
    ensures
        parsed(overlay_text(label, loki_suffix(), port)) == Ok::<PeerAddrView, ParseErrorView>(
            PeerAddrView::Loki(label, port),
        ),
{
    lemma_parse_overlay_text(label, loki_suffix(), port);
    lemma_suffixes_differ(label);
    let host = label + loki_suffix();
    assert(without_suffix(host, 5) == label);
}

/// The text of a clearnet address stands for that address.
proof fn lemma_parse_socket_text(address: PeerAddrView)
    requires
        address.readable(),
        address is IPV4 || address is IPV6,
    ensures
        parsed(address.text()) == Ok::<PeerAddrView, ParseErrorView>(address),
{
    match address {
        PeerAddrView::IPV4(ip, port) => {
            lemma_socket_v4_text(ip, port);
        },
        PeerAddrView::IPV6(ip, port) => {
            lemma_socket_v6_text(ip, port);
        },
        _ => {},
    }
}

/// Writing and reading agree: the text form of a readable address stands
/// for that address.
pub proof fn lemma_parse_text(address: PeerAddrView)
    requires
        address.readable(),
    ensures
        parsed(address.text()) == Ok::<PeerAddrView, ParseErrorView>(address),
{
    match address {
        PeerAddrView::OnionV2(label, port) => {
            lemma_parse_onion_text(label, port);
        },
        PeerAddrView::OnionV3(label, port) => {
            lemma_parse_onion_text(label, port);
        },
        PeerAddrView::I2PB32(label, port) => {
            lemma_parse_i2p_text(label, port);
        },
        PeerAddrView::Loki(label, port) => {
            lemma_parse_loki_text(label, port);
        },
        _ => {
            lemma_parse_socket_text(address);
        },
    }
}

/// Packing and unpacking agree: every well-formed address can be packed,
/// and unpacking its binary form gives the address back.
pub proof fn lemma_unpack_pack(address: PeerAddrView)
    requires
        address.well_formed(),
    ensures
        address.packable(),
        unpacked(address.packed()) == Some(address),
{
    let port = address.port();
    assert(port_from_bytes((port % 256) as u8, (port / 256) as u8) == port);
    let packed = address.packed();
    let n = packed.len();
    match address {
        PeerAddrView::IPV4(ip, _) => {
            assert(packed.subrange(0, n - 2) =~= ip);
        },
        PeerAddrView::IPV6(ip, _) => {
            assert(packed.subrange(0, n - 2) =~= ip);
        },
        PeerAddrView::Loki(_, _) => {},
        _ => {
            let bytes = base32_bytes(address.label()).unwrap();
            assert(packed.subrange(0, n - 2) =~= bytes);
        },
    }
}

/// The length of a binary form tells the family: no two families of
/// well-formed addresses pack into the same number of bytes.
pub proof fn lemma_packed_length(address: PeerAddrView)
    requires
        address.well_formed(),
    ensures
        address is IPV4 <==> address.packed().len() == PACKED_IPV4,
        address is IPV6 <==> address.packed().len() == PACKED_IPV6,
        address is OnionV2 <==> address.packed().len() == PACKED_ONION_V2,
        address is I2PB32 <==> address.packed().len() == PACKED_I2P_B32,
        address is OnionV3 <==> address.packed().len() == PACKED_ONION_V3,
{
}

} // verus!
