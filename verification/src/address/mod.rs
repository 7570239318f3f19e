//! Peer addresses: clearnet sockets and the labels of overlay networks, with
//! their text form and their compact binary form.

pub mod errors;
pub mod laws;

pub use errors::{AddressError, AddressErrorView, ParseError, ParseErrorView};

use vstd::prelude::*;
use vstd::pervasive::unreached;
use vstd::slice::{slice_subrange, slice_to_vec};
use vstd::string::StrSliceExecFns;
use vstd::utf8::{encode_utf8, is_ascii_chars_encode_utf8};
use crate::base32::{base32_bytes, base32_text, decode, encode, is_base32_text};
use crate::digits::{decimal_text, push_decimal};
use crate::net::addr::{SocketAddr, SocketAddrV4, SocketAddrV6};
use crate::net::socket::{
    parse_signed_port, parse_socket_v4, parse_socket_v6, push_socket_v4, push_socket_v6,
    signed_port_of, socket_v4_of, socket_v4_text, socket_v6_of, socket_v6_text,
};
use crate::search::{has_char, split, split_ranges};
use crate::text::{
    chars_of, ends_with, has_suffix, lowercase_text, push_all, push_text, string_of, to_lowercase,
};

verus! {

/// The endpoint of a peer: a clearnet socket address, or the label of a
/// hidden service on an overlay network, each with a port.
#[derive(Debug, Clone, Hash, PartialEq, Eq)]
pub enum PeerAddr {
    IPV4([u8; 4], u16),
    IPV6([u8; 16], u16),
    OnionV2(String, u16),
    OnionV3(String, u16),
    I2PB32(String, u16),
    Loki(String, u16),
}

/// A peer address as a mathematical value.
pub enum PeerAddrView {
    IPV4(Seq<u8>, u16),
    IPV6(Seq<u8>, u16),
    OnionV2(Seq<char>, u16),
    OnionV3(Seq<char>, u16),
    I2PB32(Seq<char>, u16),
    Loki(Seq<char>, u16),
}

impl View for PeerAddr {
    type V = PeerAddrView;

    open spec fn view(&self) -> PeerAddrView {
        match *self {
            PeerAddr::IPV4(ip, port) => PeerAddrView::IPV4(ip@, port),
            PeerAddr::IPV6(ip, port) => PeerAddrView::IPV6(ip@, port),
            PeerAddr::OnionV2(label, port) => PeerAddrView::OnionV2(label@, port),
            PeerAddr::OnionV3(label, port) => PeerAddrView::OnionV3(label@, port),
            PeerAddr::I2PB32(label, port) => PeerAddrView::I2PB32(label@, port),
            PeerAddr::Loki(label, port) => PeerAddrView::Loki(label@, port),
        }
    }
}

/// The suffix of an onion host.
pub open spec fn onion_suffix() -> Seq<char> {
    seq!['.', 'o', 'n', 'i', 'o', 'n']
}

/// The suffix of an I2P host.
pub open spec fn i2p_suffix() -> Seq<char> {
    seq!['.', 'b', '3', '2', '.', 'i', '2', 'p']
}

/// The suffix of a Loki host.
pub open spec fn loki_suffix() -> Seq<char> {
    seq!['.', 'l', 'o', 'k', 'i']
}

/// The lengths that an onion label may have, as error messages name them.
pub open spec fn onion_lengths() -> Seq<char> {
    seq!['1', '6', ' ', 'o', 'r', ' ', '5', '6']
}

/// What is left of `host` without its last `n` characters.
pub open spec fn without_suffix(host: Seq<char>, n: nat) -> Seq<char> {
    host.take(host.len() - n)
}

/// The overlay address that `host` and `port` stand for. The suffix of the
/// host tells the network; what stands before it is the label. An onion
/// label has 16 or 56 bytes.
pub open spec fn labelled(host: Seq<char>, port: u16) -> Result<PeerAddrView, ParseErrorView> {
    if has_suffix(host, onion_suffix()) {
        let label = without_suffix(host, 6);
        let length = encode_utf8(label).len();
        if length == 16 {
            Ok(PeerAddrView::OnionV2(label, port))
        } else if length == 56 {
            Ok(PeerAddrView::OnionV3(label, port))
        } else {
            Err(ParseErrorView::WrongLength { address: label, length, expected: onion_lengths() })
        }
    } else if has_suffix(host, i2p_suffix()) {
        Ok(PeerAddrView::I2PB32(without_suffix(host, 8), port))
    } else if has_suffix(host, loki_suffix()) {
        Ok(PeerAddrView::Loki(without_suffix(host, 5), port))
    } else {
        Err(ParseErrorView::UnrecognizedAddressFormat)
    }
}

/// The overlay address that `text` stands for. Colons divide the text; the
/// first part is the host, the second the port, and further parts are
/// ignored.
pub open spec fn parsed_overlay(text: Seq<char>) -> Result<PeerAddrView, ParseErrorView> {
    let parts = split(text, ':');
    if parts.len() < 2 {
        Err(ParseErrorView::MissingPort)
    } else {
        match signed_port_of(parts[1]) {
            Some(port) => labelled(parts[0], port),
            None => Err(ParseErrorView::ParseIntError(parts[1])),
        }
    }
}

/// The address that `text` stands for: an IPv4 or IPv6 socket address
/// where it is the text of one, else an overlay address.
pub open spec fn parsed(text: Seq<char>) -> Result<PeerAddrView, ParseErrorView> {
    match socket_v4_of(text) {
        Some((ip, port)) => Ok(PeerAddrView::IPV4(ip, port)),
        None => match socket_v6_of(text) {
            Some((ip, port)) => Ok(PeerAddrView::IPV6(ip, port)),
            None => parsed_overlay(text),
        },
    }
}

/// The text of an overlay address: label, suffix, colon and port.
pub open spec fn overlay_text(label: Seq<char>, suffix: Seq<char>, port: u16) -> Seq<char> {
    label + suffix + seq![':'] + decimal_text(port as nat)
}

/// The two bytes of a port in a packed address, low byte first.
pub open spec fn port_bytes(port: u16) -> Seq<u8> {
    seq![(port % 256) as u8, (port / 256) as u8]
}

/// The port that two packed bytes stand for, low byte first.
pub open spec fn port_from_bytes(low: u8, high: u8) -> u16 {
    (low + 256 * high) as u16
}

/// Packed length of an IPv4 address.
pub const PACKED_IPV4: usize = 6;

/// Packed length of a version 2 onion address.
pub const PACKED_ONION_V2: usize = 12;

/// Packed length of an IPv6 address.
pub const PACKED_IPV6: usize = 18;

/// Packed length of an I2P address.
pub const PACKED_I2P_B32: usize = 34;

/// Packed length of a version 3 onion address.
pub const PACKED_ONION_V3: usize = 37;

impl PeerAddrView {
    /// The port of the address.
    pub open spec fn port(self) -> u16 {
        match self {
            PeerAddrView::IPV4(_, port) => port,
            PeerAddrView::IPV6(_, port) => port,
            PeerAddrView::OnionV2(_, port) => port,
            PeerAddrView::OnionV3(_, port) => port,
            PeerAddrView::I2PB32(_, port) => port,
            PeerAddrView::Loki(_, port) => port,
        }
    }

    /// The same host with another port.
    pub open spec fn with_port(self, port: u16) -> PeerAddrView {
        match self {
            PeerAddrView::IPV4(ip, _) => PeerAddrView::IPV4(ip, port),
            PeerAddrView::IPV6(ip, _) => PeerAddrView::IPV6(ip, port),
            PeerAddrView::OnionV2(label, _) => PeerAddrView::OnionV2(label, port),
            PeerAddrView::OnionV3(label, _) => PeerAddrView::OnionV3(label, port),
            PeerAddrView::I2PB32(label, _) => PeerAddrView::I2PB32(label, port),
            PeerAddrView::Loki(label, _) => PeerAddrView::Loki(label, port),
        }
    }

    /// The label of an overlay address; empty for a clearnet address.
    pub open spec fn label(self) -> Seq<char> {
        match self {
            PeerAddrView::IPV4(_, _) => Seq::empty(),
            PeerAddrView::IPV6(_, _) => Seq::empty(),
            PeerAddrView::OnionV2(label, _) => label,
            PeerAddrView::OnionV3(label, _) => label,
            PeerAddrView::I2PB32(label, _) => label,
            PeerAddrView::Loki(label, _) => label,
        }
    }

    /// The text form of the address.
    pub open spec fn text(self) -> Seq<char> {
        match self {
            PeerAddrView::IPV4(ip, port) => socket_v4_text(ip, port),
            PeerAddrView::IPV6(ip, port) => socket_v6_text(ip, port),
            PeerAddrView::OnionV2(label, port) => overlay_text(label, onion_suffix(), port),
            PeerAddrView::OnionV3(label, port) => overlay_text(label, onion_suffix(), port),
            PeerAddrView::I2PB32(label, port) => overlay_text(label, i2p_suffix(), port),
            PeerAddrView::Loki(label, port) => overlay_text(label, loki_suffix(), port),
        }
    }

    /// Whether the address can be read back from its text form: host bytes
    /// of the family's length, or a label without a colon that, for an
    /// onion address, has the length of its version.
    pub open spec fn readable(self) -> bool {
        match self {
            PeerAddrView::IPV4(ip, _) => ip.len() == 4,
            PeerAddrView::IPV6(ip, _) => ip.len() == 16,
            PeerAddrView::OnionV2(label, _) => !has_char(label, ':') && encode_utf8(label).len()
                == 16,
            PeerAddrView::OnionV3(label, _) => !has_char(label, ':') && encode_utf8(label).len()
                == 56,
            PeerAddrView::I2PB32(label, _) => !has_char(label, ':'),
            PeerAddrView::Loki(label, _) => !has_char(label, ':'),
        }
    }

    /// Whether the address has a binary form: a clearnet address always, an
    /// onion or I2P address when its label, put in lower case, is base32
    /// text, a Loki address never.
    pub open spec fn packable(self) -> bool {
        match self {
            PeerAddrView::IPV4(_, _) => true,
            PeerAddrView::IPV6(_, _) => true,
            PeerAddrView::Loki(_, _) => false,
            _ => is_base32_text(lowercase_text(self.label())),
        }
    }

    /// The length of the binary form of a packable address: the host bytes,
    /// or five bits for each character of the label, and two bytes for the
    /// port.
    pub open spec fn packed_len(self) -> nat {
        match self {
            PeerAddrView::IPV4(ip, _) => ip.len() + 2,
            PeerAddrView::IPV6(ip, _) => ip.len() + 2,
            _ => ((5 * lowercase_text(self.label()).len()) / 8 + 2) as nat,
        }
    }

    /// The binary form of a packable address: the host bytes, then the port
    /// with its low byte first.
    pub open spec fn packed(self) -> Seq<u8> {
        match self {
            PeerAddrView::IPV4(ip, port) => ip + port_bytes(port),
            PeerAddrView::IPV6(ip, port) => ip + port_bytes(port),
            _ => base32_bytes(lowercase_text(self.label())).unwrap() + port_bytes(self.port()),
        }
    }

    /// Whether the address is one that unpacking can yield: host bytes of
    /// the family's length, or a label that is the base32 text of as many
    /// bytes as the family has.
    pub open spec fn well_formed(self) -> bool {
        match self {
            PeerAddrView::IPV4(ip, _) => ip.len() == 4,
            PeerAddrView::IPV6(ip, _) => ip.len() == 16,
            PeerAddrView::OnionV2(label, _) => is_label_of(label, 10),
            PeerAddrView::OnionV3(label, _) => is_label_of(label, 35),
            PeerAddrView::I2PB32(label, _) => is_label_of(label, 32),
            PeerAddrView::Loki(_, _) => false,
        }
    }
}

/// Whether `label` is in lower case and is the base32 text of the `n` bytes
/// that it decodes to.
pub open spec fn is_label_of(label: Seq<char>, n: nat) -> bool {
    &&& lowercase_text(label) == label
    &&& is_base32_text(label)
    &&& base32_bytes(label) matches Some(bytes)
    &&& bytes.len() == n
    &&& base32_text(bytes) == label
}

/// The address that packed bytes stand for. The length alone selects the
/// family; a length that belongs to no family stands for nothing.
pub open spec fn unpacked(bytes: Seq<u8>) -> Option<PeerAddrView> {
    let n = bytes.len();
    if n < 2 {
        None
    } else {
        let host = bytes.subrange(0, n - 2);
        let port = port_from_bytes(bytes[n - 2], bytes[n - 1]);
        if n == PACKED_IPV4 {
            Some(PeerAddrView::IPV4(host, port))
        } else if n == PACKED_IPV6 {
            Some(PeerAddrView::IPV6(host, port))
        } else if n == PACKED_ONION_V2 {
            Some(PeerAddrView::OnionV2(base32_text(host), port))
        } else if n == PACKED_I2P_B32 {
            Some(PeerAddrView::I2PB32(base32_text(host), port))
        } else if n == PACKED_ONION_V3 {
            Some(PeerAddrView::OnionV3(base32_text(host), port))
        } else {
            None
        }
    }
}

/// Appends the two bytes of `port` to `bytes`, low byte first.
pub(crate) fn push_port(bytes: &mut Vec<u8>, port: u16)
    ensures
        final(bytes)@ == old(bytes)@ + port_bytes(port),
{
    bytes.push((port % 256) as u8);
    bytes.push((port / 256) as u8);
    assert(bytes@ =~= old(bytes)@ + port_bytes(port));
}

/// Reads the port from the last two bytes of a packed address.
pub(crate) fn read_port(bytes: &Vec<u8>) -> (port: u16)
    requires
        bytes.len() >= 2,
    ensures
        port == port_from_bytes(bytes[bytes.len() - 2], bytes[bytes.len() - 1]),
{
    let n = bytes.len();
    let low = bytes[n - 2] as u16;
    let high = bytes[n - 1] as u16;
    low + 256 * high
}

/// Encodes the host bytes of a packed overlay address as its label.
pub(crate) fn read_label(bytes: &Vec<u8>) -> (label: String)
    requires
        bytes.len() >= 2,
    ensures
        label@ == base32_text(bytes@.subrange(0, bytes.len() - 2)),
        label@.len() == (8 * (bytes.len() - 2) + 4) / 5,
        is_base32_text(label@),
        !has_char(label@, ':'),
        encode_utf8(label@).len() == label@.len(),
{
    let label = encode(slice_subrange(bytes.as_slice(), 0, bytes.len() - 2));
    proof {
        is_ascii_chars_encode_utf8(label@);
    }
    label
}

impl PeerAddr {
    /// Reads an address from its binary form. The length alone selects the
    /// family: 6 bytes are IPv4, 18 IPv6, 12 a version 2 onion, 34 I2P and 37
    /// a version 3 onion; any other length is refused with that length.
    pub fn unpack(bytes: &Vec<u8>) -> (r: Result<PeerAddr, AddressError>)
        ensures
            match r {
                Ok(address) => unpacked(bytes@) == Some(address@) && address@.readable(),
                Err(e) => unpacked(bytes@) is None && e == AddressError::InvalidBytearray(
                    bytes.len(),
                ),
            },
    {
        let n = bytes.len();
        if n == PACKED_IPV4 {
            let ip: [u8; 4] = [bytes[0], bytes[1], bytes[2], bytes[3]];
            assert(ip@ =~= bytes@.subrange(0, 4));
            Ok(PeerAddr::IPV4(ip, read_port(bytes)))
        } else if n == PACKED_IPV6 {
            let ip: [u8; 16] = [
                bytes[0], bytes[1], bytes[2], bytes[3], bytes[4], bytes[5], bytes[6], bytes[7],
                bytes[8], bytes[9], bytes[10], bytes[11], bytes[12], bytes[13], bytes[14],
                bytes[15],
            ];
            assert(ip@ =~= bytes@.subrange(0, 16));
            Ok(PeerAddr::IPV6(ip, read_port(bytes)))
        } else if n == PACKED_ONION_V2 {
            Ok(PeerAddr::OnionV2(read_label(bytes), read_port(bytes)))
        } else if n == PACKED_I2P_B32 {
            Ok(PeerAddr::I2PB32(read_label(bytes), read_port(bytes)))
        } else if n == PACKED_ONION_V3 {
            Ok(PeerAddr::OnionV3(read_label(bytes), read_port(bytes)))
        } else {
            Err(AddressError::InvalidBytearray(n))
        }
    }

    /// Reads an address from its text form: `a.b.c.d:port` for IPv4,
    /// `[groups]:port` for IPv6, and a label with the suffix `.onion`,
    /// `.b32.i2p` or `.loki` before `:port` for the overlay networks.
    pub fn parse(address: &str) -> (r: Result<PeerAddr, ParseError>)
        ensures
            match r {
                Ok(a) => parsed(address@) == Ok::<PeerAddrView, ParseErrorView>(a@),
                Err(e) => parsed(address@) == Err::<PeerAddrView, ParseErrorView>(e@),
            },
    {
        let chars = chars_of(address);
        match parse_socket_v4(chars.as_slice()) {
            Some((ip, port)) => {
                return Ok(PeerAddr::IPV4(ip, port));
            },
            None => {},
        }
        match parse_socket_v6(chars.as_slice()) {
            Some((ip, port)) => {
                return Ok(PeerAddr::IPV6(ip, port));
            },
            None => {},
        }
        parse_overlay(address, chars.as_slice())
    }

    /// The text form of the address, from which `parse` reads it back.
    pub fn to_string(&self) -> (text: String)
        ensures
            text@ == self@.text(),
    {
        let mut out: Vec<char> = Vec::new();
        match self {
            PeerAddr::IPV4(ip, port) => {
                push_socket_v4(&mut out, ip, *port);
            },
            PeerAddr::IPV6(ip, port) => {
                push_socket_v6(&mut out, ip, *port);
            },
            PeerAddr::OnionV2(label, port) => {
                let suffix: [char; 6] = ['.', 'o', 'n', 'i', 'o', 'n'];
                assert(suffix@ =~= onion_suffix());
                push_overlay(&mut out, label.as_str(), suffix.as_slice(), *port);
            },
            PeerAddr::OnionV3(label, port) => {
                let suffix: [char; 6] = ['.', 'o', 'n', 'i', 'o', 'n'];
                assert(suffix@ =~= onion_suffix());
                push_overlay(&mut out, label.as_str(), suffix.as_slice(), *port);
            },
            PeerAddr::I2PB32(label, port) => {
                let suffix: [char; 8] = ['.', 'b', '3', '2', '.', 'i', '2', 'p'];
                assert(suffix@ =~= i2p_suffix());
                push_overlay(&mut out, label.as_str(), suffix.as_slice(), *port);
            },
            PeerAddr::Loki(label, port) => {
                let suffix: [char; 5] = ['.', 'l', 'o', 'k', 'i'];
                assert(suffix@ =~= loki_suffix());
                push_overlay(&mut out, label.as_str(), suffix.as_slice(), *port);
            },
        }
        assert(out@ =~= self@.text());
        string_of(out.as_slice())
    }

    /// The binary form of the address: the host bytes, or the bytes that
    /// the label stands for in base32, followed by the port with its low
    /// byte first.
    pub fn pack(&self) -> (bytes: Vec<u8>)
        requires
            self@.packable(),
        ensures
            bytes@ == self@.packed(),
            bytes@.len() == self@.packed_len(),
    {
        match self {
            PeerAddr::IPV4(ip, port) => {
                let mut bytes = slice_to_vec(ip.as_slice());
                push_port(&mut bytes, *port);
                bytes
            },
            PeerAddr::IPV6(ip, port) => {
                let mut bytes = slice_to_vec(ip.as_slice());
                push_port(&mut bytes, *port);
                bytes
            },
            PeerAddr::OnionV2(label, port) => pack_label(label.as_str(), *port),
            PeerAddr::OnionV3(label, port) => pack_label(label.as_str(), *port),
            PeerAddr::I2PB32(label, port) => pack_label(label.as_str(), *port),
            PeerAddr::Loki(_, _) => unreached(),
        }
    }

    /// The binary form of the address, or `None` where it has none: for a
    /// Loki address, and for a label that is not base32 text.
    pub fn try_pack(&self) -> (r: Option<Vec<u8>>)
        ensures
            r is Some <==> self@.packable(),
            r is Some ==> r.unwrap()@ == self@.packed() && r.unwrap()@.len()
                == self@.packed_len(),
    {
        let packable = match self {
            PeerAddr::IPV4(_, _) => true,
            PeerAddr::IPV6(_, _) => true,
            PeerAddr::OnionV2(label, _) => is_packable_label(label.as_str()),
            PeerAddr::OnionV3(label, _) => is_packable_label(label.as_str()),
            PeerAddr::I2PB32(label, _) => is_packable_label(label.as_str()),
            PeerAddr::Loki(_, _) => false,
        };
        if packable {
            Some(self.pack())
        } else {
            None
        }
    }

    /// The same host with another port.
    pub fn with_port(&self, port: u16) -> (r: PeerAddr)
        ensures
            r@ == self@.with_port(port),
    {
        match self {
            PeerAddr::IPV4(ip, _) => PeerAddr::IPV4(*ip, port),
            PeerAddr::IPV6(ip, _) => PeerAddr::IPV6(*ip, port),
            PeerAddr::OnionV2(label, _) => PeerAddr::OnionV2(label.clone(), port),
            PeerAddr::OnionV3(label, _) => PeerAddr::OnionV3(label.clone(), port),
            PeerAddr::I2PB32(label, _) => PeerAddr::I2PB32(label.clone(), port),
            PeerAddr::Loki(label, _) => PeerAddr::Loki(label.clone(), port),
        }
    }

    /// The port of the address.
    pub fn get_port(&self) -> (port: u16)
        ensures
            port == self@.port(),
    {
        match self {
            PeerAddr::IPV4(_, port) => *port,
            PeerAddr::IPV6(_, port) => *port,
            PeerAddr::OnionV2(_, port) => *port,
            PeerAddr::OnionV3(_, port) => *port,
            PeerAddr::I2PB32(_, port) => *port,
            PeerAddr::Loki(_, port) => *port,
        }
    }

    /// Whether the address is an IPv4 or IPv6 socket address.
    pub fn is_clearnet(&self) -> (r: bool)
        ensures
            r == (self@ is IPV4 || self@ is IPV6),
    {
        match self {
            PeerAddr::IPV4(_, _) => true,
            PeerAddr::IPV6(_, _) => true,
            _ => false,
        }
    }

    /// Whether the address is an onion service, of either version.
    pub fn is_onion(&self) -> (r: bool)
        ensures
            r == (self@ is OnionV2 || self@ is OnionV3),
    {
        match self {
            PeerAddr::OnionV2(_, _) => true,
            PeerAddr::OnionV3(_, _) => true,
            _ => false,
        }
    }

    /// Whether the address is an I2P destination.
    pub fn is_i2p(&self) -> (r: bool)
        ensures
            r == (self@ is I2PB32),
    {
        match self {
            PeerAddr::I2PB32(_, _) => true,
            _ => false,
        }
    }

    /// Whether the address is a Loki service.
    pub fn is_loki(&self) -> (r: bool)
        ensures
            r == (self@ is Loki),
    {
        match self {
            PeerAddr::Loki(_, _) => true,
            _ => false,
        }
    }

    /// Whether the address is one that unpacking can yield, so that it
    /// comes back unchanged from its binary form.
    pub fn is_well_formed(&self) -> (r: bool)
        ensures
            r == self@.well_formed(),
    {
        match self {
            PeerAddr::IPV4(_, _) => true,
            PeerAddr::IPV6(_, _) => true,
            PeerAddr::OnionV2(label, _) => is_label(label, 10),
            PeerAddr::OnionV3(label, _) => is_label(label, 35),
            PeerAddr::I2PB32(label, _) => is_label(label, 32),
            PeerAddr::Loki(_, _) => false,
        }
    }
}

/// Whether `label` is in lower case and is the base32 text of the `n` bytes
/// that it decodes to.
fn is_label(label: &String, n: usize) -> (r: bool)
    ensures
        r == is_label_of(label@, n as nat),
{
    let lower = to_lowercase(label.as_str());
    if lower != *label {
        return false;
    }
    match decode(label.as_str()) {
        Some(bytes) => bytes.len() == n && encode(bytes.as_slice()) == *label,
        None => false,
    }
}

/// Reads an overlay address from `address`, whose characters are `chars`.
fn parse_overlay(address: &str, chars: &[char]) -> (r: Result<PeerAddr, ParseError>)
    requires
        chars@ == address@,
    ensures
        match r {
            Ok(a) => parsed_overlay(address@) == Ok::<PeerAddrView, ParseErrorView>(a@),
            Err(e) => parsed_overlay(address@) == Err::<PeerAddrView, ParseErrorView>(e@),
        },
{
    let ranges = split_ranges(chars, ':');
    if ranges.len() < 2 {
        return Err(ParseError::MissingPort);
    }
    let port_text = slice_subrange(chars, ranges[1].0, ranges[1].1);
    match parse_signed_port(port_text) {
        Some(port) => parse_labelled(address, chars, ranges[0].0, ranges[0].1, port),
        None => Err(ParseError::ParseIntError(string_of(port_text))),
    }
}

/// Reads an overlay address from its host, which lies in `address` from
/// `from` up to `to`, and its port.
fn parse_labelled(address: &str, chars: &[char], from: usize, to: usize, port: u16) -> (r: Result<
    PeerAddr,
    ParseError,
>)
    requires
        chars@ == address@,
        from <= to <= chars@.len(),
    ensures
        match r {
            Ok(a) => labelled(address@.subrange(from as int, to as int), port) == Ok::<
                PeerAddrView,
                ParseErrorView,
            >(a@),
            Err(e) => labelled(address@.subrange(from as int, to as int), port) == Err::<
                PeerAddrView,
                ParseErrorView,
            >(e@),
        },
{
    let host = slice_subrange(chars, from, to);
    let onion: [char; 6] = ['.', 'o', 'n', 'i', 'o', 'n'];
    let i2p: [char; 8] = ['.', 'b', '3', '2', '.', 'i', '2', 'p'];
    let loki: [char; 5] = ['.', 'l', 'o', 'k', 'i'];
    assert(onion@ =~= onion_suffix());
    assert(i2p@ =~= i2p_suffix());
    assert(loki@ =~= loki_suffix());
    if ends_with(host, onion.as_slice()) {
        let label = address.substring_char(from, to - 6);
        assert(label@ =~= without_suffix(host@, 6));
        let length = label.as_bytes().len();
        if length == 16 {
            Ok(PeerAddr::OnionV2(label.to_owned(), port))
        } else if length == 56 {
            Ok(PeerAddr::OnionV3(label.to_owned(), port))
        } else {
            let expected: [char; 8] = ['1', '6', ' ', 'o', 'r', ' ', '5', '6'];
            assert(expected@ =~= onion_lengths());
            Err(
                ParseError::WrongLength {
                    address: label.to_owned(),
                    length,
                    expected: string_of(expected.as_slice()),
                },
            )
        }
    } else if ends_with(host, i2p.as_slice()) {
        let label = address.substring_char(from, to - 8);
        assert(label@ =~= without_suffix(host@, 8));
        Ok(PeerAddr::I2PB32(label.to_owned(), port))
    } else if ends_with(host, loki.as_slice()) {
        let label = address.substring_char(from, to - 5);
        assert(label@ =~= without_suffix(host@, 5));
        Ok(PeerAddr::Loki(label.to_owned(), port))
    } else {
        Err(ParseError::UnrecognizedAddressFormat)
    }
}

/// Appends the text of an overlay address to `out`.
fn push_overlay(out: &mut Vec<char>, label: &str, suffix: &[char], port: u16)
    ensures
        final(out)@ == old(out)@ + overlay_text(label@, suffix@, port),
{
    let chars = chars_of(label);
    push_all(out, chars.as_slice());
    push_all(out, suffix);
    out.push(':');
    push_decimal(out, port as u32);
    assert(out@ =~= old(out)@ + overlay_text(label@, suffix@, port));
}

/// Whether `label`, put in lower case, is base32 text.
fn is_packable_label(label: &str) -> (r: bool)
    ensures
        r == is_base32_text(lowercase_text(label@)),
{
    let lower = to_lowercase(label);
    decode(lower.as_str()).is_some()
}

/// The binary form of an overlay address: the bytes of its label, then the
/// port.
fn pack_label(label: &str, port: u16) -> (bytes: Vec<u8>)
    requires
        is_base32_text(lowercase_text(label@)),
    ensures
        bytes@ == base32_bytes(lowercase_text(label@)).unwrap() + port_bytes(port),
        bytes@.len() == (5 * lowercase_text(label@).len()) / 8 + 2,
{
    let lower = to_lowercase(label);
    match decode(lower.as_str()) {
        Some(mut bytes) => {
            push_port(&mut bytes, port);
            bytes
        },
        None => unreached(),
    }
}

/// The name of the family of an address.
pub open spec fn family_name(address: PeerAddrView) -> Seq<char> {
    match address {
        PeerAddrView::IPV4(_, _) => "ipv4"@,
        PeerAddrView::IPV6(_, _) => "ipv6"@,
        PeerAddrView::OnionV2(_, _) => "onionv2"@,
        PeerAddrView::OnionV3(_, _) => "onionv3"@,
        PeerAddrView::I2PB32(_, _) => "i2pb32"@,
        PeerAddrView::Loki(_, _) => "loki"@,
    }
}

/// The address of a clearnet socket as a peer address.
pub open spec fn of_socket(address: SocketAddr) -> PeerAddrView {
    match address {
        SocketAddr::V4(v4) => PeerAddrView::IPV4(v4.ip@, v4.port),
        SocketAddr::V6(v6) => PeerAddrView::IPV6(v6.ip@, v6.port),
    }
}

impl PeerAddr {
    /// The address with the name of its family: the name, and the text form
    /// in square brackets.
    pub fn describe(&self) -> (text: String)
        ensures
            text@ == family_name(self@) + " ["@ + self@.text() + "]"@,
    {
        let mut out: Vec<char> = Vec::new();
        match self {
            PeerAddr::IPV4(_, _) => push_text(&mut out, "ipv4"),
            PeerAddr::IPV6(_, _) => push_text(&mut out, "ipv6"),
            PeerAddr::OnionV2(_, _) => push_text(&mut out, "onionv2"),
            PeerAddr::OnionV3(_, _) => push_text(&mut out, "onionv3"),
            PeerAddr::I2PB32(_, _) => push_text(&mut out, "i2pb32"),
            PeerAddr::Loki(_, _) => push_text(&mut out, "loki"),
        }
        push_text(&mut out, " [");
        let text = self.to_string();
        push_text(&mut out, text.as_str());
        push_text(&mut out, "]");
        assert(out@ =~= family_name(self@) + " ["@ + self@.text() + "]"@);
        string_of(out.as_slice())
    }

    /// The peer address of a clearnet socket.
    pub fn from_socket_addr(address: SocketAddr) -> (r: PeerAddr)
        ensures
            r@ == of_socket(address),
    {
        match address {
            SocketAddr::V4(v4) => PeerAddr::IPV4(v4.ip, v4.port),
            SocketAddr::V6(v6) => PeerAddr::IPV6(v6.ip, v6.port),
        }
    }

    /// The clearnet socket of the address. An overlay address has none.
    pub fn to_socket_addr(&self) -> (r: Result<SocketAddr, AddressError>)
        ensures
            match r {
                Ok(address) => of_socket(address) == self@,
                Err(e) => !(self@ is IPV4 || self@ is IPV6) && e@
                    == AddressErrorView::InvalidAddressType,
            },
    {
        match self {
            PeerAddr::IPV4(ip, port) => Ok(SocketAddr::V4(SocketAddrV4 { ip: *ip, port: *port })),
            PeerAddr::IPV6(ip, port) => Ok(SocketAddr::V6(SocketAddrV6 { ip: *ip, port: *port })),
            _ => Err(AddressError::InvalidAddressType),
        }
    }

    /// A copy of the address.
    pub fn duplicate(&self) -> (copy: PeerAddr)
        ensures
            copy@ == self@,
    {
        self.with_port(self.get_port())
    }
}

/// What can be resolved to the addresses of peers.
pub trait ToPeerAddrs {
    /// The addresses that this stands for.
    spec fn peer_addrs(&self) -> Seq<PeerAddrView>;

    /// The addresses of the peers that this stands for. There may be none.
    fn to_peer_addrs(&self) -> (r: Result<Vec<PeerAddr>, AddressError>)
        ensures
            r matches Ok(addresses) ==> addresses@.len() == self.peer_addrs().len() && forall|
                i: int,
            |
                0 <= i < addresses@.len() ==> (#[trigger] addresses@[i])@ == self.peer_addrs()[i],
    ;
}

impl ToPeerAddrs for PeerAddr {
    open spec fn peer_addrs(&self) -> Seq<PeerAddrView> {
        seq![self@]
    }

    /// An address stands for itself.
    fn to_peer_addrs(&self) -> (r: Result<Vec<PeerAddr>, AddressError>)
        ensures
            r is Ok,
    {
        let mut addresses: Vec<PeerAddr> = Vec::new();
        addresses.push(self.duplicate());
        Ok(addresses)
    }
}

impl ToPeerAddrs for SocketAddr {
    open spec fn peer_addrs(&self) -> Seq<PeerAddrView> {
        seq![of_socket(*self)]
    }

    /// A socket address stands for the peer at that socket.
    fn to_peer_addrs(&self) -> (r: Result<Vec<PeerAddr>, AddressError>)
        ensures
            r is Ok,
    {
        let mut addresses: Vec<PeerAddr> = Vec::new();
        addresses.push(PeerAddr::from_socket_addr(*self));
        Ok(addresses)
    }
}

} // verus!
