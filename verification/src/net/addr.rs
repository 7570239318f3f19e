//! Socket addresses of clearnet and I2P peers, each with the binary form in
//! which peers exchange them: the host bytes, then the port with its low
//! byte first.

use vstd::prelude::*;
use vstd::pervasive::unreached;
use vstd::slice::slice_to_vec;
use vstd::string::StrSliceExecFns;
use crate::address::{
    i2p_suffix, port_bytes, port_from_bytes, push_port, read_label, read_port, without_suffix,
    PACKED_I2P_B32, PACKED_IPV4, PACKED_IPV6,
};
use crate::base32::{base32_bytes, base32_text, decode, is_base32_text};
use crate::text::{chars_of, ends_with, has_suffix, push_all, push_text, string_of};

verus! {

/// Why bytes are not a packed address.
#[derive(Debug, Clone, Copy, PartialEq, Eq)]
pub enum UnpackError {
    /// No address of the kind asked for has this many bytes.
    ByteLength,
}

/// An address that has a binary form.
pub trait PackableAddr: Sized {
    /// Whether the address has a binary form.
    spec fn packable(&self) -> bool;

    /// The binary form of the address.
    spec fn packed(&self) -> Seq<u8>;

    /// Whether the bytes have the length of an address of this kind.
    spec fn holds(bytes: Seq<u8>) -> bool;

    /// Whether the address is the one that the bytes hold.
    spec fn is_from(&self, bytes: Seq<u8>) -> bool;

    /// The binary form of the address.
    fn pack(&self) -> (bytes: Vec<u8>)
        requires
            self.packable(),
        ensures
            bytes@ == self.packed(),
    ;

    /// Reads an address from its binary form. Bytes of another length are
    /// refused.
    fn unpack(bytes: &Vec<u8>) -> (r: Result<Self, UnpackError>)
        ensures
            r is Ok <==> Self::holds(bytes@),
            r matches Ok(address) ==> address.is_from(bytes@),
    ;
}

/// An IPv4 address and a port.
#[derive(Debug, Clone, Copy, PartialEq, Eq)]
pub struct SocketAddrV4 {
    pub ip: [u8; 4],
    pub port: u16,
}

/// An IPv6 address and a port.
#[derive(Debug, Clone, Copy, PartialEq, Eq)]
pub struct SocketAddrV6 {
    pub ip: [u8; 16],
    pub port: u16,
}

/// A clearnet address and a port.
#[derive(Debug, Clone, Copy, PartialEq, Eq)]
pub enum SocketAddr {
    V4(SocketAddrV4),
    V6(SocketAddrV6),
}

/// An I2P destination, with its suffix `.b32.i2p`, and a port.
#[derive(Debug, PartialEq, Eq)]
pub struct I2pSocketAddr {
    pub dest: String,
    pub port: u16,
}

/// The address of a peer.
#[derive(Debug, PartialEq, Eq)]
pub enum PeerAddr {
    Ip(SocketAddr),
    I2p(I2pSocketAddr),
}

impl PackableAddr for SocketAddrV4 {
    open spec fn packable(&self) -> bool {
        true
    }

    open spec fn packed(&self) -> Seq<u8> {
        self.ip@ + port_bytes(self.port)
    }

    open spec fn holds(bytes: Seq<u8>) -> bool {
        bytes.len() == PACKED_IPV4
    }

    open spec fn is_from(&self, bytes: Seq<u8>) -> bool {
        self.ip@ == bytes.subrange(0, 4) && self.port == port_from_bytes(bytes[4], bytes[5])
    }

    fn pack(&self) -> (bytes: Vec<u8>) {
        let mut bytes = slice_to_vec(self.ip.as_slice());
        push_port(&mut bytes, self.port);
        bytes
    }

    fn unpack(bytes: &Vec<u8>) -> (r: Result<Self, UnpackError>) {
        if bytes.len() != PACKED_IPV4 {
            return Err(UnpackError::ByteLength);
        }
        let ip: [u8; 4] = [bytes[0], bytes[1], bytes[2], bytes[3]];
        assert(ip@ =~= bytes@.subrange(0, 4));
        Ok(SocketAddrV4 { ip, port: read_port(bytes) })
    }
}

impl PackableAddr for SocketAddrV6 {
    open spec fn packable(&self) -> bool {
        true
    }

    open spec fn packed(&self) -> Seq<u8> {
        self.ip@ + port_bytes(self.port)
    }

    open spec fn holds(bytes: Seq<u8>) -> bool {
        bytes.len() == PACKED_IPV6
    }

    open spec fn is_from(&self, bytes: Seq<u8>) -> bool {
        self.ip@ == bytes.subrange(0, 16) && self.port == port_from_bytes(bytes[16], bytes[17])
    }

    fn pack(&self) -> (bytes: Vec<u8>) {
        let mut bytes = slice_to_vec(self.ip.as_slice());
        push_port(&mut bytes, self.port);
        bytes
    }

    fn unpack(bytes: &Vec<u8>) -> (r: Result<Self, UnpackError>) {
        if bytes.len() != PACKED_IPV6 {
            return Err(UnpackError::ByteLength);
        }
        let ip: [u8; 16] = [
            bytes[0],
            bytes[1],
            bytes[2],
            bytes[3],
            bytes[4],
            bytes[5],
            bytes[6],
            bytes[7],
            bytes[8],
            bytes[9],
            bytes[10],
            bytes[11],
            bytes[12],
            bytes[13],
            bytes[14],
            bytes[15],
        ];
        assert(ip@ =~= bytes@.subrange(0, 16));
        Ok(SocketAddrV6 { ip, port: read_port(bytes) })
    }
}

impl PackableAddr for SocketAddr {
    open spec fn packable(&self) -> bool {
        true
    }

    open spec fn packed(&self) -> Seq<u8> {
        match *self {
            SocketAddr::V4(addr) => addr.packed(),
            SocketAddr::V6(addr) => addr.packed(),
        }
    }

    open spec fn holds(bytes: Seq<u8>) -> bool {
        SocketAddrV4::holds(bytes) || SocketAddrV6::holds(bytes)
    }

    open spec fn is_from(&self, bytes: Seq<u8>) -> bool {
        match *self {
            SocketAddr::V4(addr) => SocketAddrV4::holds(bytes) && addr.is_from(bytes),
            SocketAddr::V6(addr) => SocketAddrV6::holds(bytes) && addr.is_from(bytes),
        }
    }

    fn pack(&self) -> (bytes: Vec<u8>) {
        match self {
            SocketAddr::V4(addr) => addr.pack(),
            SocketAddr::V6(addr) => addr.pack(),
        }
    }

    fn unpack(bytes: &Vec<u8>) -> (r: Result<Self, UnpackError>) {
        if bytes.len() == PACKED_IPV4 {
            match SocketAddrV4::unpack(bytes) {
                Ok(addr) => Ok(SocketAddr::V4(addr)),
                Err(e) => Err(e),
            }
        } else if bytes.len() == PACKED_IPV6 {
            match SocketAddrV6::unpack(bytes) {
                Ok(addr) => Ok(SocketAddr::V6(addr)),
                Err(e) => Err(e),
            }
        } else {
            Err(UnpackError::ByteLength)
        }
    }
}

impl PackableAddr for I2pSocketAddr {
    /// A destination has a binary form where it ends with `.b32.i2p` and
    /// what stands before that is base32 text.
    open spec fn packable(&self) -> bool {
        has_suffix(self.dest@, i2p_suffix()) && is_base32_text(without_suffix(self.dest@, 8))
    }

    open spec fn packed(&self) -> Seq<u8> {
        base32_bytes(without_suffix(self.dest@, 8)).unwrap() + port_bytes(self.port)
    }

    open spec fn holds(bytes: Seq<u8>) -> bool {
        bytes.len() == PACKED_I2P_B32
    }

    open spec fn is_from(&self, bytes: Seq<u8>) -> bool {
        self.dest@ == base32_text(bytes.subrange(0, 32)) + i2p_suffix() && self.port
            == port_from_bytes(bytes[32], bytes[33])
    }

    fn pack(&self) -> (bytes: Vec<u8>) {
        let chars = chars_of(self.dest.as_str());
        let label = self.dest.as_str().substring_char(0, chars.len() - 8);
        assert(label@ =~= without_suffix(self.dest@, 8));
        match decode(label) {
            Some(mut bytes) => {
                push_port(&mut bytes, self.port);
                bytes
            },
            None => unreached(),
        }
    }

    fn unpack(bytes: &Vec<u8>) -> (r: Result<Self, UnpackError>) {
        if bytes.len() != PACKED_I2P_B32 {
            return Err(UnpackError::ByteLength);
        }
        let label = read_label(bytes);
        let mut dest: Vec<char> = Vec::new();
        push_text(&mut dest, label.as_str());
        let suffix: [char; 8] = ['.', 'b', '3', '2', '.', 'i', '2', 'p'];
        assert(suffix@ =~= i2p_suffix());
        push_all(&mut dest, suffix.as_slice());
        assert(dest@ =~= base32_text(bytes@.subrange(0, 32)) + i2p_suffix());
        Ok(I2pSocketAddr { dest: string_of(dest.as_slice()), port: read_port(bytes) })
    }
}

impl I2pSocketAddr {
    /// The binary form of the address, or `None` where it has none.
    pub fn try_pack(&self) -> (r: Option<Vec<u8>>)
        ensures
            r is Some <==> self.packable(),
            r is Some ==> r.unwrap()@ == self.packed(),
    {
        let chars = chars_of(self.dest.as_str());
        let suffix: [char; 8] = ['.', 'b', '3', '2', '.', 'i', '2', 'p'];
        assert(suffix@ =~= i2p_suffix());
        if !ends_with(chars.as_slice(), suffix.as_slice()) {
            return None;
        }
        let label = self.dest.as_str().substring_char(0, chars.len() - 8);
        assert(label@ =~= without_suffix(self.dest@, 8));
        if decode(label).is_some() {
            Some(self.pack())
        } else {
            None
        }
    }
}

impl PackableAddr for PeerAddr {
    open spec fn packable(&self) -> bool {
        match *self {
            PeerAddr::Ip(addr) => addr.packable(),
            PeerAddr::I2p(addr) => addr.packable(),
        }
    }

    open spec fn packed(&self) -> Seq<u8> {
        match *self {
            PeerAddr::Ip(addr) => addr.packed(),
            PeerAddr::I2p(addr) => addr.packed(),
        }
    }

    open spec fn holds(bytes: Seq<u8>) -> bool {
        SocketAddr::holds(bytes) || I2pSocketAddr::holds(bytes)
    }

    open spec fn is_from(&self, bytes: Seq<u8>) -> bool {
        match *self {
            PeerAddr::Ip(addr) => SocketAddr::holds(bytes) && addr.is_from(bytes),
            PeerAddr::I2p(addr) => I2pSocketAddr::holds(bytes) && addr.is_from(bytes),
        }
    }

    fn pack(&self) -> (bytes: Vec<u8>) {
        match self {
            PeerAddr::Ip(addr) => addr.pack(),
            PeerAddr::I2p(addr) => addr.pack(),
        }
    }

    fn unpack(bytes: &Vec<u8>) -> (r: Result<Self, UnpackError>) {
        match SocketAddr::unpack(bytes) {
            Ok(addr) => {
                return Ok(PeerAddr::Ip(addr));
            },
            Err(_) => {},
        }
        match I2pSocketAddr::unpack(bytes) {
            Ok(addr) => Ok(PeerAddr::I2p(addr)),
            Err(e) => Err(e),
        }
    }
}

} // verus!
