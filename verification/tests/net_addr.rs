use zeronet_protocol::address::{AddressError, PeerAddr as Peer, ToPeerAddrs};
use zeronet_protocol::net::addr::{
    I2pSocketAddr, PackableAddr, PeerAddr, SocketAddr, SocketAddrV4, SocketAddrV6, UnpackError,
};

#[test]
fn socket_v4_packs_to_six_bytes() {
    let socket_addr = SocketAddrV4 { ip: [127, 0, 0, 1], port: 8080 };
    let bytes = socket_addr.pack();
    assert_eq!(bytes, vec![127, 0, 0, 1, 144, 31]);
    let back = SocketAddrV4::unpack(&bytes).unwrap();
    assert_eq!(back.port, 8080);
    assert_eq!(back.ip, [127, 0, 0, 1]);
}

#[test]
fn socket_v6_packs_to_eighteen_bytes() {
    let mut ip = [0u8; 16];
    ip[15] = 1;
    let socket_addr = SocketAddrV6 { ip, port: 8080 };
    let bytes = socket_addr.pack();
    assert_eq!(bytes, vec![0, 0, 0, 0, 0, 0, 0, 0, 0, 0, 0, 0, 0, 0, 0, 1, 144, 31]);
    let back = SocketAddrV6::unpack(&bytes).unwrap();
    assert_eq!(back.port, 8080);
    assert_eq!(back.ip, ip);
}

#[test]
fn socket_addr_is_told_by_its_length() {
    let v4 = SocketAddr::unpack(&vec![127, 0, 0, 1, 144, 31]).unwrap();
    assert_eq!(v4, SocketAddr::V4(SocketAddrV4 { ip: [127, 0, 0, 1], port: 8080 }));
    assert_eq!(v4.pack(), vec![127, 0, 0, 1, 144, 31]);
    let bytes = vec![0, 0, 0, 0, 0, 0, 0, 0, 0, 0, 0, 0, 0, 0, 0, 1, 144, 31];
    let v6 = SocketAddr::unpack(&bytes).unwrap();
    assert!(matches!(v6, SocketAddr::V6(_)));
    assert_eq!(v6.pack(), bytes);
    assert_eq!(SocketAddr::unpack(&vec![1, 2, 3]), Err(UnpackError::ByteLength));
    assert_eq!(SocketAddrV4::unpack(&bytes), Err(UnpackError::ByteLength));
    assert_eq!(SocketAddrV6::unpack(&vec![1, 2, 3, 4, 5, 6]), Err(UnpackError::ByteLength));
}

#[test]
fn i2p_packs_the_bytes_of_its_label() {
    let socket_addr = I2pSocketAddr {
        dest: "q7pllaqdxb6ftmt5rd6iov4htnjex46x5kvemek2issd7rhcj5dq.b32.i2p".to_string(),
        port: 8080,
    };
    let expected = vec![
        135, 222, 181, 130, 3, 184, 124, 89, 178, 125, 136, 252, 135, 87, 135, 155, 82, 75, 243,
        215, 234, 170, 70, 17, 90, 68, 164, 63, 196, 226, 79, 71, 144, 31,
    ];
    assert_eq!(socket_addr.pack(), expected);
    assert_eq!(socket_addr.try_pack(), Some(expected.clone()));
    let back = I2pSocketAddr::unpack(&expected).unwrap();
    assert_eq!(back, socket_addr);
    assert_eq!(I2pSocketAddr::unpack(&vec![0; 6]), Err(UnpackError::ByteLength));
}

#[test]
fn i2p_without_suffix_or_base32_has_no_binary_form() {
    let no_suffix = I2pSocketAddr { dest: "abc".to_string(), port: 1 };
    assert_eq!(no_suffix.try_pack(), None);
    let no_base32 = I2pSocketAddr { dest: "a!c.b32.i2p".to_string(), port: 1 };
    assert_eq!(no_base32.try_pack(), None);
}

#[test]
fn peer_addr_takes_every_length() {
    let ip = PeerAddr::unpack(&vec![127, 0, 0, 1, 144, 31]).unwrap();
    assert_eq!(ip, PeerAddr::Ip(SocketAddr::V4(SocketAddrV4 { ip: [127, 0, 0, 1], port: 8080 })));
    assert_eq!(ip.pack(), vec![127, 0, 0, 1, 144, 31]);
    let i2p = PeerAddr::unpack(&vec![0u8; 34]).unwrap();
    assert!(matches!(i2p, PeerAddr::I2p(_)));
    assert_eq!(i2p.pack(), vec![0u8; 34]);
    assert!(matches!(PeerAddr::unpack(&vec![0u8; 12]), Err(UnpackError::ByteLength)));
}

#[test]
fn socket_and_peer_addresses_convert() {
    let v4 = SocketAddr::V4(SocketAddrV4 { ip: [127, 0, 0, 1], port: 4321 });
    let peer = Peer::from_socket_addr(v4);
    assert_eq!(peer, Peer::IPV4([127, 0, 0, 1], 4321));
    assert_eq!(peer.to_socket_addr().unwrap(), v4);
    let v6 = SocketAddr::V6(SocketAddrV6 { ip: [7; 16], port: 1 });
    assert_eq!(Peer::from_socket_addr(v6), Peer::IPV6([7; 16], 1));
    assert_eq!(Peer::IPV6([7; 16], 1).to_socket_addr().unwrap(), v6);
    assert!(matches!(
        Peer::Loki("a".to_string(), 1).to_socket_addr(),
        Err(AddressError::InvalidAddressType)
    ));
    assert!(matches!(
        Peer::OnionV2("a".to_string(), 1).to_socket_addr(),
        Err(AddressError::InvalidAddressType)
    ));
    // An address stands for itself, a socket for the peer at it.
    assert_eq!(peer.to_peer_addrs().unwrap(), vec![Peer::IPV4([127, 0, 0, 1], 4321)]);
    assert_eq!(v6.to_peer_addrs().unwrap(), vec![Peer::IPV6([7; 16], 1)]);
    let parsed = Peer::parse("127.0.0.1:4321").unwrap();
    assert!(parsed.to_peer_addrs().is_ok());
    assert!(parsed.to_peer_addrs().unwrap().len() == 1);
}
