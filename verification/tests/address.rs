use zeronet_protocol::address::{AddressError, ParseError, PeerAddr};
use zeronet_protocol::digits::{find_fault, NumeralFault};

#[test]
fn test_pack_ipv4() {
    let address = PeerAddr::parse("127.0.0.1:4321").expect("could not parse address");
    let packed = address.pack();

    assert_eq!(packed, [127, 0, 0, 1, 225, 16]);
}

#[test]
fn test_pack_ipv6() {
    let address_string = "[1001:2002:3003:4004:5005:6006:7007:8008]:4321".to_string();
    let address = PeerAddr::parse(&address_string).expect("could not parse address");
    let packed = address.pack();
    let unpacked = PeerAddr::unpack(&packed).expect("could not unpack address");

    assert_eq!(packed, [16, 1, 32, 2, 48, 3, 64, 4, 80, 5, 96, 6, 112, 7, 128, 8, 225, 16]);
    assert_eq!(unpacked.to_string(), address_string);
}

#[test]
fn test_pack_ipv6_shorthand() {
    let address_string = "[2001:db8::ff00:42:8329]:4321".to_string();
    let address = PeerAddr::parse(&address_string).expect("could not parse address");
    let packed = address.pack();
    let unpacked = PeerAddr::unpack(&packed).expect("could not unpack address");

    assert_eq!(packed, [32, 1, 13, 184, 0, 0, 0, 0, 0, 0, 255, 0, 0, 66, 131, 41, 225, 16]);
    assert_eq!(unpacked.to_string(), address_string);
}

#[test]
fn test_pack_onionv2() {
    let address_string = "ytcnzluhaxidtbf4.onion:4321".to_string();
    let address = PeerAddr::parse(&address_string).expect("could not parse address");
    let packed = address.pack();
    let unpacked = PeerAddr::unpack(&packed).expect("could not unpack address");

    assert_eq!(packed, [196, 196, 220, 174, 135, 5, 208, 57, 132, 188, 225, 16]);
    assert_eq!(unpacked.to_string(), address_string);
}

#[test]
fn test_pack_onionv3() {
    let address_string =
        "trackd5xiih3z7xyvvkyz2n65lehqziayjpxzsau3mwccwlelxrdrgid.onion:4321".to_string();
    let address = PeerAddr::parse(&address_string).expect("could not parse address");
    let packed = address.pack();
    let unpacked = PeerAddr::unpack(&packed).expect("could not unpack address");

    assert_eq!(
        packed,
        [
            156, 64, 37, 15, 183, 66, 15, 188, 254, 248, 173, 85, 140, 233, 190, 234, 200, 120,
            101, 0, 194, 95, 124, 200, 20, 219, 44, 33, 89, 100, 93, 226, 56, 153, 3, 225, 16
        ]
    );
    assert_eq!(unpacked.to_string(), address_string);
}

#[test]
fn test_pack_i2pb32() {
    let address_string =
        "udhdrtrcetjm5sxzskjyr5ztpeszydbh4dpl3pl4utgqqw2v4jna.b32.i2p:4321".to_string();
    let address = PeerAddr::parse(&address_string).expect("could not parse address");
    let packed = address.pack();
    let unpacked = PeerAddr::unpack(&packed).expect("could not unpack address");

    assert_eq!(
        packed,
        [
            160, 206, 56, 206, 34, 36, 210, 206, 202, 249, 146, 147, 136, 247, 51, 121, 37, 156,
            12, 39, 224, 222, 189, 189, 124, 164, 205, 8, 91, 85, 226, 90, 225, 16
        ]
    );
    assert_eq!(unpacked.to_string(), address_string);
}

#[test]
fn parse_tells_the_families_apart() {
    assert!(PeerAddr::parse("127.0.0.1:8001").unwrap().is_clearnet());
    assert!(PeerAddr::parse("[::1]:8001").unwrap().is_clearnet());
    assert!(PeerAddr::parse("ytcnzluhaxidtbf4.onion:1").unwrap().is_onion());
    assert!(PeerAddr::parse("udhdrtrcetjm5sxzskjyr5ztpeszydbh4dpl3pl4utgqqw2v4jna.b32.i2p:1")
        .unwrap()
        .is_i2p());
    assert!(PeerAddr::parse("dw68y1xhptqbhcm5s8aaaip6dbopykagig5q5u1za4c7pzxto77y.loki:1")
        .unwrap()
        .is_loki());
    assert!(!PeerAddr::parse("127.0.0.1:8001").unwrap().is_onion());
    assert!(!PeerAddr::parse("127.0.0.1:8001").unwrap().is_i2p());
    assert!(!PeerAddr::parse("127.0.0.1:8001").unwrap().is_loki());
    assert!(!PeerAddr::parse("ytcnzluhaxidtbf4.onion:1").unwrap().is_clearnet());
}

#[test]
fn parse_yields_the_values_of_the_text() {
    assert_eq!(PeerAddr::parse("127.0.0.1:4321").unwrap(), PeerAddr::IPV4([127, 0, 0, 1], 4321));
    assert_eq!(PeerAddr::parse("0.0.0.0:0").unwrap(), PeerAddr::IPV4([0, 0, 0, 0], 0));
    assert_eq!(
        PeerAddr::parse("255.255.255.255:65535").unwrap(),
        PeerAddr::IPV4([255, 255, 255, 255], 65535)
    );
    assert_eq!(PeerAddr::parse("1.2.3.4:080").unwrap(), PeerAddr::IPV4([1, 2, 3, 4], 80));
    let mut one = [0u8; 16];
    one[15] = 1;
    assert_eq!(PeerAddr::parse("[::1]:15441").unwrap(), PeerAddr::IPV6(one, 15441));
    assert_eq!(PeerAddr::parse("[0:0:0:0:0:0:0:1]:15441").unwrap(), PeerAddr::IPV6(one, 15441));
    assert_eq!(PeerAddr::parse("[::]:1").unwrap(), PeerAddr::IPV6([0u8; 16], 1));
    let mut first = [0u8; 16];
    first[1] = 1;
    assert_eq!(PeerAddr::parse("[1::]:1").unwrap(), PeerAddr::IPV6(first, 1));
    let mut upper = [0u8; 16];
    upper[0] = 0xab;
    upper[1] = 0xcd;
    assert_eq!(PeerAddr::parse("[ABCD::]:1").unwrap(), PeerAddr::IPV6(upper, 1));
    assert_eq!(PeerAddr::parse("[abcd::]:1").unwrap(), PeerAddr::IPV6(upper, 1));
    let mapped = [0, 0, 0, 0, 0, 0, 0, 0, 0, 0, 255, 255, 1, 2, 3, 4];
    assert_eq!(PeerAddr::parse("[::ffff:1.2.3.4]:80").unwrap(), PeerAddr::IPV6(mapped, 80));
    assert_eq!(PeerAddr::parse("[::ffff:102:304]:80").unwrap(), PeerAddr::IPV6(mapped, 80));
    assert_eq!(
        PeerAddr::parse("[1:2:3:4:5:6:1.2.3.4]:80").unwrap(),
        PeerAddr::IPV6([0, 1, 0, 2, 0, 3, 0, 4, 0, 5, 0, 6, 1, 2, 3, 4], 80)
    );
    assert_eq!(
        PeerAddr::parse("ytcnzluhaxidtbf4.onion:4321").unwrap(),
        PeerAddr::OnionV2("ytcnzluhaxidtbf4".to_string(), 4321)
    );
    assert_eq!(
        PeerAddr::parse("ytcnzluhaxidtbf4.onion:+4321").unwrap(),
        PeerAddr::OnionV2("ytcnzluhaxidtbf4".to_string(), 4321)
    );
    assert_eq!(
        PeerAddr::parse("ytcnzluhaxidtbf4.onion:4321:ignored").unwrap(),
        PeerAddr::OnionV2("ytcnzluhaxidtbf4".to_string(), 4321)
    );
    assert_eq!(
        PeerAddr::parse("short.b32.i2p:7").unwrap(),
        PeerAddr::I2PB32("short".to_string(), 7)
    );
    assert_eq!(PeerAddr::parse("name.loki:7").unwrap(), PeerAddr::Loki("name".to_string(), 7));
}

#[test]
fn parse_refuses_what_is_no_address() {
    assert!(matches!(PeerAddr::parse("127.0.0.1"), Err(ParseError::MissingPort)));
    assert!(matches!(PeerAddr::parse(""), Err(ParseError::MissingPort)));
    assert!(matches!(PeerAddr::parse("example.onion"), Err(ParseError::MissingPort)));
    assert!(matches!(
        PeerAddr::parse("example.com:80"),
        Err(ParseError::UnrecognizedAddressFormat)
    ));
    assert!(matches!(
        PeerAddr::parse("256.0.0.1:80"),
        Err(ParseError::UnrecognizedAddressFormat)
    ));
    assert!(matches!(
        PeerAddr::parse("01.0.0.1:80"),
        Err(ParseError::UnrecognizedAddressFormat)
    ));
    assert!(matches!(
        PeerAddr::parse("1.2.3:80"),
        Err(ParseError::UnrecognizedAddressFormat)
    ));
    assert!(matches!(
        PeerAddr::parse("1.2.3.4.5:80"),
        Err(ParseError::UnrecognizedAddressFormat)
    ));
    match PeerAddr::parse("127.0.0.1:65536") {
        Err(ParseError::ParseIntError(text)) => assert_eq!(text, "65536"),
        other => panic!("unexpected {:?}", other),
    }
    match PeerAddr::parse("ytcnzluhaxidtbf4.onion:http") {
        Err(ParseError::ParseIntError(text)) => assert_eq!(text, "http"),
        other => panic!("unexpected {:?}", other),
    }
    match PeerAddr::parse("ytcnzluhaxidtbf4.onion:") {
        Err(ParseError::ParseIntError(text)) => assert_eq!(text, ""),
        other => panic!("unexpected {:?}", other),
    }
    match PeerAddr::parse("tooshort.onion:80") {
        Err(ParseError::WrongLength { address, length, expected }) => {
            assert_eq!(address, "tooshort");
            assert_eq!(length, 8);
            assert_eq!(expected, "16 or 56");
        }
        other => panic!("unexpected {:?}", other),
    }
    // An IPv6 address needs its brackets, and only one gap.
    assert!(PeerAddr::parse("::1:80").is_err());
    assert!(PeerAddr::parse("[1::2::3]:80").is_err());
    assert!(PeerAddr::parse("[1:2:3:4:5:6:7]:80").is_err());
    assert!(PeerAddr::parse("[1:2:3:4:5:6:7:8:9]:80").is_err());
    assert!(PeerAddr::parse("[1:2:3:4:5:6:7:8::]:80").is_err());
    assert!(PeerAddr::parse("[12345::]:80").is_err());
    assert!(PeerAddr::parse("[::g]:80").is_err());
    assert!(PeerAddr::parse("[::1]80").is_err());
    assert!(PeerAddr::parse("[::1]:").is_err());
    assert!(PeerAddr::parse("[1.2.3.4::]:80").is_err());
}

#[test]
fn to_string_is_the_canonical_text() {
    assert_eq!(PeerAddr::IPV4([127, 0, 0, 1], 4321).to_string(), "127.0.0.1:4321");
    assert_eq!(PeerAddr::IPV4([0, 0, 0, 0], 0).to_string(), "0.0.0.0:0");
    assert_eq!(PeerAddr::IPV6([0u8; 16], 80).to_string(), "[::]:80");
    let mut one = [0u8; 16];
    one[15] = 1;
    assert_eq!(PeerAddr::IPV6(one, 80).to_string(), "[::1]:80");
    let mut first = [0u8; 16];
    first[1] = 1;
    assert_eq!(PeerAddr::IPV6(first, 80).to_string(), "[1::]:80");
    // Of two runs of zero groups of one length the first is left out, and
    // a single zero group is written.
    assert_eq!(
        PeerAddr::IPV6([0, 1, 0, 0, 0, 0, 0, 2, 0, 0, 0, 0, 0, 3, 0, 4], 80).to_string(),
        "[1::2:0:0:3:4]:80"
    );
    assert_eq!(
        PeerAddr::IPV6([0, 1, 0, 0, 0, 2, 0, 0, 0, 0, 0, 0, 0, 3, 0, 4], 80).to_string(),
        "[1:0:2::3:4]:80"
    );
    assert_eq!(
        PeerAddr::IPV6([0, 1, 0, 0, 0, 2, 0, 3, 0, 4, 0, 5, 0, 6, 0, 7], 80).to_string(),
        "[1:0:2:3:4:5:6:7]:80"
    );
    assert_eq!(
        PeerAddr::IPV6([0, 0, 0, 0, 0, 0, 0, 0, 0, 0, 255, 255, 1, 2, 3, 4], 80).to_string(),
        "[::ffff:1.2.3.4]:80"
    );
    assert_eq!(
        PeerAddr::IPV6([0xab, 0xcd, 0, 0x0f, 0, 0, 0, 0, 0, 0, 0, 0, 0, 0, 0x10, 0], 1)
            .to_string(),
        "[abcd:f::1000]:1"
    );
    assert_eq!(PeerAddr::Loki("name".to_string(), 7).to_string(), "name.loki:7");
    assert_eq!(PeerAddr::I2PB32("name".to_string(), 7).to_string(), "name.b32.i2p:7");
    assert_eq!(PeerAddr::OnionV2("name".to_string(), 65535).to_string(), "name.onion:65535");
}

#[test]
fn text_round_trip_of_every_family() {
    let addresses = vec![
        PeerAddr::IPV4([10, 200, 3, 44], 15441),
        PeerAddr::IPV6([0x20, 1, 0x0d, 0xb8, 0, 0, 0, 0, 0, 0, 0, 0, 0, 0, 0, 1], 15441),
        PeerAddr::IPV6([0, 0, 0, 0, 0, 0, 0, 0, 0, 0, 255, 255, 192, 168, 0, 1], 15441),
        PeerAddr::IPV6([255; 16], 1),
        PeerAddr::OnionV2("ytcnzluhaxidtbf4".to_string(), 80),
        PeerAddr::OnionV3(
            "trackd5xiih3z7xyvvkyz2n65lehqziayjpxzsau3mwccwlelxrdrgid".to_string(),
            80,
        ),
        PeerAddr::I2PB32("udhdrtrcetjm5sxzskjyr5ztpeszydbh4dpl3pl4utgqqw2v4jna".to_string(), 80),
        PeerAddr::Loki("dw68y1xhptqbhcm5s8aaaip6dbopykagig5q5u1za4c7pzxto77y".to_string(), 80),
    ];
    for address in addresses {
        assert_eq!(PeerAddr::parse(&address.to_string()).unwrap(), address);
    }
}

#[test]
fn binary_round_trip_of_every_family_that_packs() {
    let addresses = vec![
        PeerAddr::IPV4([10, 200, 3, 44], 15441),
        PeerAddr::IPV6([0x20, 1, 0x0d, 0xb8, 0, 0, 0, 0, 0, 0, 0, 0, 0, 0, 0, 1], 15441),
        PeerAddr::OnionV2("ytcnzluhaxidtbf4".to_string(), 80),
        PeerAddr::OnionV3(
            "trackd5xiih3z7xyvvkyz2n65lehqziayjpxzsau3mwccwlelxrdrgid".to_string(),
            80,
        ),
        PeerAddr::I2PB32("udhdrtrcetjm5sxzskjyr5ztpeszydbh4dpl3pl4utgqqw2v4jna".to_string(), 80),
    ];
    let lengths = [6, 18, 12, 37, 34];
    for (address, length) in addresses.into_iter().zip(lengths) {
        let packed = address.try_pack().unwrap();
        assert_eq!(packed.len(), length);
        assert_eq!(PeerAddr::unpack(&packed).unwrap(), address);
    }
}

#[test]
fn the_port_is_packed_low_byte_first() {
    assert_eq!(PeerAddr::IPV4([1, 2, 3, 4], 1).pack(), [1, 2, 3, 4, 1, 0]);
    assert_eq!(PeerAddr::IPV4([1, 2, 3, 4], 256).pack(), [1, 2, 3, 4, 0, 1]);
    assert_eq!(PeerAddr::IPV4([1, 2, 3, 4], 65535).pack(), [1, 2, 3, 4, 255, 255]);
    assert_eq!(
        PeerAddr::unpack(&vec![1, 2, 3, 4, 144, 31]).unwrap(),
        PeerAddr::IPV4([1, 2, 3, 4], 8080)
    );
}

#[test]
fn unpack_refuses_other_lengths() {
    for length in [0usize, 1, 2, 5, 7, 11, 13, 17, 19, 33, 35, 36, 38, 100] {
        let bytes = vec![7u8; length];
        match PeerAddr::unpack(&bytes) {
            Err(AddressError::InvalidBytearray(found)) => assert_eq!(found, length),
            other => panic!("unexpected {:?}", other),
        }
    }
}

#[test]
fn a_label_is_packed_in_lower_case() {
    let lower = PeerAddr::OnionV2("ytcnzluhaxidtbf4".to_string(), 4321);
    let upper = PeerAddr::OnionV2("YTCNZLUHAXIDTBF4".to_string(), 4321);
    assert_eq!(upper.pack(), lower.pack());
    assert_eq!(upper.try_pack(), lower.try_pack());
}

#[test]
fn what_has_no_binary_form_is_not_packed() {
    // A Loki address has none, nor has a label that is not base32 text.
    assert_eq!(PeerAddr::Loki("name".to_string(), 7).try_pack(), None);
    assert_eq!(PeerAddr::OnionV2("not base32!".to_string(), 7).try_pack(), None);
    assert_eq!(PeerAddr::OnionV2("18901890".to_string(), 7).try_pack(), None);
    assert!(PeerAddr::I2PB32("abc".to_string(), 7).try_pack().is_some());
}

#[test]
fn with_port_keeps_the_host() {
    let address = PeerAddr::parse("127.0.0.1:4321").unwrap();
    let address = address.with_port(1234);
    assert_eq!(address.to_string(), "127.0.0.1:1234".to_string());
    assert_eq!(address.get_port(), 1234);
    let onion = PeerAddr::OnionV2("ytcnzluhaxidtbf4".to_string(), 1).with_port(2);
    assert_eq!(onion, PeerAddr::OnionV2("ytcnzluhaxidtbf4".to_string(), 2));
    assert_eq!(PeerAddr::Loki("name".to_string(), 1).with_port(9).get_port(), 9);
}

#[test]
fn address_errors_in_words() {
    assert_eq!(ParseError::MissingPort.to_string(), "Address is missing port");
    assert_eq!(
        ParseError::UnrecognizedAddressFormat.to_string(),
        "Unrecognized address format"
    );
    for found in ["x1", "", "+", "-", "-1", "+-1", "65536", "+65536", "99999x", "6553x", "1 "] {
        let expected = format!("Error parsing int: `{}`", found.parse::<u16>().unwrap_err());
        assert_eq!(ParseError::ParseIntError(found.to_string()).to_string(), expected, "{}", found);
    }
    assert_eq!(
        ParseError::ParseIntError("x1".to_string()).to_string(),
        "Error parsing int: `invalid digit found in string`"
    );
    assert_eq!(
        PeerAddr::parse("ytcnzluhaxidtbf4.onion:").unwrap_err().to_string(),
        "Error parsing int: `cannot parse integer from empty string`"
    );
    assert_eq!(
        PeerAddr::parse("ytcnzluhaxidtbf4.onion:65536").unwrap_err().to_string(),
        "Error parsing int: `number too large to fit in target type`"
    );
    assert_eq!(
        PeerAddr::parse("tooshort.onion:80").unwrap_err().to_string(),
        "Address `tooshort` has wrong length (8) for 16 or 56"
    );
    assert_eq!(AddressError::UnpackError.to_string(), "Error unpacking address");
    assert_eq!(
        AddressError::InvalidBytearray(120).to_string(),
        "Unexpected number of bytes 120"
    );
    assert_eq!(
        AddressError::TcpStreamError.to_string(),
        "Error creating tcp stream read-write pair"
    );
    assert_eq!(AddressError::IoError("refused".to_string()).to_string(), "I/O Error");
    assert_eq!(AddressError::InvalidAddressType.to_string(), "Address is of an invalid type");
}

#[test]
fn an_address_is_described_with_its_family() {
    assert_eq!(PeerAddr::IPV4([127, 0, 0, 1], 4321).describe(), "ipv4 [127.0.0.1:4321]");
    assert_eq!(PeerAddr::IPV6([0u8; 16], 1).describe(), "ipv6 [[::]:1]");
    assert_eq!(PeerAddr::OnionV2("a".to_string(), 1).describe(), "onionv2 [a.onion:1]");
    assert_eq!(PeerAddr::OnionV3("a".to_string(), 1).describe(), "onionv3 [a.onion:1]");
    assert_eq!(PeerAddr::I2PB32("a".to_string(), 1).describe(), "i2pb32 [a.b32.i2p:1]");
    assert_eq!(PeerAddr::Loki("a".to_string(), 1).describe(), "loki [a.loki:1]");
}

#[test]
fn what_is_unpacked_can_be_read_from_its_text() {
    for length in [6usize, 12, 18, 34, 37] {
        for fill in [0u8, 1, 0x5a, 0xff] {
            let mut bytes = vec![fill; length];
            bytes[0] = 9;
            let address = PeerAddr::unpack(&bytes).unwrap();
            assert_eq!(PeerAddr::parse(&address.to_string()).unwrap(), address);
            assert_eq!(address.pack(), bytes);
            assert_eq!(address.duplicate(), address);
        }
    }
}

#[test]
fn what_unpacking_yields_is_well_formed() {
    for length in [6usize, 12, 18, 34, 37] {
        let bytes: Vec<u8> = (0..length).map(|i| (i * 37 + 11) as u8).collect();
        let address = PeerAddr::unpack(&bytes).unwrap();
        assert!(address.is_well_formed(), "{:?}", address);
        assert_eq!(PeerAddr::unpack(&address.pack()).unwrap(), address);
    }
    assert!(PeerAddr::OnionV2("ytcnzluhaxidtbf4".to_string(), 1).is_well_formed());
    // A label in upper case, of another length or out of the alphabet does
    // not come back from the binary form.
    let upper = PeerAddr::OnionV2("YTCNZLUHAXIDTBF4".to_string(), 1);
    assert!(!upper.is_well_formed());
    assert_ne!(PeerAddr::unpack(&upper.pack()).unwrap(), upper);
    assert!(!PeerAddr::OnionV2("ytcnzluh".to_string(), 1).is_well_formed());
    assert!(!PeerAddr::OnionV3("ytcnzluhaxidtbf4".to_string(), 1).is_well_formed());
    assert!(!PeerAddr::I2PB32("ytcnzluhaxidtbf4".to_string(), 1).is_well_formed());
    assert!(!PeerAddr::OnionV2("ytcnzluhaxidtbf1".to_string(), 1).is_well_formed());
    assert!(!PeerAddr::Loki("ytcnzluhaxidtbf4".to_string(), 1).is_well_formed());
    // The last character of an I2P label holds four bits that are left
    // out: a label with other bits there is not the text of its bytes.
    let plain = "udhdrtrcetjm5sxzskjyr5ztpeszydbh4dpl3pl4utgqqw2v4jna";
    let other = "udhdrtrcetjm5sxzskjyr5ztpeszydbh4dpl3pl4utgqqw2v4jnb";
    assert!(PeerAddr::I2PB32(plain.to_string(), 1).is_well_formed());
    assert!(!PeerAddr::I2PB32(other.to_string(), 1).is_well_formed());
    assert_eq!(
        PeerAddr::I2PB32(other.to_string(), 1).pack(),
        PeerAddr::I2PB32(plain.to_string(), 1).pack()
    );
}

#[test]
fn what_is_wrong_with_a_numeral_is_found_from_the_left() {
    let cases = [
        ("", NumeralFault::Empty),
        ("+", NumeralFault::InvalidDigit),
        ("-", NumeralFault::InvalidDigit),
        ("x", NumeralFault::InvalidDigit),
        ("12x", NumeralFault::InvalidDigit),
        ("+12x", NumeralFault::InvalidDigit),
        ("++1", NumeralFault::InvalidDigit),
        ("65536", NumeralFault::TooLarge),
        ("+65536", NumeralFault::TooLarge),
        ("000065536", NumeralFault::TooLarge),
        ("65536x", NumeralFault::TooLarge),
        ("6553x6", NumeralFault::InvalidDigit),
        ("99999999999999999999999999", NumeralFault::TooLarge),
    ];
    for (text, expected) in cases {
        let chars: Vec<char> = text.chars().collect();
        assert_eq!(find_fault(&chars, 0xffff), expected, "{}", text);
    }
}
