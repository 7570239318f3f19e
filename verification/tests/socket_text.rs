use zeronet_protocol::address::PeerAddr;

/// A small generator of numbers that look random, the same on every run.
struct Numbers(u64);

impl Numbers {
    fn next(&mut self) -> u64 {
        self.0 = self.0.wrapping_mul(6364136223846793005).wrapping_add(1442695040888963407);
        self.0 >> 33
    }

    fn below(&mut self, limit: u64) -> u64 {
        self.next() % limit
    }
}

fn some_ipv6(numbers: &mut Numbers) -> [u8; 16] {
    let mut ip = [0u8; 16];
    for group in 0..8 {
        // Many zero groups, so that runs of them are common.
        let value = match numbers.below(4) {
            0 => numbers.below(0x10000) as u16,
            1 => numbers.below(0x100) as u16,
            _ => 0,
        };
        ip[2 * group] = (value >> 8) as u8;
        ip[2 * group + 1] = value as u8;
    }
    if numbers.below(10) == 0 {
        ip[..10].fill(0);
        ip[10] = 0xff;
        ip[11] = 0xff;
    }
    ip
}

/// The text of an IPv6 address with all its groups and all their digits.
fn full_text(ip: &[u8; 16], port: u16) -> String {
    let groups: Vec<String> =
        (0..8).map(|i| format!("{:02x}{:02x}", ip[2 * i], ip[2 * i + 1])).collect();
    format!("[{}]:{}", groups.join(":"), port)
}

#[test]
fn every_socket_address_is_read_back_from_its_text() {
    let mut numbers = Numbers(7);
    for _ in 0..2000 {
        let port = numbers.below(0x10000) as u16;
        let v4 = [
            numbers.below(256) as u8,
            numbers.below(256) as u8,
            numbers.below(256) as u8,
            numbers.below(256) as u8,
        ];
        let address = PeerAddr::IPV4(v4, port);
        let text = address.to_string();
        assert_eq!(text, format!("{}.{}.{}.{}:{}", v4[0], v4[1], v4[2], v4[3], port));
        assert_eq!(PeerAddr::parse(&text).unwrap(), address);
        assert_eq!(PeerAddr::unpack(&address.pack()).unwrap(), address);

        let v6 = some_ipv6(&mut numbers);
        let address = PeerAddr::IPV6(v6, port);
        let text = address.to_string();
        assert_eq!(PeerAddr::parse(&text).unwrap(), address, "{}", text);
        // The long text stands for the same address, but is no longer, and
        // the text has at most one gap.
        assert_eq!(PeerAddr::parse(&full_text(&v6, port)).unwrap(), address);
        assert!(text.len() <= full_text(&v6, port).len());
        assert!(text.matches("::").count() <= 1, "{}", text);
        assert_eq!(PeerAddr::unpack(&address.pack()).unwrap(), address);
    }
}

fn v4(a: u8, b: u8, c: u8, d: u8, port: u16) -> Option<PeerAddr> {
    Some(PeerAddr::IPV4([a, b, c, d], port))
}

fn v6(groups: [u16; 8], port: u16) -> Option<PeerAddr> {
    let mut ip = [0u8; 16];
    for (i, group) in groups.iter().enumerate() {
        ip[2 * i] = (group >> 8) as u8;
        ip[2 * i + 1] = *group as u8;
    }
    Some(PeerAddr::IPV6(ip, port))
}

#[test]
fn the_text_of_a_socket_address_is_read_strictly() {
    let cases = vec![
        ("127.0.0.1:80", v4(127, 0, 0, 1, 80)),
        ("127.0.0.1:080", v4(127, 0, 0, 1, 80)),
        ("127.0.0.1:00000", v4(127, 0, 0, 1, 0)),
        ("127.0.0.1:65535", v4(127, 0, 0, 1, 65535)),
        ("127.0.0.0:80", v4(127, 0, 0, 0, 80)),
        ("127.0.0.1:65536", None),
        ("127.0.0.1:", None),
        ("127.0.0.1", None),
        ("127.0.0.01:80", None),
        ("127.0.0.256:80", None),
        ("127.0.0.1000:80", None),
        ("127.0.0:80", None),
        ("127.0.0.1.1:80", None),
        ("127..0.1:80", None),
        (".127.0.0.1:80", None),
        ("127.0.0.1.:80", None),
        (" 127.0.0.1:80", None),
        ("127.0.0.1:80 ", None),
        ("127.0.0.1:+80", None),
        ("127.0.0.1:-80", None),
        ("1.2.3.4:5:6", None),
        ("１.2.3.4:5", None),
        ("[::]:80", v6([0, 0, 0, 0, 0, 0, 0, 0], 80)),
        ("[::1]:80", v6([0, 0, 0, 0, 0, 0, 0, 1], 80)),
        ("[1::]:80", v6([1, 0, 0, 0, 0, 0, 0, 0], 80)),
        ("[1::1]:80", v6([1, 0, 0, 0, 0, 0, 0, 1], 80)),
        ("[1:2:3:4:5:6:7:8]:80", v6([1, 2, 3, 4, 5, 6, 7, 8], 80)),
        ("[1:2:3:4:5:6:7::]:80", v6([1, 2, 3, 4, 5, 6, 7, 0], 80)),
        ("[::2:3:4:5:6:7:8]:80", v6([0, 2, 3, 4, 5, 6, 7, 8], 80)),
        ("[1:2:3::6:7:8]:80", v6([1, 2, 3, 0, 0, 6, 7, 8], 80)),
        ("[0001::]:80", v6([1, 0, 0, 0, 0, 0, 0, 0], 80)),
        ("[ABCD:ef01::9]:80", v6([0xabcd, 0xef01, 0, 0, 0, 0, 0, 9], 80)),
        ("[::ffff:1.2.3.4]:80", v6([0, 0, 0, 0, 0, 0xffff, 0x0102, 0x0304], 80)),
        ("[::1.2.3.4]:80", v6([0, 0, 0, 0, 0, 0, 0x0102, 0x0304], 80)),
        ("[1:2:3:4:5:6:1.2.3.4]:80", v6([1, 2, 3, 4, 5, 6, 0x0102, 0x0304], 80)),
        ("[1::1.2.3.4]:80", v6([1, 0, 0, 0, 0, 0, 0x0102, 0x0304], 80)),
        ("[::1]:080", v6([0, 0, 0, 0, 0, 0, 0, 1], 80)),
        ("[1:2:3:4::5:6:7:8]:80", None),
        ("[1:2:3:4:5:6:7:8::]:80", None),
        ("[::1:2:3:4:5:6:7:8]:80", None),
        ("[1:2:3:4:5:6:7]:80", None),
        ("[1:2:3:4:5:6:7:8:9]:80", None),
        ("[1::2::3]:80", None),
        ("[:::]:80", None),
        ("[:]:80", None),
        ("[]:80", None),
        ("[1:]:80", None),
        ("[:1]:80", None),
        ("[1:::2]:80", None),
        ("[00001::]:80", None),
        ("[g::]:80", None),
        ("[1:2:3:4:5:6:7:1.2.3.4]:80", None),
        ("[1:2:3:4:5:1.2.3.4]:80", None),
        ("[::1.2.3.4:5]:80", None),
        ("[1.2.3.4::]:80", None),
        ("[1.2.3.4]:80", None),
        ("[::1.2.3]:80", None),
        ("[::1.2.3.04]:80", None),
        ("[::1.2.3.256]:80", None),
        ("[1:2:3:4:5:6::1.2.3.4]:80", None),
        ("[1:2:3:4:5:6:7::1.2.3.4]:80", None),
        ("[::1]:65536", None),
        ("[::1]:", None),
        ("[::1]", None),
        ("[::1]80", None),
        ("[::1]]:80", None),
        ("[[::1]:80", None),
        ("::1:80", None),
        ("[::1] :80", None),
        ("[ ::1]:80", None),
        ("[::1 ]:80", None),
    ];
    for (text, expected) in cases {
        assert_eq!(PeerAddr::parse(text).ok(), expected, "{}", text);
    }
}

#[test]
fn a_scope_id_is_read_and_not_kept() {
    let cases = vec![
        ("[fe80::1%3]:80", v6([0xfe80, 0, 0, 0, 0, 0, 0, 1], 80)),
        ("[fe80::1%0]:80", v6([0xfe80, 0, 0, 0, 0, 0, 0, 1], 80)),
        ("[fe80::1%0003]:80", v6([0xfe80, 0, 0, 0, 0, 0, 0, 1], 80)),
        ("[fe80::1%4294967295]:80", v6([0xfe80, 0, 0, 0, 0, 0, 0, 1], 80)),
        ("[1:2:3:4:5:6:7:8%12]:9", v6([1, 2, 3, 4, 5, 6, 7, 8], 9)),
        ("[::ffff:1.2.3.4%1]:80", v6([0, 0, 0, 0, 0, 0xffff, 0x0102, 0x0304], 80)),
        ("[fe80::1%4294967296]:80", None),
        ("[fe80::1%]:80", None),
        ("[fe80::1%x]:80", None),
        ("[fe80::1%eth0]:80", None),
        ("[fe80::1%3%4]:80", None),
        ("[fe80::1%-3]:80", None),
        ("[fe80::1%+3]:80", None),
        ("[fe80::1% 3]:80", None),
        ("[%3]:80", None),
        ("[fe80::1]%3:80", None),
        ("1.2.3.4%3:80", None),
    ];
    for (text, expected) in cases {
        assert_eq!(PeerAddr::parse(text).ok(), expected, "{}", text);
    }
    let scoped = PeerAddr::parse("[fe80::1%3]:80").unwrap();
    assert_eq!(scoped.to_string(), "[fe80::1]:80");
    assert_eq!(PeerAddr::parse(&scoped.to_string()).unwrap(), scoped);
}
