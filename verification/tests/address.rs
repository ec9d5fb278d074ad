use rxx::address::{Ipv6Address, SocketAddress};
use rxx::ipv6_text::{format_ipv6, parse_group, parse_ipv6, parse_octet, parse_quad, split_fields};
use rxx::peer::{parse_peer, PeerAddress};

#[test]
fn test_parse_ipv6() {
    match parse_peer("::1") {
        PeerAddress::Ipv6(addr) => assert_eq!(addr.to_text(), "::1"),
        _ => panic!("Expected IPv6"),
    }

    match parse_peer("2001:db8::1") {
        PeerAddress::Ipv6(addr) => assert_eq!(addr.to_text(), "2001:db8::1"),
        _ => panic!("Expected IPv6"),
    }
}

#[test]
fn test_parse_id() {
    match parse_peer("alice") {
        PeerAddress::Id(id) => assert_eq!(id, "alice"),
        _ => panic!("Expected ID"),
    }

    match parse_peer("user123") {
        PeerAddress::Id(id) => assert_eq!(id, "user123"),
        _ => panic!("Expected ID"),
    }
}

#[test]
fn text_with_colon_that_is_no_address_is_an_id() {
    for input in ["a:b", ":", ":::", "1::2::3", "2001:db8::1%eth0", "[::1]", "::1 "] {
        assert_eq!(parse_peer(input), PeerAddress::Id(input.to_string()));
    }
    assert_eq!(parse_peer(""), PeerAddress::Id(String::new()));
}

fn groups(text: &str) -> Option<[u16; 8]> {
    Ipv6Address::parse(text).map(|a| a.segments)
}

#[test]
fn parse_full_form() {
    assert_eq!(
        groups("2001:db8:0:1:2:3:4:5"),
        Some([0x2001, 0xdb8, 0, 1, 2, 3, 4, 5])
    );
    assert_eq!(
        groups("FFFF:ffff:FfFf:0000:0001:00a0:0B00:c000"),
        Some([0xffff, 0xffff, 0xffff, 0, 1, 0xa0, 0xb00, 0xc000])
    );
    assert_eq!(groups("1:2:3:4:5:6:7"), None);
    assert_eq!(groups("1:2:3:4:5:6:7:8:9"), None);
    assert_eq!(groups("1:2:3:4:5:6:7:8:"), None);
    assert_eq!(groups(":1:2:3:4:5:6:7:8"), None);
    assert_eq!(groups("1:2:3:4:5:6:7:g"), None);
    assert_eq!(groups("1:2:3:4:5:6:7:00001"), None);
    assert_eq!(groups("1:2:3:4:5:6:7:-1"), None);
}

#[test]
fn parse_compressed_form() {
    assert_eq!(groups("::"), Some([0; 8]));
    assert_eq!(groups("::1"), Some([0, 0, 0, 0, 0, 0, 0, 1]));
    assert_eq!(groups("1::"), Some([1, 0, 0, 0, 0, 0, 0, 0]));
    assert_eq!(groups("2001:db8::2"), Some([0x2001, 0xdb8, 0, 0, 0, 0, 0, 2]));
    assert_eq!(groups("1:2:3:4:5:6:7::"), Some([1, 2, 3, 4, 5, 6, 7, 0]));
    assert_eq!(groups("::1:2:3:4:5:6:7"), Some([0, 1, 2, 3, 4, 5, 6, 7]));
    assert_eq!(groups("1:2:3::5:6:7:8"), Some([1, 2, 3, 0, 5, 6, 7, 8]));
    assert_eq!(groups("1:2:3:4:5:6:7::8"), None);
    assert_eq!(groups("::1:2:3:4:5:6:7:8"), None);
    assert_eq!(groups("1:2:3:4::5:6:7:8"), None);
    assert_eq!(groups(":::"), None);
    assert_eq!(groups("1:::2"), None);
    assert_eq!(groups("1::2::3"), None);
    assert_eq!(groups("::1:"), None);
    assert_eq!(groups(":1::"), None);
    assert_eq!(groups(""), None);
    assert_eq!(groups(":"), None);
    assert_eq!(groups("1"), None);
    assert_eq!(groups("::é"), None);
}

#[test]
fn parse_with_dotted_quad() {
    assert_eq!(
        groups("::ffff:192.0.2.128"),
        Some([0, 0, 0, 0, 0, 0xffff, 0xc000, 0x0280])
    );
    assert_eq!(
        groups("1:2:3:4:5:6:1.2.3.4"),
        Some([1, 2, 3, 4, 5, 6, 0x0102, 0x0304])
    );
    assert_eq!(groups("::1.2.3.4"), Some([0, 0, 0, 0, 0, 0, 0x0102, 0x0304]));
    assert_eq!(
        groups("64:ff9b::255.255.255.255"),
        Some([0x64, 0xff9b, 0, 0, 0, 0, 0xffff, 0xffff])
    );
    assert_eq!(groups("1:2:3:4:5:6:7:1.2.3.4"), None);
    assert_eq!(groups("1:2:3:4:5:1.2.3.4"), None);
    assert_eq!(groups("1.2.3.4::"), None);
    assert_eq!(groups("::1.2.3.4:5"), None);
    assert_eq!(groups("::1.2.3"), None);
    assert_eq!(groups("::1.2.3.4.5"), None);
    assert_eq!(groups("::1.2.3.256"), None);
    assert_eq!(groups("::1.2.3.04"), None);
    assert_eq!(groups("::1.2.3."), None);
    assert_eq!(groups("::1.2..4"), None);
    assert_eq!(groups("1:2:3:4:5:6::1.2.3.4"), None);
    assert_eq!(groups("1:2:3:4:5::1.2.3.4"), Some([1, 2, 3, 4, 5, 0, 0x0102, 0x0304]));
    assert_eq!(groups("1.2.3.4"), None);
}

#[test]
fn format_shortest_form() {
    let cases: [([u16; 8], &str); 14] = [
        ([0; 8], "::"),
        ([0, 0, 0, 0, 0, 0, 0, 1], "::1"),
        ([1, 0, 0, 0, 0, 0, 0, 0], "1::"),
        ([0x2001, 0xdb8, 0, 0, 0, 0, 0, 1], "2001:db8::1"),
        ([0x2001, 0xdb8, 0, 0, 0, 0, 0, 2], "2001:db8::2"),
        ([1, 2, 3, 4, 5, 6, 7, 8], "1:2:3:4:5:6:7:8"),
        ([1, 0, 3, 4, 5, 6, 7, 8], "1:0:3:4:5:6:7:8"),
        ([1, 0, 0, 4, 0, 0, 7, 8], "1::4:0:0:7:8"),
        ([1, 0, 0, 4, 0, 0, 0, 8], "1:0:0:4::8"),
        ([0, 0, 3, 0, 0, 0, 7, 0], "0:0:3::7:0"),
        ([0xfe80, 0, 0, 0, 0x0a0b, 0xc0d, 0xe, 0xf000], "fe80::a0b:c0d:e:f000"),
        ([0, 0, 0, 0, 0, 0xffff, 0xc000, 0x0280], "::ffff:192.0.2.128"),
        ([0, 0, 0, 0, 0, 0xffff, 0, 0x0109], "::ffff:0.0.1.9"),
        ([0, 0, 0, 0, 0, 0, 0x0102, 0x0304], "::102:304"),
    ];
    for (segments, text) in cases {
        let address = Ipv6Address::new(segments);
        assert_eq!(address.to_text(), text);
        assert_eq!(format_ipv6(&address), text.as_bytes());
        assert_eq!(Ipv6Address::parse(text), Some(address));
        assert_eq!(parse_ipv6(text.as_bytes()), Some(address));
    }
}

#[test]
fn format_then_parse_gives_the_address_back() {
    let mut state: u64 = 12345;
    for round in 0..20000 {
        let mut segments = [0u16; 8];
        for s in segments.iter_mut() {
            state = state
                .wrapping_mul(6364136223846793005)
                .wrapping_add(1442695040888963407);
            let pick = (state >> 60) as u16;
            *s = match pick {
                0..=6 => 0,
                7 => 0xffff,
                8 => (state >> 33) as u16 & 0xf,
                9 => (state >> 33) as u16 & 0xff,
                _ => (state >> 33) as u16,
            };
        }
        if round % 7 == 0 {
            segments[0] = 0;
            segments[1] = 0;
            segments[2] = 0;
            segments[3] = 0;
            segments[4] = 0;
            segments[5] = 0xffff;
        }
        let address = Ipv6Address::new(segments);
        let text = address.to_text();
        assert_eq!(Ipv6Address::parse(&text), Some(address));
    }
}

#[test]
fn fields_groups_and_octets() {
    assert_eq!(
        split_fields(b"a::b:", b':'),
        vec![b"a".to_vec(), vec![], b"b".to_vec(), vec![]]
    );
    assert_eq!(split_fields(b"", b':'), vec![Vec::<u8>::new()]);
    assert_eq!(split_fields(b"abc", b'.'), vec![b"abc".to_vec()]);
    assert_eq!(parse_group(b"0"), Some(0));
    assert_eq!(parse_group(b"fFfF"), Some(0xffff));
    assert_eq!(parse_group(b"0db8"), Some(0xdb8));
    assert_eq!(parse_group(b""), None);
    assert_eq!(parse_group(b"12345"), None);
    assert_eq!(parse_group(b"12g"), None);
    assert_eq!(parse_octet(b"0"), Some(0));
    assert_eq!(parse_octet(b"255"), Some(255));
    assert_eq!(parse_octet(b"256"), None);
    assert_eq!(parse_octet(b"00"), None);
    assert_eq!(parse_octet(b"01"), None);
    assert_eq!(parse_octet(b""), None);
    assert_eq!(parse_octet(b"1a"), None);
    assert_eq!(parse_octet(b"1000"), None);
    assert_eq!(parse_quad(b"192.0.2.128"), Some((0xc000, 0x0280)));
    assert_eq!(parse_quad(b"1.2.3"), None);
}

#[test]
fn addresses_and_endpoints_compare_by_value() {
    let a = Ipv6Address::new([0x2001, 0xdb8, 0, 0, 0, 0, 0, 1]);
    let b = Ipv6Address::new([0x2001, 0xdb8, 0, 0, 0, 0, 0, 1]);
    let c = Ipv6Address::new([0x2001, 0xdb8, 0, 0, 0, 0, 0, 2]);
    assert!(a.same_as(&b));
    assert!(!a.same_as(&c));
    let e = SocketAddress { address: a, port: 3457 };
    assert!(e.same_as(&SocketAddress { address: b, port: 3457 }));
    assert!(!e.same_as(&SocketAddress { address: b, port: 3458 }));
    assert!(!e.same_as(&SocketAddress { address: c, port: 3457 }));
}
