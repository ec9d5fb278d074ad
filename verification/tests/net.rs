use rxx::address::Ipv6Address;
use rxx::net::{classify_ipv6, loopback, multicast, Ipv6Info, Ipv6Scope};

fn address(text: &str) -> Ipv6Address {
    Ipv6Address::parse(text).unwrap()
}

fn info(text: &str, is_temporary: bool) -> Ipv6Info {
    let addr = address(text);
    Ipv6Info {
        addr,
        interface: "eth0".to_string(),
        is_temporary,
        scope: classify_ipv6(&addr),
    }
}

#[test]
fn scope_by_prefix() {
    assert_eq!(classify_ipv6(&address("::1")), Ipv6Scope::LinkLocal);
    assert_eq!(classify_ipv6(&address("fe80::1")), Ipv6Scope::LinkLocal);
    assert_eq!(classify_ipv6(&address("febf:ffff::1")), Ipv6Scope::LinkLocal);
    assert_eq!(classify_ipv6(&address("fec0::1")), Ipv6Scope::LinkLocal);
    assert_eq!(classify_ipv6(&address("fc00::1")), Ipv6Scope::UniqueLocal);
    assert_eq!(classify_ipv6(&address("fdff:ffff::1")), Ipv6Scope::UniqueLocal);
    assert_eq!(classify_ipv6(&address("fbff::1")), Ipv6Scope::LinkLocal);
    assert_eq!(classify_ipv6(&address("fe00::1")), Ipv6Scope::LinkLocal);
    assert_eq!(classify_ipv6(&address("2000::")), Ipv6Scope::Global);
    assert_eq!(classify_ipv6(&address("2001:db8::1")), Ipv6Scope::Global);
    assert_eq!(classify_ipv6(&address("3fff:ffff::")), Ipv6Scope::Global);
    assert_eq!(classify_ipv6(&address("4000::")), Ipv6Scope::LinkLocal);
    assert_eq!(classify_ipv6(&address("1fff::")), Ipv6Scope::LinkLocal);
    assert_eq!(classify_ipv6(&address("::")), Ipv6Scope::LinkLocal);
    assert_eq!(classify_ipv6(&address("ff02::1")), Ipv6Scope::LinkLocal);
}

#[test]
fn loopback_and_multicast() {
    assert!(loopback(&address("::1")));
    assert!(!loopback(&address("::")));
    assert!(!loopback(&address("::2")));
    assert!(!loopback(&address("1::1")));
    assert!(multicast(&address("ff00::")));
    assert!(multicast(&address("ff02::1")));
    assert!(multicast(&address("ffff::")));
    assert!(!multicast(&address("feff::")));
    assert!(!multicast(&address("2001:db8::1")));
}

#[test]
fn score_prefers_stable_then_wider_scope() {
    assert_eq!(info("2001:db8::1", false).score(), 1100);
    assert_eq!(info("fd00::1", false).score(), 1050);
    assert_eq!(info("fe80::1", false).score(), 1010);
    assert_eq!(info("2001:db8::1", true).score(), 100);
    assert_eq!(info("fd00::1", true).score(), 50);
    assert_eq!(info("fe80::1", true).score(), 10);
}

#[test]
fn scopes_are_ordered() {
    assert!(Ipv6Scope::LinkLocal < Ipv6Scope::UniqueLocal);
    assert!(Ipv6Scope::UniqueLocal < Ipv6Scope::Global);
}

use rxx::config::Config;
use rxx::error::ErrorKind;
use rxx::net::{get_all_ipv6, get_local_ipv6, is_temporary_address, padded_hex_of, parse_flags};
use rxx::net::{resolve_peer, split_words, InterfaceAddress, Resolution};

const TABLE: &str = "\
00000000000000000000000000000001 01 80 10 80       lo
fe80000000000000021122fffe334455 02 40 20 80     eth0
20010db8000000000000000000000001 02 40 00 00     eth0
20010db8000000000000000000000002 02 40 00 01     eth0
fd000000000000000000000000000001 03 40 00 c1    wlan0
";

fn iface(name: &str, text: &str) -> InterfaceAddress {
    InterfaceAddress {
        name: name.to_string(),
        addr: address(text),
    }
}

#[test]
fn temporary_flag_is_the_lowest_bit_of_the_fifth_word() {
    assert!(!is_temporary_address(&address("2001:db8::1"), TABLE));
    assert!(is_temporary_address(&address("2001:db8::2"), TABLE));
    assert!(is_temporary_address(&address("fd00::1"), TABLE));
    assert!(!is_temporary_address(&address("fe80::211:22ff:fe33:4455"), TABLE));
    assert!(!is_temporary_address(&address("::1"), TABLE));
    // An address that the table does not hold.
    assert!(!is_temporary_address(&address("2001:db8::3"), TABLE));
    assert!(!is_temporary_address(&address("2001:db8::2"), ""));
}

#[test]
fn table_lines_that_cannot_be_read_are_passed_over() {
    let a = address("2001:db8::2");
    // Too few words.
    assert!(!is_temporary_address(&a, "20010db8000000000000000000000002 02 40 00\n"));
    // Flags that are no number: the next line decides.
    let table = "20010db8000000000000000000000002 02 40 00 zz eth0\n\
                 20010db8000000000000000000000002 02 40 00 03 eth0\n";
    assert!(is_temporary_address(&a, table));
    // The first line that can be read decides.
    let table = "20010db8000000000000000000000002 02 40 00 02 eth0\n\
                 20010db8000000000000000000000002 02 40 00 03 eth0\n";
    assert!(!is_temporary_address(&a, table));
    // The address is compared as it is written: lower case, 32 digits.
    assert!(!is_temporary_address(&a, "20010DB8000000000000000000000002 02 40 00 01 eth0\n"));
    assert!(!is_temporary_address(&a, "2001:db8::2 02 40 00 01 eth0\n"));
    // Tabs and carriage returns are white space too.
    assert!(is_temporary_address(&a, "\t20010db8000000000000000000000002\t02 40 00 +1 eth0\r\n"));
    // No line end at the end.
    assert!(is_temporary_address(&a, "20010db8000000000000000000000002 02 40 00 ff eth0"));
}

#[test]
fn flags_are_hexadecimal_and_fit_32_bits() {
    assert_eq!(parse_flags(b"0"), Some(0));
    assert_eq!(parse_flags(b"80"), Some(0x80));
    assert_eq!(parse_flags(b"c1"), Some(0xc1));
    assert_eq!(parse_flags(b"C1"), Some(0xc1));
    assert_eq!(parse_flags(b"+c1"), Some(0xc1));
    assert_eq!(parse_flags(b"ffffffff"), Some(u32::MAX));
    assert_eq!(parse_flags(b"00000000000001"), Some(1));
    assert_eq!(parse_flags(b"100000000"), None);
    assert_eq!(parse_flags(b"fffffffff"), None);
    assert_eq!(parse_flags(b""), None);
    assert_eq!(parse_flags(b"+"), None);
    assert_eq!(parse_flags(b"-1"), None);
    assert_eq!(parse_flags(b"++1"), None);
    assert_eq!(parse_flags(b"1+"), None);
    assert_eq!(parse_flags(b"0x1"), None);
    assert_eq!(parse_flags(b"1g"), None);
    assert_eq!(parse_flags(b"fffffffffg"), None);
}

#[test]
fn words_and_padded_addresses() {
    assert_eq!(
        split_words(b"  a bc\t\tdef \r\n"),
        vec![b"a".to_vec(), b"bc".to_vec(), b"def".to_vec()]
    );
    assert_eq!(split_words(b""), Vec::<Vec<u8>>::new());
    assert_eq!(split_words(b" \t "), Vec::<Vec<u8>>::new());
    assert_eq!(split_words(b"one"), vec![b"one".to_vec()]);
    assert_eq!(
        padded_hex_of(&address("2001:db8::a:1")),
        b"20010db80000000000000000000a0001".to_vec()
    );
    assert_eq!(
        padded_hex_of(&address("ffff:ffff:ffff:ffff:ffff:ffff:ffff:ffff")),
        b"ffffffffffffffffffffffffffffffff".to_vec()
    );
}

#[test]
fn addresses_are_ranked_best_first_and_keep_their_order() {
    let interfaces = vec![
        iface("lo", "::1"),
        iface("eth0", "fe80::211:22ff:fe33:4455"),
        iface("wlan0", "fd00::1"),
        iface("eth0", "2001:db8::2"),
        iface("eth0", "ff02::1"),
        iface("eth0", "2001:db8::1"),
        iface("eth1", "2001:db8::3"),
        iface("eth1", "fe80::1"),
    ];
    let list = get_all_ipv6(&interfaces, TABLE).unwrap();
    let got: Vec<(String, String, bool, Ipv6Scope, u32)> = list
        .iter()
        .map(|i| {
            (
                i.addr.to_text(),
                i.interface.clone(),
                i.is_temporary,
                i.scope,
                i.score(),
            )
        })
        .collect();
    let want = vec![
        ("2001:db8::1", "eth0", false, Ipv6Scope::Global, 1100),
        ("2001:db8::3", "eth1", false, Ipv6Scope::Global, 1100),
        ("fe80::211:22ff:fe33:4455", "eth0", false, Ipv6Scope::LinkLocal, 1010),
        ("fe80::1", "eth1", false, Ipv6Scope::LinkLocal, 1010),
        ("2001:db8::2", "eth0", true, Ipv6Scope::Global, 100),
        ("fd00::1", "wlan0", true, Ipv6Scope::UniqueLocal, 50),
    ];
    assert_eq!(got.len(), want.len());
    for (g, w) in got.iter().zip(want.iter()) {
        assert_eq!(g.0, w.0);
        assert_eq!(g.1, w.1);
        assert_eq!(g.2, w.2);
        assert_eq!(g.3, w.3);
        assert_eq!(g.4, w.4);
    }
    assert_eq!(
        get_local_ipv6(&interfaces, TABLE).unwrap(),
        address("2001:db8::1")
    );
}

#[test]
fn no_suitable_address() {
    assert_eq!(
        get_all_ipv6(&Vec::new(), TABLE).unwrap_err(),
        ErrorKind::NoSuitableAddress
    );
    let only_unusable = vec![iface("lo", "::1"), iface("eth0", "ff02::1")];
    assert_eq!(
        get_all_ipv6(&only_unusable, TABLE).unwrap_err(),
        ErrorKind::NoSuitableAddress
    );
    assert_eq!(
        get_local_ipv6(&only_unusable, TABLE).unwrap_err(),
        ErrorKind::NoSuitableAddress
    );
}

fn config(nonce: Option<&str>) -> Config {
    Config {
        user_id: "alice".to_string(),
        server_url: "http://registry.example:3457".to_string(),
        nonce: nonce.map(|n| n.to_string()),
        hooks: None,
    }
}

#[test]
fn literal_address_is_used_directly() {
    match resolve_peer("2001:db8::9", &config(None), &Vec::new(), "").unwrap() {
        Resolution::Direct(a) => assert_eq!(a, address("2001:db8::9")),
        other => panic!("not direct: {:?}", other),
    }
}

#[test]
fn identifier_is_resolved_through_the_registry() {
    let interfaces = vec![iface("eth0", "fe80::1"), iface("eth0", "2001:db8::1")];
    match resolve_peer("bob", &config(Some("N0nce")), &interfaces, TABLE).unwrap() {
        Resolution::ViaRegistry(req) => {
            assert_eq!(req.id, "alice");
            assert_eq!(req.address, "2001:db8::1");
            assert_eq!(req.nonce, "N0nce");
            assert_eq!(req.peer_id, "bob");
        }
        other => panic!("not via the registry: {:?}", other),
    }
    match resolve_peer("bob", &config(None), &interfaces, TABLE).unwrap() {
        Resolution::ViaRegistry(req) => assert_eq!(req.nonce, ""),
        other => panic!("not via the registry: {:?}", other),
    }
    assert_eq!(
        resolve_peer("bob", &config(None), &Vec::new(), TABLE).unwrap_err(),
        ErrorKind::NoSuitableAddress
    );
}
