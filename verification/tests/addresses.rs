use any_kvm_agent::net::first_ipv4;
use any_kvm_agent::net::get_local_ips;
use any_kvm_agent::net::host_port;
use any_kvm_agent::net::is_usable;
use any_kvm_agent::net::local_addrs;
use any_kvm_agent::net::parse_ipv4;
use any_kvm_agent::net::IpAddr;
use any_kvm_agent::net::SocketAddr;
use any_kvm_agent::text::append_decimal;
use any_kvm_agent::text::chars_of;
use any_kvm_agent::text::starts_with;
use any_kvm_agent::text::trim;

fn ip(a: u8, b: u8, c: u8, d: u8) -> IpAddr {
    IpAddr::V4(u32::from_be_bytes([a, b, c, d]))
}

fn parse(s: &str) -> Option<u32> {
    parse_ipv4(&chars_of(s))
}

#[test]
fn scheme_and_port_may_be_missing() {
    assert_eq!(host_port("stun:stun.example.org:19302", "stun:"), "stun.example.org:19302");
    assert_eq!(host_port("stun:stun.example.org", "stun:"), "stun.example.org:3478");
    assert_eq!(host_port("stun.example.org", "stun:"), "stun.example.org:3478");
    assert_eq!(host_port("turn:your-server:3478", "turn:"), "your-server:3478");
    assert_eq!(host_port("turn:h", "stun:"), "turn:h");
    assert_eq!(host_port("stun:stun:h", "stun:"), "stun:h");
    assert_eq!(host_port("", "stun:"), ":3478");
    assert_eq!(host_port("stun:", "stun:"), ":3478");
    assert_eq!(host_port("stun:服务器", "stun:"), "服务器:3478");
}

#[test]
fn first_ipv4_address_is_taken() {
    let a = SocketAddr { ip: IpAddr::V6(7), port: 1 };
    let b = SocketAddr { ip: ip(1, 2, 3, 4), port: 2 };
    let c = SocketAddr { ip: ip(5, 6, 7, 8), port: 3 };
    assert_eq!(first_ipv4(&vec![a, b, c]), Some(b));
    assert_eq!(first_ipv4(&vec![a]), None);
    assert_eq!(first_ipv4(&vec![]), None);
}

#[test]
fn dotted_addresses_are_read() {
    assert_eq!(parse("0.0.0.0"), Some(0));
    assert_eq!(parse("127.0.0.1"), Some(0x7F00_0001));
    assert_eq!(parse("255.255.255.255"), Some(u32::MAX));
    assert_eq!(parse("10.20.30.40"), Some(0x0A14_1E28));
}

#[test]
fn what_is_no_dotted_address_is_refused() {
    for s in [
        "", "1", "1.2.3", "1.2.3.4.5", "1.2.3.", ".1.2.3", "01.2.3.4", "1.2.3.04", "256.1.1.1",
        "1.1.1.300", "1.2.3.4 ", " 1.2.3.4", "1.2.3.a", "1..2.3", "1.2.3.1000", "::1", "00.0.0.0",
        "1.2.3.٤",
    ] {
        assert_eq!(parse(s), None, "{}", s);
    }
}

#[test]
fn written_addresses_are_read_back() {
    for n in [0u32, 9, 10, 99, 100, 255, 256, 65535, 0x0102_0304, 0xFFFE_0001] {
        let b = n.to_be_bytes();
        assert_eq!(parse(&format!("{}.{}.{}.{}", b[0], b[1], b[2], b[3])), Some(n));
    }
}

#[test]
fn loopback_and_link_addresses_are_not_usable() {
    assert!(is_usable(ip(192, 168, 1, 5)));
    assert!(is_usable(ip(126, 255, 255, 255)));
    assert!(is_usable(ip(128, 0, 0, 1)));
    assert!(!is_usable(ip(127, 0, 0, 1)));
    assert!(!is_usable(ip(127, 9, 9, 9)));
    assert!(!is_usable(ip(0, 0, 0, 0)));
    assert!(!is_usable(ip(169, 254, 0, 1)));
    assert!(!is_usable(ip(169, 254, 255, 255)));
    assert!(is_usable(ip(169, 253, 255, 255)));
    assert!(is_usable(ip(169, 255, 0, 0)));
    assert!(!is_usable(IpAddr::V6(0)));
    assert!(!is_usable(IpAddr::V6(1)));
    assert!(!is_usable(IpAddr::V6(0xfe80 << 112 | 5)));
    assert!(!is_usable(IpAddr::V6(0xfebf << 112)));
    assert!(is_usable(IpAddr::V6(0xfec0 << 112)));
    assert!(is_usable(IpAddr::V6(0x2001 << 112 | 1)));
}

const TRIE: &str = "Main:\n  +-- 0.0.0.0/0 3 0 5\n     |-- 0.0.0.0\n        /0 universe UNICAST\n\
     +-- 127.0.0.0/8 2 0 2\n        |-- 127.0.0.1\n           /32 host LOCAL\n\
     +-- 192.168.1.0/24 2 0 1\n        |-- 192.168.1.0\n           /24 link UNICAST\n\
        |-- 192.168.1.5\n           /32 host LOCAL\n        |-- 192.168.1.255\n\
           /32 link BROADCAST\n        |-- 169.254.3.4\n           /32 host LOCAL\n\
Local:\n        |-- 192.168.1.5\r\n           /32 host LOCAL\r\n        |-- 10.0.0.9\n\
           /32 host LOCAL";

#[test]
fn addresses_of_this_machine_are_found() {
    assert_eq!(get_local_ips(None, Some(TRIE)), [ip(192, 168, 1, 5), ip(10, 0, 0, 9)]);
    assert_eq!(
        get_local_ips(Some(ip(10, 0, 0, 9)), Some(TRIE)),
        [ip(10, 0, 0, 9), ip(192, 168, 1, 5)]
    );
    assert_eq!(get_local_ips(Some(ip(8, 8, 4, 4)), None), [ip(8, 8, 4, 4)]);
    assert_eq!(get_local_ips(Some(ip(127, 0, 0, 1)), None), []);
    assert_eq!(get_local_ips(None, None), []);
    assert_eq!(get_local_ips(None, Some("")), []);
}

#[test]
fn leaf_counts_until_it_was_used() {
    assert_eq!(
        get_local_ips(None, Some("|-- 1.2.3.4\n/24 link UNICAST\n/32 host LOCAL\n/32 host LOCAL")),
        [ip(1, 2, 3, 4)]
    );
    assert_eq!(get_local_ips(None, Some("|-- 1.2.3.4\n|-- x\n/32 host LOCAL")), []);
    assert_eq!(get_local_ips(None, Some("/32 host LOCAL\n|-- 1.2.3.4")), []);
}

#[test]
fn socket_is_reached_on_every_address() {
    assert_eq!(
        local_addrs(&vec![ip(1, 1, 1, 1), ip(2, 2, 2, 2)], 99),
        [
            SocketAddr { ip: ip(1, 1, 1, 1), port: 99 },
            SocketAddr { ip: ip(2, 2, 2, 2), port: 99 }
        ]
    );
    assert_eq!(local_addrs(&vec![], 7), [SocketAddr { ip: ip(127, 0, 0, 1), port: 7 }]);
}

#[test]
fn numbers_are_written_in_decimal() {
    let mut s = "n=".to_string();
    append_decimal(&mut s, 0);
    append_decimal(&mut s, 4294967295);
    append_decimal(&mut s, 120);
    assert_eq!(s, "n=04294967295120");
}

#[test]
fn white_space_is_trimmed() {
    let c = chars_of(" \t\u{3000}a b\u{a0}\r\n");
    assert_eq!(trim(&c), ['a', ' ', 'b']);
    let blank = chars_of(" \u{2003} ");
    assert_eq!(trim(&blank), []);
    for n in 0..0x3100u32 {
        if let Some(ch) = char::from_u32(n) {
            let one = [ch];
            assert_eq!(trim(&one).is_empty(), ch.is_whitespace(), "{:x}", n);
        }
    }
}

#[test]
fn prefixes_are_found() {
    assert!(starts_with(&chars_of("|-- x"), "|-- "));
    assert!(!starts_with(&chars_of("|--"), "|-- "));
    assert!(!starts_with(&chars_of("+-- x"), "|-- "));
    assert!(starts_with(&chars_of("x"), ""));
}
