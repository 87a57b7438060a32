use any_kvm_agent::net::IpAddr;
use any_kvm_agent::net::SocketAddr;
use any_kvm_agent::sha1::hmac_sha1;
use any_kvm_agent::stun::append_attr;
use any_kvm_agent::stun::parse_stun_attr;
use any_kvm_agent::stun::stun_header;
use any_kvm_agent::stun::xor_address;
use any_kvm_agent::stun::StunError;
use any_kvm_agent::turn::allocate_request;
use any_kvm_agent::turn::allocate_signed_request;
use any_kvm_agent::turn::append_auth;
use any_kvm_agent::turn::build_turn_send_indication;
use any_kvm_agent::turn::challenge_reply;
use any_kvm_agent::turn::grant_reply;
use any_kvm_agent::turn::md5_key;
use any_kvm_agent::turn::parse_allocation;
use any_kvm_agent::turn::parse_turn_data;
use any_kvm_agent::turn::permission_reply;
use any_kvm_agent::turn::permission_request;
use any_kvm_agent::turn::refresh_request;
use any_kvm_agent::turn::send_indication;
use any_kvm_agent::turn::AllocateError;
use any_kvm_agent::turn::PermissionReply;
use any_kvm_agent::turn::TurnState;

const TXN: [u8; 12] = [1, 2, 3, 4, 5, 6, 7, 8, 9, 10, 11, 12];

fn hex(bytes: &[u8]) -> String {
    bytes.iter().map(|b| format!("{:02x}", b)).collect()
}

fn v4(ip: [u8; 4], port: u16) -> SocketAddr {
    SocketAddr { ip: IpAddr::V4(u32::from_be_bytes(ip)), port }
}

fn server() -> SocketAddr {
    v4([203, 0, 113, 7], 3478)
}

fn login() -> TurnState {
    TurnState {
        turn_addr: server(),
        realm: b"example.org".to_vec(),
        nonce: b"nonce-1".to_vec(),
        username: "kvmuser".to_string(),
        password: "secret".to_string(),
    }
}

fn message(msg_type: u16, attrs: &[(u16, &[u8])]) -> Vec<u8> {
    let mut body = Vec::new();
    for (t, v) in attrs {
        append_attr(&mut body, *t, v);
    }
    let mut m = stun_header(msg_type, body.len() as u16, &TXN).to_vec();
    m.extend_from_slice(&body);
    m
}

#[test]
fn first_allocation_request_asks_for_udp() {
    assert_eq!(
        hex(&allocate_request(&TXN)),
        "000300082112a4420102030405060708090a0b0c0019000411000000"
    );
}

#[test]
fn second_allocation_request_is_signed() {
    assert!(login().can_authenticate(8));
    assert_eq!(
        hex(&allocate_signed_request(&TXN, &login())),
        "000300482112a4420102030405060708090a0b0c0019000411000000000600076b766d75736572000014000b\
         6578616d706c652e6f726700001500076e6f6e63652d310000080014d43f9995f10cf33d86179a92dc09ef40\
         7fdf08f7"
    );
}

#[test]
fn refresh_asks_for_ten_minutes() {
    assert_eq!(
        hex(&refresh_request(&TXN, &login())),
        "000400482112a4420102030405060708090a0b0c000d000400000258000600076b766d75736572000014000b\
         6578616d706c652e6f726700001500076e6f6e63652d3100000800140593b9ae7f1f2b6de0ad5a2fd5cbff62\
         6cf44aaf"
    );
}

#[test]
fn permission_names_the_peer() {
    assert_eq!(
        hex(&permission_request(Some(0xC0A8_0105), &TXN, &login())),
        "0008004c2112a4420102030405060708090a0b0c0012000800012112e1baa547000600076b766d7573657200\
         0014000b6578616d706c652e6f726700001500076e6f6e63652d31000008001410c1183d8ad4e09c0a54a98e\
         aa0cf7892deef709"
    );
}

#[test]
fn permission_without_an_ipv4_address_names_nobody() {
    assert_eq!(
        hex(&permission_request(None, &TXN, &login())),
        "000800402112a4420102030405060708090a0b0c000600076b766d75736572000014000b6578616d706c652e\
         6f726700001500076e6f6e63652d310000080014ba3c7d5c494947e39207af52469d7d9b39396877"
    );
}

#[test]
fn digest_covers_the_message_up_to_itself() {
    let m = refresh_request(&TXN, &login());
    let key = md5_key("kvmuser", b"example.org", "secret");
    let covered = &m[..m.len() - 24];
    assert_eq!(parse_stun_attr(&m, 0x0008), Some(&hmac_sha1(&key, covered)[..]));
    assert_eq!(parse_stun_attr(&m, 0x0006), Some(&b"kvmuser"[..]));
    assert_eq!(parse_stun_attr(&m, 0x0014), Some(&b"example.org"[..]));
    assert_eq!(parse_stun_attr(&m, 0x0015), Some(&b"nonce-1"[..]));
}

#[test]
fn credentials_set_the_length_that_the_digest_covers() {
    let mut header = stun_header(0x0004, 0, &TXN);
    let mut buf = Vec::new();
    append_auth(&mut buf, &mut header, &login());
    assert_eq!(u16::from_be_bytes([header[2], header[3]]) as usize, buf.len());
    assert_eq!(buf.len(), 64);
}

#[test]
fn credentials_that_do_not_fit_a_message_are_told_apart() {
    let mut big = login();
    big.nonce = vec![b'n'; 0xFFC0];
    assert!(!big.can_authenticate(8));
    big.nonce = vec![b'n'; 0xFFBC];
    assert!(big.can_authenticate(8));
}

#[test]
fn challenge_opens_a_session() {
    let m = message(0x0113, &[(0x0014, b"example.org"), (0x0015, b"nonce-1")]);
    assert!(challenge_reply(server(), v4([203, 0, 113, 8], 3478), &m, "u", "p").is_none());
    let ts = challenge_reply(server(), server(), &m, "u", "p").unwrap().unwrap();
    assert_eq!(ts.turn_addr, server());
    assert_eq!(ts.realm, b"example.org");
    assert_eq!(ts.nonce, b"nonce-1");
    assert_eq!(ts.username, "u");
    assert_eq!(ts.password, "p");
    let bare = message(0x0113, &[]);
    assert!(matches!(
        challenge_reply(server(), server(), &bare, "u", "p"),
        Some(Err(StunError::MissingRealmOrNonce))
    ));
}

#[test]
fn granted_allocation_gives_the_relayed_address() {
    let m = message(0x0103, &[(0x000D, &[0, 0, 2, 88]), (0x0016, &xor_address(0x0A00_0001, 49152))]);
    assert_eq!(parse_allocation(&m), Ok(v4([10, 0, 0, 1], 49152)));
    assert_eq!(grant_reply(server(), v4([1, 1, 1, 1], 1), &m), None);
    assert_eq!(grant_reply(server(), server(), &m), Some(Ok(v4([10, 0, 0, 1], 49152))));
}

#[test]
fn refused_allocations_are_told_apart() {
    assert_eq!(parse_allocation(&message(0x0113, &[])), Err(AllocateError::Rejected));
    assert_eq!(
        parse_allocation(&message(0x0101, &[])),
        Err(AllocateError::UnexpectedType(0x0101))
    );
    assert_eq!(parse_allocation(&[1, 3]), Err(AllocateError::NoRelayedAddress));
    assert_eq!(
        parse_allocation(&message(0x0103, &[(0x0016, &[0, 1, 2])])),
        Err(AllocateError::NoRelayedAddress)
    );
}

#[test]
fn permission_answers_are_told_apart() {
    let s = server();
    assert_eq!(permission_reply(s, s, 0x01, 0x08), PermissionReply::Granted);
    assert_eq!(permission_reply(s, s, 0x01, 0x18), PermissionReply::Refused);
    assert_eq!(permission_reply(s, s, 0x00, 0x17), PermissionReply::Other);
    assert_eq!(permission_reply(s, v4([1, 2, 3, 4], 5), 0x01, 0x08), PermissionReply::Other);
}

#[test]
fn send_indication_carries_peer_and_data() {
    assert_eq!(
        hex(&send_indication(v4([192, 168, 1, 5], 50000), b"hello", &TXN)),
        "001600182112a4420102030405060708090a0b0c001200080001e242e1baa5470013000568656c6c6f000000"
    );
    let m = build_turn_send_indication(v4([192, 168, 1, 5], 50000), b"hello");
    assert_eq!(&m[..8], &[0, 0x16, 0, 0x18, 0x21, 0x12, 0xA4, 0x42]);
    assert_eq!(parse_stun_attr(&m, 0x0013), Some(&b"hello"[..]));
}

#[test]
fn send_indication_names_no_ipv6_peer() {
    let peer = SocketAddr { ip: IpAddr::V6(1), port: 9 };
    assert_eq!(
        hex(&send_indication(peer, b"hi", &TXN)),
        "001600082112a4420102030405060708090a0b0c0013000268690000"
    );
}

#[test]
fn relayed_data_is_read_back() {
    let peer = v4([192, 168, 1, 5], 50000);
    let mut m = send_indication(peer, b"hello", &TXN);
    m[1] = 0x17;
    assert_eq!(parse_turn_data(&m), Some((peer, &b"hello"[..])));
}

#[test]
fn last_peer_and_data_of_an_indication_count() {
    let m = message(
        0x0017,
        &[
            (0x0013, b"old"),
            (0x0012, &xor_address(1, 1)),
            (0x0012, &[0, 2, 0, 0, 0, 0, 0, 0]),
            (0x0013, b"new"),
        ],
    );
    assert_eq!(parse_turn_data(&m), Some((v4([0, 0, 0, 1], 1), &b"new"[..])));
}

#[test]
fn what_is_no_data_indication_is_passed_over() {
    assert_eq!(parse_turn_data(&[0; 19]), None);
    assert_eq!(parse_turn_data(&message(0x0104, &[(0x0013, b"x"), (0x0012, &xor_address(1, 1))])), None);
    let mut cookie = message(0x0017, &[(0x0013, b"x"), (0x0012, &xor_address(1, 1))]);
    cookie[4] = 0;
    assert_eq!(parse_turn_data(&cookie), None);
    assert_eq!(parse_turn_data(&message(0x0017, &[(0x0013, b"x")])), None);
    assert_eq!(parse_turn_data(&message(0x0017, &[(0x0012, &xor_address(1, 1))])), None);
}
