use any_kvm_agent::net::IpAddr;
use any_kvm_agent::net::SocketAddr;
use any_kvm_agent::stun::append_attr;
use any_kvm_agent::stun::binding_reply;
use any_kvm_agent::stun::binding_request;
use any_kvm_agent::stun::gen_binding_request;
use any_kvm_agent::stun::gen_txn_id;
use any_kvm_agent::stun::parse_mapped;
use any_kvm_agent::stun::parse_stun_attr;
use any_kvm_agent::stun::parse_stun_response;
use any_kvm_agent::stun::parse_turn_error_401;
use any_kvm_agent::stun::parse_xor_mapped;
use any_kvm_agent::stun::stun_header;
use any_kvm_agent::stun::txn_id;
use any_kvm_agent::stun::xor_address;
use any_kvm_agent::stun::StunError;

const TXN: [u8; 12] = [1, 2, 3, 4, 5, 6, 7, 8, 9, 10, 11, 12];

fn v4(ip: [u8; 4], port: u16) -> SocketAddr {
    SocketAddr { ip: IpAddr::V4(u32::from_be_bytes(ip)), port }
}

fn message(msg_type: u16, attrs: &[(u16, &[u8])]) -> Vec<u8> {
    let mut body = Vec::new();
    for (t, v) in attrs {
        append_attr(&mut body, *t, v);
    }
    let mut m = stun_header(msg_type, body.len() as u16, &TXN).to_vec();
    m.extend_from_slice(&body);
    m
}

#[test]
fn header_holds_type_length_cookie_and_transaction() {
    assert_eq!(
        stun_header(0x0003, 0x0108, &TXN),
        [0, 3, 1, 8, 0x21, 0x12, 0xA4, 0x42, 1, 2, 3, 4, 5, 6, 7, 8, 9, 10, 11, 12]
    );
}

#[test]
fn attributes_are_padded_to_whole_words() {
    let mut buf = vec![0xEE];
    append_attr(&mut buf, 0x0006, b"abcde");
    assert_eq!(buf, [0xEE, 0, 6, 0, 5, b'a', b'b', b'c', b'd', b'e', 0, 0, 0]);
    let mut none = Vec::new();
    append_attr(&mut none, 0x8022, b"");
    assert_eq!(none, [0x80, 0x22, 0, 0]);
}

#[test]
fn length_field_of_an_attribute_keeps_sixteen_bits() {
    let mut buf = Vec::new();
    append_attr(&mut buf, 0x0013, &vec![7u8; 0x1_0003]);
    assert_eq!(&buf[..4], &[0, 0x13, 0, 3]);
    assert_eq!(buf.len(), 4 + 0x1_0004);
}

#[test]
fn transaction_of_a_clock_reading() {
    assert_eq!(
        txn_id(0x0000_0009_1122_3344_5566_7788),
        [0x11, 0x22, 0x33, 0x44, 0x55, 0x66, 0x77, 0x88, 0, 0, 0, 9]
    );
}

#[test]
fn transaction_follows_the_clock() {
    let id = gen_txn_id();
    assert_eq!(&id[8..], &[0, 0, 0, 0]);
    let nanos = u64::from_be_bytes([id[0], id[1], id[2], id[3], id[4], id[5], id[6], id[7]]);
    assert!(nanos > 1_500_000_000_000_000_000);
}

#[test]
fn binding_request_is_a_bare_header() {
    assert_eq!(
        binding_request(0x0102_0304_0506_0708),
        [0, 1, 0, 0, 0x21, 0x12, 0xA4, 0x42, 1, 2, 3, 4, 5, 6, 7, 8, 0xAB, 0xCD, 0xEF, 0x01]
    );
    let now = gen_binding_request();
    assert_eq!(&now[..8], &[0, 1, 0, 0, 0x21, 0x12, 0xA4, 0x42]);
    assert_eq!(&now[16..], &[0xAB, 0xCD, 0xEF, 0x01]);
}

#[test]
fn masked_address_is_read_back() {
    let val = xor_address(0xC0A8_0105, 50000);
    assert_eq!(val, [0, 1, 0xE2, 0x42, 0xE1, 0xBA, 0xA5, 0x47]);
    assert_eq!(parse_xor_mapped(&val), Ok(v4([192, 168, 1, 5], 50000)));
}

#[test]
fn masked_address_of_another_family_is_refused() {
    assert_eq!(parse_xor_mapped(&[0, 1, 0, 0, 0, 0, 0]), Err(StunError::XorMappedTooShort));
    assert_eq!(
        parse_xor_mapped(&[0, 2, 0, 0, 0, 0, 0, 0]),
        Err(StunError::UnsupportedFamily(2))
    );
}

#[test]
fn plain_address_is_read() {
    assert_eq!(parse_mapped(&[0, 1, 0x1F, 0x90, 10, 0, 0, 7]), Ok(v4([10, 0, 0, 7], 8080)));
    assert_eq!(parse_mapped(&[0, 1, 0, 0, 0, 0, 0]), Err(StunError::MappedTooShort));
    assert_eq!(
        parse_mapped(&[0, 3, 0, 0, 0, 0, 0, 0]),
        Err(StunError::UnsupportedFamily(3))
    );
}

#[test]
fn public_address_is_found_behind_other_attributes() {
    let m = message(
        0x0101,
        &[(0x8022, b"server"), (0x0020, &xor_address(0x0102_0304, 9)), (0x0001, b"ignored!")],
    );
    assert_eq!(parse_stun_response(&m), Ok(v4([1, 2, 3, 4], 9)));
}

#[test]
fn plain_address_serves_where_no_masked_one_is_ahead() {
    let m = message(0x0101, &[(0x0001, &[0, 1, 0, 80, 8, 8, 8, 8]), (0x0020, &xor_address(1, 1))]);
    assert_eq!(parse_stun_response(&m), Ok(v4([8, 8, 8, 8], 80)));
}

#[test]
fn bad_binding_answers_are_refused() {
    assert_eq!(parse_stun_response(&[0; 19]), Err(StunError::TooShort));
    assert_eq!(parse_stun_response(&[0; 20]), Err(StunError::BadCookie));
    assert_eq!(
        parse_stun_response(&message(0x0111, &[])),
        Err(StunError::UnexpectedType(0x0111))
    );
    assert_eq!(parse_stun_response(&message(0x0101, &[])), Err(StunError::NoMappedAddress));
    assert_eq!(
        parse_stun_response(&message(0x0101, &[(0x0020, &[0, 1])])),
        Err(StunError::XorMappedTooShort)
    );
    assert_eq!(
        parse_stun_response(&message(0x0101, &[(0x0001, &[0, 1])])),
        Err(StunError::MappedTooShort)
    );
}

#[test]
fn attribute_that_runs_past_the_datagram_ends_the_search() {
    let mut m = message(0x0101, &[(0x8022, b"abcd"), (0x0020, &xor_address(5, 5))]);
    m.truncate(m.len() - 1);
    assert_eq!(parse_stun_response(&m), Err(StunError::NoMappedAddress));
}

#[test]
fn attributes_behind_the_stated_length_are_not_read() {
    let mut m = message(0x0101, &[(0x8022, b"abcd"), (0x0020, &xor_address(5, 5))]);
    m[3] = 8;
    assert_eq!(parse_stun_response(&m), Err(StunError::NoMappedAddress));
}

#[test]
fn answers_of_strangers_are_passed_over() {
    let server = v4([9, 9, 9, 9], 3478);
    let m = message(0x0101, &[(0x0020, &xor_address(0x0102_0304, 9))]);
    assert_eq!(binding_reply(server, v4([9, 9, 9, 9], 3479), &m), None);
    assert_eq!(binding_reply(server, server, &m), Some(Ok(v4([1, 2, 3, 4], 9))));
    assert_eq!(binding_reply(server, server, b"?"), Some(Err(StunError::TooShort)));
}

#[test]
fn challenge_names_realm_and_nonce() {
    let m = message(0x0113, &[(0x0009, b"\0\0\x04\x01"), (0x0015, b"n1"), (0x0014, b"realm")]);
    assert_eq!(parse_turn_error_401(&m), Ok((b"realm".to_vec(), b"n1".to_vec())));
}

#[test]
fn last_realm_and_nonce_of_a_challenge_count() {
    let m = message(0x0113, &[(0x0014, b"a"), (0x0015, b"b"), (0x0014, b"c"), (0x0015, b"d")]);
    assert_eq!(parse_turn_error_401(&m), Ok((b"c".to_vec(), b"d".to_vec())));
}

#[test]
fn incomplete_challenges_are_refused() {
    assert_eq!(parse_turn_error_401(&[0; 19]), Err(StunError::TooShort));
    assert_eq!(
        parse_turn_error_401(&message(0x0113, &[(0x0014, b"realm")])),
        Err(StunError::MissingRealmOrNonce)
    );
    assert_eq!(
        parse_turn_error_401(&message(0x0113, &[(0x0015, b"nonce")])),
        Err(StunError::MissingRealmOrNonce)
    );
}

#[test]
fn first_attribute_of_a_type_is_found() {
    let m = message(0x0103, &[(7, b"x"), (0x16, b"first"), (0x16, b"second")]);
    assert_eq!(parse_stun_attr(&m, 0x16), Some(&b"first"[..]));
    assert_eq!(parse_stun_attr(&m, 0x17), None);
    assert_eq!(parse_stun_attr(&m[..19], 0x16), None);
}

#[test]
fn every_attribute_of_a_message_is_read_back() {
    let m = message(0x0101, &[(1, b""), (2, b"a"), (3, b"ab"), (4, b"abc"), (5, b"abcd")]);
    assert_eq!(m.len() % 4, 0);
    assert_eq!(parse_stun_attr(&m, 1), Some(&b""[..]));
    assert_eq!(parse_stun_attr(&m, 2), Some(&b"a"[..]));
    assert_eq!(parse_stun_attr(&m, 3), Some(&b"ab"[..]));
    assert_eq!(parse_stun_attr(&m, 4), Some(&b"abc"[..]));
    assert_eq!(parse_stun_attr(&m, 5), Some(&b"abcd"[..]));
}
