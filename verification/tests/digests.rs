use any_kvm_agent::md5::md5_hash;
use any_kvm_agent::md5::pad_message;
use any_kvm_agent::md5::rotate_left;
use any_kvm_agent::sha1::hmac_sha1;
use any_kvm_agent::sha1::sha1_hash;
use any_kvm_agent::turn::md5_key;

fn hex(bytes: &[u8]) -> String {
    bytes.iter().map(|b| format!("{:02x}", b)).collect()
}

#[test]
fn md5_of_the_standard_texts() {
    assert_eq!(hex(&md5_hash(b"")), "d41d8cd98f00b204e9800998ecf8427e");
    assert_eq!(hex(&md5_hash(b"a")), "0cc175b9c0f1b6a831c399e269772661");
    assert_eq!(hex(&md5_hash(b"abc")), "900150983cd24fb0d6963f7d28e17f72");
    assert_eq!(hex(&md5_hash(b"message digest")), "f96b697d7cb7938d525a2f31aaf161d0");
    assert_eq!(
        hex(&md5_hash(b"abcdefghijklmnopqrstuvwxyz")),
        "c3fcd3d76192e4007dfb496cca67e13b"
    );
    assert_eq!(
        hex(&md5_hash("1234567890".repeat(8).as_bytes())),
        "57edf4a22be3c955ac49da2e2107b67a"
    );
}

#[test]
fn md5_at_the_edges_of_a_block() {
    assert_eq!(hex(&md5_hash(&[b'x'; 55])), "04364420e25c512fd958a70738aa8f72");
    assert_eq!(hex(&md5_hash(&[b'x'; 56])), "668a72d5ba17f08e62dabcafad6db14b");
    assert_eq!(hex(&md5_hash(&[b'x'; 63])), "7dc2ca208106a2f703567bdff99d8981");
    assert_eq!(hex(&md5_hash(&[b'x'; 64])), "c1bb4f81d892b2d57947682aeb252456");
    assert_eq!(hex(&md5_hash(&[b'x'; 119])), "ab347a5f68c8a443cfcddc633f12c24f");
}

#[test]
fn padding_fills_blocks() {
    let padded = pad_message(b"abc");
    assert_eq!(padded.len(), 56);
    assert_eq!(&padded[..4], b"abc\x80");
    assert!(padded[4..].iter().all(|&b| b == 0));
    assert_eq!(pad_message(&[1; 56]).len(), 120);
}

#[test]
fn rotation_wraps_around() {
    assert_eq!(rotate_left(0x8000_0001, 1), 3);
    assert_eq!(rotate_left(0x1234_5678, 8), 0x3456_7812);
}

#[test]
fn sha1_of_the_standard_texts() {
    assert_eq!(hex(&sha1_hash(b"")), "da39a3ee5e6b4b0d3255bfef95601890afd80709");
    assert_eq!(hex(&sha1_hash(b"abc")), "a9993e364706816aba3e25717850c26c9cd0d89d");
    assert_eq!(
        hex(&sha1_hash("1234567890".repeat(8).as_bytes())),
        "50abf5706a150990a08b2c5ea40fa0e585554732"
    );
}

#[test]
fn sha1_at_the_edges_of_a_block() {
    assert_eq!(hex(&sha1_hash(&[b'x'; 55])), "cef734ba81a024479e09eb5a75b6ddae62e6abf1");
    assert_eq!(hex(&sha1_hash(&[b'x'; 56])), "901305367c259952f4e7af8323f480d59f81335b");
    assert_eq!(hex(&sha1_hash(&[b'x'; 63])), "0ddc4e0cccd9a12850deb5abb0853a4425559fec");
    assert_eq!(hex(&sha1_hash(&[b'x'; 64])), "bb2fa3ee7afb9f54c6dfb5d021f14b1ffe40c163");
    assert_eq!(hex(&sha1_hash(&[b'x'; 119])), "4300320394f7ee239bcdce7d3b8bcee173a0cd5c");
}

#[test]
fn hmac_of_the_standard_texts() {
    assert_eq!(
        hex(&hmac_sha1(&[0x0b; 20], b"Hi There")),
        "b617318655057264e28bc0b6fb378c8ef146be00"
    );
    assert_eq!(
        hex(&hmac_sha1(b"Jefe", b"what do ya want for nothing?")),
        "effcdf6ae5eb2fa2d27416d5f184df9c259a7c79"
    );
    assert_eq!(
        hex(&hmac_sha1(
            &[0xaa; 80],
            b"Test Using Larger Than Block-Size Key - Hash Key First"
        )),
        "aa4ae5e15272d00e95705637ce8a3b55ed402112"
    );
}

#[test]
fn hmac_hashes_keys_longer_than_a_block() {
    assert_eq!(hex(&hmac_sha1(&[b'k'; 64], b"x")), "2c31eadf68d9ba971ad29339d28ce725b03c11f6");
    assert_eq!(hex(&hmac_sha1(&[b'k'; 65], b"x")), "7209aca75ec680871725fd309aa689746677dbd4");
    let long = [b'k'; 65];
    assert_eq!(hmac_sha1(&long, b"x"), hmac_sha1(&sha1_hash(&long), b"x"));
}

#[test]
fn hmac_pads_short_keys_with_zeros() {
    assert_eq!(hmac_sha1(b"key", b"data"), hmac_sha1(b"key\0\0", b"data"));
}

#[test]
fn long_term_key_of_a_user() {
    assert_eq!(
        hex(&md5_key("kvmuser", b"example.org", "secret")),
        "d9df3a786d1762061de04bfbd2b24072"
    );
}

#[test]
fn realm_counts_as_it_is() {
    assert_eq!(
        hex(&md5_key("kvmuser", &[0xff, 0xfe], "secret")),
        "3341c08bb836e59604f0f601e5603aec"
    );
    assert_eq!(
        hex(&md5_key("kvmuser", b"", "secret")),
        "06a177c81b17aee39c3402e1ad0dc31b"
    );
}

#[test]
fn long_term_integrity_of_the_standard_request() {
    let mut message: Vec<u8> = vec![
        0x00, 0x01, 0x00, 0x60, 0x21, 0x12, 0xa4, 0x42, 0x78, 0xad, 0x34, 0x33, 0xc6, 0xad, 0x72,
        0xc0, 0x29, 0xda, 0x41, 0x2e,
    ];
    message.extend_from_slice(&[0x00, 0x06, 0x00, 0x12]);
    message.extend_from_slice("マトリックス".as_bytes());
    message.extend_from_slice(&[0, 0]);
    message.extend_from_slice(&[0x00, 0x15, 0x00, 0x1c]);
    message.extend_from_slice(b"f//499k954d6OL34oL9FSTvy64sA");
    message.extend_from_slice(&[0x00, 0x14, 0x00, 0x0b]);
    message.extend_from_slice(b"example.org\0");
    let key = md5_key("マトリックス", b"example.org", "TheMatrIX");
    assert_eq!(
        hex(&hmac_sha1(&key, &message)),
        "f67024656dd64a3e02b8e0712e85c9a28ca89666"
    );
}
