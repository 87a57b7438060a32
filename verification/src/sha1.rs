//! The SHA-1 message digest, FIPS 180-4, and its keyed form HMAC-SHA1, RFC 2104.

use vstd::prelude::*;

use crate::md5;
use crate::wire;

verus! {

/// The chaining variables of the digest.
#[derive(Clone, Copy)]
pub struct Sha1State {
    pub a: u32,
    pub b: u32,
    pub c: u32,
    pub d: u32,
    pub e: u32,
}

/// The digest's initial chaining variables.
pub open spec fn sha1_init() -> Sha1State {
    Sha1State { a: 0x67452301, b: 0xEFCDAB89, c: 0x98BADCFE, d: 0x10325476, e: 0xC3D2E1F0 }
}

/// The message, the marker byte, the zeros and the length in bits, most significant
/// byte first.
pub open spec fn sha1_padded(data: Seq<u8>) -> Seq<u8> {
    data + seq![0x80u8] + Seq::new(md5::pad_zeros(data.len()), |i: int| 0u8) + wire::be64_bytes(
        (data.len() * 8) as u64,
    )
}

/// Entry `i` of the message schedule of the block that starts at `at`.
pub open spec fn sha1_word(msg: Seq<u8>, at: int, i: nat) -> u32
    decreases i,
{
    if i < 16 {
        wire::be32(msg[at + 4 * i], msg[at + 4 * i + 1], msg[at + 4 * i + 2], msg[at + 4 * i + 3])
    } else {
        md5::rotl(
            sha1_word(msg, at, (i - 3) as nat) ^ sha1_word(msg, at, (i - 8) as nat) ^ sha1_word(
                msg,
                at,
                (i - 14) as nat,
            ) ^ sha1_word(msg, at, (i - 16) as nat),
            1,
        )
    }
}

/// The logical function of a step.
pub open spec fn sha1_mix(i: int, s: Sha1State) -> u32 {
    if i < 20 {
        (s.b & s.c) | (!s.b & s.d)
    } else if 40 <= i < 60 {
        (s.b & s.c) | (s.b & s.d) | (s.c & s.d)
    } else {
        s.b ^ s.c ^ s.d
    }
}

/// The additive constant of a step.
pub open spec fn sha1_constant(i: int) -> u32 {
    if i < 20 {
        0x5A827999
    } else if i < 40 {
        0x6ED9EBA1
    } else if i < 60 {
        0x8F1BBCDC
    } else {
        0xCA62C1D6
    }
}

/// The chaining variables after the first `n` steps on the block that starts at `at`.
pub open spec fn sha1_steps(s: Sha1State, msg: Seq<u8>, at: int, n: nat) -> Sha1State
    decreases n,
{
    if n == 0 {
        s
    } else {
        let i = n - 1;
        let p = sha1_steps(s, msg, at, i as nat);
        Sha1State {
            a: md5::rotl(p.a, 5).wrapping_add(sha1_mix(i, p)).wrapping_add(p.e).wrapping_add(
                sha1_constant(i),
            ).wrapping_add(sha1_word(msg, at, i as nat)),
            b: p.a,
            c: md5::rotl(p.b, 30),
            d: p.c,
            e: p.d,
        }
    }
}

/// The chaining variables after the first `n` blocks of a padded message.
pub open spec fn sha1_blocks(msg: Seq<u8>, n: nat) -> Sha1State
    decreases n,
{
    if n == 0 {
        sha1_init()
    } else {
        let p = sha1_blocks(msg, (n - 1) as nat);
        let q = sha1_steps(p, msg, 64 * (n - 1), 80);
        Sha1State {
            a: p.a.wrapping_add(q.a),
            b: p.b.wrapping_add(q.b),
            c: p.c.wrapping_add(q.c),
            d: p.d.wrapping_add(q.d),
            e: p.e.wrapping_add(q.e),
        }
    }
}

/// The SHA-1 digest of `data`.
#[verifier::opaque]
pub open spec fn sha1(data: Seq<u8>) -> Seq<u8> {
    let msg = sha1_padded(data);
    let s = sha1_blocks(msg, msg.len() / 64);
    wire::be32_bytes(s.a) + wire::be32_bytes(s.b) + wire::be32_bytes(s.c) + wire::be32_bytes(s.d)
        + wire::be32_bytes(s.e)
}

/// A padded message fills whole blocks, and its digest has twenty bytes.
pub proof fn law_sha1_shape(data: Seq<u8>)
    ensures
        sha1_padded(data).len() % 64 == 0,
        sha1_padded(data).len() > data.len() + 8,
        sha1(data).len() == 20,
{
    reveal(sha1);
}

/// The key of HMAC-SHA1 as one block: a key longer than a block is replaced by its
/// digest, and what is left of the block is zero.
pub open spec fn hmac_block(key: Seq<u8>) -> Seq<u8> {
    let k = if key.len() > 64 { sha1(key) } else { key };
    Seq::new(64, |i: int| if i < k.len() { k[i] } else { 0u8 })
}

/// Every byte of `block` combined with `pad` by exclusive or.
pub open spec fn xor_all(block: Seq<u8>, pad: u8) -> Seq<u8> {
    Seq::new(block.len(), |i: int| pad ^ block[i])
}

/// HMAC-SHA1 of `data` under `key`.
pub open spec fn hmac(key: Seq<u8>, data: Seq<u8>) -> Seq<u8> {
    sha1(xor_all(hmac_block(key), 0x5c) + sha1(xor_all(hmac_block(key), 0x36) + data))
}

/// Padding a short key with zero bytes, up to one block, does not change what it
/// authenticates.
pub proof fn law_hmac_zero_padding(key: Seq<u8>, zeros: nat, data: Seq<u8>)
    requires
        key.len() + zeros <= 64,
    ensures
        hmac(key + Seq::new(zeros, |i: int| 0u8), data) == hmac(key, data),
{
    assert(hmac_block(key + Seq::new(zeros, |i: int| 0u8)) =~= hmac_block(key));
}

/// A key longer than one block stands for its digest.
pub proof fn law_hmac_long_key(key: Seq<u8>, data: Seq<u8>)
    requires
        key.len() > 64,
    ensures
        hmac(key, data) == hmac(sha1(key), data),
{
    law_sha1_shape(key);
    assert(hmac_block(sha1(key)) =~= hmac_block(key));
}

fn schedule(msg: &[u8], at: usize) -> (w: Vec<u32>)
    requires
        at + 64 <= msg.len(),
    ensures
        w@.len() == 80,
        forall|i: int| 0 <= i < 80 ==> w@[i] == sha1_word(msg@, at as int, i as nat),
{
    let mut w: Vec<u32> = Vec::new();
    let mut i: usize = 0;
    while i < 80
        invariant
            i <= 80,
            at + 64 <= msg.len(),
            w@.len() == i,
            forall|j: int| 0 <= j < i ==> w@[j] == sha1_word(msg@, at as int, j as nat),
        decreases 80 - i,
    {
        let word: u32 = if i < 16 {
            let k: usize = at + 4 * i;
            wire::u32_from_be(msg[k], msg[k + 1], msg[k + 2], msg[k + 3])
        } else {
            md5::rotate_left(w[i - 3] ^ w[i - 8] ^ w[i - 14] ^ w[i - 16], 1)
        };
        w.push(word);
        i += 1;
    }
    w
}

fn compress(state: Sha1State, msg: &[u8], at: usize) -> (r: Sha1State)
    requires
        at + 64 <= msg.len(),
    ensures
        r == sha1_steps(state, msg@, at as int, 80),
{
    let w = schedule(msg, at);
    let mut s = state;
    let mut i: usize = 0;
    while i < 80
        invariant
            i <= 80,
            w@.len() == 80,
            forall|j: int| 0 <= j < 80 ==> w@[j] == sha1_word(msg@, at as int, j as nat),
            s == sha1_steps(state, msg@, at as int, i as nat),
        decreases 80 - i,
    {
        let f: u32 = if i < 20 {
            (s.b & s.c) | (!s.b & s.d)
        } else if 40 <= i && i < 60 {
            (s.b & s.c) | (s.b & s.d) | (s.c & s.d)
        } else {
            s.b ^ s.c ^ s.d
        };
        let k: u32 = if i < 20 {
            0x5A827999
        } else if i < 40 {
            0x6ED9EBA1
        } else if i < 60 {
            0x8F1BBCDC
        } else {
            0xCA62C1D6
        };
        let sum: u32 = md5::rotate_left(s.a, 5).wrapping_add(f).wrapping_add(s.e).wrapping_add(
            k,
        ).wrapping_add(w[i]);
        s = Sha1State { a: sum, b: s.a, c: md5::rotate_left(s.b, 30), d: s.c, e: s.d };
        i += 1;
    }
    s
}

/// Computes the SHA-1 digest of `data`.
pub fn sha1_hash(data: &[u8]) -> (digest: [u8; 20])
    requires
        data@.len() * 8 <= u64::MAX,
    ensures
        digest@ == sha1(data@),
{
    let mut msg = md5::pad_message(data);
    let len = wire::u64_to_be(data.len() as u64 * 8);
    wire::append_bytes(&mut msg, &len);
    assert(msg@ == sha1_padded(data@));
    proof {
        law_sha1_shape(data@);
    }
    let mut s = Sha1State {
        a: 0x67452301,
        b: 0xEFCDAB89,
        c: 0x98BADCFE,
        d: 0x10325476,
        e: 0xC3D2E1F0,
    };
    let blocks: usize = msg.len() / 64;
    let mut n: usize = 0;
    while n < blocks
        invariant
            n <= blocks,
            blocks * 64 <= msg.len(),
            s == sha1_blocks(msg@, n as nat),
        decreases blocks - n,
    {
        let q = compress(s, &msg, n * 64);
        s = Sha1State {
            a: s.a.wrapping_add(q.a),
            b: s.b.wrapping_add(q.b),
            c: s.c.wrapping_add(q.c),
            d: s.d.wrapping_add(q.d),
            e: s.e.wrapping_add(q.e),
        };
        n += 1;
    }
    let a = wire::u32_to_be(s.a);
    let b = wire::u32_to_be(s.b);
    let c = wire::u32_to_be(s.c);
    let d = wire::u32_to_be(s.d);
    let e = wire::u32_to_be(s.e);
    let digest = [
        a[0], a[1], a[2], a[3],
        b[0], b[1], b[2], b[3],
        c[0], c[1], c[2], c[3],
        d[0], d[1], d[2], d[3],
        e[0], e[1], e[2], e[3],
    ];
    proof {
        reveal(sha1);
        assert(digest@ =~= sha1(data@));
    }
    digest
}

fn padded_key(key: &[u8], pad: u8) -> (r: Vec<u8>)
    requires
        key@.len() * 8 <= u64::MAX,
    ensures
        r@ == xor_all(hmac_block(key@), pad),
{
    let mut k: Vec<u8> = Vec::new();
    if key.len() > 64 {
        let digest = sha1_hash(key);
        proof {
            law_sha1_shape(key@);
        }
        wire::append_bytes(&mut k, &digest);
    } else {
        wire::append_bytes(&mut k, key);
    }
    let mut r: Vec<u8> = Vec::new();
    let mut i: usize = 0;
    while i < 64
        invariant
            i <= 64,
            k@ == (if key@.len() > 64 { sha1(key@) } else { key@ }),
            r@ == xor_all(hmac_block(key@), pad).take(i as int),
        decreases 64 - i,
    {
        let b: u8 = if i < k.len() { k[i] } else { 0 };
        r.push(pad ^ b);
        i += 1;
        assert(r@ =~= xor_all(hmac_block(key@), pad).take(i as int));
    }
    assert(r@ =~= xor_all(hmac_block(key@), pad));
    r
}

/// Computes HMAC-SHA1 of `data` under `key`.
pub fn hmac_sha1(key: &[u8], data: &[u8]) -> (mac: [u8; 20])
    requires
        key@.len() * 8 <= u64::MAX,
        (64 + data@.len()) * 8 <= u64::MAX,
    ensures
        mac@ == hmac(key@, data@),
{
    let mut inner = padded_key(key, 0x36);
    wire::append_bytes(&mut inner, data);
    let inner_hash = sha1_hash(&inner);
    let mut outer = padded_key(key, 0x5c);
    wire::append_bytes(&mut outer, &inner_hash);
    sha1_hash(&outer)
}

/// A padded message is the message, whole, the marker, zeros, and the number of its bits in
/// the last eight bytes; it fills as few blocks as hold all that.
pub proof fn law_padding_in_place(data: Seq<u8>)
    ensures
        ({
            let p = sha1_padded(data);
            let n = data.len() as int;
            &&& p.len() % 64 == 0
            &&& n + 9 <= p.len() < n + 73
            &&& forall|i: int| 0 <= i < n ==> p[i] == #[trigger] data[i]
            &&& p[n] == 0x80
            &&& forall|i: int| n < i < p.len() - 8 ==> #[trigger] p[i] == 0
            &&& p.subrange(p.len() - 8, p.len() as int) == wire::be64_bytes(
                (data.len() * 8) as u64,
            )
        }),
{
    md5::lemma_pad_zeros(data.len());
    let zeros = Seq::new(md5::pad_zeros(data.len()), |i: int| 0u8);
    let bits = wire::be64_bytes((data.len() * 8) as u64);
    md5::lemma_parts_in_place(data, zeros, bits);
}

/// The steps mix three of the variables bit by bit: in the first twenty one chooses between
/// the two others, in the third twenty the majority decides, and in the others it is told
/// whether an odd number is set. Each twenty have a constant of their own.
pub proof fn law_steps_mix(i: int, s: Sha1State)
    requires
        0 <= i < 80,
    ensures
        i < 20 ==> sha1_mix(i, s) == s.d ^ (s.b & (s.c ^ s.d)),
        40 <= i < 60 ==> sha1_mix(i, s) == (s.b & s.c) ^ (s.b & s.d) ^ (s.c & s.d),
        20 <= i < 40 || 60 <= i ==> sha1_mix(i, s) == (s.b ^ s.c) ^ s.d,
        sha1_constant(i) == seq![0x5A827999u32, 0x6ED9EBA1, 0x8F1BBCDC, 0xCA62C1D6][i / 20],
{
    let (b, c, d) = (s.b, s.c, s.d);
    assert((b & c) | (!b & d) == d ^ (b & (c ^ d))) by (bit_vector);
    assert((b & c) | (b & d) | (c & d) == (b & c) ^ (b & d) ^ (c & d)) by (bit_vector);
}

/// The first sixteen words are those of the block; each of the others is made of four of those
/// before it, and rotated by a bit.
pub proof fn law_schedule(msg: Seq<u8>, at: int, i: nat)
    ensures
        i < 16 ==> sha1_word(msg, at, i) == 0x100_0000 * msg[at + 4 * i] + 0x1_0000 * msg[at + 4 * i
            + 1] + 0x100 * msg[at + 4 * i + 2] + msg[at + 4 * i + 3],
        sha1_word(msg, at, i + 16) == md5::rotl(
            sha1_word(msg, at, i + 13) ^ sha1_word(msg, at, i + 8) ^ sha1_word(msg, at, i + 2)
                ^ sha1_word(msg, at, i),
            1,
        ),
{
}

/// A step moves four of the variables on, one of them rotated, and makes the fifth a sum,
/// without what is carried out of 32 bits.
#[verifier::rlimit(40)]
pub proof fn law_step_sums(s: Sha1State, msg: Seq<u8>, at: int, i: nat)
    requires
        i < 80,
    ensures
        sha1_steps(s, msg, at, 0) == s,
        ({
            let p = sha1_steps(s, msg, at, i);
            let q = sha1_steps(s, msg, at, i + 1);
            &&& q.b == p.a && q.c == md5::rotl(p.b, 30) && q.d == p.c && q.e == p.d
            &&& q.a == (md5::rotl(p.a, 5) + sha1_mix(i as int, p) + p.e + sha1_constant(i as int)
                + sha1_word(msg, at, i)) % 0x1_0000_0000
        }),
{
}

/// The blocks of the padded message are taken one after the other, and each is added to what
/// came of those before.
#[verifier::rlimit(40)]
pub proof fn law_blocks_add_up(data: Seq<u8>, n: nat)
    ensures
        ({
            let msg = sha1_padded(data);
            let p = sha1_blocks(msg, n);
            let q = sha1_steps(p, msg, 64 * n as int, 80);
            let r = sha1_blocks(msg, n + 1);
            &&& r.a == (p.a + q.a) % 0x1_0000_0000
            &&& r.b == (p.b + q.b) % 0x1_0000_0000
            &&& r.c == (p.c + q.c) % 0x1_0000_0000
            &&& r.d == (p.d + q.d) % 0x1_0000_0000
            &&& r.e == (p.e + q.e) % 0x1_0000_0000
        }),
        ({
            let z = sha1_blocks(sha1_padded(data), 0);
            &&& z.a == 0x67452301 && z.b == 0xEFCDAB89 && z.c == 0x98BADCFE && z.d == 0x10325476
            &&& z.e == 0xC3D2E1F0
        }),
{
}

/// The digest spells the five variables after the last block, each with its high byte first.
pub proof fn law_digest_spells_variables(data: Seq<u8>)
    ensures
        ({
            let e = sha1_blocks(sha1_padded(data), sha1_padded(data).len() / 64);
            let d = sha1(data);
            &&& d.len() == 20
            &&& e.a == wire::be32(d[0], d[1], d[2], d[3])
            &&& e.b == wire::be32(d[4], d[5], d[6], d[7])
            &&& e.c == wire::be32(d[8], d[9], d[10], d[11])
            &&& e.d == wire::be32(d[12], d[13], d[14], d[15])
            &&& e.e == wire::be32(d[16], d[17], d[18], d[19])
        }),
{
    reveal(sha1);
    let e = sha1_blocks(sha1_padded(data), sha1_padded(data).len() / 64);
    let d = sha1(data);
    assert(d =~= wire::be32_bytes(e.a) + wire::be32_bytes(e.b) + wire::be32_bytes(e.c)
        + wire::be32_bytes(e.d) + wire::be32_bytes(e.e));
    wire::lemma_be32_round_trip(e.a);
    wire::lemma_be32_round_trip(e.b);
    wire::lemma_be32_round_trip(e.c);
    wire::lemma_be32_round_trip(e.d);
    wire::lemma_be32_round_trip(e.e);
    assert(d[0] == wire::be32_bytes(e.a)[0] && d[1] == wire::be32_bytes(e.a)[1] && d[2]
        == wire::be32_bytes(e.a)[2] && d[3] == wire::be32_bytes(e.a)[3]);
    assert(d[4] == wire::be32_bytes(e.b)[0] && d[5] == wire::be32_bytes(e.b)[1] && d[6]
        == wire::be32_bytes(e.b)[2] && d[7] == wire::be32_bytes(e.b)[3]);
    assert(d[8] == wire::be32_bytes(e.c)[0] && d[9] == wire::be32_bytes(e.c)[1] && d[10]
        == wire::be32_bytes(e.c)[2] && d[11] == wire::be32_bytes(e.c)[3]);
    assert(d[12] == wire::be32_bytes(e.d)[0] && d[13] == wire::be32_bytes(e.d)[1] && d[14]
        == wire::be32_bytes(e.d)[2] && d[15] == wire::be32_bytes(e.d)[3]);
    assert(d[16] == wire::be32_bytes(e.e)[0] && d[17] == wire::be32_bytes(e.e)[1] && d[18]
        == wire::be32_bytes(e.e)[2] && d[19] == wire::be32_bytes(e.e)[3]);
}

/// HMAC-SHA1 is the digest of the key under the outer mask and of the digest of the key under
/// the inner mask and of the data: for a key of up to a block, which is filled up with zeros.
pub proof fn law_hmac_of_masked_keys(key: Seq<u8>, data: Seq<u8>, inner: Seq<u8>, outer: Seq<u8>)
    requires
        key.len() <= 64,
        inner.len() == 64,
        outer.len() == 64,
        forall|i: int| 0 <= i < key.len() ==> #[trigger] inner[i] == 0x36u8 ^ key[i],
        forall|i: int| key.len() <= i < 64 ==> #[trigger] inner[i] == 0x36,
        forall|i: int| 0 <= i < key.len() ==> #[trigger] outer[i] == 0x5cu8 ^ key[i],
        forall|i: int| key.len() <= i < 64 ==> #[trigger] outer[i] == 0x5c,
    ensures
        hmac(key, data) == sha1(outer + sha1(inner + data)),
{
    assert(0x36u8 ^ 0u8 == 0x36u8 && 0x5cu8 ^ 0u8 == 0x5cu8) by (bit_vector);
    assert(xor_all(hmac_block(key), 0x36) =~= inner);
    assert(xor_all(hmac_block(key), 0x5c) =~= outer);
}

/// What is computed is the digest of all the data, without a key or under all of the key.
pub proof fn law_digests_computed(key: &[u8], data: &[u8], digest: [u8; 20], mac: [u8; 20])
    requires
        call_ensures(sha1_hash, (data,), digest),
        call_ensures(hmac_sha1, (key, data), mac),
    ensures
        digest@ == sha1(data@),
        mac@ == hmac(key@, data@),
{
}

} // verus!
