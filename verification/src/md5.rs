//! The MD5 message digest, RFC 1321.

use vstd::prelude::*;

use crate::wire;

verus! {

/// The additive constants: entry `i` is the integer part of 2^32 * |sin(i + 1)|.
pub const SINES: [u32; 64] = [
    0xd76aa478, 0xe8c7b756, 0x242070db, 0xc1bdceee,
    0xf57c0faf, 0x4787c62a, 0xa8304613, 0xfd469501,
    0x698098d8, 0x8b44f7af, 0xffff5bb1, 0x895cd7be,
    0x6b901122, 0xfd987193, 0xa679438e, 0x49b40821,
    0xf61e2562, 0xc040b340, 0x265e5a51, 0xe9b6c7aa,
    0xd62f105d, 0x02441453, 0xd8a1e681, 0xe7d3fbc8,
    0x21e1cde6, 0xc33707d6, 0xf4d50d87, 0x455a14ed,
    0xa9e3e905, 0xfcefa3f8, 0x676f02d9, 0x8d2a4c8a,
    0xfffa3942, 0x8771f681, 0x6d9d6122, 0xfde5380c,
    0xa4beea44, 0x4bdecfa9, 0xf6bb4b60, 0xbebfbc70,
    0x289b7ec6, 0xeaa127fa, 0xd4ef3085, 0x04881d05,
    0xd9d4d039, 0xe6db99e5, 0x1fa27cf8, 0xc4ac5665,
    0xf4292244, 0x432aff97, 0xab9423a7, 0xfc93a039,
    0x655b59c3, 0x8f0ccc92, 0xffeff47d, 0x85845dd1,
    0x6fa87e4f, 0xfe2ce6e0, 0xa3014314, 0x4e0811a1,
    0xf7537e82, 0xbd3af235, 0x2ad7d2bb, 0xeb86d391,
];

/// The chaining variables of the digest.
#[derive(Clone, Copy)]
pub struct Md5State {
    pub a: u32,
    pub b: u32,
    pub c: u32,
    pub d: u32,
}

/// `x` rotated left by `n` bits.
pub open spec fn rotl(x: u32, n: u32) -> u32 {
    (x << n) | (x >> ((32 - n) as u32))
}

/// Rotates `x` left by `n` bits.
pub fn rotate_left(x: u32, n: u32) -> (r: u32)
    requires
        0 < n < 32,
    ensures
        r == rotl(x, n),
{
    (x << n) | (x >> (32 - n))
}

/// The digest's initial chaining variables.
pub open spec fn md5_init() -> Md5State {
    Md5State { a: 0x67452301, b: 0xefcdab89, c: 0x98badcfe, d: 0x10325476 }
}

/// The number of zero bytes that follow the marker byte 0x80, so that the padded
/// message, with its eight length bytes, fills whole blocks of 64 bytes.
pub open spec fn pad_zeros(len: nat) -> nat {
    ((55 - len as int) % 64) as nat
}

/// The message, the marker byte, the zeros and the length in bits, least significant
/// byte first.
pub open spec fn md5_padded(data: Seq<u8>) -> Seq<u8> {
    data + seq![0x80u8] + Seq::new(pad_zeros(data.len()), |i: int| 0u8) + wire::le64_bytes(
        (data.len() * 8) as u64,
    )
}

/// The rotation of a step.
pub open spec fn md5_shift(i: int) -> u32 {
    if i < 16 {
        if i % 4 == 0 { 7 } else if i % 4 == 1 { 12 } else if i % 4 == 2 { 17 } else { 22 }
    } else if i < 32 {
        if i % 4 == 0 { 5 } else if i % 4 == 1 { 9 } else if i % 4 == 2 { 14 } else { 20 }
    } else if i < 48 {
        if i % 4 == 0 { 4 } else if i % 4 == 1 { 11 } else if i % 4 == 2 { 16 } else { 23 }
    } else {
        if i % 4 == 0 { 6 } else if i % 4 == 1 { 10 } else if i % 4 == 2 { 15 } else { 21 }
    }
}

/// The auxiliary function of a step.
pub open spec fn md5_mix(i: int, s: Md5State) -> u32 {
    if i < 16 {
        (s.b & s.c) | (!s.b & s.d)
    } else if i < 32 {
        (s.d & s.b) | (!s.d & s.c)
    } else if i < 48 {
        s.b ^ s.c ^ s.d
    } else {
        s.c ^ (s.b | !s.d)
    }
}

/// The message word that a step reads.
pub open spec fn md5_word_index(i: int) -> int {
    if i < 16 {
        i
    } else if i < 32 {
        (5 * i + 1) % 16
    } else if i < 48 {
        (3 * i + 5) % 16
    } else {
        (7 * i) % 16
    }
}

/// Word `i` of the block that starts at `at`, least significant byte first.
pub open spec fn md5_word(msg: Seq<u8>, at: int, i: int) -> u32 {
    wire::be32(msg[at + 4 * i + 3], msg[at + 4 * i + 2], msg[at + 4 * i + 1], msg[at + 4 * i])
}

/// The chaining variables after the first `n` steps on the block that starts at `at`.
pub open spec fn md5_steps(s: Md5State, msg: Seq<u8>, at: int, n: nat) -> Md5State
    decreases n,
{
    if n == 0 {
        s
    } else {
        let i = n - 1;
        let p = md5_steps(s, msg, at, i as nat);
        let sum = p.a.wrapping_add(md5_mix(i, p)).wrapping_add(SINES[i]).wrapping_add(
            md5_word(msg, at, md5_word_index(i)),
        );
        Md5State { a: p.d, b: p.b.wrapping_add(rotl(sum, md5_shift(i))), c: p.b, d: p.c }
    }
}

/// The chaining variables after the first `n` blocks of a padded message.
pub open spec fn md5_blocks(msg: Seq<u8>, n: nat) -> Md5State
    decreases n,
{
    if n == 0 {
        md5_init()
    } else {
        let p = md5_blocks(msg, (n - 1) as nat);
        let q = md5_steps(p, msg, 64 * (n - 1), 64);
        Md5State {
            a: p.a.wrapping_add(q.a),
            b: p.b.wrapping_add(q.b),
            c: p.c.wrapping_add(q.c),
            d: p.d.wrapping_add(q.d),
        }
    }
}

/// The MD5 digest of `data`.
#[verifier::opaque]
pub open spec fn md5(data: Seq<u8>) -> Seq<u8> {
    let msg = md5_padded(data);
    let s = md5_blocks(msg, msg.len() / 64);
    wire::le32_bytes(s.a) + wire::le32_bytes(s.b) + wire::le32_bytes(s.c) + wire::le32_bytes(s.d)
}

/// A padded message fills whole blocks, and its digest has sixteen bytes.
pub proof fn law_md5_shape(data: Seq<u8>)
    ensures
        md5_padded(data).len() % 64 == 0,
        md5_padded(data).len() > data.len() + 8,
        md5(data).len() == 16,
{
    reveal(md5);
}

fn shift_of(i: usize) -> (n: u32)
    requires
        i < 64,
    ensures
        n == md5_shift(i as int),
        0 < n < 32,
{
    let k: usize = i % 4;
    if i < 16 {
        if k == 0 { 7 } else if k == 1 { 12 } else if k == 2 { 17 } else { 22 }
    } else if i < 32 {
        if k == 0 { 5 } else if k == 1 { 9 } else if k == 2 { 14 } else { 20 }
    } else if i < 48 {
        if k == 0 { 4 } else if k == 1 { 11 } else if k == 2 { 16 } else { 23 }
    } else {
        if k == 0 { 6 } else if k == 1 { 10 } else if k == 2 { 15 } else { 21 }
    }
}

/// Appends the marker byte and the zeros that a block digest asks for.
pub fn pad_message(data: &[u8]) -> (padded: Vec<u8>)
    ensures
        padded@ == data@ + seq![0x80u8] + Seq::new(pad_zeros(data@.len()), |i: int| 0u8),
{
    let mut padded: Vec<u8> = Vec::new();
    wire::append_bytes(&mut padded, data);
    padded.push(0x80);
    let zeros: usize = (119 - data.len() % 64) % 64;
    let mut i: usize = 0;
    while i < zeros
        invariant
            i <= zeros,
            padded@ == data@ + seq![0x80u8] + Seq::new(i as nat, |i: int| 0u8),
        decreases zeros - i,
    {
        padded.push(0);
        i += 1;
        assert(padded@ =~= data@ + seq![0x80u8] + Seq::new(i as nat, |i: int| 0u8));
    }
    padded
}

fn compress(state: Md5State, msg: &[u8], at: usize) -> (r: Md5State)
    requires
        at + 64 <= msg.len(),
    ensures
        r == md5_steps(state, msg@, at as int, 64),
{
    let mut s = state;
    let mut i: usize = 0;
    while i < 64
        invariant
            i <= 64,
            at + 64 <= msg.len(),
            s == md5_steps(state, msg@, at as int, i as nat),
        decreases 64 - i,
    {
        let f: u32 = if i < 16 {
            (s.b & s.c) | (!s.b & s.d)
        } else if i < 32 {
            (s.d & s.b) | (!s.d & s.c)
        } else if i < 48 {
            s.b ^ s.c ^ s.d
        } else {
            s.c ^ (s.b | !s.d)
        };
        let g: usize = if i < 16 {
            i
        } else if i < 32 {
            (5 * i + 1) % 16
        } else if i < 48 {
            (3 * i + 5) % 16
        } else {
            (7 * i) % 16
        };
        let k: usize = at + 4 * g;
        let word: u32 = wire::u32_from_be(msg[k + 3], msg[k + 2], msg[k + 1], msg[k]);
        let sum: u32 = s.a.wrapping_add(f).wrapping_add(SINES[i]).wrapping_add(word);
        s = Md5State {
            a: s.d,
            b: s.b.wrapping_add(rotate_left(sum, shift_of(i))),
            c: s.b,
            d: s.c,
        };
        i += 1;
    }
    s
}

/// Computes the MD5 digest of `data`.
pub fn md5_hash(data: &[u8]) -> (digest: [u8; 16])
    requires
        data@.len() * 8 <= u64::MAX,
    ensures
        digest@ == md5(data@),
{
    let mut msg = pad_message(data);
    let len = wire::u64_to_be(data.len() as u64 * 8);
    let le = [len[7], len[6], len[5], len[4], len[3], len[2], len[1], len[0]];
    assert(le@ =~= wire::le64_bytes((data@.len() * 8) as u64));
    wire::append_bytes(&mut msg, &le);
    assert(msg@ == md5_padded(data@));
    proof {
        law_md5_shape(data@);
    }
    let mut s = Md5State { a: 0x67452301, b: 0xefcdab89, c: 0x98badcfe, d: 0x10325476 };
    let blocks: usize = msg.len() / 64;
    let mut n: usize = 0;
    while n < blocks
        invariant
            n <= blocks,
            blocks * 64 <= msg.len(),
            s == md5_blocks(msg@, n as nat),
        decreases blocks - n,
    {
        let q = compress(s, &msg, n * 64);
        s = Md5State {
            a: s.a.wrapping_add(q.a),
            b: s.b.wrapping_add(q.b),
            c: s.c.wrapping_add(q.c),
            d: s.d.wrapping_add(q.d),
        };
        n += 1;
    }
    let a = wire::u32_to_be(s.a);
    let b = wire::u32_to_be(s.b);
    let c = wire::u32_to_be(s.c);
    let d = wire::u32_to_be(s.d);
    let digest = [
        a[3], a[2], a[1], a[0],
        b[3], b[2], b[1], b[0],
        c[3], c[2], c[1], c[0],
        d[3], d[2], d[1], d[0],
    ];
    proof {
        reveal(md5);
        assert(digest@ =~= md5(data@));
    }
    digest
}

/// The zeros fill up a block, and are fewer than a block.
pub proof fn lemma_pad_zeros(len: nat)
    ensures
        pad_zeros(len) < 64,
        (len + 9 + pad_zeros(len)) % 64 == 0,
{
}

/// The places of the parts of a padded message.
pub proof fn lemma_parts_in_place(data: Seq<u8>, zeros: Seq<u8>, bits: Seq<u8>)
    requires
        bits.len() == 8,
        forall|i: int| 0 <= i < zeros.len() ==> #[trigger] zeros[i] == 0,
    ensures
        ({
            let p = data + seq![0x80u8] + zeros + bits;
            let n = data.len() as int;
            &&& p.len() == n + 9 + zeros.len()
            &&& forall|i: int| 0 <= i < n ==> p[i] == #[trigger] data[i]
            &&& p[n] == 0x80
            &&& forall|i: int| n < i < p.len() - 8 ==> #[trigger] p[i] == 0
            &&& p.subrange(p.len() - 8, p.len() as int) == bits
        }),
{
    let p = data + seq![0x80u8] + zeros + bits;
    let n = data.len() as int;
    assert forall|i: int| n < i < p.len() - 8 implies #[trigger] p[i] == 0 by {
        assert(p[i] == zeros[i - n - 1]);
    }
    assert(p.subrange(p.len() - 8, p.len() as int) =~= bits);
}

/// A padded message is the message, whole, the marker, zeros, and the number of its bits in
/// the last eight bytes; it fills as few blocks as hold all that.
pub proof fn law_padding_in_place(data: Seq<u8>)
    ensures
        ({
            let p = md5_padded(data);
            let n = data.len() as int;
            &&& p.len() % 64 == 0
            &&& n + 9 <= p.len() < n + 73
            &&& forall|i: int| 0 <= i < n ==> p[i] == #[trigger] data[i]
            &&& p[n] == 0x80
            &&& forall|i: int| n < i < p.len() - 8 ==> #[trigger] p[i] == 0
            &&& p.subrange(p.len() - 8, p.len() as int) == wire::le64_bytes(
                (data.len() * 8) as u64,
            )
        }),
{
    lemma_pad_zeros(data.len());
    let zeros = Seq::new(pad_zeros(data.len()), |i: int| 0u8);
    let bits = wire::le64_bytes((data.len() * 8) as u64);
    lemma_parts_in_place(data, zeros, bits);
}

/// A rotation moves every bit by so many places to the left, and those beyond the end to the
/// start.
pub proof fn law_rotation_moves_bits(x: u32, n: u32, j: u32)
    requires
        0 < n < 32,
        j < 32,
    ensures
        (rotl(x, n) >> ((j + n) % 32)) & 1u32 == (x >> j) & 1u32,
{
    let m = (32 - n) as u32;
    let k = ((j + n) % 32) as u32;
    assert((((x << n) | (x >> m)) >> k) & 1u32 == (x >> j) & 1u32) by (bit_vector)
        requires
            0 < n < 32,
            j < 32,
            m == 32 - n,
            k == (j + n) % 32,
    ;
}

/// The four rounds mix three of the variables bit by bit: one chooses between the two others,
/// in the first round and with another choice in the second; the third tells whether an odd
/// number of them is set; the fourth is the exclusive or of one with the others.
pub proof fn law_rounds_mix(i: int, s: Md5State)
    ensures
        i < 16 ==> md5_mix(i, s) == s.d ^ (s.b & (s.c ^ s.d)),
        16 <= i < 32 ==> md5_mix(i, s) == s.c ^ (s.d & (s.b ^ s.c)),
        32 <= i < 48 ==> md5_mix(i, s) == (s.b ^ s.c) ^ s.d,
        48 <= i ==> md5_mix(i, s) == s.c ^ (s.b | !s.d),
{
    let (b, c, d) = (s.b, s.c, s.d);
    assert((b & c) | (!b & d) == d ^ (b & (c ^ d))) by (bit_vector);
    assert((d & b) | (!d & c) == c ^ (d & (b ^ c))) by (bit_vector);
}

/// Each round reads every word of the block once, in steps of one, five, three and seven words
/// from its first word on, and rotates by four numbers in turn.
#[verifier::rlimit(40)]
pub proof fn law_rounds_read_every_word(i: int, j: int)
    requires
        0 <= i < 64,
        0 <= j < 64,
    ensures
        0 <= md5_word_index(i) < 16,
        i / 16 == j / 16 && i != j ==> md5_word_index(i) != md5_word_index(j),
        md5_word_index(0) == 0 && md5_word_index(16) == 1 && md5_word_index(32) == 5
            && md5_word_index(48) == 0,
        i % 16 != 15 ==> md5_word_index(i + 1) == (md5_word_index(i) + seq![1int, 5, 3, 7][i / 16])
            % 16,
        md5_shift(i) == seq![7u32, 12, 17, 22, 5, 9, 14, 20, 4, 11, 16, 23, 6, 10, 15, 21][i / 16
            * 4 + i % 4],
{
}

proof fn lemma_sum(a: u32, b: u32, c: u32, d: u32)
    ensures
        a.wrapping_add(b).wrapping_add(c).wrapping_add(d) == (a + b + c + d) % 0x1_0000_0000,
{
}

proof fn lemma_word(msg: Seq<u8>, at: int, i: int)
    ensures
        md5_word(msg, at, i) == msg[at + 4 * i] + 0x100 * msg[at + 4 * i + 1] + 0x1_0000 * msg[at + 4
            * i + 2] + 0x100_0000 * msg[at + 4 * i + 3],
{
}

/// A step moves three of the variables on, and makes the fourth out of the sum of what it
/// reads, rotated: all sums without what is carried out of 32 bits.
#[verifier::rlimit(40)]
pub proof fn law_step_sums(s: Md5State, msg: Seq<u8>, at: int, i: nat)
    requires
        i < 64,
    ensures
        md5_steps(s, msg, at, 0) == s,
        ({
            let p = md5_steps(s, msg, at, i);
            let q = md5_steps(s, msg, at, i + 1);
            let k = at + 4 * md5_word_index(i as int);
            let word = msg[k] + 0x100 * msg[k + 1] + 0x1_0000 * msg[k + 2] + 0x100_0000 * msg[k
                + 3];
            let sum = (p.a + md5_mix(i as int, p) + SINES[i as int] + word) % 0x1_0000_0000;
            &&& q.a == p.d && q.c == p.b && q.d == p.c
            &&& q.b == (p.b + rotl(sum as u32, md5_shift(i as int))) % 0x1_0000_0000
        }),
{
    let p = md5_steps(s, msg, at, i);
    let g = md5_word_index(i as int);
    let mix = md5_mix(i as int, p);
    let word = md5_word(msg, at, g);
    lemma_word(msg, at, g);
    lemma_sum(p.a, mix, SINES[i as int], word);
    let sum = p.a.wrapping_add(mix).wrapping_add(SINES[i as int]).wrapping_add(word);
    assert(md5_steps(s, msg, at, i + 1) == (Md5State {
        a: p.d,
        b: p.b.wrapping_add(rotl(sum, md5_shift(i as int))),
        c: p.b,
        d: p.c,
    }));
}

/// The blocks of the padded message are taken one after the other, and each is added to what
/// came of those before.
#[verifier::rlimit(40)]
pub proof fn law_blocks_add_up(data: Seq<u8>, n: nat)
    ensures
        ({
            let msg = md5_padded(data);
            let p = md5_blocks(msg, n);
            let q = md5_steps(p, msg, 64 * n as int, 64);
            let r = md5_blocks(msg, n + 1);
            &&& r.a == (p.a + q.a) % 0x1_0000_0000
            &&& r.b == (p.b + q.b) % 0x1_0000_0000
            &&& r.c == (p.c + q.c) % 0x1_0000_0000
            &&& r.d == (p.d + q.d) % 0x1_0000_0000
        }),
        ({
            let z = md5_blocks(md5_padded(data), 0);
            &&& z.a == 0x67452301 && z.b == 0xefcdab89 && z.c == 0x98badcfe && z.d == 0x10325476
        }),
{
}

/// The digest spells the four variables after the last block, each with its low byte first.
pub proof fn law_digest_spells_variables(data: Seq<u8>)
    ensures
        ({
            let e = md5_blocks(md5_padded(data), md5_padded(data).len() / 64);
            let d = md5(data);
            &&& d.len() == 16
            &&& e.a == d[0] + 0x100 * d[1] + 0x1_0000 * d[2] + 0x100_0000 * d[3]
            &&& e.b == d[4] + 0x100 * d[5] + 0x1_0000 * d[6] + 0x100_0000 * d[7]
            &&& e.c == d[8] + 0x100 * d[9] + 0x1_0000 * d[10] + 0x100_0000 * d[11]
            &&& e.d == d[12] + 0x100 * d[13] + 0x1_0000 * d[14] + 0x100_0000 * d[15]
        }),
{
    reveal(md5);
    let e = md5_blocks(md5_padded(data), md5_padded(data).len() / 64);
    let d = md5(data);
    assert(d =~= wire::le32_bytes(e.a) + wire::le32_bytes(e.b) + wire::le32_bytes(e.c)
        + wire::le32_bytes(e.d));
    wire::law_bytes_weigh(0, 0, 0, 0, 0, e.a, 0);
    wire::law_bytes_weigh(0, 0, 0, 0, 0, e.b, 0);
    wire::law_bytes_weigh(0, 0, 0, 0, 0, e.c, 0);
    wire::law_bytes_weigh(0, 0, 0, 0, 0, e.d, 0);
    assert(d[0] == wire::be32_bytes(e.a)[3] && d[1] == wire::be32_bytes(e.a)[2] && d[2]
        == wire::be32_bytes(e.a)[1] && d[3] == wire::be32_bytes(e.a)[0]);
    assert(d[4] == wire::be32_bytes(e.b)[3] && d[5] == wire::be32_bytes(e.b)[2] && d[6]
        == wire::be32_bytes(e.b)[1] && d[7] == wire::be32_bytes(e.b)[0]);
    assert(d[8] == wire::be32_bytes(e.c)[3] && d[9] == wire::be32_bytes(e.c)[2] && d[10]
        == wire::be32_bytes(e.c)[1] && d[11] == wire::be32_bytes(e.c)[0]);
    assert(d[12] == wire::be32_bytes(e.d)[3] && d[13] == wire::be32_bytes(e.d)[2] && d[14]
        == wire::be32_bytes(e.d)[1] && d[15] == wire::be32_bytes(e.d)[0]);
}

/// What is computed is the digest of all the data.
pub proof fn law_digest_computed(data: &[u8], digest: [u8; 16], x: u32, n: u32, turned: u32)
    requires
        call_ensures(md5_hash, (data,), digest),
        call_ensures(rotate_left, (x, n), turned),
    ensures
        digest@ == md5(data@),
        turned == rotl(x, n),
{
}

} // verus!
