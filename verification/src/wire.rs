//! Fixed-width integers as byte sequences, in both byte orders.

use vstd::prelude::*;

verus! {

/// The 16-bit number whose big-endian bytes are `a`, `b`.
pub open spec fn be16(a: u8, b: u8) -> u16 {
    (a * 0x100 + b) as u16
}

/// The 32-bit number whose big-endian bytes are `a`, `b`, `c`, `d`.
pub open spec fn be32(a: u8, b: u8, c: u8, d: u8) -> u32 {
    (a * 0x100_0000 + b * 0x1_0000 + c * 0x100 + d) as u32
}

/// The two bytes of `x`, most significant first.
pub open spec fn be16_bytes(x: u16) -> Seq<u8> {
    seq![(x / 0x100) as u8, (x % 0x100) as u8]
}

/// The four bytes of `x`, most significant first.
pub open spec fn be32_bytes(x: u32) -> Seq<u8> {
    seq![
        (x / 0x100_0000) as u8,
        (x / 0x1_0000 % 0x100) as u8,
        (x / 0x100 % 0x100) as u8,
        (x % 0x100) as u8,
    ]
}

/// The eight bytes of `x`, most significant first.
pub open spec fn be64_bytes(x: u64) -> Seq<u8> {
    be32_bytes((x / 0x1_0000_0000) as u32) + be32_bytes((x % 0x1_0000_0000) as u32)
}

/// The four bytes of `x`, least significant first.
pub open spec fn le32_bytes(x: u32) -> Seq<u8> {
    be32_bytes(x).reverse()
}

/// The eight bytes of `x`, least significant first.
pub open spec fn le64_bytes(x: u64) -> Seq<u8> {
    be64_bytes(x).reverse()
}

/// Reads a big-endian 16-bit number.
pub fn u16_from_be(a: u8, b: u8) -> (x: u16)
    ensures
        x == be16(a, b),
{
    a as u16 * 0x100 + b as u16
}

/// Reads a big-endian 32-bit number.
pub fn u32_from_be(a: u8, b: u8, c: u8, d: u8) -> (x: u32)
    ensures
        x == be32(a, b, c, d),
{
    a as u32 * 0x100_0000 + b as u32 * 0x1_0000 + c as u32 * 0x100 + d as u32
}

/// Writes a 16-bit number, most significant byte first.
pub fn u16_to_be(x: u16) -> (r: [u8; 2])
    ensures
        r@ == be16_bytes(x),
{
    let r = [(x / 0x100) as u8, (x % 0x100) as u8];
    assert(r@ =~= be16_bytes(x));
    r
}

/// Writes a 32-bit number, most significant byte first.
pub fn u32_to_be(x: u32) -> (r: [u8; 4])
    ensures
        r@ == be32_bytes(x),
{
    let r = [
        (x / 0x100_0000) as u8,
        (x / 0x1_0000 % 0x100) as u8,
        (x / 0x100 % 0x100) as u8,
        (x % 0x100) as u8,
    ];
    assert(r@ =~= be32_bytes(x));
    r
}

/// Writes a 64-bit number, most significant byte first.
pub fn u64_to_be(x: u64) -> (r: [u8; 8])
    ensures
        r@ == be64_bytes(x),
{
    let hi = u32_to_be((x / 0x1_0000_0000) as u32);
    let lo = u32_to_be((x % 0x1_0000_0000) as u32);
    let r = [hi[0], hi[1], hi[2], hi[3], lo[0], lo[1], lo[2], lo[3]];
    assert(r@ =~= hi@ + lo@);
    r
}

/// Appends a slice of bytes to a vector.
pub fn append_bytes(buf: &mut Vec<u8>, bytes: &[u8])
    ensures
        final(buf)@ == old(buf)@ + bytes@,
{
    buf.extend_from_slice(bytes);
    assert(buf@ =~= old(buf)@ + bytes@);
}

/// A 16-bit number survives being written and read.
pub proof fn lemma_be16_round_trip(x: u16)
    ensures
        be16(be16_bytes(x)[0], be16_bytes(x)[1]) == x,
{
}

/// A 32-bit number survives being written and read.
pub proof fn lemma_be32_round_trip(x: u32)
    ensures
        be32(be32_bytes(x)[0], be32_bytes(x)[1], be32_bytes(x)[2], be32_bytes(x)[3]) == x,
{
}

/// Two bytes survive being read and written.
pub proof fn lemma_be16_written_back(a: u8, b: u8)
    ensures
        be16_bytes(be16(a, b)) == seq![a, b],
{
    assert(be16_bytes(be16(a, b)) =~= seq![a, b]);
}

/// Four bytes survive being read and written.
pub proof fn lemma_be32_written_back(a: u8, b: u8, c: u8, d: u8)
    ensures
        be32_bytes(be32(a, b, c, d)) == seq![a, b, c, d],
{
    let x = 0x100_0000 * a + 0x1_0000 * b + 0x100 * c + d;
    let (ab, abc) = (0x100 * a + b, 0x1_0000 * a + 0x100 * b + c);
    vstd::arithmetic::div_mod::lemma_fundamental_div_mod_converse(
        x,
        0x100_0000,
        a as int,
        0x1_0000 * b + 0x100 * c + d,
    );
    vstd::arithmetic::div_mod::lemma_fundamental_div_mod_converse(x, 0x1_0000, ab, 0x100 * c + d);
    vstd::arithmetic::div_mod::lemma_fundamental_div_mod_converse(ab, 0x100, a as int, b as int);
    vstd::arithmetic::div_mod::lemma_fundamental_div_mod_converse(x, 0x100, abc, d as int);
    vstd::arithmetic::div_mod::lemma_fundamental_div_mod_converse(abc, 0x100, ab, c as int);
    assert(be32_bytes(be32(a, b, c, d)) =~= seq![a, b, c, d]);
}

/// A number is the sum of its bytes, each at its weight, in either direction.
pub proof fn law_bytes_weigh(a: u8, b: u8, c: u8, d: u8, x: u16, y: u32, z: u64)
    ensures
        be16(a, b) == 0x100 * a + b,
        be32(a, b, c, d) == 0x100_0000 * a + 0x1_0000 * b + 0x100 * c + d,
        be16_bytes(x).len() == 2,
        x == 0x100 * be16_bytes(x)[0] + be16_bytes(x)[1],
        be32_bytes(y).len() == 4,
        y == 0x100_0000 * be32_bytes(y)[0] + 0x1_0000 * be32_bytes(y)[1] + 0x100 * be32_bytes(y)[2]
            + be32_bytes(y)[3],
        be64_bytes(z).len() == 8,
        z == 0x1_0000_0000 * be32(
            be64_bytes(z)[0],
            be64_bytes(z)[1],
            be64_bytes(z)[2],
            be64_bytes(z)[3],
        ) + be32(be64_bytes(z)[4], be64_bytes(z)[5], be64_bytes(z)[6], be64_bytes(z)[7]),
{
    let hi = be32_bytes((z / 0x1_0000_0000) as u32);
    let lo = be32_bytes((z % 0x1_0000_0000) as u32);
    lemma_be32_round_trip((z / 0x1_0000_0000) as u32);
    lemma_be32_round_trip((z % 0x1_0000_0000) as u32);
    assert forall|i: int| 0 <= i < 4 implies be64_bytes(z)[i] == hi[i] && be64_bytes(z)[4 + i]
        == lo[i] by {}
}

/// The two byte orders are each other's reverse.
pub proof fn law_orders_reverse(y: u32, z: u64)
    ensures
        le32_bytes(y).len() == 4,
        le64_bytes(z).len() == 8,
        forall|i: int| 0 <= i < 4 ==> le32_bytes(y)[i] == #[trigger] be32_bytes(y)[3 - i],
        forall|i: int| 0 <= i < 8 ==> le64_bytes(z)[i] == #[trigger] be64_bytes(z)[7 - i],
{
}

/// What is read and written are the bytes of the number, most significant first; and bytes are
/// appended whole, behind those that are there.
pub proof fn law_read_and_written(
    a: u8,
    b: u8,
    c: u8,
    d: u8,
    x: u16,
    y: u32,
    z: u64,
    xs: [u8; 2],
    ys: [u8; 4],
    zs: [u8; 8],
    p: u16,
    q: u32,
)
    requires
        call_ensures(u16_from_be, (a, b), p),
        call_ensures(u32_from_be, (a, b, c, d), q),
        call_ensures(u16_to_be, (x,), xs),
        call_ensures(u32_to_be, (y,), ys),
        call_ensures(u64_to_be, (z,), zs),
    ensures
        p == 0x100 * a + b,
        q == 0x100_0000 * a + 0x1_0000 * b + 0x100 * c + d,
        xs@ == be16_bytes(x),
        ys@ == be32_bytes(y),
        zs@ == be64_bytes(z),
{
}

/// Bytes are appended whole, behind those that are there.
pub proof fn law_appended_whole(buf: &mut Vec<u8>, bytes: &[u8])
    requires
        call_ensures(append_bytes, (buf, bytes), ()),
    ensures
        final(buf)@.len() == old(buf)@.len() + bytes@.len(),
        forall|i: int| 0 <= i < old(buf)@.len() ==> final(buf)@[i] == #[trigger] old(buf)@[i],
        forall|i: int|
            0 <= i < bytes@.len() ==> final(buf)@[old(buf)@.len() + i] == #[trigger] bytes@[i],
{
}

} // verus!
