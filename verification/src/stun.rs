//! STUN messages, RFC 5389: headers, attributes and mapped addresses.

use vstd::prelude::*;
use vstd::slice::slice_subrange;
use vstd::slice::slice_to_vec;

use crate::net::IpAddr;
use crate::net::SocketAddr;
use crate::wire;

verus! {

/// The magic cookie that every message carries in its second word.
pub const STUN_MAGIC: u32 = 0x2112A442;

/// The upper half of the magic cookie, which masks ports.
pub const STUN_MAGIC_HIGH: u16 = 0x2112;

/// Message type of a binding request.
pub const BINDING_REQUEST: u16 = 0x0001;

/// Message type of a successful answer to a binding request.
pub const BINDING_SUCCESS: u16 = 0x0101;

/// Attribute type MAPPED-ADDRESS.
pub const ATTR_MAPPED_ADDRESS: u16 = 0x0001;

/// Attribute type REALM.
pub const ATTR_REALM: u16 = 0x0014;

/// Attribute type NONCE.
pub const ATTR_NONCE: u16 = 0x0015;

/// Attribute type XOR-MAPPED-ADDRESS.
pub const ATTR_XOR_MAPPED_ADDRESS: u16 = 0x0020;

/// What is wrong with a message that was received.
#[derive(Debug, Clone, Copy, PartialEq, Eq, Structural)]
pub enum StunError {
    /// The message is shorter than a header.
    TooShort,
    /// The second word is not the magic cookie.
    BadCookie,
    /// The message is of another type than the one expected.
    UnexpectedType(u16),
    /// No attribute holds a mapped address.
    NoMappedAddress,
    /// The value of XOR-MAPPED-ADDRESS has fewer than eight bytes.
    XorMappedTooShort,
    /// The value of MAPPED-ADDRESS has fewer than eight bytes.
    MappedTooShort,
    /// The address is not an IPv4 address.
    UnsupportedFamily(u8),
    /// The REALM or the NONCE of a challenge is missing.
    MissingRealmOrNonce,
}

/// The header of a message: type, length of what follows, magic cookie, transaction.
pub open spec fn header_bytes(msg_type: u16, msg_len: u16, txn: Seq<u8>) -> Seq<u8> {
    wire::be16_bytes(msg_type) + wire::be16_bytes(msg_len) + wire::be32_bytes(STUN_MAGIC) + txn
}

/// The number of bytes that fill a value of `len` bytes up to a whole word.
pub open spec fn padding(len: int) -> int {
    (4 - len % 4) % 4
}

/// An attribute: type, length (its low sixteen bits), value, zeros up to a whole word.
#[verifier::opaque]
pub open spec fn attr_bytes(attr_type: u16, value: Seq<u8>) -> Seq<u8> {
    wire::be16_bytes(attr_type) + wire::be16_bytes((value.len() % 0x1_0000) as u16) + value
        + Seq::new(padding(value.len() as int) as nat, |i: int| 0u8)
}

/// A list of attributes, one after the other.
pub open spec fn encode_attrs(attrs: Seq<(u16, Seq<u8>)>) -> Seq<u8>
    decreases attrs.len(),
{
    if attrs.len() == 0 {
        seq![]
    } else {
        attr_bytes(attrs[0].0, attrs[0].1) + encode_attrs(attrs.drop_first())
    }
}

/// A whole message: its header, with the length of the attributes, and the attributes.
pub open spec fn message(msg_type: u16, attrs: Seq<(u16, Seq<u8>)>, txn: Seq<u8>) -> Seq<u8> {
    header_bytes(msg_type, (encode_attrs(attrs).len() % 0x1_0000) as u16, txn) + encode_attrs(
        attrs,
    )
}

/// How much is left from `pos` up to `end`.
pub open spec fn distance(pos: int, end: int) -> int {
    if pos < end { end - pos } else { 0 }
}

/// The attributes that a reader of `data` finds from `pos` on, when those that start
/// before `end` count: it stops at the first that does not fit in `data`.
#[verifier::opaque]
pub open spec fn attrs_from(data: Seq<u8>, end: int, pos: int) -> Seq<(u16, Seq<u8>)>
    decreases distance(pos, end),
{
    if pos < 0 || pos + 4 > end || end > data.len() {
        seq![]
    } else {
        let len = wire::be16(data[pos + 2], data[pos + 3]);
        if pos + 4 + len > data.len() {
            seq![]
        } else {
            seq![
                (
                    wire::be16(data[pos], data[pos + 1]),
                    data.subrange(pos + 4, pos + 4 + len),
                ),
            ] + attrs_from(data, end, pos + 4 + len + padding(len as int))
        }
    }
}

/// Where the attributes of a message end: where its header says, or where the data does.
pub open spec fn attrs_end(data: Seq<u8>) -> int {
    let end = 20 + wire::be16(data[2], data[3]);
    if end < data.len() { end } else { data.len() as int }
}

/// The attributes of a message, in the order in which they stand.
pub open spec fn stun_attrs(data: Seq<u8>) -> Seq<(u16, Seq<u8>)> {
    attrs_from(data, attrs_end(data), 20)
}

/// The value of the first attribute of a type.
pub open spec fn first_attr(attrs: Seq<(u16, Seq<u8>)>, attr_type: u16) -> Option<Seq<u8>>
    decreases attrs.len(),
{
    if attrs.len() == 0 {
        None
    } else if attrs[0].0 == attr_type {
        Some(attrs[0].1)
    } else {
        first_attr(attrs.drop_first(), attr_type)
    }
}

/// The value of the last attribute of a type.
pub open spec fn last_attr(attrs: Seq<(u16, Seq<u8>)>, attr_type: u16) -> Option<Seq<u8>>
    decreases attrs.len(),
{
    if attrs.len() == 0 {
        None
    } else if attrs.last().0 == attr_type {
        Some(attrs.last().1)
    } else {
        last_attr(attrs.drop_last(), attr_type)
    }
}

/// The address that the value of XOR-MAPPED-ADDRESS stands for.
pub open spec fn xor_mapped(val: Seq<u8>) -> Result<SocketAddr, StunError> {
    if val.len() < 8 {
        Err(StunError::XorMappedTooShort)
    } else if val[1] != 0x01 {
        Err(StunError::UnsupportedFamily(val[1]))
    } else {
        Ok(
            SocketAddr {
                ip: IpAddr::V4(wire::be32(val[4], val[5], val[6], val[7]) ^ STUN_MAGIC),
                port: wire::be16(val[2], val[3]) ^ STUN_MAGIC_HIGH,
            },
        )
    }
}

/// The address that the value of MAPPED-ADDRESS stands for.
pub open spec fn mapped(val: Seq<u8>) -> Result<SocketAddr, StunError> {
    if val.len() < 8 {
        Err(StunError::MappedTooShort)
    } else if val[1] != 0x01 {
        Err(StunError::UnsupportedFamily(val[1]))
    } else {
        Ok(
            SocketAddr {
                ip: IpAddr::V4(wire::be32(val[4], val[5], val[6], val[7])),
                port: wire::be16(val[2], val[3]),
            },
        )
    }
}

/// The address in the first attribute that holds a mapped address in either form.
pub open spec fn mapped_address(attrs: Seq<(u16, Seq<u8>)>) -> Result<SocketAddr, StunError>
    decreases attrs.len(),
{
    if attrs.len() == 0 {
        Err(StunError::NoMappedAddress)
    } else if attrs[0].0 == ATTR_XOR_MAPPED_ADDRESS {
        xor_mapped(attrs[0].1)
    } else if attrs[0].0 == ATTR_MAPPED_ADDRESS {
        mapped(attrs[0].1)
    } else {
        mapped_address(attrs.drop_first())
    }
}

/// What a client learns from the answer to its binding request.
pub open spec fn binding_result(data: Seq<u8>) -> Result<SocketAddr, StunError> {
    if data.len() < 20 {
        Err(StunError::TooShort)
    } else if wire::be32(data[4], data[5], data[6], data[7]) != STUN_MAGIC {
        Err(StunError::BadCookie)
    } else if wire::be16(data[0], data[1]) != BINDING_SUCCESS {
        Err(StunError::UnexpectedType(wire::be16(data[0], data[1])))
    } else {
        mapped_address(stun_attrs(data))
    }
}

/// The realm and the nonce of a challenge: of each the last that it holds.
pub open spec fn challenge(data: Seq<u8>) -> Result<(Seq<u8>, Seq<u8>), StunError> {
    if data.len() < 20 {
        Err(StunError::TooShort)
    } else {
        match (last_attr(stun_attrs(data), ATTR_REALM), last_attr(stun_attrs(data), ATTR_NONCE)) {
            (Some(realm), Some(nonce)) => Ok((realm, nonce)),
            _ => Err(StunError::MissingRealmOrNonce),
        }
    }
}

/// The value of XOR-MAPPED-ADDRESS, or XOR-PEER-ADDRESS, for an IPv4 address.
pub open spec fn xor_address_bytes(ip: u32, port: u16) -> Seq<u8> {
    seq![0u8, 1u8] + wire::be16_bytes(port ^ STUN_MAGIC_HIGH) + wire::be32_bytes(ip ^ STUN_MAGIC)
}

/// The transaction identifier that a clock reading gives: its low 64 bits, then the
/// next 32.
pub open spec fn txn_id_bytes(nanos: u128) -> Seq<u8> {
    wire::be64_bytes((nanos % 0x1_0000_0000_0000_0000) as u64) + wire::be32_bytes(
        (nanos / 0x1_0000_0000_0000_0000 % 0x1_0000_0000) as u32,
    )
}

/// The transaction identifier of a binding request: a clock reading and a fixed tail.
pub open spec fn binding_txn(nanos: u64) -> Seq<u8> {
    wire::be64_bytes(nanos) + seq![0xABu8, 0xCDu8, 0xEFu8, 0x01u8]
}

/// The number of nanoseconds since the Unix epoch, by `std::time::SystemTime::now`; zero
/// where the clock stands before the epoch. Nothing is claimed of the number: two
/// readings may give anything.
#[verifier::external_body]
fn unix_nanos() -> u128 {
    std::time::SystemTime::now()
        .duration_since(std::time::UNIX_EPOCH)
        .unwrap_or_default()
        .as_nanos()
}

/// The transaction identifier for a clock reading.
pub fn txn_id(nanos: u128) -> (id: [u8; 12])
    ensures
        id@ == txn_id_bytes(nanos),
{
    let a = wire::u64_to_be((nanos % 0x1_0000_0000_0000_0000) as u64);
    let b = wire::u32_to_be((nanos / 0x1_0000_0000_0000_0000 % 0x1_0000_0000) as u32);
    let id = [a[0], a[1], a[2], a[3], a[4], a[5], a[6], a[7], b[0], b[1], b[2], b[3]];
    assert(id@ =~= a@ + b@);
    id
}

/// A transaction identifier from the clock.
pub fn gen_txn_id() -> (id: [u8; 12])
    ensures
        exists|nanos: u128| id@ == txn_id_bytes(nanos),
{
    let nanos: u128 = unix_nanos();
    txn_id(nanos)
}

/// Writes the header of a message.
pub fn stun_header(msg_type: u16, msg_len: u16, txn: &[u8; 12]) -> (h: [u8; 20])
    ensures
        h@ == header_bytes(msg_type, msg_len, txn@),
{
    let t = wire::u16_to_be(msg_type);
    let l = wire::u16_to_be(msg_len);
    let m = wire::u32_to_be(STUN_MAGIC);
    let h = [
        t[0], t[1], l[0], l[1], m[0], m[1], m[2], m[3],
        txn[0], txn[1], txn[2], txn[3], txn[4], txn[5],
        txn[6], txn[7], txn[8], txn[9], txn[10], txn[11],
    ];
    assert(h@ =~= t@ + l@ + m@ + txn@);
    h
}

/// The binding request for a clock reading.
pub fn binding_request(nanos: u64) -> (req: [u8; 20])
    ensures
        req@ == header_bytes(BINDING_REQUEST, 0, binding_txn(nanos)),
{
    let n = wire::u64_to_be(nanos);
    let txn = [n[0], n[1], n[2], n[3], n[4], n[5], n[6], n[7], 0xAB, 0xCD, 0xEF, 0x01];
    assert(txn@ =~= binding_txn(nanos));
    stun_header(BINDING_REQUEST, 0, &txn)
}

/// A binding request with a transaction identifier from the clock.
pub fn gen_binding_request() -> (req: [u8; 20])
    ensures
        exists|nanos: u64| req@ == header_bytes(BINDING_REQUEST, 0, binding_txn(nanos)),
{
    let nanos: u128 = unix_nanos();
    binding_request((nanos % 0x1_0000_0000_0000_0000) as u64)
}

/// Appends an attribute, with the zeros that fill its last word.
pub fn append_attr(buf: &mut Vec<u8>, attr_type: u16, value: &[u8])
    ensures
        final(buf)@ == old(buf)@ + attr_bytes(attr_type, value@),
{
    let ghost start = buf@;
    wire::append_bytes(buf, &wire::u16_to_be(attr_type));
    wire::append_bytes(buf, &wire::u16_to_be((value.len() % 0x1_0000) as u16));
    wire::append_bytes(buf, value);
    let ghost body = buf@;
    let pad: usize = (4 - value.len() % 4) % 4;
    let mut i: usize = 0;
    while i < pad
        invariant
            i <= pad,
            buf@ == body + Seq::new(i as nat, |j: int| 0u8),
        decreases pad - i,
    {
        buf.push(0);
        i += 1;
        assert(buf@ =~= body + Seq::new(i as nat, |j: int| 0u8));
    }
    proof {
        reveal(attr_bytes);
    }
    assert(buf@ =~= start + attr_bytes(attr_type, value@));
}

/// Where the attributes of a message end.
pub(crate) fn end_of_attrs(data: &[u8]) -> (end: usize)
    requires
        data@.len() >= 20,
    ensures
        end == attrs_end(data@),
        end <= data@.len(),
{
    let msg_len: usize = wire::u16_from_be(data[2], data[3]) as usize;
    if msg_len < data.len() - 20 {
        20 + msg_len
    } else {
        data.len()
    }
}

/// The next attribute from `pos` on: its type, where its value starts and ends, and
/// where the one after it starts.
pub(crate) fn next_attr(data: &[u8], end: usize, pos: usize) -> (r: Option<
    (u16, usize, usize, usize),
>)
    requires
        end <= data@.len(),
    ensures
        r is None ==> attrs_from(data@, end as int, pos as int) == Seq::<
            (u16, Seq<u8>),
        >::empty(),
        r matches Some((t, from, to, next)) ==> {
            &&& pos < next
            &&& pos < end
            &&& from <= to <= data@.len()
            &&& attrs_from(data@, end as int, pos as int) == seq![
                (t, data@.subrange(from as int, to as int)),
            ] + attrs_from(data@, end as int, next as int)
        },
{
    proof {
        reveal(attrs_from);
    }
    if pos > end || end - pos < 4 {
        return None;
    }
    let attr_type: u16 = wire::u16_from_be(data[pos], data[pos + 1]);
    let len: usize = wire::u16_from_be(data[pos + 2], data[pos + 3]) as usize;
    if len > data.len() - (pos + 4) {
        return None;
    }
    let to: usize = pos + 4 + len;
    let next: usize = to.saturating_add((4 - len % 4) % 4);
    assert(attrs_from(data@, end as int, to + padding(len as int)) == attrs_from(
        data@,
        end as int,
        next as int,
    ));
    Some((attr_type, pos + 4, to, next))
}

/// Reads the value of XOR-MAPPED-ADDRESS.
pub fn parse_xor_mapped(val: &[u8]) -> (r: Result<SocketAddr, StunError>)
    ensures
        r == xor_mapped(val@),
{
    if val.len() < 8 {
        return Err(StunError::XorMappedTooShort);
    }
    let port: u16 = wire::u16_from_be(val[2], val[3]) ^ STUN_MAGIC_HIGH;
    if val[1] == 0x01 {
        let ip: u32 = wire::u32_from_be(val[4], val[5], val[6], val[7]) ^ STUN_MAGIC;
        Ok(SocketAddr { ip: IpAddr::V4(ip), port })
    } else {
        Err(StunError::UnsupportedFamily(val[1]))
    }
}

/// Reads the value of MAPPED-ADDRESS.
pub fn parse_mapped(val: &[u8]) -> (r: Result<SocketAddr, StunError>)
    ensures
        r == mapped(val@),
{
    if val.len() < 8 {
        return Err(StunError::MappedTooShort);
    }
    if val[1] == 0x01 {
        let ip: u32 = wire::u32_from_be(val[4], val[5], val[6], val[7]);
        Ok(SocketAddr { ip: IpAddr::V4(ip), port: wire::u16_from_be(val[2], val[3]) })
    } else {
        Err(StunError::UnsupportedFamily(val[1]))
    }
}

/// Reads the public address out of the answer to a binding request.
pub fn parse_stun_response(data: &[u8]) -> (r: Result<SocketAddr, StunError>)
    ensures
        r == binding_result(data@),
{
    if data.len() < 20 {
        return Err(StunError::TooShort);
    }
    if wire::u32_from_be(data[4], data[5], data[6], data[7]) != STUN_MAGIC {
        return Err(StunError::BadCookie);
    }
    let msg_type: u16 = wire::u16_from_be(data[0], data[1]);
    if msg_type != BINDING_SUCCESS {
        return Err(StunError::UnexpectedType(msg_type));
    }
    let end: usize = end_of_attrs(data);
    let mut pos: usize = 20;
    loop
        invariant
            end <= data@.len(),
            mapped_address(attrs_from(data@, end as int, pos as int)) == binding_result(data@),
        decreases distance(pos as int, end as int),
    {
        let ghost rest = attrs_from(data@, end as int, pos as int);
        match next_attr(data, end, pos) {
            None => {
                return Err(StunError::NoMappedAddress);
            },
            Some((attr_type, from, to, next)) => {
                let val = slice_subrange(data, from, to);
                if attr_type == ATTR_XOR_MAPPED_ADDRESS {
                    return parse_xor_mapped(val);
                }
                if attr_type == ATTR_MAPPED_ADDRESS {
                    return parse_mapped(val);
                }
                assert(rest.drop_first() =~= attrs_from(data@, end as int, next as int));
                pos = next;
            },
        }
    }
}

/// What a datagram says to someone who waits for a server's answer to a binding request:
/// nothing, where it comes from elsewhere.
pub fn binding_reply(server: SocketAddr, from: SocketAddr, data: &[u8]) -> (r: Option<
    Result<SocketAddr, StunError>,
>)
    ensures
        r == (if from == server {
            Some(binding_result(data@))
        } else {
            None
        }),
{
    if from == server {
        Some(parse_stun_response(data))
    } else {
        None
    }
}

/// Reads the realm and the nonce out of a challenge.
pub fn parse_turn_error_401(data: &[u8]) -> (r: Result<(Vec<u8>, Vec<u8>), StunError>)
    ensures
        match r {
            Ok((realm, nonce)) => challenge(data@) == Ok::<(Seq<u8>, Seq<u8>), StunError>(
                (realm@, nonce@),
            ),
            Err(e) => challenge(data@) == Err::<(Seq<u8>, Seq<u8>), StunError>(e),
        },
{
    if data.len() < 20 {
        return Err(StunError::TooShort);
    }
    let mut realm: Option<Vec<u8>> = None;
    let mut nonce: Option<Vec<u8>> = None;
    let end: usize = end_of_attrs(data);
    let mut pos: usize = 20;
    let ghost mut seen: Seq<(u16, Seq<u8>)> = seq![];
    assert(stun_attrs(data@) =~= seen + stun_attrs(data@));
    let mut done = false;
    while !done
        invariant
            end <= data@.len(),
            stun_attrs(data@) == seen + attrs_from(data@, end as int, pos as int),
            done ==> stun_attrs(data@) == seen,
            match realm {
                Some(v) => last_attr(seen, ATTR_REALM) == Some(v@),
                None => last_attr(seen, ATTR_REALM) is None,
            },
            match nonce {
                Some(v) => last_attr(seen, ATTR_NONCE) == Some(v@),
                None => last_attr(seen, ATTR_NONCE) is None,
            },
        decreases
            if done {
                0
            } else {
                1 + distance(pos as int, end as int)
            },
    {
        match next_attr(data, end, pos) {
            None => {
                done = true;
                assert(seen + attrs_from(data@, end as int, pos as int) =~= seen);
            },
            Some((attr_type, from, to, next)) => {
                let val = slice_subrange(data, from, to);
                proof {
                    let old_seen = seen;
                    seen = seen.push((attr_type, val@));
                    assert(seen.drop_last() =~= old_seen);
                    assert(old_seen + attrs_from(data@, end as int, pos as int) =~= seen
                        + attrs_from(data@, end as int, next as int));
                }
                if attr_type == ATTR_REALM {
                    realm = Some(slice_to_vec(val));
                } else if attr_type == ATTR_NONCE {
                    nonce = Some(slice_to_vec(val));
                }
                pos = next;
            },
        }
    }
    match (realm, nonce) {
        (Some(r), Some(n)) => Ok((r, n)),
        _ => Err(StunError::MissingRealmOrNonce),
    }
}

/// Finds the value of the first attribute of a type.
pub fn parse_stun_attr(data: &[u8], target_type: u16) -> (r: Option<&[u8]>)
    ensures
        match r {
            Some(val) => data@.len() >= 20 && first_attr(stun_attrs(data@), target_type) == Some(
                val@,
            ),
            None => data@.len() < 20 || first_attr(stun_attrs(data@), target_type) is None,
        },
{
    if data.len() < 20 {
        return None;
    }
    let end: usize = end_of_attrs(data);
    let mut pos: usize = 20;
    loop
        invariant
            data@.len() >= 20,
            end <= data@.len(),
            first_attr(attrs_from(data@, end as int, pos as int), target_type) == first_attr(
                stun_attrs(data@),
                target_type,
            ),
        decreases distance(pos as int, end as int),
    {
        let ghost rest = attrs_from(data@, end as int, pos as int);
        match next_attr(data, end, pos) {
            None => {
                return None;
            },
            Some((attr_type, from, to, next)) => {
                if attr_type == target_type {
                    return Some(slice_subrange(data, from, to));
                }
                assert(rest.drop_first() =~= attrs_from(data@, end as int, next as int));
                pos = next;
            },
        }
    }
}

/// Writes the value of XOR-PEER-ADDRESS for an IPv4 address.
pub fn xor_address(ip: u32, port: u16) -> (val: [u8; 8])
    ensures
        val@ == xor_address_bytes(ip, port),
{
    let p = wire::u16_to_be(port ^ STUN_MAGIC_HIGH);
    let a = wire::u32_to_be(ip ^ STUN_MAGIC);
    let val = [0, 1, p[0], p[1], a[0], a[1], a[2], a[3]];
    assert(val@ =~= seq![0u8, 1u8] + p@ + a@);
    val
}

/// An attribute fills whole words: four bytes of type and length, the value, the zeros.
pub proof fn lemma_attr_bytes_len(attr_type: u16, value: Seq<u8>)
    ensures
        attr_bytes(attr_type, value).len() == 4 + value.len() + padding(value.len() as int),
        attr_bytes(attr_type, value).len() % 4 == 0,
{
    reveal(attr_bytes);
}

/// A list of attributes fills whole words.
pub proof fn lemma_encode_attrs_len(attrs: Seq<(u16, Seq<u8>)>)
    ensures
        encode_attrs(attrs).len() % 4 == 0,
    decreases attrs.len(),
{
    if attrs.len() > 0 {
        lemma_attr_bytes_len(attrs[0].0, attrs[0].1);
        lemma_encode_attrs_len(attrs.drop_first());
    }
}

/// The attributes of two lists, one list after the other.
pub proof fn lemma_encode_attrs_concat(a: Seq<(u16, Seq<u8>)>, b: Seq<(u16, Seq<u8>)>)
    ensures
        encode_attrs(a + b) == encode_attrs(a) + encode_attrs(b),
    decreases a.len(),
{
    if a.len() == 0 {
        assert(a + b =~= b);
        assert(encode_attrs(a) + encode_attrs(b) =~= encode_attrs(b));
    } else {
        assert((a + b).drop_first() =~= a.drop_first() + b);
        lemma_encode_attrs_concat(a.drop_first(), b);
        assert(encode_attrs(a + b) =~= encode_attrs(a) + encode_attrs(b));
    }
}

/// One attribute at the end of a list stands at the end of its bytes.
pub proof fn lemma_encode_attrs_push(attrs: Seq<(u16, Seq<u8>)>, attr: (u16, Seq<u8>))
    ensures
        encode_attrs(attrs.push(attr)) == encode_attrs(attrs) + attr_bytes(attr.0, attr.1),
{
    let one = seq![attr];
    assert(attrs.push(attr) =~= attrs + one);
    lemma_encode_attrs_concat(attrs, one);
    let none = Seq::<(u16, Seq<u8>)>::empty();
    assert(one.drop_first() =~= none);
    assert(encode_attrs(none) =~= Seq::<u8>::empty());
    assert(encode_attrs(one) =~= attr_bytes(attr.0, attr.1));
}

/// The fields of an attribute.
pub proof fn lemma_attr_head(attr_type: u16, value: Seq<u8>)
    requires
        value.len() <= 0xffff,
    ensures
        ({
            let head = attr_bytes(attr_type, value);
            &&& wire::be16(head[0], head[1]) == attr_type
            &&& wire::be16(head[2], head[3]) == value.len()
            &&& head.subrange(4, 4 + value.len() as int) == value
        }),
{
    reveal(attr_bytes);
    let head = attr_bytes(attr_type, value);
    let t = wire::be16_bytes(attr_type);
    let l = wire::be16_bytes(value.len() as u16);
    assert(head[0] == t[0] && head[1] == t[1] && head[2] == l[0] && head[3] == l[1]);
    assert(head.subrange(4, 4 + value.len() as int) =~= value);
    wire::lemma_be16_round_trip(attr_type);
    wire::lemma_be16_round_trip(value.len() as u16);
}

/// A part of a sequence in the middle of others.
proof fn lemma_middle(prefix: Seq<u8>, head: Seq<u8>, rest: Seq<u8>, n: int)
    requires
        4 <= n <= head.len(),
    ensures
        ({
            let data = prefix + head + rest;
            let pos = prefix.len() as int;
            &&& data[pos] == head[0]
            &&& data[pos + 1] == head[1]
            &&& data[pos + 2] == head[2]
            &&& data[pos + 3] == head[3]
            &&& data.subrange(pos + 4, pos + n) == head.subrange(4, n)
        }),
{
    let data = prefix + head + rest;
    let pos = prefix.len() as int;
    assert(data.subrange(pos + 4, pos + n) =~= head.subrange(4, n));
}

/// The fields of an attribute, where it stands behind `prefix`.
proof fn lemma_attr_fields(prefix: Seq<u8>, attr_type: u16, value: Seq<u8>, rest: Seq<u8>)
    requires
        value.len() <= 0xffff,
    ensures
        ({
            let data = prefix + attr_bytes(attr_type, value) + rest;
            let pos = prefix.len() as int;
            &&& wire::be16(data[pos], data[pos + 1]) == attr_type
            &&& wire::be16(data[pos + 2], data[pos + 3]) == value.len()
            &&& data.subrange(pos + 4, pos + 4 + value.len()) == value
        }),
{
    lemma_attr_bytes_len(attr_type, value);
    lemma_attr_head(attr_type, value);
    lemma_middle(prefix, attr_bytes(attr_type, value), rest, 4 + value.len() as int);
}

/// A reader finds an attribute, and then those behind it.
proof fn lemma_attrs_step(data: Seq<u8>, end: int, pos: int, attr_type: u16, value: Seq<u8>)
    requires
        0 <= pos,
        pos + 4 <= end <= data.len(),
        wire::be16(data[pos], data[pos + 1]) == attr_type,
        wire::be16(data[pos + 2], data[pos + 3]) == value.len(),
        pos + 4 + value.len() <= data.len(),
        data.subrange(pos + 4, pos + 4 + value.len()) == value,
    ensures
        attrs_from(data, end, pos) == seq![(attr_type, value)] + attrs_from(
            data,
            end,
            pos + 4 + value.len() + padding(value.len() as int),
        ),
{
    reveal(attrs_from);
}

/// A reader that starts behind `prefix` finds the attributes that were written there.
pub proof fn lemma_attrs_from_encoded(prefix: Seq<u8>, attrs: Seq<(u16, Seq<u8>)>)
    requires
        forall|i: int| 0 <= i < attrs.len() ==> (#[trigger] attrs[i]).1.len() <= 0xffff,
    ensures
        attrs_from(
            prefix + encode_attrs(attrs),
            (prefix + encode_attrs(attrs)).len() as int,
            prefix.len() as int,
        ) == attrs,
    decreases attrs.len(),
{
    let data = prefix + encode_attrs(attrs);
    let pos = prefix.len() as int;
    if attrs.len() == 0 {
        reveal(attrs_from);
        assert(attrs =~= seq![]);
    } else {
        let (t, v) = attrs[0];
        let head = attr_bytes(t, v);
        let rest = attrs.drop_first();
        assert(data =~= prefix + head + encode_attrs(rest));
        assert forall|i: int| 0 <= i < rest.len() implies (#[trigger] rest[i]).1.len()
            <= 0xffff by {
            assert(rest[i] == attrs[i + 1]);
        }
        lemma_attrs_from_encoded(prefix + head, rest);
        lemma_attr_fields(prefix, t, v, encode_attrs(rest));
        lemma_attr_bytes_len(t, v);
        lemma_attrs_step(data, data.len() as int, pos, t, v);
        assert(attrs =~= seq![(t, v)] + rest);
    }
}

/// The header of a message, field by field.
pub proof fn lemma_header_fields(msg_type: u16, msg_len: u16, txn: Seq<u8>, rest: Seq<u8>)
    requires
        txn.len() == 12,
    ensures
        ({
            let m = header_bytes(msg_type, msg_len, txn) + rest;
            &&& m.len() == 20 + rest.len()
            &&& wire::be16(m[0], m[1]) == msg_type
            &&& wire::be16(m[2], m[3]) == msg_len
            &&& wire::be32(m[4], m[5], m[6], m[7]) == STUN_MAGIC
            &&& m.subrange(8, 20) == txn
            &&& m.subrange(20, m.len() as int) == rest
        }),
{
    let m = header_bytes(msg_type, msg_len, txn) + rest;
    wire::lemma_be16_round_trip(msg_type);
    wire::lemma_be16_round_trip(msg_len);
    wire::lemma_be32_round_trip(STUN_MAGIC);
    assert(m[0] == wire::be16_bytes(msg_type)[0]);
    assert(m[1] == wire::be16_bytes(msg_type)[1]);
    assert(m[2] == wire::be16_bytes(msg_len)[0]);
    assert(m[3] == wire::be16_bytes(msg_len)[1]);
    assert(m[4] == wire::be32_bytes(STUN_MAGIC)[0]);
    assert(m[5] == wire::be32_bytes(STUN_MAGIC)[1]);
    assert(m[6] == wire::be32_bytes(STUN_MAGIC)[2]);
    assert(m[7] == wire::be32_bytes(STUN_MAGIC)[3]);
    assert(m.subrange(8, 20) =~= txn);
    assert(m.subrange(20, m.len() as int) =~= rest);
}

/// A message whose attributes fit in its length field is read back as it was written:
/// the type, the cookie, the length and every attribute, in order.
pub proof fn law_message_round_trip(msg_type: u16, attrs: Seq<(u16, Seq<u8>)>, txn: Seq<u8>)
    requires
        txn.len() == 12,
        encode_attrs(attrs).len() <= 0xffff,
    ensures
        ({
            let m = message(msg_type, attrs, txn);
            &&& m.len() == 20 + encode_attrs(attrs).len()
            &&& m.len() % 4 == 0
            &&& wire::be16(m[0], m[1]) == msg_type
            &&& wire::be16(m[2], m[3]) == m.len() - 20
            &&& wire::be32(m[4], m[5], m[6], m[7]) == STUN_MAGIC
            &&& m.subrange(8, 20) == txn
            &&& stun_attrs(m) == attrs
        }),
{
    let body = encode_attrs(attrs);
    let m = message(msg_type, attrs, txn);
    let h = header_bytes(msg_type, body.len() as u16, txn);
    assert(body.len() % 0x1_0000 == body.len());
    assert(m == h + body);
    lemma_header_fields(msg_type, body.len() as u16, txn, body);
    assert(h.len() == 20);
    assert(m.len() % 4 == 0) by {
        lemma_encode_attrs_len(attrs);
    }
    assert(attrs_end(m) == m.len());
    assert(attrs_from(m, m.len() as int, 20) == attrs) by {
        lemma_values_fit(attrs);
        lemma_attrs_from_encoded(h, attrs);
    }
}

/// Where a list of attributes is short, so is each value in it.
proof fn lemma_values_fit(attrs: Seq<(u16, Seq<u8>)>)
    requires
        encode_attrs(attrs).len() <= 0xffff,
    ensures
        forall|i: int| 0 <= i < attrs.len() ==> (#[trigger] attrs[i]).1.len() <= 0xffff,
    decreases attrs.len(),
{
    if attrs.len() > 0 {
        lemma_attr_bytes_len(attrs[0].0, attrs[0].1);
        lemma_values_fit(attrs.drop_first());
        assert forall|i: int| 0 <= i < attrs.len() implies (#[trigger] attrs[i]).1.len()
            <= 0xffff by {
            if i > 0 {
                assert(attrs[i] == attrs.drop_first()[i - 1]);
            }
        }
    }
}

/// An IPv4 address written in the masked form is read back as it was.
pub proof fn law_xor_address_round_trip(ip: u32, port: u16)
    ensures
        xor_mapped(xor_address_bytes(ip, port)) == Ok::<SocketAddr, StunError>(
            SocketAddr { ip: IpAddr::V4(ip), port },
        ),
{
    let val = xor_address_bytes(ip, port);
    let xp = port ^ STUN_MAGIC_HIGH;
    let xa = ip ^ STUN_MAGIC;
    wire::lemma_be16_round_trip(xp);
    wire::lemma_be32_round_trip(xa);
    assert(val.len() == 8);
    assert(val[1] == 1);
    assert(val[2] == wire::be16_bytes(xp)[0]);
    assert(val[3] == wire::be16_bytes(xp)[1]);
    assert(val[4] == wire::be32_bytes(xa)[0]);
    assert(val[5] == wire::be32_bytes(xa)[1]);
    assert(val[6] == wire::be32_bytes(xa)[2]);
    assert(val[7] == wire::be32_bytes(xa)[3]);
    assert((port ^ 0x2112u16) ^ 0x2112u16 == port) by (bit_vector);
    assert((ip ^ 0x2112A442u32) ^ 0x2112A442u32 == ip) by (bit_vector);
}

/// A server that answers a binding request with the address it saw, in the masked form
/// and ahead of any plain one, tells the client exactly that address.
pub proof fn law_binding_round_trip(
    ip: u32,
    port: u16,
    before: Seq<(u16, Seq<u8>)>,
    after: Seq<(u16, Seq<u8>)>,
    txn: Seq<u8>,
)
    requires
        txn.len() == 12,
        forall|i: int|
            0 <= i < before.len() ==> (#[trigger] before[i]).0 != ATTR_XOR_MAPPED_ADDRESS
                && before[i].0 != ATTR_MAPPED_ADDRESS,
        encode_attrs(
            before + seq![(ATTR_XOR_MAPPED_ADDRESS, xor_address_bytes(ip, port))] + after,
        ).len() <= 0xffff,
    ensures
        binding_result(
            message(
                BINDING_SUCCESS,
                before + seq![(ATTR_XOR_MAPPED_ADDRESS, xor_address_bytes(ip, port))] + after,
                txn,
            ),
        ) == Ok::<SocketAddr, StunError>(SocketAddr { ip: IpAddr::V4(ip), port }),
{
    let attrs = before + seq![(ATTR_XOR_MAPPED_ADDRESS, xor_address_bytes(ip, port))] + after;
    law_message_round_trip(BINDING_SUCCESS, attrs, txn);
    law_xor_address_round_trip(ip, port);
    lemma_mapped_address_skips(before, xor_address_bytes(ip, port), after);
}

/// Out of a server's challenge, whatever else it holds, a client reads the realm and the
/// nonce that the server wrote last; and it reads none, where one of them is missing.
pub proof fn law_challenge_read_back(msg_type: u16, attrs: Seq<(u16, Seq<u8>)>, txn: Seq<u8>)
    requires
        txn.len() == 12,
        encode_attrs(attrs).len() <= 0xffff,
    ensures
        challenge(message(msg_type, attrs, txn)) == (match (
            last_attr(attrs, ATTR_REALM),
            last_attr(attrs, ATTR_NONCE),
        ) {
            (Some(realm), Some(nonce)) => Ok::<(Seq<u8>, Seq<u8>), StunError>((realm, nonce)),
            _ => Err(StunError::MissingRealmOrNonce),
        }),
{
    law_message_round_trip(msg_type, attrs, txn);
}

proof fn lemma_mapped_address_skips(
    before: Seq<(u16, Seq<u8>)>,
    val: Seq<u8>,
    after: Seq<(u16, Seq<u8>)>,
)
    requires
        forall|i: int|
            0 <= i < before.len() ==> (#[trigger] before[i]).0 != ATTR_XOR_MAPPED_ADDRESS
                && before[i].0 != ATTR_MAPPED_ADDRESS,
    ensures
        mapped_address(before + seq![(ATTR_XOR_MAPPED_ADDRESS, val)] + after) == xor_mapped(val),
    decreases before.len(),
{
    let attrs = before + seq![(ATTR_XOR_MAPPED_ADDRESS, val)] + after;
    if before.len() > 0 {
        assert(attrs[0] == before[0]);
        assert(attrs.drop_first() =~= before.drop_first() + seq![(ATTR_XOR_MAPPED_ADDRESS, val)]
            + after);
        assert forall|i: int| 0 <= i < before.drop_first().len() implies (
        #[trigger] before.drop_first()[i]).0 != ATTR_XOR_MAPPED_ADDRESS
            && before.drop_first()[i].0 != ATTR_MAPPED_ADDRESS by {
            assert(before.drop_first()[i] == before[i + 1]);
        }
        lemma_mapped_address_skips(before.drop_first(), val, after);
    } else {
        assert(attrs[0] == (ATTR_XOR_MAPPED_ADDRESS, val));
    }
}

/// An attribute has its type in the first two bytes, the low sixteen bits of its length in
/// the next two, then every byte of its value, and as many zeros as it takes to fill the last
/// word: fewer than four.
pub proof fn law_attribute_bytes(attr_type: u16, value: Seq<u8>)
    ensures
        ({
            let b = attr_bytes(attr_type, value);
            &&& b.len() % 4 == 0
            &&& 4 + value.len() <= b.len() < 8 + value.len()
            &&& 0x100 * b[0] + b[1] == attr_type
            &&& 0x100 * b[2] + b[3] == value.len() % 0x1_0000
            &&& forall|i: int| 0 <= i < value.len() ==> b[4 + i] == #[trigger] value[i]
            &&& forall|i: int| 4 + value.len() <= i < b.len() ==> #[trigger] b[i] == 0
        }),
{
    reveal(attr_bytes);
    lemma_attr_bytes_len(attr_type, value);
    let b = attr_bytes(attr_type, value);
    let l = (value.len() % 0x1_0000) as u16;
    assert(b[0] == wire::be16_bytes(attr_type)[0] && b[1] == wire::be16_bytes(attr_type)[1]);
    assert(b[2] == wire::be16_bytes(l)[0] && b[3] == wire::be16_bytes(l)[1]);
}

/// A message has its type in the first two bytes, the low sixteen bits of the length of its
/// attributes in the next two, then the magic cookie, the transaction and the attributes, be
/// they as long as they may.
pub proof fn law_message_bytes(msg_type: u16, attrs: Seq<(u16, Seq<u8>)>, txn: Seq<u8>)
    requires
        txn.len() == 12,
    ensures
        ({
            let m = message(msg_type, attrs, txn);
            let body = encode_attrs(attrs);
            &&& m.len() == 20 + body.len()
            &&& 0x100 * m[0] + m[1] == msg_type
            &&& 0x100 * m[2] + m[3] == body.len() % 0x1_0000
            &&& m[4] == 0x21 && m[5] == 0x12 && m[6] == 0xA4 && m[7] == 0x42
            &&& forall|i: int| 0 <= i < 12 ==> m[8 + i] == #[trigger] txn[i]
            &&& forall|i: int| 0 <= i < body.len() ==> m[20 + i] == #[trigger] body[i]
        }),
{
    let body = encode_attrs(attrs);
    lemma_header_fields(msg_type, (body.len() % 0x1_0000) as u16, txn, body);
    let m = message(msg_type, attrs, txn);
    assert forall|i: int| 0 <= i < 12 implies m[8 + i] == #[trigger] txn[i] by {
        assert(m.subrange(8, 20)[i] == txn[i]);
    }
}

/// The bytes of a list of attributes are those of each of them, in order.
pub proof fn law_attributes_in_order(attrs: Seq<(u16, Seq<u8>)>, attr: (u16, Seq<u8>))
    ensures
        encode_attrs(Seq::empty()) == Seq::<u8>::empty(),
        encode_attrs(attrs.push(attr)) == encode_attrs(attrs) + attr_bytes(attr.0, attr.1),
{
    lemma_encode_attrs_push(attrs, attr);
}

proof fn lemma_walk(data: Seq<u8>, end: int, pos: int) -> (at: Seq<int>)
    requires
        0 <= pos,
        end <= data.len(),
    ensures
        ({
            let attrs = attrs_from(data, end, pos);
            &&& at.len() == attrs.len() + 1
            &&& at[0] == pos
            &&& forall|i: int|
                0 <= i < attrs.len() ==> {
                    &&& 0 <= #[trigger] at[i]
                    &&& at[i] + 4 <= end
                    &&& attrs[i].0 == 0x100 * data[at[i]] + data[at[i] + 1]
                    &&& attrs[i].1.len() == 0x100 * data[at[i] + 2] + data[at[i] + 3]
                    &&& at[i] + 4 + attrs[i].1.len() <= data.len()
                    &&& attrs[i].1 == data.subrange(at[i] + 4, at[i] + 4 + attrs[i].1.len())
                    &&& at[i + 1] == at[i] + 4 + attrs[i].1.len() + (4 - attrs[i].1.len() as int
                        % 4) % 4
                }
            &&& at.last() + 4 > end || at.last() + 4 + 0x100 * data[at.last() + 2]
                + data[at.last() + 3] > data.len()
        }),
    decreases distance(pos, end),
{
    reveal(attrs_from);
    let attrs = attrs_from(data, end, pos);
    let len = wire::be16(data[pos + 2], data[pos + 3]);
    if pos + 4 > end || pos + 4 + len > data.len() {
        seq![pos]
    } else {
        let next = pos + 4 + len + padding(len as int);
        let rest = attrs_from(data, end, next);
        let behind = lemma_walk(data, end, next);
        let at = seq![pos] + behind;
        assert(attrs =~= seq![attrs[0]] + rest);
        assert forall|i: int| 0 <= i < attrs.len() implies {
            &&& 0 <= #[trigger] at[i]
            &&& at[i] + 4 <= end
            &&& attrs[i].0 == 0x100 * data[at[i]] + data[at[i] + 1]
            &&& attrs[i].1.len() == 0x100 * data[at[i] + 2] + data[at[i] + 3]
            &&& at[i] + 4 + attrs[i].1.len() <= data.len()
            &&& attrs[i].1 == data.subrange(at[i] + 4, at[i] + 4 + attrs[i].1.len())
            &&& at[i + 1] == at[i] + 4 + attrs[i].1.len() + (4 - attrs[i].1.len() as int % 4) % 4
        } by {
            if i > 0 {
                assert(attrs[i] == rest[i - 1]);
                assert(at[i] == behind[i - 1]);
                assert(at[i + 1] == behind[i]);
            } else {
                assert(at[1] == behind[0]);
            }
        }
        assert(at.last() == behind.last());
        at
    }
}

/// The attributes of any datagram stand one behind the other from its twentieth byte on, each
/// at a whole word: type, length, value. Those count that start before the end that the header
/// names, and before the end of the datagram, up to the first whose value the datagram does
/// not hold.
pub proof fn law_attributes_read_in_place(data: Seq<u8>) -> (at: Seq<int>)
    requires
        data.len() >= 20,
    ensures
        ({
            let attrs = stun_attrs(data);
            let named = 20 + 0x100 * data[2] + data[3];
            let end = if named < data.len() { named } else { data.len() as int };
            &&& at.len() == attrs.len() + 1
            &&& at[0] == 20
            &&& forall|i: int|
                0 <= i < attrs.len() ==> {
                    &&& #[trigger] at[i] + 4 <= end
                    &&& attrs[i].0 == 0x100 * data[at[i]] + data[at[i] + 1]
                    &&& attrs[i].1.len() == 0x100 * data[at[i] + 2] + data[at[i] + 3]
                    &&& at[i] + 4 + attrs[i].1.len() <= data.len()
                    &&& attrs[i].1 == data.subrange(at[i] + 4, at[i] + 4 + attrs[i].1.len())
                    &&& at[i + 1] == at[i] + 4 + attrs[i].1.len() + (4 - attrs[i].1.len() as int
                        % 4) % 4
                }
            &&& at.last() + 4 > end || at.last() + 4 + 0x100 * data[at.last() + 2]
                + data[at.last() + 3] > data.len()
        }),
{
    lemma_walk(data, attrs_end(data), 20)
}

/// The first attribute of a type is the one that none of this type stands ahead of; there is
/// none only where no attribute is of this type.
pub proof fn law_first_of_its_type(attrs: Seq<(u16, Seq<u8>)>, attr_type: u16)
    ensures
        match first_attr(attrs, attr_type) {
            Some(val) => exists|i: int|
                {
                    &&& 0 <= i < attrs.len()
                    &&& #[trigger] attrs[i] == (attr_type, val)
                    &&& forall|j: int| 0 <= j < i ==> (#[trigger] attrs[j]).0 != attr_type
                },
            None => forall|i: int| 0 <= i < attrs.len() ==> (#[trigger] attrs[i]).0 != attr_type,
        },
    decreases attrs.len(),
{
    if attrs.len() > 0 && attrs[0].0 == attr_type {
        assert(attrs[0] == (attr_type, attrs[0].1));
    } else if attrs.len() > 0 {
        let rest = attrs.drop_first();
        law_first_of_its_type(rest, attr_type);
        assert forall|j: int| 0 < j < attrs.len() implies #[trigger] attrs[j] == rest[j - 1] by {}
        if let Some(val) = first_attr(rest, attr_type) {
            let i = choose|i: int|
                {
                    &&& 0 <= i < rest.len()
                    &&& #[trigger] rest[i] == (attr_type, val)
                    &&& forall|j: int| 0 <= j < i ==> (#[trigger] rest[j]).0 != attr_type
                };
            assert(attrs[i + 1] == (attr_type, val));
        }
    }
}

/// The last attribute of a type is the one that none of this type stands behind; there is none
/// only where no attribute is of this type.
pub proof fn law_last_of_its_type(attrs: Seq<(u16, Seq<u8>)>, attr_type: u16)
    ensures
        match last_attr(attrs, attr_type) {
            Some(val) => exists|i: int|
                {
                    &&& 0 <= i < attrs.len()
                    &&& #[trigger] attrs[i] == (attr_type, val)
                    &&& forall|j: int|
                        i < j < attrs.len() ==> (#[trigger] attrs[j]).0 != attr_type
                },
            None => forall|i: int| 0 <= i < attrs.len() ==> (#[trigger] attrs[i]).0 != attr_type,
        },
    decreases attrs.len(),
{
    if attrs.len() > 0 && attrs.last().0 == attr_type {
        assert(attrs[attrs.len() - 1] == (attr_type, attrs.last().1));
    } else if attrs.len() > 0 {
        let rest = attrs.drop_last();
        law_last_of_its_type(rest, attr_type);
        assert forall|j: int| 0 <= j < rest.len() implies #[trigger] attrs[j] == rest[j] by {}
        if let Some(val) = last_attr(rest, attr_type) {
            let i = choose|i: int|
                {
                    &&& 0 <= i < rest.len()
                    &&& #[trigger] rest[i] == (attr_type, val)
                    &&& forall|j: int| i < j < rest.len() ==> (#[trigger] rest[j]).0 != attr_type
                };
            assert(attrs[i] == (attr_type, val));
        }
    }
}

/// The masked form of an address has a zero, the family 1, and then each byte of the port and
/// of the IPv4 address, most significant first, under the mask of the cookie's byte at its
/// place.
pub proof fn law_mask_byte_by_byte(ip: u32, port: u16)
    ensures
        ({
            let val = xor_address_bytes(ip, port);
            &&& val.len() == 8
            &&& val[0] == 0 && val[1] == 1
            &&& val[2] == ((port / 0x100) as u8) ^ 0x21u8
            &&& val[3] == ((port % 0x100) as u8) ^ 0x12u8
            &&& val[4] == ((ip / 0x100_0000) as u8) ^ 0x21u8
            &&& val[5] == ((ip / 0x1_0000 % 0x100) as u8) ^ 0x12u8
            &&& val[6] == ((ip / 0x100 % 0x100) as u8) ^ 0xA4u8
            &&& val[7] == ((ip % 0x100) as u8) ^ 0x42u8
        }),
{
    let val = xor_address_bytes(ip, port);
    let (xp, xa) = (port ^ 0x2112u16, ip ^ 0x2112A442u32);
    assert(val[2] == wire::be16_bytes(xp)[0] && val[3] == wire::be16_bytes(xp)[1]);
    assert(val[4] == wire::be32_bytes(xa)[0] && val[5] == wire::be32_bytes(xa)[1]);
    assert(val[6] == wire::be32_bytes(xa)[2] && val[7] == wire::be32_bytes(xa)[3]);
    assert(((port ^ 0x2112u16) / 0x100) as u8 == ((port / 0x100) as u8) ^ 0x21u8 && ((port
        ^ 0x2112u16) % 0x100) as u8 == ((port % 0x100) as u8) ^ 0x12u8) by (bit_vector);
    assert(((ip ^ 0x2112A442u32) / 0x100_0000) as u8 == ((ip / 0x100_0000) as u8) ^ 0x21u8 && ((ip
        ^ 0x2112A442u32) / 0x1_0000 % 0x100) as u8 == ((ip / 0x1_0000 % 0x100) as u8) ^ 0x12u8 && ((
    ip ^ 0x2112A442u32) / 0x100 % 0x100) as u8 == ((ip / 0x100 % 0x100) as u8) ^ 0xA4u8 && ((ip
        ^ 0x2112A442u32) % 0x100) as u8 == ((ip % 0x100) as u8) ^ 0x42u8) by (bit_vector);
}

/// A masked address is read exactly where it has eight bytes, or more, and is of the family 1:
/// as the address whose masked form these bytes are, whatever the first one and those behind
/// the eighth.
#[verifier::rlimit(40)]
pub proof fn law_masked_address_read(val: Seq<u8>)
    ensures
        match xor_mapped(val) {
            Ok(addr) => {
                &&& val.len() >= 8
                &&& val[1] == 1
                &&& match addr.ip {
                    IpAddr::V4(ip) => forall|i: int|
                        1 <= i < 8 ==> #[trigger] xor_address_bytes(ip, addr.port)[i] == val[i],
                    IpAddr::V6(_) => false,
                }
            },
            Err(StunError::XorMappedTooShort) => val.len() < 8,
            Err(StunError::UnsupportedFamily(family)) => val.len() >= 8 && family == val[1]
                && family != 1,
            Err(_) => false,
        },
{
    if val.len() >= 8 && val[1] == 1 {
        let p = wire::be16(val[2], val[3]);
        let a = wire::be32(val[4], val[5], val[6], val[7]);
        assert((p ^ 0x2112u16) ^ 0x2112u16 == p) by (bit_vector);
        assert((a ^ 0x2112A442u32) ^ 0x2112A442u32 == a) by (bit_vector);
        wire::lemma_be16_written_back(val[2], val[3]);
        wire::lemma_be32_written_back(val[4], val[5], val[6], val[7]);
        let back = xor_address_bytes(a ^ STUN_MAGIC, p ^ STUN_MAGIC_HIGH);
        assert(back == seq![0u8, 1u8] + seq![val[2], val[3]] + seq![
            val[4],
            val[5],
            val[6],
            val[7],
        ]);
    }
}

/// A plain address is read exactly where it has eight bytes, or more, and is of the family 1:
/// port and IPv4 address are what the bytes from the third on spell.
pub proof fn law_plain_address_read(val: Seq<u8>)
    ensures
        match mapped(val) {
            Ok(addr) => {
                &&& val.len() >= 8
                &&& val[1] == 1
                &&& addr.port == 0x100 * val[2] + val[3]
                &&& addr.ip matches IpAddr::V4(ip) && ip == 0x100_0000 * val[4] + 0x1_0000 * val[5]
                    + 0x100 * val[6] + val[7]
            },
            Err(StunError::MappedTooShort) => val.len() < 8,
            Err(StunError::UnsupportedFamily(family)) => val.len() >= 8 && family == val[1]
                && family != 1,
            Err(_) => false,
        },
{
}

/// An attribute of this type holds a mapped address, masked or plain.
pub open spec fn holds_address(attr_type: u16) -> bool {
    attr_type == 0x0020 || attr_type == 0x0001
}

proof fn lemma_mapped_address(attrs: Seq<(u16, Seq<u8>)>)
    ensures
        (forall|i: int| 0 <= i < attrs.len() ==> !holds_address((#[trigger] attrs[i]).0))
            ==> mapped_address(attrs) == Err::<SocketAddr, StunError>(StunError::NoMappedAddress),
        forall|i: int|
            0 <= i < attrs.len() && holds_address((#[trigger] attrs[i]).0) && (forall|j: int|
                0 <= j < i ==> !holds_address((#[trigger] attrs[j]).0)) ==> mapped_address(attrs)
                == (if attrs[i].0 == 0x0020 {
                xor_mapped(attrs[i].1)
            } else {
                mapped(attrs[i].1)
            }),
    decreases attrs.len(),
{
    if attrs.len() > 0 {
        let rest = attrs.drop_first();
        lemma_mapped_address(rest);
        assert forall|j: int| 0 < j < attrs.len() implies #[trigger] attrs[j] == rest[j - 1] by {}
        assert forall|j: int| 0 <= j < rest.len() implies #[trigger] rest[j] == attrs[j + 1] by {}
        assert forall|i: int|
            0 <= i < attrs.len() && holds_address((#[trigger] attrs[i]).0) && (forall|j: int|
                0 <= j < i ==> !holds_address((#[trigger] attrs[j]).0)) implies mapped_address(
            attrs,
        ) == (if attrs[i].0 == 0x0020 {
            xor_mapped(attrs[i].1)
        } else {
            mapped(attrs[i].1)
        }) by {
            if i > 0 {
                assert(!holds_address(attrs[0].0));
                assert(rest[i - 1] == attrs[i]);
                assert forall|j: int| 0 <= j < i - 1 implies !holds_address(
                    (#[trigger] rest[j]).0,
                ) by {
                    assert(rest[j] == attrs[j + 1]);
                }
            }
        }
    }
}

/// Of an answer to a binding request the first attribute counts that holds an address, masked
/// or plain, and whatever stands around it does not; where there is none, none is learned.
pub proof fn law_first_address_counts(data: Seq<u8>, i: int)
    requires
        data.len() >= 20,
        data[0] == 1 && data[1] == 1,
        data[4] == 0x21 && data[5] == 0x12 && data[6] == 0xA4 && data[7] == 0x42,
    ensures
        ({
            let attrs = stun_attrs(data);
            &&& (forall|j: int| 0 <= j < attrs.len() ==> !holds_address((#[trigger] attrs[j]).0))
                ==> binding_result(data) == Err::<SocketAddr, StunError>(
                StunError::NoMappedAddress,
            )
            &&& 0 <= i < attrs.len() && holds_address(attrs[i].0) && (forall|j: int|
                0 <= j < i ==> !holds_address((#[trigger] attrs[j]).0)) ==> binding_result(data)
                == (if attrs[i].0 == 0x0020 {
                xor_mapped(attrs[i].1)
            } else {
                mapped(attrs[i].1)
            })
        }),
{
    lemma_mapped_address(stun_attrs(data));
}

proof fn lemma_mapped_address_errors(attrs: Seq<(u16, Seq<u8>)>)
    ensures
        mapped_address(attrs) != Err::<SocketAddr, StunError>(StunError::TooShort),
        mapped_address(attrs) != Err::<SocketAddr, StunError>(StunError::BadCookie),
    decreases attrs.len(),
{
    if attrs.len() > 0 {
        lemma_mapped_address_errors(attrs.drop_first());
    }
}

/// No address is learned from what is too short for a message, has another cookie, or is no
/// successful answer to a binding request; and these are told apart in this order.
pub proof fn law_other_answers_refused(data: Seq<u8>)
    ensures
        binding_result(data) == Err::<SocketAddr, StunError>(StunError::TooShort) <==> data.len()
            < 20,
        data.len() >= 20 ==> (binding_result(data) == Err::<SocketAddr, StunError>(
            StunError::BadCookie,
        ) <==> !(data[4] == 0x21 && data[5] == 0x12 && data[6] == 0xA4 && data[7] == 0x42)),
        data.len() >= 20 && data[4] == 0x21 && data[5] == 0x12 && data[6] == 0xA4 && data[7] == 0x42
            && (data[0] != 1 || data[1] != 1) ==> binding_result(data) == Err::<
            SocketAddr,
            StunError,
        >(StunError::UnexpectedType((0x100 * data[0] + data[1]) as u16)),
{
    lemma_mapped_address_errors(stun_attrs(data));
}

/// What comes of a challenge, of whatever type: too short a datagram is refused; else the last
/// realm and the last nonce count, and both have to be there.
pub proof fn law_last_realm_and_nonce_count(data: Seq<u8>, i: int, j: int)
    ensures
        challenge(data) == Err::<(Seq<u8>, Seq<u8>), StunError>(StunError::TooShort) <==> data.len()
            < 20,
        data.len() >= 20 ==> ({
            let attrs = stun_attrs(data);
            &&& challenge(data) is Ok <==> (exists|k: int|
                0 <= k < attrs.len() && (#[trigger] attrs[k]).0 == 0x0014) && (exists|k: int|
                0 <= k < attrs.len() && (#[trigger] attrs[k]).0 == 0x0015)
            &&& challenge(data) is Err ==> challenge(data)->Err_0 == StunError::MissingRealmOrNonce
            &&& 0 <= i < attrs.len() && attrs[i].0 == 0x0014 && (forall|k: int|
                i < k < attrs.len() ==> (#[trigger] attrs[k]).0 != 0x0014) && 0 <= j < attrs.len()
                && attrs[j].0 == 0x0015 && (forall|k: int|
                j < k < attrs.len() ==> (#[trigger] attrs[k]).0 != 0x0015) ==> challenge(data)
                == Ok::<(Seq<u8>, Seq<u8>), StunError>((attrs[i].1, attrs[j].1))
        }),
{
    let attrs = stun_attrs(data);
    law_last_of_its_type(attrs, 0x0014);
    law_last_of_its_type(attrs, 0x0015);
}

/// The transaction identifier of a clock reading spells the reading: its low 64 bits first,
/// and the 32 bits above them last.
#[verifier::rlimit(40)]
pub proof fn law_txn_spells_reading(nanos: u128, short: u64)
    ensures
        ({
            let t = txn_id_bytes(nanos);
            let b = binding_txn(short);
            &&& t.len() == 12
            &&& 0x1_0000_0000 * wire::be32(t[0], t[1], t[2], t[3]) + wire::be32(
                t[4],
                t[5],
                t[6],
                t[7],
            ) == nanos % 0x1_0000_0000_0000_0000
            &&& wire::be32(t[8], t[9], t[10], t[11]) == nanos / 0x1_0000_0000_0000_0000
                % 0x1_0000_0000
            &&& b.len() == 12
            &&& 0x1_0000_0000 * wire::be32(b[0], b[1], b[2], b[3]) + wire::be32(
                b[4],
                b[5],
                b[6],
                b[7],
            ) == short
            &&& b[8] == 0xAB && b[9] == 0xCD && b[10] == 0xEF && b[11] == 0x01
        }),
{
    let low = (nanos % 0x1_0000_0000_0000_0000) as u64;
    let high = (nanos / 0x1_0000_0000_0000_0000 % 0x1_0000_0000) as u32;
    wire::law_bytes_weigh(0, 0, 0, 0, 0, high, low);
    wire::law_bytes_weigh(0, 0, 0, 0, 0, high, short);
    wire::lemma_be32_round_trip(high);
    let t = txn_id_bytes(nanos);
    let b = binding_txn(short);
    assert forall|i: int| 0 <= i < 8 implies t[i] == wire::be64_bytes(low)[i] && b[i]
        == wire::be64_bytes(short)[i] by {}
    assert forall|i: int| 0 <= i < 4 implies t[8 + i] == wire::be32_bytes(high)[i] by {}
}

/// A binding request has no attributes: its type, no length, the cookie and its transaction.
pub proof fn law_binding_request_bytes(nanos: u64)
    ensures
        ({
            let m = header_bytes(BINDING_REQUEST, 0, binding_txn(nanos));
            &&& m.len() == 20
            &&& m[0] == 0 && m[1] == 1 && m[2] == 0 && m[3] == 0
            &&& m[4] == 0x21 && m[5] == 0x12 && m[6] == 0xA4 && m[7] == 0x42
            &&& forall|i: int| 0 <= i < 12 ==> m[8 + i] == #[trigger] binding_txn(nanos)[i]
        }),
{
    let txn = binding_txn(nanos);
    lemma_header_fields(BINDING_REQUEST, 0, txn, Seq::empty());
    let m = header_bytes(BINDING_REQUEST, 0, txn);
    assert(m + Seq::<u8>::empty() =~= m);
}

/// What is written is what is stated: transaction identifiers, headers, binding requests,
/// masked addresses, and attributes behind those that are there.
pub proof fn law_written_as_stated(
    nanos: u128,
    id: [u8; 12],
    any: [u8; 12],
    msg_type: u16,
    msg_len: u16,
    h: [u8; 20],
    short: u64,
    req: [u8; 20],
    any_req: [u8; 20],
    ip: u32,
    port: u16,
    masked: [u8; 8],
)
    requires
        call_ensures(txn_id, (nanos,), id),
        call_ensures(gen_txn_id, (), any),
        call_ensures(stun_header, (msg_type, msg_len, &id), h),
        call_ensures(binding_request, (short,), req),
        call_ensures(gen_binding_request, (), any_req),
        call_ensures(xor_address, (ip, port), masked),
    ensures
        id@ == txn_id_bytes(nanos),
        exists|n: u128| any@ == txn_id_bytes(n),
        h@ == header_bytes(msg_type, msg_len, id@),
        req@ == header_bytes(0x0001, 0, binding_txn(short)),
        exists|n: u64| any_req@ == header_bytes(0x0001, 0, binding_txn(n)),
        masked@ == xor_address_bytes(ip, port),
{
}

/// An attribute is appended behind those that are there, which stay.
pub proof fn law_attribute_appended(buf: &mut Vec<u8>, attr_type: u16, value: &[u8])
    requires
        call_ensures(append_attr, (buf, attr_type, value), ()),
    ensures
        final(buf)@ == old(buf)@ + attr_bytes(attr_type, value@),
{
}

/// What is read is what is stated: addresses, answers, challenges, and the first attribute of
/// a type; and a datagram that does not come from the server says nothing.
pub proof fn law_read_as_stated(
    val: &[u8],
    masked: Result<SocketAddr, StunError>,
    plain: Result<SocketAddr, StunError>,
    response: Result<SocketAddr, StunError>,
    server: SocketAddr,
    from: SocketAddr,
    reply: Option<Result<SocketAddr, StunError>>,
    realm_nonce: Result<(Vec<u8>, Vec<u8>), StunError>,
    target: u16,
    found: Option<&[u8]>,
)
    requires
        call_ensures(parse_xor_mapped, (val,), masked),
        call_ensures(parse_mapped, (val,), plain),
        call_ensures(parse_stun_response, (val,), response),
        call_ensures(binding_reply, (server, from, val), reply),
        call_ensures(parse_turn_error_401, (val,), realm_nonce),
        call_ensures(parse_stun_attr, (val, target), found),
    ensures
        masked == xor_mapped(val@),
        plain == mapped(val@),
        response == binding_result(val@),
        reply is None <==> from != server,
        reply matches Some(r) ==> r == binding_result(val@),
        match realm_nonce {
            Ok((realm, nonce)) => challenge(val@) == Ok::<(Seq<u8>, Seq<u8>), StunError>(
                (realm@, nonce@),
            ),
            Err(e) => challenge(val@) == Err::<(Seq<u8>, Seq<u8>), StunError>(e),
        },
        match found {
            Some(v) => val@.len() >= 20 && first_attr(stun_attrs(val@), target) == Some(v@),
            None => val@.len() < 20 || first_attr(stun_attrs(val@), target) is None,
        },
{
}

} // verus!
