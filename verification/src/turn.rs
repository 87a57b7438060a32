//! The TURN client, RFC 5766: what it sends, and what it reads out of the answers.

use vstd::prelude::*;
use vstd::slice::slice_subrange;

use crate::md5;
use crate::net::IpAddr;
use crate::net::SocketAddr;
use crate::sha1;
use crate::stun;
use crate::stun::StunError;
use crate::wire;

verus! {

/// Message type of an allocation request.
pub const ALLOCATE_REQUEST: u16 = 0x0003;

/// Message type of a granted allocation.
pub const ALLOCATE_SUCCESS: u16 = 0x0103;

/// Message type of a refused allocation.
pub const ALLOCATE_ERROR: u16 = 0x0113;

/// Message type of a refresh request.
pub const REFRESH_REQUEST: u16 = 0x0004;

/// Message type of a request for a permission.
pub const CREATE_PERMISSION_REQUEST: u16 = 0x0008;

/// Message type of a granted permission.
pub const CREATE_PERMISSION_SUCCESS: u16 = 0x0108;

/// Message type of a refused permission.
pub const CREATE_PERMISSION_ERROR: u16 = 0x0118;

/// Message type of data for a peer.
pub const SEND_INDICATION: u16 = 0x0016;

/// Message type of data from a peer.
pub const DATA_INDICATION: u16 = 0x0017;

/// Attribute type USERNAME.
pub const ATTR_USERNAME: u16 = 0x0006;

/// Attribute type MESSAGE-INTEGRITY.
pub const ATTR_MESSAGE_INTEGRITY: u16 = 0x0008;

/// Attribute type LIFETIME.
pub const ATTR_LIFETIME: u16 = 0x000D;

/// Attribute type XOR-PEER-ADDRESS.
pub const ATTR_XOR_PEER_ADDRESS: u16 = 0x0012;

/// Attribute type DATA.
pub const ATTR_DATA: u16 = 0x0013;

/// Attribute type XOR-RELAYED-ADDRESS.
pub const ATTR_XOR_RELAYED_ADDRESS: u16 = 0x0016;

/// Attribute type REQUESTED-TRANSPORT.
pub const ATTR_REQUESTED_TRANSPORT: u16 = 0x0019;

/// The value of REQUESTED-TRANSPORT that asks for UDP.
pub const TRANSPORT_UDP: u32 = 0x11000000;

/// The lifetime, in seconds, that a refresh asks for.
pub const REFRESH_LIFETIME: u32 = 600;

/// A session with a TURN server: where it is, and what authenticates requests to it.
pub struct TurnState {
    pub turn_addr: SocketAddr,
    pub realm: Vec<u8>,
    pub nonce: Vec<u8>,
    pub username: String,
    pub password: String,
}

/// Why an allocation failed.
#[derive(Debug, Clone, Copy, PartialEq, Eq, Structural)]
pub enum AllocateError {
    /// The server refused the request: the credentials are wrong.
    Rejected,
    /// The answer is of another type.
    UnexpectedType(u16),
    /// The answer holds no relayed address that can be used.
    NoRelayedAddress,
}

/// What the answer to a request for a permission says.
#[derive(Debug, Clone, Copy, PartialEq, Eq, Structural)]
pub enum PermissionReply {
    Granted,
    Refused,
    /// Another message: the answer is still to come.
    Other,
}

/// The key of the long-term credential mechanism: the digest of the user name, the realm
/// and the password, with colons between them.
pub open spec fn credential_key(username: Seq<char>, realm: Seq<u8>, password: Seq<char>) -> Seq<
    u8,
> {
    md5::md5(
        vstd::utf8::encode_utf8(username) + seq![0x3Au8] + realm + seq![0x3Au8]
            + vstd::utf8::encode_utf8(password),
    )
}

impl TurnState {
    /// The key that authenticates this session's requests.
    pub open spec fn key(&self) -> Seq<u8> {
        credential_key(self.username@, self.realm@, self.password@)
    }

    /// The attributes that name this session's credentials.
    pub open spec fn credentials(&self) -> Seq<(u16, Seq<u8>)> {
        seq![
            (ATTR_USERNAME, vstd::utf8::encode_utf8(self.username@)),
            (stun::ATTR_REALM, self.realm@),
            (stun::ATTR_NONCE, self.nonce@),
        ]
    }

    /// The number of bytes of a request, up to its MESSAGE-INTEGRITY, where `before` of
    /// them stand ahead of the credentials.
    pub open spec fn auth_len(&self, before: int) -> int {
        before + stun::encode_attrs(self.credentials()).len()
    }

    /// A request with `before` bytes of attributes can be authenticated: its length, as
    /// the header's sixteen bits hold it, leaves room for MESSAGE-INTEGRITY, and the
    /// digests can count the bits of what they cover.
    pub open spec fn auth_fits(&self, before: int) -> bool {
        &&& self.auth_len(before) % 0x1_0000 + 24 <= 0xffff
        &&& (84 + self.auth_len(before)) * 8 <= u64::MAX
        &&& (vstd::utf8::encode_utf8(self.username@).len() + self.realm@.len()
            + vstd::utf8::encode_utf8(self.password@).len() + 2) * 8 <= u64::MAX
    }
}

/// A header with another length.
pub open spec fn with_length(header: Seq<u8>, len: u16) -> Seq<u8> {
    header.subrange(0, 2) + wire::be16_bytes(len) + header.subrange(4, 20)
}

/// The length that the header holds while MESSAGE-INTEGRITY is computed: the body up to
/// there, in sixteen bits, and the 24 bytes of the attribute itself.
pub open spec fn integrity_length(body_len: nat) -> u16 {
    (body_len % 0x1_0000 + 24) as u16
}

/// The value of MESSAGE-INTEGRITY: the keyed digest of the header, with the length that
/// takes the attribute in, and of the attributes ahead of it.
pub open spec fn integrity(msg_type: u16, body: Seq<u8>, txn: Seq<u8>, key: Seq<u8>) -> Seq<u8> {
    sha1::hmac(key, stun::header_bytes(msg_type, integrity_length(body.len()), txn) + body)
}

/// The attributes of an authenticated request: its own, the credentials and last
/// MESSAGE-INTEGRITY.
pub open spec fn signed_attrs(
    msg_type: u16,
    attrs: Seq<(u16, Seq<u8>)>,
    txn: Seq<u8>,
    ts: &TurnState,
) -> Seq<(u16, Seq<u8>)> {
    let all = attrs + ts.credentials();
    all.push(
        (ATTR_MESSAGE_INTEGRITY, integrity(msg_type, stun::encode_attrs(all), txn, ts.key())),
    )
}

/// An authenticated request.
pub open spec fn signed_message(
    msg_type: u16,
    attrs: Seq<(u16, Seq<u8>)>,
    txn: Seq<u8>,
    ts: &TurnState,
) -> Seq<u8> {
    stun::message(msg_type, signed_attrs(msg_type, attrs, txn, ts), txn)
}

/// The attributes of an allocation request: the transport.
pub open spec fn allocate_attrs() -> Seq<(u16, Seq<u8>)> {
    seq![(ATTR_REQUESTED_TRANSPORT, wire::be32_bytes(TRANSPORT_UDP))]
}

/// The attributes of a refresh request: the lifetime.
pub open spec fn refresh_attrs() -> Seq<(u16, Seq<u8>)> {
    seq![(ATTR_LIFETIME, wire::be32_bytes(REFRESH_LIFETIME))]
}

/// The attributes of a request for a permission: the peer, where it has an IPv4 address.
pub open spec fn permission_attrs(peer: Option<u32>) -> Seq<(u16, Seq<u8>)> {
    match peer {
        Some(ip) => seq![(ATTR_XOR_PEER_ADDRESS, stun::xor_address_bytes(ip, 0))],
        None => seq![],
    }
}

/// The attributes of an indication that carries data: the peer, where it has an IPv4
/// address, and the data.
pub open spec fn data_attrs(peer: SocketAddr, data: Seq<u8>) -> Seq<(u16, Seq<u8>)> {
    match peer.ip {
        IpAddr::V4(ip) => seq![
            (ATTR_XOR_PEER_ADDRESS, stun::xor_address_bytes(ip, peer.port)),
            (ATTR_DATA, data),
        ],
        IpAddr::V6(_) => seq![(ATTR_DATA, data)],
    }
}

/// What the answer to an authenticated allocation request says.
pub open spec fn allocation(resp: Seq<u8>) -> Result<SocketAddr, AllocateError> {
    let msg_type = wire::be16(resp[0], resp[1]);
    if msg_type == ALLOCATE_ERROR {
        Err(AllocateError::Rejected)
    } else if msg_type != ALLOCATE_SUCCESS {
        Err(AllocateError::UnexpectedType(msg_type))
    } else if resp.len() < 20 {
        Err(AllocateError::NoRelayedAddress)
    } else {
        match stun::first_attr(stun::stun_attrs(resp), ATTR_XOR_RELAYED_ADDRESS) {
            Some(val) => match stun::xor_mapped(val) {
                Ok(addr) => Ok(addr),
                Err(_) => Err(AllocateError::NoRelayedAddress),
            },
            None => Err(AllocateError::NoRelayedAddress),
        }
    }
}

/// The peer of a data indication: the last peer address that can be read.
pub open spec fn last_peer(attrs: Seq<(u16, Seq<u8>)>) -> Option<SocketAddr>
    decreases attrs.len(),
{
    if attrs.len() == 0 {
        None
    } else if attrs.last().0 == ATTR_XOR_PEER_ADDRESS && stun::xor_mapped(attrs.last().1) is Ok {
        Some(stun::xor_mapped(attrs.last().1)->Ok_0)
    } else {
        last_peer(attrs.drop_last())
    }
}

/// The peer and the data of a packet from the server, where it is a data indication that
/// holds both.
pub open spec fn peer_data(pkt: Seq<u8>) -> Option<(SocketAddr, Seq<u8>)> {
    if pkt.len() < 20 || wire::be16(pkt[0], pkt[1]) != DATA_INDICATION || wire::be32(
        pkt[4],
        pkt[5],
        pkt[6],
        pkt[7],
    ) != stun::STUN_MAGIC {
        None
    } else {
        match (
            last_peer(stun::stun_attrs(pkt)),
            stun::last_attr(stun::stun_attrs(pkt), ATTR_DATA),
        ) {
            (Some(peer), Some(data)) => Some((peer, data)),
            _ => None,
        }
    }
}

/// Computes the key of the long-term credential mechanism.
pub fn md5_key(username: &str, realm: &[u8], password: &str) -> (key: [u8; 16])
    requires
        (vstd::utf8::encode_utf8(username@).len() + realm@.len() + vstd::utf8::encode_utf8(
            password@,
        ).len() + 2) * 8 <= u64::MAX,
    ensures
        key@ == credential_key(username@, realm@, password@),
        key@ == md5::md5(
            vstd::utf8::encode_utf8(username@) + seq![0x3Au8] + realm@ + seq![0x3Au8]
                + vstd::utf8::encode_utf8(password@),
        ),
{
    let mut input: Vec<u8> = Vec::new();
    wire::append_bytes(&mut input, username.as_bytes());
    input.push(0x3A);
    wire::append_bytes(&mut input, realm);
    input.push(0x3A);
    wire::append_bytes(&mut input, password.as_bytes());
    assert(input@ =~= vstd::utf8::encode_utf8(username@) + seq![0x3Au8] + realm@ + seq![0x3Au8]
        + vstd::utf8::encode_utf8(password@));
    md5::md5_hash(&input)
}

/// The bytes of the credentials, one attribute after the other.
proof fn lemma_credentials_bytes(ts: &TurnState)
    ensures
        stun::encode_attrs(ts.credentials()) == stun::attr_bytes(
            ATTR_USERNAME,
            vstd::utf8::encode_utf8(ts.username@),
        ) + stun::attr_bytes(stun::ATTR_REALM, ts.realm@) + stun::attr_bytes(
            stun::ATTR_NONCE,
            ts.nonce@,
        ),
{
    let none = Seq::<(u16, Seq<u8>)>::empty();
    let u = (ATTR_USERNAME, vstd::utf8::encode_utf8(ts.username@));
    let r = (stun::ATTR_REALM, ts.realm@);
    let n = (stun::ATTR_NONCE, ts.nonce@);
    assert(stun::encode_attrs(none) =~= Seq::<u8>::empty());
    stun::lemma_encode_attrs_push(none, u);
    stun::lemma_encode_attrs_push(none.push(u), r);
    stun::lemma_encode_attrs_push(none.push(u).push(r), n);
    assert(ts.credentials() =~= none.push(u).push(r).push(n));
    assert(stun::encode_attrs(ts.credentials()) =~= stun::attr_bytes(u.0, u.1)
        + stun::attr_bytes(r.0, r.1) + stun::attr_bytes(n.0, n.1));
}

fn padded_len(len: usize) -> (r: u128)
    ensures
        r == 4 + len + stun::padding(len as int),
{
    4 + len as u128 + ((4 - len % 4) % 4) as u128
}

impl TurnState {
    /// Tells whether a request with `before` bytes of attributes can be authenticated.
    pub fn can_authenticate(&self, before: usize) -> (r: bool)
        ensures
            r == self.auth_fits(before as int),
    {
        proof {
            lemma_credentials_bytes(self);
            stun::lemma_attr_bytes_len(
                ATTR_USERNAME,
                vstd::utf8::encode_utf8(self.username@),
            );
            stun::lemma_attr_bytes_len(stun::ATTR_REALM, self.realm@);
            stun::lemma_attr_bytes_len(stun::ATTR_NONCE, self.nonce@);
        }
        let user: usize = self.username.as_str().as_bytes().len();
        let pass: usize = self.password.as_str().as_bytes().len();
        let body: u128 = before as u128 + padded_len(user) + padded_len(self.realm.len())
            + padded_len(self.nonce.len());
        let input: u128 = user as u128 + self.realm.len() as u128 + pass as u128 + 2;
        body % 0x1_0000 + 24 <= 0xffff && (84 + body) * 8 <= 0xffff_ffff_ffff_ffff && input * 8
            <= 0xffff_ffff_ffff_ffff
    }
}

/// Appends the credentials and MESSAGE-INTEGRITY to the attributes in `buf`, and sets the
/// length in `header` to the one that the digest covers.
pub fn append_auth(buf: &mut Vec<u8>, header: &mut [u8; 20], ts: &TurnState)
    requires
        ts.auth_fits(old(buf)@.len() as int),
    ensures
        ({
            let body = old(buf)@ + stun::encode_attrs(ts.credentials());
            let covered = with_length(old(header)@, integrity_length(body.len()));
            &&& final(header)@ == covered
            &&& final(buf)@ == body + stun::attr_bytes(
                ATTR_MESSAGE_INTEGRITY,
                sha1::hmac(ts.key(), covered + body),
            )
        }),
{
    let ghost start = buf@;
    let ghost h0 = header@;
    stun::append_attr(buf, ATTR_USERNAME, ts.username.as_str().as_bytes());
    stun::append_attr(buf, stun::ATTR_REALM, &ts.realm);
    stun::append_attr(buf, stun::ATTR_NONCE, &ts.nonce);
    let ghost body = start + stun::encode_attrs(ts.credentials());
    proof {
        lemma_credentials_bytes(ts);
        assert(buf@ =~= body);
    }
    let covered_len: u16 = (buf.len() % 0x1_0000) as u16 + 24;
    let l = wire::u16_to_be(covered_len);
    header[2] = l[0];
    header[3] = l[1];
    let ghost covered = with_length(h0, integrity_length(body.len()));
    assert(header@ =~= covered);
    let mut data: Vec<u8> = Vec::new();
    let snapshot: [u8; 20] = *header;
    wire::append_bytes(&mut data, &snapshot);
    wire::append_bytes(&mut data, buf);
    assert(data@ =~= covered + body);
    let key = md5_key(ts.username.as_str(), &ts.realm, ts.password.as_str());
    let mac = sha1::hmac_sha1(&key, &data);
    stun::append_attr(buf, ATTR_MESSAGE_INTEGRITY, &mac);
}

/// Puts a header in front of a list of attributes.
fn frame(msg_type: u16, attrs: &Vec<u8>, txn: &[u8; 12]) -> (msg: Vec<u8>)
    ensures
        msg@ == stun::header_bytes(msg_type, (attrs@.len() % 0x1_0000) as u16, txn@) + attrs@,
{
    let header = stun::stun_header(msg_type, (attrs.len() % 0x1_0000) as u16, txn);
    let mut msg: Vec<u8> = Vec::new();
    wire::append_bytes(&mut msg, &header);
    wire::append_bytes(&mut msg, attrs);
    assert(msg@ =~= header@ + attrs@);
    msg
}

/// Authenticates a request whose own attributes are in `buf`.
fn sign(
    msg_type: u16,
    buf: Vec<u8>,
    Ghost(attrs): Ghost<Seq<(u16, Seq<u8>)>>,
    txn: &[u8; 12],
    ts: &TurnState,
) -> (msg: Vec<u8>)
    requires
        buf@ == stun::encode_attrs(attrs),
        ts.auth_fits(buf@.len() as int),
    ensures
        msg@ == signed_message(msg_type, attrs, txn@, ts),
{
    let mut buf = buf;
    let mut header = stun::stun_header(msg_type, 0, txn);
    let ghost h0 = header@;
    append_auth(&mut buf, &mut header, ts);
    proof {
        let all = attrs + ts.credentials();
        stun::lemma_encode_attrs_concat(attrs, ts.credentials());
        let body = stun::encode_attrs(all);
        assert(with_length(h0, integrity_length(body.len())) =~= stun::header_bytes(
            msg_type,
            integrity_length(body.len()),
            txn@,
        ));
        stun::lemma_encode_attrs_push(
            all,
            (ATTR_MESSAGE_INTEGRITY, integrity(msg_type, body, txn@, ts.key())),
        );
    }
    frame(msg_type, &buf, txn)
}

/// One attribute as a list of attributes.
proof fn lemma_encode_one(attr: (u16, Seq<u8>))
    ensures
        stun::encode_attrs(seq![attr]) == stun::attr_bytes(attr.0, attr.1),
{
    let none = Seq::<(u16, Seq<u8>)>::empty();
    assert(stun::encode_attrs(none) =~= Seq::<u8>::empty());
    stun::lemma_encode_attrs_push(none, attr);
    assert(none.push(attr) =~= seq![attr]);
    assert(stun::encode_attrs(seq![attr]) =~= stun::attr_bytes(attr.0, attr.1));
}

fn allocate_body() -> (buf: Vec<u8>)
    ensures
        buf@ == stun::encode_attrs(allocate_attrs()),
        buf@.len() == 8,
{
    let mut buf: Vec<u8> = Vec::new();
    let transport = wire::u32_to_be(TRANSPORT_UDP);
    stun::append_attr(&mut buf, ATTR_REQUESTED_TRANSPORT, &transport);
    proof {
        lemma_encode_one((ATTR_REQUESTED_TRANSPORT, transport@));
        stun::lemma_attr_bytes_len(ATTR_REQUESTED_TRANSPORT, transport@);
        assert(buf@ =~= stun::encode_attrs(allocate_attrs()));
    }
    buf
}

/// The first allocation request, without credentials: the server answers it with a
/// challenge.
pub fn allocate_request(txn: &[u8; 12]) -> (msg: Vec<u8>)
    ensures
        msg@ == stun::message(ALLOCATE_REQUEST, allocate_attrs(), txn@),
{
    let buf = allocate_body();
    frame(ALLOCATE_REQUEST, &buf, txn)
}

/// The second allocation request, with the credentials of `ts`.
pub fn allocate_signed_request(txn: &[u8; 12], ts: &TurnState) -> (msg: Vec<u8>)
    requires
        ts.auth_fits(8),
    ensures
        msg@ == signed_message(ALLOCATE_REQUEST, allocate_attrs(), txn@, ts),
{
    let buf = allocate_body();
    sign(ALLOCATE_REQUEST, buf, Ghost(allocate_attrs()), txn, ts)
}

/// The session that a challenge opens for a user: the one whose realm and nonce it names.
pub open spec fn opened(
    reply: Seq<u8>,
    turn_addr: SocketAddr,
    username: Seq<char>,
    password: Seq<char>,
    r: Result<TurnState, StunError>,
) -> bool {
    match r {
        Ok(ts) => {
            &&& stun::challenge(reply) == Ok::<(Seq<u8>, Seq<u8>), StunError>(
                (ts.realm@, ts.nonce@),
            )
            &&& ts.turn_addr == turn_addr
            &&& ts.username@ == username
            &&& ts.password@ == password
        },
        Err(e) => stun::challenge(reply) == Err::<(Seq<u8>, Seq<u8>), StunError>(e),
    }
}

/// What a datagram says to someone who waits for a server's challenge: nothing, where it
/// comes from elsewhere; else the session that it opens, or why it opens none.
pub fn challenge_reply(
    server: SocketAddr,
    from: SocketAddr,
    data: &[u8],
    username: &str,
    password: &str,
) -> (r: Option<Result<TurnState, StunError>>)
    ensures
        match r {
            Some(answer) => from == server && opened(data@, server, username@, password@, answer),
            None => from != server,
        },
        r matches Some(Ok(ts)) ==> {
            &&& stun::challenge(data@) == Ok::<(Seq<u8>, Seq<u8>), StunError>(
                (ts.realm@, ts.nonce@),
            )
            &&& ts.turn_addr == server
            &&& ts.username@ == username@
            &&& ts.password@ == password@
        },
        r matches Some(Err(e)) ==> stun::challenge(data@) == Err::<(Seq<u8>, Seq<u8>), StunError>(
            e,
        ),
{
    if from != server {
        return None;
    }
    match stun::parse_turn_error_401(data) {
        Ok((realm, nonce)) => Some(
            Ok(
                TurnState {
                    turn_addr: server,
                    realm,
                    nonce,
                    username: username.to_owned(),
                    password: password.to_owned(),
                },
            ),
        ),
        Err(e) => Some(Err(e)),
    }
}

/// What a datagram says to someone who waits for a server to grant an allocation: nothing,
/// where it comes from elsewhere; else the relayed address, or why there is none.
pub fn grant_reply(server: SocketAddr, from: SocketAddr, data: &[u8]) -> (r: Option<
    Result<SocketAddr, AllocateError>,
>)
    requires
        from == server ==> data@.len() >= 2,
    ensures
        r == (if from == server {
            Some(allocation(data@))
        } else {
            None
        }),
{
    if from == server {
        Some(parse_allocation(data))
    } else {
        None
    }
}

/// Reads the relayed address out of the answer to an allocation request.
pub fn parse_allocation(resp: &[u8]) -> (r: Result<SocketAddr, AllocateError>)
    requires
        resp@.len() >= 2,
    ensures
        r == allocation(resp@),
{
    let msg_type: u16 = wire::u16_from_be(resp[0], resp[1]);
    if msg_type != ALLOCATE_SUCCESS {
        if msg_type == ALLOCATE_ERROR {
            return Err(AllocateError::Rejected);
        }
        return Err(AllocateError::UnexpectedType(msg_type));
    }
    match stun::parse_stun_attr(resp, ATTR_XOR_RELAYED_ADDRESS) {
        Some(val) => match stun::parse_xor_mapped(val) {
            Ok(addr) => Ok(addr),
            Err(_) => Err(AllocateError::NoRelayedAddress),
        },
        None => Err(AllocateError::NoRelayedAddress),
    }
}

/// The number of bytes of the attributes of a request for a permission.
pub open spec fn permission_len(peer: Option<u32>) -> int {
    match peer {
        Some(_) => 12,
        None => 0,
    }
}

/// The request that lets a peer with the given IPv4 address send through the relay; a
/// peer without one is not named.
pub fn permission_request(peer: Option<u32>, txn: &[u8; 12], ts: &TurnState) -> (msg: Vec<u8>)
    requires
        ts.auth_fits(permission_len(peer)),
    ensures
        msg@ == signed_message(CREATE_PERMISSION_REQUEST, permission_attrs(peer), txn@, ts),
{
    let mut buf: Vec<u8> = Vec::new();
    match peer {
        Some(ip) => {
            let val = stun::xor_address(ip, 0);
            stun::append_attr(&mut buf, ATTR_XOR_PEER_ADDRESS, &val);
            proof {
                lemma_encode_one((ATTR_XOR_PEER_ADDRESS, val@));
                stun::lemma_attr_bytes_len(ATTR_XOR_PEER_ADDRESS, val@);
                assert(buf@ =~= stun::encode_attrs(permission_attrs(peer)));
            }
        },
        None => {
            assert(buf@ =~= stun::encode_attrs(permission_attrs(peer)));
        },
    }
    sign(CREATE_PERMISSION_REQUEST, buf, Ghost(permission_attrs(peer)), txn, ts)
}

/// What a datagram says to someone who waits for a server's answer to a request for a
/// permission: read off its first two bytes, where it comes from the server.
pub fn permission_reply(server: SocketAddr, from: SocketAddr, first: u8, second: u8) -> (r:
    PermissionReply)
    ensures
        r == (if from != server {
            PermissionReply::Other
        } else if wire::be16(first, second) == CREATE_PERMISSION_SUCCESS {
            PermissionReply::Granted
        } else if wire::be16(first, second) == CREATE_PERMISSION_ERROR {
            PermissionReply::Refused
        } else {
            PermissionReply::Other
        }),
{
    let msg_type: u16 = wire::u16_from_be(first, second);
    if from != server {
        PermissionReply::Other
    } else if msg_type == CREATE_PERMISSION_SUCCESS {
        PermissionReply::Granted
    } else if msg_type == CREATE_PERMISSION_ERROR {
        PermissionReply::Refused
    } else {
        PermissionReply::Other
    }
}

/// The request that keeps an allocation alive.
pub fn refresh_request(txn: &[u8; 12], ts: &TurnState) -> (msg: Vec<u8>)
    requires
        ts.auth_fits(8),
    ensures
        msg@ == signed_message(REFRESH_REQUEST, refresh_attrs(), txn@, ts),
{
    let mut buf: Vec<u8> = Vec::new();
    let lifetime = wire::u32_to_be(REFRESH_LIFETIME);
    stun::append_attr(&mut buf, ATTR_LIFETIME, &lifetime);
    proof {
        lemma_encode_one((ATTR_LIFETIME, lifetime@));
        stun::lemma_attr_bytes_len(ATTR_LIFETIME, lifetime@);
        assert(buf@ =~= stun::encode_attrs(refresh_attrs()));
    }
    sign(REFRESH_REQUEST, buf, Ghost(refresh_attrs()), txn, ts)
}

/// The message that sends data to a peer through the relay.
pub fn send_indication(peer: SocketAddr, data: &[u8], txn: &[u8; 12]) -> (msg: Vec<u8>)
    ensures
        msg@ == stun::message(SEND_INDICATION, data_attrs(peer, data@), txn@),
{
    let mut buf: Vec<u8> = Vec::new();
    match peer.ip {
        IpAddr::V4(ip) => {
            let val = stun::xor_address(ip, peer.port);
            stun::append_attr(&mut buf, ATTR_XOR_PEER_ADDRESS, &val);
            proof {
                lemma_encode_one((ATTR_XOR_PEER_ADDRESS, val@));
                stun::lemma_encode_attrs_push(
                    seq![(ATTR_XOR_PEER_ADDRESS, val@)],
                    (ATTR_DATA, data@),
                );
                assert(seq![(ATTR_XOR_PEER_ADDRESS, val@)].push((ATTR_DATA, data@)) =~= data_attrs(
                    peer,
                    data@,
                ));
            }
        },
        IpAddr::V6(_) => {
            proof {
                lemma_encode_one((ATTR_DATA, data@));
            }
        },
    }
    stun::append_attr(&mut buf, ATTR_DATA, data);
    assert(buf@ =~= stun::encode_attrs(data_attrs(peer, data@)));
    frame(SEND_INDICATION, &buf, txn)
}

/// The message that sends data to a peer through the relay, with a transaction
/// identifier from the clock.
pub fn build_turn_send_indication(peer: SocketAddr, data: &[u8]) -> (msg: Vec<u8>)
    ensures
        exists|nanos: u128|
            msg@ == stun::message(
                SEND_INDICATION,
                data_attrs(peer, data@),
                stun::txn_id_bytes(nanos),
            ),
{
    let txn = stun::gen_txn_id();
    send_indication(peer, data, &txn)
}

/// Reads the peer and the data out of a packet from the server.
pub fn parse_turn_data(pkt: &[u8]) -> (r: Option<(SocketAddr, &[u8])>)
    ensures
        match r {
            Some((peer, data)) => peer_data(pkt@) == Some((peer, data@)),
            None => peer_data(pkt@) is None,
        },
{
    if pkt.len() < 20 {
        return None;
    }
    if wire::u16_from_be(pkt[0], pkt[1]) != DATA_INDICATION {
        return None;
    }
    if wire::u32_from_be(pkt[4], pkt[5], pkt[6], pkt[7]) != stun::STUN_MAGIC {
        return None;
    }
    let mut peer: Option<SocketAddr> = None;
    let mut range: Option<(usize, usize)> = None;
    let end: usize = stun::end_of_attrs(pkt);
    let mut pos: usize = 20;
    let ghost mut seen: Seq<(u16, Seq<u8>)> = seq![];
    assert(stun::stun_attrs(pkt@) =~= seen + stun::stun_attrs(pkt@));
    let mut done = false;
    while !done
        invariant
            end <= pkt@.len(),
            stun::stun_attrs(pkt@) == seen + stun::attrs_from(pkt@, end as int, pos as int),
            done ==> stun::stun_attrs(pkt@) == seen,
            peer == last_peer(seen),
            match range {
                Some((from, to)) => from <= to <= pkt@.len() && stun::last_attr(seen, ATTR_DATA)
                    == Some(pkt@.subrange(from as int, to as int)),
                None => stun::last_attr(seen, ATTR_DATA) is None,
            },
        decreases
            if done {
                0
            } else {
                1 + stun::distance(pos as int, end as int)
            },
    {
        match stun::next_attr(pkt, end, pos) {
            None => {
                done = true;
                assert(seen + stun::attrs_from(pkt@, end as int, pos as int) =~= seen);
            },
            Some((attr_type, from, to, next)) => {
                let val = slice_subrange(pkt, from, to);
                proof {
                    let old_seen = seen;
                    seen = seen.push((attr_type, val@));
                    assert(seen.drop_last() =~= old_seen);
                    assert(old_seen + stun::attrs_from(pkt@, end as int, pos as int) =~= seen
                        + stun::attrs_from(pkt@, end as int, next as int));
                }
                if attr_type == ATTR_XOR_PEER_ADDRESS {
                    if let Ok(addr) = stun::parse_xor_mapped(val) {
                        peer = Some(addr);
                    }
                } else if attr_type == ATTR_DATA {
                    range = Some((from, to));
                }
                pos = next;
            },
        }
    }
    match (peer, range) {
        (Some(addr), Some((from, to))) => Some((addr, slice_subrange(pkt, from, to))),
        _ => None,
    }
}

/// The keyed digest has twenty bytes.
proof fn lemma_integrity_len(msg_type: u16, body: Seq<u8>, txn: Seq<u8>, key: Seq<u8>)
    ensures
        integrity(msg_type, body, txn, key).len() == 20,
{
    let covered = stun::header_bytes(msg_type, integrity_length(body.len()), txn) + body;
    sha1::law_sha1_shape(
        sha1::xor_all(sha1::hmac_block(key), 0x5c) + sha1::sha1(
            sha1::xor_all(sha1::hmac_block(key), 0x36) + covered,
        ),
    );
}

/// What a server reads out of an authenticated request: its own attributes, the user
/// name, the realm and the nonce, and last MESSAGE-INTEGRITY.
pub proof fn law_signed_message_attrs(
    msg_type: u16,
    attrs: Seq<(u16, Seq<u8>)>,
    txn: Seq<u8>,
    ts: &TurnState,
)
    requires
        txn.len() == 12,
        stun::encode_attrs(signed_attrs(msg_type, attrs, txn, ts)).len() <= 0xffff,
    ensures
        stun::stun_attrs(signed_message(msg_type, attrs, txn, ts)) == signed_attrs(
            msg_type,
            attrs,
            txn,
            ts,
        ),
{
    stun::law_message_round_trip(msg_type, signed_attrs(msg_type, attrs, txn, ts), txn);
}

/// The last attribute of an authenticated request, and what it covers.
proof fn lemma_integrity_covers(
    msg_type: u16,
    attrs: Seq<(u16, Seq<u8>)>,
    txn: Seq<u8>,
    ts: &TurnState,
)
    requires
        txn.len() == 12,
        stun::encode_attrs(signed_attrs(msg_type, attrs, txn, ts)).len() <= 0xffff,
    ensures
        ({
            let m = signed_message(msg_type, attrs, txn, ts);
            let mac = signed_attrs(msg_type, attrs, txn, ts).last().1;
            &&& m.len() >= 44
            &&& mac.len() == 20
            &&& m.subrange(m.len() - 20, m.len() as int) == mac
            &&& mac == sha1::hmac(ts.key(), m.subrange(0, m.len() - 24))
        }),
{
    let all = attrs + ts.credentials();
    let body = stun::encode_attrs(all);
    let mac = integrity(msg_type, body, txn, ts.key());
    let m = signed_message(msg_type, attrs, txn, ts);
    lemma_integrity_len(msg_type, body, txn, ts.key());
    stun::lemma_encode_attrs_push(all, (ATTR_MESSAGE_INTEGRITY, mac));
    let last = stun::attr_bytes(ATTR_MESSAGE_INTEGRITY, mac);
    stun::lemma_attr_bytes_len(ATTR_MESSAGE_INTEGRITY, mac);
    assert(last.len() == 24);
    stun::lemma_attr_head(ATTR_MESSAGE_INTEGRITY, mac);
    assert(last.subrange(4, 24) =~= mac);
    assert(body.len() % 0x1_0000 == body.len());
    let header = stun::header_bytes(msg_type, integrity_length(body.len()), txn);
    assert(header.len() == 20);
    assert(m =~= header + body + last);
    assert(m.subrange(0, m.len() - 24) =~= header + body);
    assert(m.subrange(m.len() - 20, m.len() as int) =~= mac);
}

/// The MESSAGE-INTEGRITY of an authenticated request verifies: its last twenty bytes are
/// the keyed digest of everything ahead of the attribute, as it is sent.
pub proof fn law_integrity_verifies(
    msg_type: u16,
    attrs: Seq<(u16, Seq<u8>)>,
    txn: Seq<u8>,
    ts: &TurnState,
)
    requires
        txn.len() == 12,
        stun::encode_attrs(signed_attrs(msg_type, attrs, txn, ts)).len() <= 0xffff,
    ensures
        ({
            let m = signed_message(msg_type, attrs, txn, ts);
            &&& m.len() >= 44
            &&& m.subrange(m.len() - 20, m.len() as int) == sha1::hmac(
                ts.key(),
                m.subrange(0, m.len() - 24),
            )
        }),
{
    lemma_integrity_covers(msg_type, attrs, txn, ts);
}

/// The bytes of an indication's attributes for an IPv4 peer.
proof fn lemma_data_attrs_len(ip: u32, port: u16, data: Seq<u8>)
    ensures
        stun::encode_attrs(data_attrs(SocketAddr { ip: IpAddr::V4(ip), port }, data)).len() == 16
            + data.len() + stun::padding(data.len() as int),
{
    let peer = SocketAddr { ip: IpAddr::V4(ip), port };
    let a = (ATTR_XOR_PEER_ADDRESS, stun::xor_address_bytes(ip, port));
    let b = (ATTR_DATA, data);
    lemma_encode_one(a);
    stun::lemma_encode_attrs_push(seq![a], b);
    assert(seq![a].push(b) =~= data_attrs(peer, data));
    assert(a.1.len() == 8);
    stun::lemma_attr_bytes_len(a.0, a.1);
    stun::lemma_attr_bytes_len(b.0, b.1);
}

/// Data that the relay wraps for the agent, with the address of the peer it came from, is
/// unwrapped as that peer and that data.
pub proof fn law_relayed_data_round_trip(ip: u32, port: u16, data: Seq<u8>, txn: Seq<u8>)
    requires
        txn.len() == 12,
        data.len() <= 65516,
    ensures
        peer_data(
            stun::message(
                DATA_INDICATION,
                data_attrs(SocketAddr { ip: IpAddr::V4(ip), port }, data),
                txn,
            ),
        ) == Some((SocketAddr { ip: IpAddr::V4(ip), port }, data)),
{
    let peer = SocketAddr { ip: IpAddr::V4(ip), port };
    let attrs = data_attrs(peer, data);
    lemma_data_attrs_len(ip, port, data);
    stun::law_message_round_trip(DATA_INDICATION, attrs, txn);
    stun::law_xor_address_round_trip(ip, port);
    let a = (ATTR_XOR_PEER_ADDRESS, stun::xor_address_bytes(ip, port));
    assert(attrs.last() == (ATTR_DATA, data));
    assert(attrs.drop_last() =~= seq![a]);
    assert(seq![a].last() == a);
    assert(last_peer(seq![a]) == Some(peer));
}

/// The relay that unwraps an outgoing message finds the peer it is for and its data, and
/// nothing else.
pub proof fn law_send_indication_attrs(ip: u32, port: u16, data: Seq<u8>, txn: Seq<u8>)
    requires
        txn.len() == 12,
        data.len() <= 65516,
    ensures
        stun::stun_attrs(
            stun::message(
                SEND_INDICATION,
                data_attrs(SocketAddr { ip: IpAddr::V4(ip), port }, data),
                txn,
            ),
        ) == seq![
            (ATTR_XOR_PEER_ADDRESS, stun::xor_address_bytes(ip, port)),
            (ATTR_DATA, data),
        ],
        stun::xor_mapped(stun::xor_address_bytes(ip, port)) == Ok::<SocketAddr, StunError>(
            SocketAddr { ip: IpAddr::V4(ip), port },
        ),
{
    lemma_data_attrs_len(ip, port, data);
    stun::law_message_round_trip(
        SEND_INDICATION,
        data_attrs(SocketAddr { ip: IpAddr::V4(ip), port }, data),
        txn,
    );
    stun::law_xor_address_round_trip(ip, port);
}

/// A server that grants an allocation tells the client exactly the relayed address, where
/// no other attribute of that type stands ahead of it.
pub proof fn law_allocation_round_trip(
    ip: u32,
    port: u16,
    before: Seq<(u16, Seq<u8>)>,
    after: Seq<(u16, Seq<u8>)>,
    txn: Seq<u8>,
)
    requires
        txn.len() == 12,
        forall|i: int|
            0 <= i < before.len() ==> (#[trigger] before[i]).0 != ATTR_XOR_RELAYED_ADDRESS,
        stun::encode_attrs(
            before + seq![(ATTR_XOR_RELAYED_ADDRESS, stun::xor_address_bytes(ip, port))] + after,
        ).len() <= 0xffff,
    ensures
        allocation(
            stun::message(
                ALLOCATE_SUCCESS,
                before + seq![(ATTR_XOR_RELAYED_ADDRESS, stun::xor_address_bytes(ip, port))]
                    + after,
                txn,
            ),
        ) == Ok::<SocketAddr, AllocateError>(SocketAddr { ip: IpAddr::V4(ip), port }),
{
    let val = stun::xor_address_bytes(ip, port);
    let attrs = before + seq![(ATTR_XOR_RELAYED_ADDRESS, val)] + after;
    stun::law_message_round_trip(ALLOCATE_SUCCESS, attrs, txn);
    stun::law_xor_address_round_trip(ip, port);
    lemma_first_attr_skips(ATTR_XOR_RELAYED_ADDRESS, before, val, after);
}

proof fn lemma_first_attr_skips(
    attr_type: u16,
    before: Seq<(u16, Seq<u8>)>,
    val: Seq<u8>,
    after: Seq<(u16, Seq<u8>)>,
)
    requires
        forall|i: int| 0 <= i < before.len() ==> (#[trigger] before[i]).0 != attr_type,
    ensures
        stun::first_attr(before + seq![(attr_type, val)] + after, attr_type) == Some(val),
    decreases before.len(),
{
    let attrs = before + seq![(attr_type, val)] + after;
    if before.len() > 0 {
        let rest = before.drop_first();
        assert(attrs[0] == before[0]);
        assert(attrs.drop_first() =~= rest + seq![(attr_type, val)] + after);
        assert forall|i: int| 0 <= i < rest.len() implies (#[trigger] rest[i]).0 != attr_type by {
            assert(rest[i] == before[i + 1]);
        }
        lemma_first_attr_skips(attr_type, rest, val, after);
    } else {
        assert(attrs[0] == (attr_type, val));
    }
}

/// The key covers every byte of the user name, of the realm and of the password, however long
/// they are: it is the digest of the one text that has them in this order, with a colon behind
/// each of the first two.
pub proof fn law_key_covers_everything(
    username: Seq<char>,
    realm: Seq<u8>,
    password: Seq<char>,
    input: Seq<u8>,
)
    requires
        ({
            let user = vstd::utf8::encode_utf8(username);
            let pass = vstd::utf8::encode_utf8(password);
            &&& input.len() == user.len() + realm.len() + pass.len() + 2
            &&& forall|i: int| 0 <= i < user.len() ==> input[i] == #[trigger] user[i]
            &&& input[user.len() as int] == 0x3A
            &&& forall|i: int|
                0 <= i < realm.len() ==> input[user.len() + 1 + i] == #[trigger] realm[i]
            &&& input[(user.len() + 1 + realm.len()) as int] == 0x3A
            &&& forall|i: int|
                0 <= i < pass.len() ==> input[user.len() + realm.len() + 2 + i]
                    == #[trigger] pass[i]
        }),
    ensures
        credential_key(username, realm, password) == md5::md5(input),
{
    let user = vstd::utf8::encode_utf8(username);
    let pass = vstd::utf8::encode_utf8(password);
    assert(input.subrange(0, user.len() as int) =~= user);
    let (a, b) = (user.len() as int + 1, user.len() as int + realm.len() + 2);
    assert(input.subrange(a, b - 1) =~= realm);
    assert(input.subrange(b, input.len() as int) =~= pass);
    assert(input =~= user + seq![0x3Au8] + realm + seq![0x3Au8] + pass);
}

/// A session's requests are authenticated with the key of its own user name, realm and
/// password.
pub proof fn law_session_key(ts: &TurnState)
    ensures
        ts.key() == md5::md5(
            vstd::utf8::encode_utf8(ts.username@).push(0x3A) + ts.realm@.push(0x3A)
                + vstd::utf8::encode_utf8(ts.password@),
        ),
{
    let user = vstd::utf8::encode_utf8(ts.username@);
    let pass = vstd::utf8::encode_utf8(ts.password@);
    assert(user.push(0x3A) + ts.realm@.push(0x3A) + pass =~= user + seq![0x3Au8] + ts.realm@
        + seq![0x3Au8] + pass);
}

/// An attribute names a peer, at an address that can be read.
pub open spec fn names_peer(attr: (u16, Seq<u8>)) -> bool {
    attr.0 == 0x0012 && stun::xor_mapped(attr.1) is Ok
}

proof fn lemma_last_peer(attrs: Seq<(u16, Seq<u8>)>)
    ensures
        last_peer(attrs) is None <==> forall|i: int|
            0 <= i < attrs.len() ==> !names_peer(#[trigger] attrs[i]),
        forall|i: int|
            0 <= i < attrs.len() && names_peer(#[trigger] attrs[i]) && (forall|k: int|
                i < k < attrs.len() ==> !names_peer(#[trigger] attrs[k])) ==> last_peer(attrs)
                == Some(stun::xor_mapped(attrs[i].1)->Ok_0),
    decreases attrs.len(),
{
    if attrs.len() > 0 {
        let rest = attrs.drop_last();
        let last = attrs.len() - 1;
        lemma_last_peer(rest);
        assert(attrs[last] == attrs.last());
        assert forall|k: int| 0 <= k < last implies #[trigger] attrs[k] == rest[k] by {}
        assert forall|k: int| 0 <= k < rest.len() implies #[trigger] rest[k] == attrs[k] by {}
        assert forall|i: int|
            0 <= i < attrs.len() && names_peer(#[trigger] attrs[i]) && (forall|k: int|
                i < k < attrs.len() ==> !names_peer(#[trigger] attrs[k])) implies last_peer(attrs)
            == Some(stun::xor_mapped(attrs[i].1)->Ok_0) by {
            if i < last {
                assert(!names_peer(attrs[last]));
                assert(rest[i] == attrs[i]);
            }
        }
    }
}

/// Data are unwrapped wherever the attributes of a data indication stand, and whatever others
/// stand ahead of them, between them or behind them: the last peer that can be read, and the
/// last data, all of them. Nothing is unwrapped only where one of the two is missing.
#[verifier::rlimit(40)]
pub proof fn law_data_read_in_any_order(pkt: Seq<u8>, i: int, j: int)
    requires
        pkt.len() >= 20,
        pkt[0] == 0x00 && pkt[1] == 0x17,
        pkt[4] == 0x21 && pkt[5] == 0x12 && pkt[6] == 0xA4 && pkt[7] == 0x42,
    ensures
        ({
            let attrs = stun::stun_attrs(pkt);
            &&& peer_data(pkt) is Some <==> (exists|k: int|
                0 <= k < attrs.len() && names_peer(#[trigger] attrs[k])) && (exists|k: int|
                0 <= k < attrs.len() && (#[trigger] attrs[k]).0 == 0x0013)
            &&& 0 <= i < attrs.len() && names_peer(attrs[i]) && (forall|k: int|
                i < k < attrs.len() ==> !names_peer(#[trigger] attrs[k])) && 0 <= j < attrs.len()
                && attrs[j].0 == 0x0013 && (forall|k: int|
                j < k < attrs.len() ==> (#[trigger] attrs[k]).0 != 0x0013) ==> peer_data(pkt)
                == Some((stun::xor_mapped(attrs[i].1)->Ok_0, attrs[j].1))
        }),
{
    let attrs = stun::stun_attrs(pkt);
    lemma_last_peer(attrs);
    stun::law_last_of_its_type(attrs, 0x0013);
}

/// A relay may put any other attributes around the peer and the data of a data indication, and
/// put these two in either order: what it wraps is unwrapped.
pub proof fn law_relay_may_add_attributes(
    attrs: Seq<(u16, Seq<u8>)>,
    txn: Seq<u8>,
    i: int,
    j: int,
    ip: u32,
    port: u16,
)
    requires
        txn.len() == 12,
        stun::encode_attrs(attrs).len() <= 0xffff,
        0 <= i < attrs.len(),
        attrs[i] == (0x0012u16, stun::xor_address_bytes(ip, port)),
        forall|k: int| i < k < attrs.len() ==> (#[trigger] attrs[k]).0 != 0x0012,
        0 <= j < attrs.len(),
        attrs[j].0 == 0x0013,
        forall|k: int| j < k < attrs.len() ==> (#[trigger] attrs[k]).0 != 0x0013,
    ensures
        peer_data(stun::message(DATA_INDICATION, attrs, txn)) == Some(
            (SocketAddr { ip: IpAddr::V4(ip), port }, attrs[j].1),
        ),
{
    let m = stun::message(DATA_INDICATION, attrs, txn);
    stun::law_message_round_trip(DATA_INDICATION, attrs, txn);
    stun::law_message_bytes(DATA_INDICATION, attrs, txn);
    stun::law_xor_address_round_trip(ip, port);
    law_data_read_in_any_order(m, i, j);
}

/// Nothing is unwrapped of what is no data indication: too short for a message, of another
/// type, or with another cookie.
pub proof fn law_only_indications_carry_data(pkt: Seq<u8>)
    ensures
        peer_data(pkt) is Some ==> {
            &&& pkt.len() >= 20
            &&& pkt[0] == 0x00 && pkt[1] == 0x17
            &&& pkt[4] == 0x21 && pkt[5] == 0x12 && pkt[6] == 0xA4 && pkt[7] == 0x42
        },
{
}

/// An authenticated request, as a server reads it: the type, the cookie, the transaction, the
/// request's own attributes, the user name, the realm and the nonce, each whole, and last the
/// twenty bytes of the keyed digest of all that stands ahead of that attribute.
pub proof fn law_signed_request_read(
    msg_type: u16,
    attrs: Seq<(u16, Seq<u8>)>,
    txn: Seq<u8>,
    ts: &TurnState,
)
    requires
        txn.len() == 12,
        stun::encode_attrs(signed_attrs(msg_type, attrs, txn, ts)).len() <= 0xffff,
    ensures
        ({
            let m = signed_message(msg_type, attrs, txn, ts);
            let read = stun::stun_attrs(m);
            let n = attrs.len() as int;
            &&& 0x100 * m[0] + m[1] == msg_type
            &&& 0x100 * m[2] + m[3] == m.len() - 20
            &&& m[4] == 0x21 && m[5] == 0x12 && m[6] == 0xA4 && m[7] == 0x42
            &&& m.subrange(8, 20) == txn
            &&& read.len() == n + 4
            &&& forall|i: int| 0 <= i < n ==> read[i] == #[trigger] attrs[i]
            &&& read[n] == (0x0006u16, vstd::utf8::encode_utf8(ts.username@))
            &&& read[n + 1] == (0x0014u16, ts.realm@)
            &&& read[n + 2] == (0x0015u16, ts.nonce@)
            &&& read[n + 3].0 == 0x0008
            &&& read[n + 3].1.len() == 20
            &&& read[n + 3].1 == sha1::hmac(
                md5::md5(
                    vstd::utf8::encode_utf8(ts.username@).push(0x3A) + ts.realm@.push(0x3A)
                        + vstd::utf8::encode_utf8(ts.password@),
                ),
                m.subrange(0, m.len() - 24),
            )
        }),
{
    let all = signed_attrs(msg_type, attrs, txn, ts);
    law_session_key(ts);
    law_signed_message_attrs(msg_type, attrs, txn, ts);
    lemma_integrity_covers(msg_type, attrs, txn, ts);
    stun::law_message_round_trip(msg_type, all, txn);
    stun::law_message_bytes(msg_type, all, txn);
    assert(all.last() == all[attrs.len() as int + 3]);
}

/// What the requests ask for: an allocation for UDP, a lifetime of ten minutes, a permission
/// for the peer at whatever port, where it has an IPv4 address; and what an indication carries:
/// the data, whole, behind the peer where that has an IPv4 address.
pub proof fn law_requests_spelled_out(ip: u32, wide: u128, port: u16, data: Seq<u8>)
    ensures
        ALLOCATE_REQUEST == 0x0003,
        allocate_attrs() == seq![(0x0019u16, seq![0x11u8, 0, 0, 0])],
        REFRESH_REQUEST == 0x0004,
        refresh_attrs() == seq![(0x000Du16, seq![0u8, 0, 0x02, 0x58])],
        CREATE_PERMISSION_REQUEST == 0x0008,
        permission_attrs(Some(ip)) == seq![(0x0012u16, stun::xor_address_bytes(ip, 0))],
        permission_attrs(None) == Seq::<(u16, Seq<u8>)>::empty(),
        SEND_INDICATION == 0x0016,
        data_attrs(SocketAddr { ip: IpAddr::V4(ip), port }, data) == seq![
            (0x0012u16, stun::xor_address_bytes(ip, port)),
            (0x0013u16, data),
        ],
        data_attrs(SocketAddr { ip: IpAddr::V6(wide), port }, data) == seq![(0x0013u16, data)],
{
    assert(wire::be32_bytes(TRANSPORT_UDP) =~= seq![0x11u8, 0, 0, 0]);
    assert(wire::be32_bytes(REFRESH_LIFETIME) =~= seq![0u8, 0, 0x02, 0x58]);
}

/// A refused allocation is told apart from an answer of another type, by the first two bytes
/// alone; of a granted one the first relayed address counts, wherever it stands, and it fails
/// where there is none or that one cannot be read.
pub proof fn law_first_relayed_address_counts(resp: Seq<u8>, i: int)
    requires
        resp.len() >= 2,
    ensures
        allocation(resp) == Err::<SocketAddr, AllocateError>(AllocateError::Rejected) <==> resp[0]
            == 0x01 && resp[1] == 0x13,
        !(resp[0] == 0x01 && (resp[1] == 0x03 || resp[1] == 0x13)) ==> allocation(resp) == Err::<
            SocketAddr,
            AllocateError,
        >(AllocateError::UnexpectedType((0x100 * resp[0] + resp[1]) as u16)),
        resp[0] == 0x01 && resp[1] == 0x03 && resp.len() < 20 ==> allocation(resp) == Err::<
            SocketAddr,
            AllocateError,
        >(AllocateError::NoRelayedAddress),
        resp[0] == 0x01 && resp[1] == 0x03 && resp.len() >= 20 ==> ({
            let attrs = stun::stun_attrs(resp);
            &&& (forall|k: int| 0 <= k < attrs.len() ==> (#[trigger] attrs[k]).0 != 0x0016)
                ==> allocation(resp) == Err::<SocketAddr, AllocateError>(
                AllocateError::NoRelayedAddress,
            )
            &&& 0 <= i < attrs.len() && attrs[i].0 == 0x0016 && (forall|k: int|
                0 <= k < i ==> (#[trigger] attrs[k]).0 != 0x0016) ==> match stun::xor_mapped(
                attrs[i].1,
            ) {
                Ok(addr) => allocation(resp) == Ok::<SocketAddr, AllocateError>(addr),
                Err(_) => allocation(resp) == Err::<SocketAddr, AllocateError>(
                    AllocateError::NoRelayedAddress,
                ),
            }
        }),
{
    stun::law_first_of_its_type(stun::stun_attrs(resp), 0x0016);
}

/// While the digest is computed, the header keeps everything but its length, which then takes
/// in the 24 bytes of the digest's own attribute.
pub proof fn law_length_takes_digest_in(header: Seq<u8>, body_len: nat)
    requires
        header.len() == 20,
        body_len % 0x1_0000 + 24 <= 0xffff,
    ensures
        ({
            let h = with_length(header, integrity_length(body_len));
            &&& h.len() == 20
            &&& 0x100 * h[2] + h[3] == body_len % 0x1_0000 + 24
            &&& forall|i: int| 0 <= i < 20 && i != 2 && i != 3 ==> h[i] == #[trigger] header[i]
        }),
{
}

/// The number of bytes that an attribute with a value of this length takes up.
pub open spec fn attr_room(len: int) -> int {
    4 + (len + 3) / 4 * 4
}

proof fn lemma_attr_room(len: int)
    requires
        len >= 0,
    ensures
        4 + len + stun::padding(len) == attr_room(len),
{
}

/// Any credentials will do, as long as the request stays short enough for its length field,
/// and the digests for their counts of bits.
#[verifier::rlimit(40)]
pub proof fn law_any_credentials_will_do(ts: &TurnState, before: int)
    requires
        before >= 0,
    ensures
        ({
            let user = vstd::utf8::encode_utf8(ts.username@).len() as int;
            let pass = vstd::utf8::encode_utf8(ts.password@).len() as int;
            let realm = ts.realm@.len() as int;
            let body = before + attr_room(user) + attr_room(realm) + attr_room(
                ts.nonce@.len() as int,
            );
            &&& ts.auth_fits(before) <==> body % 0x1_0000 + 24 <= 0xffff && (84 + body) * 8
                <= u64::MAX && (user + realm + pass + 2) * 8 <= u64::MAX
        }),
{
    lemma_credentials_bytes(ts);
    stun::lemma_attr_bytes_len(ATTR_USERNAME, vstd::utf8::encode_utf8(ts.username@));
    stun::lemma_attr_bytes_len(stun::ATTR_REALM, ts.realm@);
    stun::lemma_attr_bytes_len(stun::ATTR_NONCE, ts.nonce@);
    lemma_attr_room(vstd::utf8::encode_utf8(ts.username@).len() as int);
    lemma_attr_room(ts.realm@.len() as int);
    lemma_attr_room(ts.nonce@.len() as int);
}

/// Whatever the size of a request, its own attributes come first, then the credentials, and
/// last the digest: of the one sequence of bytes that has the type, the length with the digest
/// taken in, the cookie, the transaction, and all attributes ahead of the digest.
pub proof fn law_digest_covers_everything(
    msg_type: u16,
    attrs: Seq<(u16, Seq<u8>)>,
    txn: Seq<u8>,
    ts: &TurnState,
    covered: Seq<u8>,
)
    requires
        txn.len() == 12,
        ({
            let all = signed_attrs(msg_type, attrs, txn, ts);
            let body = stun::encode_attrs(all.drop_last());
            &&& body.len() % 0x1_0000 + 24 <= 0xffff
            &&& covered.len() == 20 + body.len()
            &&& 0x100 * covered[0] + covered[1] == msg_type
            &&& 0x100 * covered[2] + covered[3] == body.len() % 0x1_0000 + 24
            &&& covered[4] == 0x21 && covered[5] == 0x12 && covered[6] == 0xA4 && covered[7] == 0x42
            &&& covered.subrange(8, 20) == txn
            &&& covered.subrange(20, covered.len() as int) == body
        }),
    ensures
        ({
            let all = signed_attrs(msg_type, attrs, txn, ts);
            let n = attrs.len() as int;
            &&& signed_message(msg_type, attrs, txn, ts) == stun::message(msg_type, all, txn)
            &&& all.len() == n + 4
            &&& forall|i: int| 0 <= i < n ==> all[i] == #[trigger] attrs[i]
            &&& all[n] == (0x0006u16, vstd::utf8::encode_utf8(ts.username@))
            &&& all[n + 1] == (0x0014u16, ts.realm@)
            &&& all[n + 2] == (0x0015u16, ts.nonce@)
            &&& all[n + 3] == (
                0x0008u16,
                sha1::hmac(
                    md5::md5(
                        vstd::utf8::encode_utf8(ts.username@).push(0x3A) + ts.realm@.push(0x3A)
                            + vstd::utf8::encode_utf8(ts.password@),
                    ),
                    covered,
                ),
            )
        }),
{
    let own = attrs + ts.credentials();
    let all = signed_attrs(msg_type, attrs, txn, ts);
    assert(all.drop_last() =~= own);
    let body = stun::encode_attrs(own);
    law_session_key(ts);
    let header = stun::header_bytes(msg_type, integrity_length(body.len()), txn);
    assert(header.len() == 20);
    assert forall|i: int| 0 <= i < covered.len() implies covered[i] == #[trigger] (header + body)[i] by {
        if 8 <= i < 20 {
            assert(covered.subrange(8, 20)[i - 8] == txn[i - 8]);
        } else if i >= 20 {
            assert(covered.subrange(20, covered.len() as int)[i - 20] == body[i - 20]);
        }
    }
    assert(covered =~= header + body);
}

/// The key that is computed covers user name, realm and password, whole.
pub proof fn law_key_computed(username: &str, realm: &[u8], password: &str, key: [u8; 16])
    requires
        call_ensures(md5_key, (username, realm, password), key),
    ensures
        key@ == credential_key(username@, realm@, password@),
{
}

/// What is sent is what is stated: requests with and without credentials, and data.
pub proof fn law_sent_as_stated(
    txn: &[u8; 12],
    ts: &TurnState,
    first: Vec<u8>,
    second: Vec<u8>,
    peer: Option<u32>,
    permission: Vec<u8>,
    refresh: Vec<u8>,
    to: SocketAddr,
    data: &[u8],
    wrapped: Vec<u8>,
    any: Vec<u8>,
)
    requires
        call_ensures(allocate_request, (txn,), first),
        call_ensures(allocate_signed_request, (txn, ts), second),
        call_ensures(permission_request, (peer, txn, ts), permission),
        call_ensures(refresh_request, (txn, ts), refresh),
        call_ensures(send_indication, (to, data, txn), wrapped),
        call_ensures(build_turn_send_indication, (to, data), any),
    ensures
        first@ == stun::message(0x0003, allocate_attrs(), txn@),
        second@ == signed_message(0x0003, allocate_attrs(), txn@, ts),
        permission@ == signed_message(0x0008, permission_attrs(peer), txn@, ts),
        refresh@ == signed_message(0x0004, refresh_attrs(), txn@, ts),
        wrapped@ == stun::message(0x0016, data_attrs(to, data@), txn@),
        exists|nanos: u128|
            any@ == stun::message(0x0016, data_attrs(to, data@), stun::txn_id_bytes(nanos)),
{
}

/// Credentials and digest are appended behind the attributes that are there, and the header
/// gets the length that the digest covers.
pub proof fn law_digest_appended(buf: &mut Vec<u8>, header: &mut [u8; 20], ts: &TurnState)
    requires
        call_ensures(append_auth, (buf, header, ts), ()),
    ensures
        ({
            let body = old(buf)@ + stun::encode_attrs(ts.credentials());
            let covered = with_length(old(header)@, integrity_length(body.len()));
            &&& final(header)@ == covered
            &&& final(buf)@ == body + stun::attr_bytes(
                0x0008,
                sha1::hmac(ts.key(), covered + body),
            )
        }),
{
}

/// What is read is what is stated: a challenge opens a session with the given user name and
/// password, a grant gives its address, and data are unwrapped; and a datagram that does not
/// come from the server says nothing.
pub proof fn law_read_as_stated(
    server: SocketAddr,
    from: SocketAddr,
    data: &[u8],
    username: &str,
    password: &str,
    opened: Option<Result<TurnState, StunError>>,
    granted: Option<Result<SocketAddr, AllocateError>>,
    allocated: Result<SocketAddr, AllocateError>,
    unwrapped: Option<(SocketAddr, &[u8])>,
)
    requires
        call_ensures(challenge_reply, (server, from, data, username, password), opened),
        data@.len() >= 2,
        call_ensures(grant_reply, (server, from, data), granted),
        call_ensures(parse_allocation, (data,), allocated),
        call_ensures(parse_turn_data, (data,), unwrapped),
    ensures
        opened is None <==> from != server,
        opened matches Some(Ok(ts)) ==> {
            &&& stun::challenge(data@) == Ok::<(Seq<u8>, Seq<u8>), StunError>(
                (ts.realm@, ts.nonce@),
            )
            &&& ts.turn_addr == server
            &&& ts.username@ == username@
            &&& ts.password@ == password@
        },
        opened matches Some(Err(e)) ==> stun::challenge(data@) == Err::<
            (Seq<u8>, Seq<u8>),
            StunError,
        >(e),
        granted is None <==> from != server,
        granted matches Some(r) ==> r == allocation(data@),
        allocated == allocation(data@),
        match unwrapped {
            Some((peer, bytes)) => peer_data(data@) == Some((peer, bytes@)),
            None => peer_data(data@) is None,
        },
{
}

/// A permission is granted or refused by the server alone, in an answer of the type that says
/// so; anything else leaves the question open.
pub proof fn law_permission_answered(
    server: SocketAddr,
    from: SocketAddr,
    first: u8,
    second: u8,
    r: PermissionReply,
)
    requires
        call_ensures(permission_reply, (server, from, first, second), r),
    ensures
        r == PermissionReply::Granted <==> from == server && first == 0x01 && second == 0x08,
        r == PermissionReply::Refused <==> from == server && first == 0x01 && second == 0x18,
{
}

/// A session can be told whether its requests can be authenticated.
pub proof fn law_authentication_foretold(ts: &TurnState, before: usize, r: bool)
    requires
        call_ensures(TurnState::can_authenticate, (ts, before), r),
    ensures
        r <==> ts.auth_fits(before as int),
{
}

} // verus!
