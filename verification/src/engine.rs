//! The WebRTC engine: the offer, the answer, candidates, media and events.

use str0m::change::SdpPendingOffer;
use str0m::media::Direction;
use str0m::media::MediaKind;
use str0m::media::Mid;
use str0m::Event;
use str0m::Rtc;
use vstd::prelude::*;

use crate::answer;
use crate::h264;
use crate::net::IpAddr;
use crate::net::SocketAddr;
use crate::session;
use crate::session::CandidateStep;
use crate::session::EventAction;
use crate::session::EventView;
use crate::session::IceState;
use crate::session::RtcEvent;
use crate::session::SendOutcome;
use crate::session::Session;

verus! {

/// The declaration of the engine.
#[verifier::external_type_specification]
#[verifier::external_body]
pub struct ExRtc(str0m::Rtc);

/// The declaration of a media line's identifier.
#[verifier::external_type_specification]
#[verifier::external_body]
pub struct ExMid(str0m::media::Mid);

/// The declaration of an offer that waits for its answer.
#[verifier::external_type_specification]
#[verifier::external_body]
pub struct ExSdpPendingOffer(str0m::change::SdpPendingOffer);

/// The declaration of an event.
#[verifier::external_type_specification]
#[verifier::external_body]
pub struct ExEvent(str0m::Event);

/// An engine that takes whole frames of media, as `Engine::new` makes it.
pub struct Engine {
    pub rtc: Rtc,
}

/// What an address of this machine is.
#[derive(Debug, Clone, Copy, PartialEq, Eq, Structural)]
pub enum OwnKind {
    /// One of its own.
    Host,
    /// One that the outside sees.
    Public,
    /// One of a relay.
    Relayed,
}

/// What the engine has offered, and where it sends each kind of media.
pub struct Offer {
    pub sdp: String,
    pub pending: SdpPendingOffer,
    pub video: Mid,
    pub audio: Mid,
}

/// The media that can be offered.
#[derive(Debug, Clone, Copy, PartialEq, Eq, Structural)]
pub enum MediaLine {
    /// Video that is only sent.
    SendVideo,
    /// Audio that is only sent.
    SendAudio,
}

/// A format that the peer takes.
#[derive(Debug, Clone, Copy, PartialEq, Eq, Structural)]
pub struct Payload {
    /// The number that stands for it.
    pub pt: u8,
    pub codec: Codec,
    /// How H.264 frames are cut into packets.
    pub packetization_mode: Option<u8>,
}

/// The codecs that make a difference here.
#[derive(Debug, Clone, Copy, PartialEq, Eq, Structural)]
pub enum Codec {
    H264,
    Other,
}

/// What is to be done with a frame.
#[derive(Debug, Clone, Copy, PartialEq, Eq, Structural)]
pub enum SendPlan {
    NotReady,
    NoPayload,
    Write(u8),
}

/// Why an answer was not accepted.
#[derive(Debug, Clone, Copy, PartialEq, Eq, Structural)]
pub enum AnswerError {
    /// It is not a session description.
    Malformed,
    /// It names something twice, or holds what the engine cannot take.
    Unfit,
    /// The engine does not accept it.
    Refused,
}

/// What there is to report of a video frame.
pub struct VideoReport {
    pub outcome: SendOutcome,
    /// What the very first frame holds.
    pub first_nals: Option<String>,
    /// Statistics are due.
    pub stats: bool,
}

/// What a `str0m::Rtc` has negotiated: the formats that the peer takes, in order, for each
/// media line.
pub uninterp spec fn negotiated(rtc: Rtc) -> Map<Mid, Seq<Payload>>;

/// Whether a `str0m::Rtc` has the settings that `str0m::Rtc::builder` starts from: it takes
/// whole frames of media, and its ICE agent is a full one.
pub uninterp spec fn has_defaults(rtc: Rtc) -> bool;

/// Whether a `str0m::Rtc` is alive, as `str0m::Rtc::is_alive` tells.
pub uninterp spec fn alive(rtc: Rtc) -> bool;

/// The local candidates of a `str0m::Rtc`: the address that each is known under, and the one
/// that it sends from.
pub uninterp spec fn own_addrs(rtc: Rtc) -> Set<(SocketAddr, SocketAddr)>;

/// How many local candidates of a kind a `str0m::Rtc` was told of, among the IPv6 addresses or
/// among the others.
pub uninterp spec fn own_count(rtc: Rtc, kind: OwnKind, v6: bool) -> nat;

/// The offers that a `str0m::Rtc` has made.
pub uninterp spec fn offers_of(rtc: Rtc) -> Set<SdpPendingOffer>;

/// Whether `str0m::change::SdpApi::apply` has made a text as the offer that waits for its
/// answer.
pub uninterp spec fn is_offer_text(pending: SdpPendingOffer, text: Seq<char>) -> bool;

/// Whether `str0m::change::SdpApi::accept_answer` may accept or refuse a text as the answer to
/// an offer of an engine.
pub uninterp spec fn may_accept(
    rtc: Rtc,
    pending: SdpPendingOffer,
    text: Seq<char>,
    accepted: bool,
) -> bool;

/// The formats that `str0m::change::SdpApi::accept_answer` settles on for a media line, out of
/// the text of the answer, where the engine has its default settings and knew no answer.
pub uninterp spec fn answer_formats(text: Seq<char>, mid: Mid) -> Seq<Payload>;

/// Whether `str0m::media::Writer::write`, depending on what is inside the engine, may take or
/// refuse a frame of a media line in a format, at a place on a clock.
pub uninterp spec fn may_write(
    mid: Mid,
    pt: u8,
    ts: u32,
    clock: u32,
    data: Seq<u8>,
    taken: bool,
) -> bool;

/// The frames that wait in a `str0m::Rtc` to be cut into packets, for a media line, in order:
/// the number of the format, the place on the clock, the ticks of the clock per second, and
/// the bytes. None wait for a line that is not there.
pub uninterp spec fn queued(rtc: Rtc, mid: Mid) -> Seq<(u8, u32, u32, Seq<u8>)>;

/// What a `str0m::Event` reports.
pub uninterp spec fn event_view(event: Event) -> EventView;

/// Whether `str0m::change::SdpAnswer::from_sdp_string` reads a text as an answer.
pub uninterp spec fn is_sdp_answer(text: Seq<char>) -> bool;

/// What a candidate of the peer says.
pub struct CandidateView {
    /// The IP address in text.
    pub ip: Seq<char>,
    pub port: u16,
    /// The part of the media stream that it is for: 1 is the only one in use.
    pub component: u16,
    /// The fragment of the user name that it belongs to, where it names one.
    pub ufrag: Option<Seq<char>>,
}

/// The candidate that `str0m::Candidate::from_sdp_string` reads out of a text; none where it
/// reads no candidate.
pub uninterp spec fn candidate_view(text: Seq<char>) -> Option<CandidateView>;

/// The IP address, in text, of the candidate in a text.
pub open spec fn candidate_ip_text(text: Seq<char>) -> Option<Seq<char>> {
    match candidate_view(text) {
        Some(c) => Some(c.ip),
        None => None,
    }
}

/// The addresses of the peer that a `str0m::Rtc` knows as candidates: IP address in text, and
/// port.
pub uninterp spec fn peer_addrs(rtc: Rtc) -> Set<(Seq<char>, u16)>;

/// The fragment of the peer's user name that a `str0m::Rtc` was told in an answer.
pub uninterp spec fn peer_ufrag(rtc: Rtc) -> Option<Seq<char>>;

/// The media lines that only send, among those that a `str0m::change::SdpPendingOffer` adds,
/// in order, each with its stream.
pub uninterp spec fn pending_media(pending: SdpPendingOffer) -> Seq<(Mid, MediaLine, Seq<char>)>;

/// The names of the data channels that a `str0m::change::SdpPendingOffer` adds, in order.
pub uninterp spec fn pending_channels(pending: SdpPendingOffer) -> Seq<Seq<char>>;

/// No address of this machine is known.
pub open spec fn is_nameless(rtc: Rtc) -> bool {
    &&& own_addrs(rtc) == Set::<(SocketAddr, SocketAddr)>::empty()
    &&& forall|kind: OwnKind, v6: bool| #[trigger] own_count(rtc, kind, v6) == 0
}

/// No frame waits to be sent.
pub open spec fn is_silent(rtc: Rtc) -> bool {
    forall|mid: Mid| #[trigger] queued(rtc, mid).len() == 0
}

/// The same frames wait to be sent.
pub open spec fn same_queues(rtc: Rtc, before: Rtc) -> bool {
    forall|mid: Mid| #[trigger] queued(rtc, mid) == queued(before, mid)
}

/// The engine lives, nothing is offered or negotiated, no frame waits, and neither side has
/// named an address.
pub open spec fn is_fresh(rtc: Rtc) -> bool {
    &&& is_silent(rtc)
    &&& alive(rtc)
    &&& has_defaults(rtc)
    &&& negotiated(rtc) == Map::<Mid, Seq<Payload>>::empty()
    &&& offers_of(rtc) == Set::<SdpPendingOffer>::empty()
    &&& is_nameless(rtc)
    &&& peer_addrs(rtc) == Set::<(Seq<char>, u16)>::empty()
    &&& peer_ufrag(rtc) is None
}

/// The engine lives as before, nothing more is offered or negotiated, nor was an answer taken
/// in.
pub open spec fn same_terms(rtc: Rtc, before: Rtc) -> bool {
    &&& alive(rtc) == alive(before)
    &&& has_defaults(rtc) == has_defaults(before)
    &&& negotiated(rtc) == negotiated(before)
    &&& offers_of(rtc) == offers_of(before)
    &&& peer_ufrag(rtc) == peer_ufrag(before)
}

/// This machine is known under the same addresses.
pub open spec fn same_own(rtc: Rtc, before: Rtc) -> bool {
    &&& own_addrs(rtc) == own_addrs(before)
    &&& forall|kind: OwnKind, v6: bool| #[trigger]
        own_count(rtc, kind, v6) == own_count(before, kind, v6)
}

/// No more has changed than what the engine knows of addresses of this machine of a kind.
pub open spec fn names_one(rtc: Rtc, before: Rtc, kind: OwnKind, v6: bool) -> bool {
    &&& forall|k: OwnKind, v: bool|
        k != kind || v != v6 ==> #[trigger] own_count(rtc, k, v) == own_count(before, k, v)
    &&& peer_addrs(rtc) == peer_addrs(before)
    &&& same_terms(rtc, before)
    &&& same_queues(rtc, before)
}

/// How many candidates of a kind an engine can rank, among the IPv6 addresses or among the
/// others.
pub open spec fn room(kind: OwnKind) -> nat {
    match kind {
        OwnKind::Host => 32768,
        OwnKind::Public => 16384,
        OwnKind::Relayed => 8192,
    }
}

/// How many of the addresses are IPv6 addresses, or how many are not.
pub open spec fn family_len(addrs: Seq<SocketAddr>, v6: bool) -> nat
    decreases addrs.len(),
{
    if addrs.len() == 0 {
        0
    } else {
        family_len(addrs.drop_last(), v6) + (if addrs.last().ip is V6 == v6 { 1nat } else { 0 })
    }
}

/// An engine can rank these addresses of this machine beside those that it knows: there is
/// room for all of them, or for the IPv6 addresses and for the others.
pub open spec fn has_room(rtc: Rtc, addrs: Seq<SocketAddr>) -> bool {
    forall|v6: bool|
        {
            ||| #[trigger] own_count(rtc, OwnKind::Host, v6) + addrs.len() <= room(OwnKind::Host)
            ||| own_count(rtc, OwnKind::Host, v6) + family_len(addrs, v6) <= room(OwnKind::Host)
        }
}

/// The addresses of hosts, each of which sends from itself.
pub open spec fn host_pairs(addrs: Seq<SocketAddr>) -> Set<(SocketAddr, SocketAddr)> {
    Set::new(|pair: (SocketAddr, SocketAddr)| pair.0 == pair.1 && addrs.contains(pair.0))
}

/// A character that the name of a stream can have.
pub open spec fn stream_char(c: char) -> bool {
    ||| c == '!'
    ||| '#' <= c <= '\''
    ||| '*' <= c <= '+'
    ||| '-' <= c <= '.'
    ||| '0' <= c <= '9'
    ||| 'A' <= c <= 'Z'
    ||| '^' <= c < '~'
}

/// A candidate is taken in where it is for the first component, and does not name another
/// fragment than the peer's answer did.
pub open spec fn candidate_fits(candidate: CandidateView, ufrag: Option<Seq<char>>) -> bool {
    candidate.component == 1 && (ufrag is None || candidate.ufrag is None || candidate.ufrag
        == ufrag)
}

/// The addresses of the peer that are known after a candidate was named in a text.
pub open spec fn with_candidate(
    known: Set<(Seq<char>, u16)>,
    ufrag: Option<Seq<char>>,
    text: Seq<char>,
) -> Set<(Seq<char>, u16)> {
    match candidate_view(text) {
        Some(c) => if candidate_fits(c, ufrag) { known.insert((c.ip, c.port)) } else { known },
        None => known,
    }
}

/// An IP address that a candidate can have: not the unspecified one, none that stands for
/// many, and no IPv4 address of a single link.
pub open spec fn candidate_ip_ok(ip: IpAddr) -> bool {
    match ip {
        IpAddr::V4(a) => a != 0 && a != 0xFFFF_FFFF && a / 0x1000_0000 != 0xE && a / 0x1_0000
            != 0xA9FE,
        IpAddr::V6(a) => a != 0 && a / 0x100_0000_0000_0000_0000_0000_0000_0000 != 0xFF,
    }
}

/// Calls `str0m::Candidate::host`, which refuses some IP addresses, and
/// `str0m::Rtc::add_local_candidate`, after which the engine knows the address as one of its
/// own. It ranks its candidates of a kind by numbers, and panics once they have run out. What
/// else is inside the engine is not stated.
#[verifier::external_body]
fn add_host_candidate(rtc: &mut Rtc, addr: SocketAddr) -> (r: bool)
    requires
        own_count(*old(rtc), OwnKind::Host, addr.ip is V6) < room(OwnKind::Host),
    ensures
        r == candidate_ip_ok(addr.ip),
        r ==> own_addrs(*final(rtc)) == own_addrs(*old(rtc)).insert((addr, addr)),
        own_count(*final(rtc), OwnKind::Host, addr.ip is V6) <= own_count(
            *old(rtc),
            OwnKind::Host,
            addr.ip is V6,
        ) + 1,
        r ==> names_one(*final(rtc), *old(rtc), OwnKind::Host, addr.ip is V6),
        !r ==> *final(rtc) == *old(rtc),
{
    let at = match addr.ip {
        IpAddr::V4(a) => (a.to_be_bytes(), addr.port).into(),
        IpAddr::V6(a) => (a.to_be_bytes(), addr.port).into(),
    };
    match str0m::Candidate::host(at, str0m::net::Protocol::Udp) {
        Ok(candidate) => {
            rtc.add_local_candidate(candidate);
            true
        },
        Err(_) => false,
    }
}

/// Calls `str0m::Candidate::server_reflexive`, which refuses some IP addresses, and
/// `str0m::Rtc::add_local_candidate`, after which the engine knows the address as one of its
/// own that sends from the base. It ranks its candidates of a kind by numbers, and panics once
/// they have run out; it takes none of this kind where its ICE agent is no full one. What else
/// is inside the engine is not stated.
#[verifier::external_body]
fn add_public_candidate(rtc: &mut Rtc, addr: SocketAddr, base: SocketAddr) -> (r: bool)
    requires
        has_defaults(*old(rtc)),
        own_count(*old(rtc), OwnKind::Public, addr.ip is V6) < room(OwnKind::Public),
    ensures
        r == candidate_ip_ok(addr.ip),
        r ==> own_addrs(*final(rtc)) == own_addrs(*old(rtc)).insert((addr, base)),
        own_count(*final(rtc), OwnKind::Public, addr.ip is V6) <= own_count(
            *old(rtc),
            OwnKind::Public,
            addr.ip is V6,
        ) + 1,
        r ==> names_one(*final(rtc), *old(rtc), OwnKind::Public, addr.ip is V6),
        !r ==> *final(rtc) == *old(rtc),
{
    let plain = |a: SocketAddr| match a.ip {
        IpAddr::V4(ip) => (ip.to_be_bytes(), a.port).into(),
        IpAddr::V6(ip) => (ip.to_be_bytes(), a.port).into(),
    };
    let udp = str0m::net::Protocol::Udp;
    match str0m::Candidate::server_reflexive(plain(addr), plain(base), udp) {
        Ok(candidate) => {
            rtc.add_local_candidate(candidate);
            true
        },
        Err(_) => false,
    }
}

/// Calls `str0m::Candidate::relayed`, which refuses some IP addresses, and
/// `str0m::Rtc::add_local_candidate`, after which the engine knows the address as one of its
/// own. It ranks its candidates of a kind by numbers, and panics once they have run out; it
/// takes none of this kind where its ICE agent is no full one. What else is inside the engine
/// is not stated.
#[verifier::external_body]
fn add_relayed_candidate(rtc: &mut Rtc, addr: SocketAddr) -> (r: bool)
    requires
        has_defaults(*old(rtc)),
        own_count(*old(rtc), OwnKind::Relayed, addr.ip is V6) < room(OwnKind::Relayed),
    ensures
        r == candidate_ip_ok(addr.ip),
        r ==> own_addrs(*final(rtc)) == own_addrs(*old(rtc)).insert((addr, addr)),
        own_count(*final(rtc), OwnKind::Relayed, addr.ip is V6) <= own_count(
            *old(rtc),
            OwnKind::Relayed,
            addr.ip is V6,
        ) + 1,
        r ==> names_one(*final(rtc), *old(rtc), OwnKind::Relayed, addr.ip is V6),
        !r ==> *final(rtc) == *old(rtc),
{
    let at = match addr.ip {
        IpAddr::V4(a) => (a.to_be_bytes(), addr.port).into(),
        IpAddr::V6(a) => (a.to_be_bytes(), addr.port).into(),
    };
    match str0m::Candidate::relayed(at, str0m::net::Protocol::Udp) {
        Ok(candidate) => {
            rtc.add_local_candidate(candidate);
            true
        },
        Err(_) => false,
    }
}

/// Calls `str0m::Rtc::is_alive`.
#[verifier::external_body]
fn rtc_is_alive(rtc: &Rtc) -> (r: bool)
    ensures
        r == alive(*rtc),
{
    rtc.is_alive()
}

/// Calls `str0m::Rtc::builder` and builds an engine with its default settings, which take
/// whole frames of media: it lives, nothing is offered or negotiated, and neither side has
/// named an address. What else is inside it is not stated.
#[verifier::external_body]
fn build_rtc() -> (r: Rtc)
    ensures
        is_fresh(r),
{
    Rtc::builder().build()
}

/// Calls `str0m::Rtc::sdp_api` and, on what it gives, `add_media` for each of the lines,
/// `add_channel`, and `apply`, which makes an offer of them: there is one, since a line was
/// added. What waits for the answer are these lines, under identifiers that no negotiated
/// line has, and the channel; until then nothing is negotiated, and nothing more is known of
/// the peer. The text is that of the offer that waits; what stands in it rests on chance and
/// on what was done with the engine before, and is not stated. The name of the stream would
/// lose other characters, and those behind the sixty-fourth.
#[verifier::external_body]
fn apply_offer(rtc: &mut Rtc, lines: [MediaLine; 2], stream: &str, channel: &str) -> (r: Option<
    (String, SdpPendingOffer, [Mid; 2]),
>)
    requires
        stream@.len() <= 64,
        forall|i: int| 0 <= i < stream@.len() ==> stream_char(#[trigger] stream@[i]),
    ensures
        match r {
            Some((sdp, pending, mids)) => {
                &&& is_offer_text(pending, sdp@)
                &&& offers_of(*final(rtc)) == offers_of(*old(rtc)).insert(pending)
                &&& pending_media(pending) == seq![
                    (mids@[0], lines@[0], stream@),
                    (mids@[1], lines@[1], stream@),
                ]
                &&& pending_channels(pending) == seq![channel@]
                &&& !negotiated(*old(rtc)).dom().contains(mids@[0])
                &&& !negotiated(*old(rtc)).dom().contains(mids@[1])
            },
            None => false,
        },
        negotiated(*final(rtc)) == negotiated(*old(rtc)),
        peer_addrs(*final(rtc)) == peer_addrs(*old(rtc)),
        peer_ufrag(*final(rtc)) == peer_ufrag(*old(rtc)),
        has_defaults(*final(rtc)) == has_defaults(*old(rtc)),
        alive(*final(rtc)) == alive(*old(rtc)),
        same_own(*final(rtc), *old(rtc)),
        same_queues(*final(rtc), *old(rtc)),
{
    let mut change = rtc.sdp_api();
    let mids = lines.map(|line| {
        let (kind, dir) = match line {
            MediaLine::SendVideo => (MediaKind::Video, Direction::SendOnly),
            MediaLine::SendAudio => (MediaKind::Audio, Direction::SendOnly),
        };
        change.add_media(kind, dir, Some(stream.to_string()), None)
    });
    change.add_channel(channel.to_string());
    let (offer, pending) = change.apply()?;
    Some((offer.to_sdp_string(), pending, mids))
}

/// The text was not read as an answer.
pub open spec fn is_malformed(r: Result<(), AnswerError>) -> bool {
    r == Err::<(), AnswerError>(AnswerError::Malformed)
}

/// The media lines that were offered are negotiated, with the formats that the answer settles
/// on, and the peer has named itself.
pub open spec fn is_settled(rtc: Rtc, pending: SdpPendingOffer, text: Seq<char>) -> bool {
    &&& forall|i: int|
        0 <= i < pending_media(pending).len() ==> line_payloads(
            negotiated(rtc),
            (#[trigger] pending_media(pending)[i]).0,
        ) == Some(answer_formats(text, pending_media(pending)[i].0))
    &&& peer_ufrag(rtc) is Some
}

/// Calls `str0m::change::SdpAnswer::from_sdp_string`, whose success depends on the text
/// alone, and `str0m::change::SdpApi::accept_answer`, after which the media lines that were
/// offered are negotiated: with which formats depends on the text and on the settings alone.
/// It is meant for the answer to an offer of the same engine, which knows no answer yet, and
/// panics where the answer names something twice. Whether it accepts an answer rests on the
/// engine, the offer and the answer; when it does is not stated.
#[verifier::external_body]
fn take_answer(rtc: &mut Rtc, pending: SdpPendingOffer, text: &str) -> (r: Result<(), AnswerError>)
    requires
        has_defaults(*old(rtc)),
        peer_ufrag(*old(rtc)) is None,
        offers_of(*old(rtc)).contains(pending),
        answer::acceptable(text@),
    ensures
        is_malformed(r) == !is_sdp_answer(text@),
        is_malformed(r) ==> *final(rtc) == *old(rtc),
        is_sdp_answer(text@) ==> may_accept(*old(rtc), pending, text@, r is Ok),
        r is Ok ==> forall|i: int|
            0 <= i < pending_media(pending).len() ==> line_payloads(
                negotiated(*final(rtc)),
                (#[trigger] pending_media(pending)[i]).0,
            ) == Some(answer_formats(text@, pending_media(pending)[i].0)),
        r is Ok ==> peer_ufrag(*final(rtc)) is Some,
        r is Err ==> is_malformed(r) || r->Err_0 == AnswerError::Refused,
        has_defaults(*final(rtc)) == has_defaults(*old(rtc)),
        offers_of(*final(rtc)) == offers_of(*old(rtc)),
        same_own(*final(rtc), *old(rtc)),
        same_queues(*final(rtc), *old(rtc)),
        peer_addrs(*old(rtc)).subset_of(peer_addrs(*final(rtc))),
{
    match str0m::change::SdpAnswer::from_sdp_string(text) {
        Ok(answer) => match rtc.sdp_api().accept_answer(pending, answer) {
            Ok(_) => Ok(()),
            Err(_) => Err(AnswerError::Refused),
        },
        Err(_) => Err(AnswerError::Malformed),
    }
}

/// Calls `str0m::Candidate::from_sdp_string`, and gives the IP address of the candidate in
/// text.
#[verifier::external_body]
fn candidate_ip(text: &str) -> (r: Option<String>)
    ensures
        match r {
            Some(ip) => candidate_ip_text(text@) == Some(ip@),
            None => candidate_ip_text(text@) is None,
        },
{
    let candidate = str0m::Candidate::from_sdp_string(text).ok()?;
    Some(candidate.addr().ip().to_string())
}

/// Calls `str0m::Rtc::add_remote_candidate` with the candidate that
/// `str0m::Candidate::from_sdp_string` reads out of the text: its address is known from then
/// on, unless it is for another component, or names another fragment of the user name than
/// the peer's answer did. What is negotiated stays as it is, and so does the engine, where
/// the text is no candidate. What else is inside the engine is not stated.
#[verifier::external_body]
fn add_candidate_text(rtc: &mut Rtc, text: &str)
    ensures
        peer_addrs(*final(rtc)) == with_candidate(
            peer_addrs(*old(rtc)),
            peer_ufrag(*old(rtc)),
            text@,
        ),
        same_terms(*final(rtc), *old(rtc)),
        same_own(*final(rtc), *old(rtc)),
        same_queues(*final(rtc), *old(rtc)),
        candidate_view(text@) is None ==> *final(rtc) == *old(rtc),
{
    if let Ok(candidate) = str0m::Candidate::from_sdp_string(text) {
        rtc.add_remote_candidate(candidate);
    }
}

/// Calls `str0m::Rtc::writer`, and `payload_params` of the writer: the formats that the
/// peer takes for a media line, if the line was negotiated. The engine stays as it is. The
/// call is meant for engines that take whole frames, and panics on others.
#[verifier::external_body]
fn media_payloads(rtc: &mut Rtc, mid: Mid) -> (r: Option<Vec<Payload>>)
    requires
        has_defaults(*old(rtc)),
    ensures
        options_view(r) == line_payloads(negotiated(*old(rtc)), mid),
        *final(rtc) == *old(rtc),
{
    let writer = rtc.writer(mid)?;
    let plain = |p: &str0m::format::PayloadParams| Payload {
        pt: *p.pt(),
        codec: match p.spec().codec {
            str0m::format::Codec::H264 => Codec::H264,
            _ => Codec::Other,
        },
        packetization_mode: p.spec().format.packetization_mode,
    };
    let payloads = writer.payload_params().map(plain).collect();
    Some(payloads)
}

/// Calls `str0m::media::Writer::write` with the current time: hands a frame to the engine,
/// at a place on a clock of so many ticks per second. The frame waits behind the others of its
/// line then, if the engine takes it, and nothing else changes of what waits or is negotiated.
/// The call is meant for engines that take whole frames, and panics on others. Whether the engine
/// takes the frame rests on what is inside it, and is not stated.
#[verifier::external_body]
fn write_media(rtc: &mut Rtc, mid: Mid, pt: u8, ts: u32, clock: u32, data: &[u8]) -> (taken: bool)
    requires
        has_defaults(*old(rtc)),
        clock > 0,
    ensures
        may_write(mid, pt, ts, clock, data@, taken),
        queued(*final(rtc), mid) == (if taken {
            queued(*old(rtc), mid).push((pt, ts, clock, data@))
        } else {
            queued(*old(rtc), mid)
        }),
        forall|m: Mid| m != mid ==> #[trigger] queued(*final(rtc), m) == queued(*old(rtc), m),
        same_terms(*final(rtc), *old(rtc)),
        same_own(*final(rtc), *old(rtc)),
        peer_addrs(*final(rtc)) == peer_addrs(*old(rtc)),
{
    let now = std::time::Instant::now();
    match (str0m::media::Frequency::new(clock), rtc.writer(mid)) {
        (Some(hz), Some(writer)) => {
            let time = str0m::media::MediaTime::new(ts as u64, hz);
            writer.write(pt.into(), now, time, data.to_vec()).is_ok()
        },
        _ => false,
    }
}

/// Tells the variants of `str0m::Event` apart, and moves out what they carry.
#[verifier::external_body]
fn plain_event(event: Event) -> (r: RtcEvent)
    ensures
        r@ == event_view(event),
{
    match event {
        Event::Connected => RtcEvent::Connected,
        Event::ChannelData(data) => RtcEvent::ChannelData(data.data),
        Event::IceConnectionStateChange(state) => RtcEvent::IceStateChange(match state {
            str0m::IceConnectionState::New => IceState::New,
            str0m::IceConnectionState::Checking => IceState::Checking,
            str0m::IceConnectionState::Connected => IceState::Connected,
            str0m::IceConnectionState::Completed => IceState::Completed,
            str0m::IceConnectionState::Disconnected => IceState::Disconnected,
        }),
        Event::KeyframeRequest(_) => RtcEvent::KeyframeRequest,
        _ => RtcEvent::Other,
    }
}

/// The formats that the peer takes for a media line, if the line is there.
pub open spec fn line_payloads(lines: Map<Mid, Seq<Payload>>, mid: Mid) -> Option<Seq<Payload>> {
    if lines.dom().contains(mid) { Some(lines[mid]) } else { None }
}

/// The number of the first format that is H.264, cut into packets in the given way where
/// one is asked for.
pub open spec fn first_h264(options: Seq<Payload>, mode: Option<u8>) -> Option<u8>
    decreases options.len(),
{
    if options.len() == 0 {
        None
    } else if options[0].codec == Codec::H264 && (mode is None || options[0].packetization_mode
        == mode) {
        Some(options[0].pt)
    } else {
        first_h264(options.drop_first(), mode)
    }
}

/// What is done with a video frame where the peer takes these formats: H.264 that may cut
/// pictures up is preferred to other H.264.
pub open spec fn video_plan(options: Option<Seq<Payload>>) -> SendPlan {
    match options {
        None => SendPlan::NotReady,
        Some(o) => match first_h264(o, Some(1u8)) {
            Some(pt) => SendPlan::Write(pt),
            None => match first_h264(o, None) {
                Some(pt) => SendPlan::Write(pt),
                None => SendPlan::NoPayload,
            },
        },
    }
}

/// What is done with an audio packet where the peer takes these formats: the first one is
/// taken.
pub open spec fn audio_plan(options: Option<Seq<Payload>>) -> SendPlan {
    match options {
        None => SendPlan::NotReady,
        Some(o) => if o.len() == 0 { SendPlan::NoPayload } else { SendPlan::Write(o[0].pt) },
    }
}

/// Video is sent as H.264 or not at all: as one of the formats that the peer takes, cut up
/// where one of them allows it; and it is sent whenever the peer takes H.264.
pub proof fn law_video_is_h264(options: Seq<Payload>)
    ensures
        match video_plan(Some(options)) {
            SendPlan::Write(pt) => exists|i: int|
                0 <= i < options.len() && (#[trigger] options[i]).pt == pt && options[i].codec
                    == Codec::H264 && (options[i].packetization_mode == Some(1u8) || forall|j: int|
                    0 <= j < options.len() && (#[trigger] options[j]).codec == Codec::H264
                        ==> options[j].packetization_mode != Some(1u8)),
            SendPlan::NoPayload => forall|i: int|
                0 <= i < options.len() ==> (#[trigger] options[i]).codec != Codec::H264,
            SendPlan::NotReady => false,
        },
{
    lemma_first_h264(options, Some(1u8));
    lemma_first_h264(options, None);
}

proof fn lemma_first_h264(options: Seq<Payload>, mode: Option<u8>)
    ensures
        match first_h264(options, mode) {
            Some(pt) => exists|i: int|
                0 <= i < options.len() && (#[trigger] options[i]).pt == pt && options[i].codec
                    == Codec::H264 && (mode is None || options[i].packetization_mode == mode),
            None => forall|i: int|
                0 <= i < options.len() ==> !((#[trigger] options[i]).codec == Codec::H264 && (mode
                    is None || options[i].packetization_mode == mode)),
        },
    decreases options.len(),
{
    if options.len() > 0 {
        let rest = options.drop_first();
        lemma_first_h264(rest, mode);
        if options[0].codec == Codec::H264 && (mode is None || options[0].packetization_mode
            == mode) {
        } else {
            match first_h264(rest, mode) {
                Some(pt) => {
                    let i = choose|i: int|
                        0 <= i < rest.len() && (#[trigger] rest[i]).pt == pt && rest[i].codec
                            == Codec::H264 && (mode is None || rest[i].packetization_mode == mode);
                    assert(options[i + 1] == rest[i]);
                },
                None => {
                    assert forall|i: int| 0 <= i < options.len() implies !((
                    #[trigger] options[i]).codec == Codec::H264 && (mode is None
                        || options[i].packetization_mode == mode)) by {
                        if i > 0 {
                            assert(rest[i - 1] == options[i]);
                        }
                    }
                },
            }
        }
    }
}

fn find_h264(options: &Vec<Payload>, mode: Option<u8>) -> (r: Option<u8>)
    ensures
        r == first_h264(options@, mode),
{
    let mut i: usize = 0;
    assert(options@.skip(0) =~= options@);
    while i < options.len()
        invariant
            i <= options@.len(),
            first_h264(options@, mode) == first_h264(options@.skip(i as int), mode),
        decreases options.len() - i,
    {
        let p = options[i];
        let fits: bool = match mode {
            None => true,
            Some(m) => match p.packetization_mode {
                Some(n) => m == n,
                None => false,
            },
        };
        if p.codec == Codec::H264 && fits {
            return Some(p.pt);
        }
        assert(options@.skip(i as int).drop_first() =~= options@.skip(i + 1));
        i += 1;
    }
    None
}

/// The view of formats that may be there.
pub open spec fn options_view(options: Option<Vec<Payload>>) -> Option<Seq<Payload>> {
    match options {
        Some(o) => Some(o@),
        None => None,
    }
}

/// Decides what is done with a video frame.
pub fn plan_video(options: &Option<Vec<Payload>>) -> (plan: SendPlan)
    ensures
        plan == video_plan(options_view(*options)),
{
    match options {
        None => SendPlan::NotReady,
        Some(o) => match find_h264(o, Some(1)) {
            Some(pt) => SendPlan::Write(pt),
            None => match find_h264(o, None) {
                Some(pt) => SendPlan::Write(pt),
                None => SendPlan::NoPayload,
            },
        },
    }
}

/// Decides what is done with an audio packet.
pub fn plan_audio(options: &Option<Vec<Payload>>) -> (plan: SendPlan)
    ensures
        plan == audio_plan(options_view(*options)),
{
    match options {
        None => SendPlan::NotReady,
        Some(o) => if o.len() == 0 {
            SendPlan::NoPayload
        } else {
            SendPlan::Write(o[0].pt)
        },
    }
}

/// What becomes of a frame under a plan, where `taken` says whether the engine took it.
pub open spec fn outcome_of(plan: SendPlan, taken: bool) -> SendOutcome {
    match plan {
        SendPlan::NotReady => SendOutcome::NotReady,
        SendPlan::NoPayload => SendOutcome::NoPayload,
        SendPlan::Write(_) => if taken { SendOutcome::Sent } else { SendOutcome::Failed },
    }
}

/// What may become of a frame under a plan: it is handed to the engine where the plan says
/// so, and what becomes of it then is whether the engine takes it.
pub open spec fn may_send(
    mid: Mid,
    plan: SendPlan,
    ts: u32,
    clock: u32,
    data: Seq<u8>,
    outcome: SendOutcome,
) -> bool {
    match plan {
        SendPlan::Write(pt) => exists|taken: bool| #[trigger]
            may_write(mid, pt, ts, clock, data, taken) && outcome == outcome_of(plan, taken),
        _ => outcome == outcome_of(plan, false),
    }
}

/// One frame waits more than before, where a plan has it written and it was sent, and no other.
pub open spec fn queues_sent(
    rtc: Rtc,
    before: Rtc,
    mid: Mid,
    plan: SendPlan,
    ts: u32,
    clock: u32,
    data: Seq<u8>,
    outcome: SendOutcome,
) -> bool {
    forall|m: Mid| #[trigger]
        queued(rtc, m) == (match plan {
            SendPlan::Write(pt) => if m == mid && outcome == SendOutcome::Sent {
                queued(before, m).push((pt, ts, clock, data))
            } else {
                queued(before, m)
            },
            _ => queued(before, m),
        })
}

impl Engine {
    /// An engine that has negotiated no media yet, and knows nothing of a peer.
    pub fn new() -> (e: Engine)
        ensures
            is_fresh(e.rtc),
    {
        Engine { rtc: build_rtc() }
    }

    /// Tests whether the engine is still alive.
    pub fn is_alive(&self) -> (r: bool)
        ensures
            r == alive(self.rtc),
    {
        rtc_is_alive(&self.rtc)
    }

    /// Names the addresses of this machine to the peer. Where one of them cannot be named, it
    /// and those behind it are left out, and false comes back.
    pub fn add_hosts(&mut self, addrs: &Vec<SocketAddr>) -> (r: bool)
        requires
            has_room(old(self).rtc, addrs@),
        ensures
            r == forall|i: int| 0 <= i < addrs@.len() ==> candidate_ip_ok(#[trigger] addrs@[i].ip),
            r ==> own_addrs(final(self).rtc) == own_addrs(old(self).rtc).union(host_pairs(addrs@)),
            own_addrs(old(self).rtc).subset_of(own_addrs(final(self).rtc)),
            own_addrs(final(self).rtc).subset_of(
                own_addrs(old(self).rtc).union(host_pairs(addrs@)),
            ),
            forall|kind: OwnKind, v6: bool| #[trigger]
                own_count(final(self).rtc, kind, v6) <= own_count(old(self).rtc, kind, v6) + (
                if kind == OwnKind::Host {
                    family_len(addrs@, v6)
                } else {
                    0
                }),
            peer_addrs(final(self).rtc) == peer_addrs(old(self).rtc),
            same_terms(final(self).rtc, old(self).rtc),
            same_queues(final(self).rtc, old(self).rtc),
    {
        let ghost first = self.rtc;
        let mut i: usize = 0;
        proof {
            lemma_family_len(addrs@);
        }
        assert(addrs@.take(0) =~= Seq::<SocketAddr>::empty());
        assert(own_addrs(first).union(host_pairs(addrs@.take(0))) =~= own_addrs(first));
        assert(addrs@.take(addrs@.len() as int) =~= addrs@);
        while i < addrs.len()
            invariant
                i <= addrs@.len(),
                first == old(self).rtc,
                forall|v6: bool| #[trigger]
                    own_count(first, OwnKind::Host, v6) + family_len(addrs@, v6) <= room(
                        OwnKind::Host,
                    ),
                forall|j: int| 0 <= j < i ==> candidate_ip_ok(#[trigger] addrs@[j].ip),
                own_addrs(self.rtc) == own_addrs(first).union(host_pairs(addrs@.take(i as int))),
                forall|kind: OwnKind, v6: bool| #[trigger]
                    own_count(self.rtc, kind, v6) <= own_count(first, kind, v6) + (if kind
                        == OwnKind::Host {
                        family_len(addrs@.take(i as int), v6)
                    } else {
                        0
                    }),
                peer_addrs(self.rtc) == peer_addrs(first),
                same_terms(self.rtc, first),
                same_queues(self.rtc, first),
            decreases addrs.len() - i,
        {
            let ghost done = addrs@.take(i as int);
            let ghost next = addrs@.take(i + 1);
            proof {
                assert(next =~= done.push(addrs@[i as int]));
                assert(next.drop_last() =~= done);
                lemma_host_pairs(done, addrs@[i as int]);
                lemma_part_of_hosts(addrs@, i as int);
                lemma_part_of_hosts(addrs@, i + 1);
                let v6 = addrs@[i as int].ip is V6;
                assert(own_count(first, OwnKind::Host, v6) + family_len(addrs@, v6) <= room(
                    OwnKind::Host,
                ));
                assert(family_len(next, v6) == family_len(done, v6) + 1);
            }
            if !add_host_candidate(&mut self.rtc, addrs[i]) {
                return false;
            }
            i += 1;
            assert(own_addrs(self.rtc) =~= own_addrs(first).union(host_pairs(next)));
        }
        true
    }

    /// Names the public address that a STUN server has seen for a socket of this machine.
    pub fn add_public(&mut self, addr: SocketAddr, base: SocketAddr) -> (r: bool)
        requires
            has_defaults(old(self).rtc),
            own_count(old(self).rtc, OwnKind::Public, addr.ip is V6) < room(OwnKind::Public),
        ensures
            r == candidate_ip_ok(addr.ip),
            r ==> own_addrs(final(self).rtc) == own_addrs(old(self).rtc).insert((addr, base)),
            own_count(final(self).rtc, OwnKind::Public, addr.ip is V6) <= own_count(
                old(self).rtc,
                OwnKind::Public,
                addr.ip is V6,
            ) + 1,
            r ==> names_one(final(self).rtc, old(self).rtc, OwnKind::Public, addr.ip is V6),
            !r ==> final(self).rtc == old(self).rtc,
    {
        add_public_candidate(&mut self.rtc, addr, base)
    }

    /// Names the address of a relay allocation.
    pub fn add_relay(&mut self, addr: SocketAddr) -> (r: bool)
        requires
            has_defaults(old(self).rtc),
            own_count(old(self).rtc, OwnKind::Relayed, addr.ip is V6) < room(OwnKind::Relayed),
        ensures
            r == candidate_ip_ok(addr.ip),
            r ==> own_addrs(final(self).rtc) == own_addrs(old(self).rtc).insert((addr, addr)),
            own_count(final(self).rtc, OwnKind::Relayed, addr.ip is V6) <= own_count(
                old(self).rtc,
                OwnKind::Relayed,
                addr.ip is V6,
            ) + 1,
            r ==> names_one(final(self).rtc, old(self).rtc, OwnKind::Relayed, addr.ip is V6),
            !r ==> final(self).rtc == old(self).rtc,
    {
        add_relayed_candidate(&mut self.rtc, addr)
    }

    /// Offers video and audio, which are only sent, and the control channel. They wait for
    /// the answer: nothing of them is negotiated before.
    pub fn build_full_offer(&mut self) -> (r: Option<Offer>)
        ensures
            match r {
                Some(offer) => {
                    &&& is_offer_text(offer.pending, offer.sdp@)
                    &&& offers_of(final(self).rtc) == offers_of(old(self).rtc).insert(
                        offer.pending,
                    )
                    &&& pending_media(offer.pending) == seq![
                        (offer.video, MediaLine::SendVideo, "anykvm"@),
                        (offer.audio, MediaLine::SendAudio, "anykvm"@),
                    ]
                    &&& pending_channels(offer.pending) == seq!["hid-control"@]
                    &&& !negotiated(final(self).rtc).dom().contains(offer.video)
                    &&& !negotiated(final(self).rtc).dom().contains(offer.audio)
                },
                None => false,
            },
            alive(final(self).rtc) == alive(old(self).rtc),
            has_defaults(final(self).rtc) == has_defaults(old(self).rtc),
            negotiated(final(self).rtc) == negotiated(old(self).rtc),
            peer_addrs(final(self).rtc) == peer_addrs(old(self).rtc),
            peer_ufrag(final(self).rtc) == peer_ufrag(old(self).rtc),
            same_own(final(self).rtc, old(self).rtc),
            same_queues(final(self).rtc, old(self).rtc),
    {
        proof {
            reveal_strlit("anykvm");
        }
        let lines = [MediaLine::SendVideo, MediaLine::SendAudio];
        match apply_offer(&mut self.rtc, lines, "anykvm", "hid-control") {
            Some((sdp, pending, mids)) => Some(
                Offer { sdp, pending, video: mids[0], audio: mids[1] },
            ),
            None => None,
        }
    }

    /// Takes in the peer's answer to an offer of this engine, which knows none yet: the media
    /// lines that were offered are negotiated then, with the formats that the answer settles
    /// on. An unfit answer is not handed to the engine.
    pub fn accept_answer(&mut self, pending: SdpPendingOffer, answer: &str) -> (r: Result<
        (),
        AnswerError,
    >)
        requires
            has_defaults(old(self).rtc),
            peer_ufrag(old(self).rtc) is None,
            offers_of(old(self).rtc).contains(pending),
        ensures
            r == Err::<(), AnswerError>(AnswerError::Unfit) <==> !answer::acceptable(answer@),
            is_malformed(r) <==> answer::acceptable(answer@) && !is_sdp_answer(answer@),
            answer::acceptable(answer@) && is_sdp_answer(answer@) ==> may_accept(
                old(self).rtc,
                pending,
                answer@,
                r is Ok,
            ),
            !answer::acceptable(answer@) || !is_sdp_answer(answer@) ==> final(self).rtc == old(
                self,
            ).rtc,
            r is Ok ==> is_settled(final(self).rtc, pending, answer@),
            r is Ok ==> peer_ufrag(final(self).rtc) is Some,
            r is Ok ==> forall|i: int|
                0 <= i < pending_media(pending).len() ==> line_payloads(
                    negotiated(final(self).rtc),
                    (#[trigger] pending_media(pending)[i]).0,
                ) == Some(answer_formats(answer@, pending_media(pending)[i].0)),
            r is Err ==> is_malformed(r) || r->Err_0 == AnswerError::Unfit || r->Err_0
                == AnswerError::Refused,
            has_defaults(final(self).rtc),
            offers_of(final(self).rtc) == offers_of(old(self).rtc),
            same_own(final(self).rtc, old(self).rtc),
            same_queues(final(self).rtc, old(self).rtc),
            peer_addrs(old(self).rtc).subset_of(peer_addrs(final(self).rtc)),
    {
        if !answer::can_accept(answer) {
            return Err(AnswerError::Unfit);
        }
        take_answer(&mut self.rtc, pending, answer)
    }

    /// Hands a candidate of the peer to the engine, which then knows its address, if the
    /// candidate fits. A text that is no candidate changes nothing.
    pub fn add_candidate(&mut self, text: &str)
        ensures
            peer_addrs(final(self).rtc) == with_candidate(
                peer_addrs(old(self).rtc),
                peer_ufrag(old(self).rtc),
                text@,
            ),
            same_terms(final(self).rtc, old(self).rtc),
            same_own(final(self).rtc, old(self).rtc),
            same_queues(final(self).rtc, old(self).rtc),
            candidate_view(text@) is None ==> final(self).rtc == old(self).rtc,
    {
        add_candidate_text(&mut self.rtc, text);
    }

    fn send(&mut self, mid: Mid, plan: SendPlan, ts: u32, clock: u32, data: &[u8]) -> (outcome:
        SendOutcome)
        requires
            has_defaults(old(self).rtc),
            clock > 0,
        ensures
            same_terms(final(self).rtc, old(self).rtc),
            same_own(final(self).rtc, old(self).rtc),
            peer_addrs(final(self).rtc) == peer_addrs(old(self).rtc),
            may_send(mid, plan, ts, clock, data@, outcome),
            queues_sent(final(self).rtc, old(self).rtc, mid, plan, ts, clock, data@, outcome),
    {
        match plan {
            SendPlan::NotReady => SendOutcome::NotReady,
            SendPlan::NoPayload => SendOutcome::NoPayload,
            SendPlan::Write(pt) => {
                let taken: bool = write_media(&mut self.rtc, mid, pt, ts, clock, data);
                if taken {
                    SendOutcome::Sent
                } else {
                    SendOutcome::Failed
                }
            },
        }
    }

    /// Sends a video frame at the session's place on the video clock, and counts it. What
    /// becomes of it follows from the formats that the peer takes, and from whether the
    /// engine takes the frame: it is written once, or not at all.
    pub fn send_video(&mut self, session: &mut Session, mid: Mid, data: &[u8]) -> (report:
        VideoReport)
        requires
            has_defaults(old(self).rtc),
            old(session).ice_connected,
            old(session).wf(),
            old(session).received < u64::MAX,
        ensures
            same_terms(final(self).rtc, old(self).rtc),
            same_own(final(self).rtc, old(self).rtc),
            peer_addrs(final(self).rtc) == peer_addrs(old(self).rtc),
            may_send(
                mid,
                video_plan(line_payloads(negotiated(old(self).rtc), mid)),
                old(session).video_ts,
                session::VIDEO_CLOCK,
                data@,
                report.outcome,
            ),
            queues_sent(
                final(self).rtc,
                old(self).rtc,
                mid,
                video_plan(line_payloads(negotiated(old(self).rtc), mid)),
                old(session).video_ts,
                session::VIDEO_CLOCK,
                data@,
                report.outcome,
            ),
            final(session).wf(),
            final(session).video_counted(old(session), report.outcome),
            final(session).same_but_video(old(session)),
            report.stats == (final(session).received % 300 == 0),
            match report.first_nals {
                Some(nals) => final(session).received == 1 && nals@ == h264::description(data@),
                None => final(session).received != 1,
            },
    {
        let options = media_payloads(&mut self.rtc, mid);
        let plan = plan_video(&options);
        let outcome = self.send(mid, plan, session.video_ts, session::VIDEO_CLOCK, data);
        let stats: bool = session.count_video(outcome);
        let first_nals = if session.received == 1 {
            Some(h264::describe_h264_nals(data))
        } else {
            None
        };
        VideoReport { outcome, first_nals, stats }
    }

    /// Sends an audio packet at the session's place on the audio clock: it is written once, or
    /// not at all.
    pub fn send_audio(&mut self, session: &mut Session, mid: Mid, data: &[u8]) -> (outcome:
        SendOutcome)
        requires
            has_defaults(old(self).rtc),
            old(session).ice_connected,
        ensures
            same_terms(final(self).rtc, old(self).rtc),
            same_own(final(self).rtc, old(self).rtc),
            peer_addrs(final(self).rtc) == peer_addrs(old(self).rtc),
            may_send(
                mid,
                audio_plan(line_payloads(negotiated(old(self).rtc), mid)),
                old(session).audio_ts,
                session::AUDIO_CLOCK,
                data@,
                outcome,
            ),
            queues_sent(
                final(self).rtc,
                old(self).rtc,
                mid,
                audio_plan(line_payloads(negotiated(old(self).rtc), mid)),
                old(session).audio_ts,
                session::AUDIO_CLOCK,
                data@,
                outcome,
            ),
            final(session).audio_ts as int == (old(session).audio_ts + 960) % 0x1_0000_0000,
            *final(session) == (Session { audio_ts: final(session).audio_ts, ..*old(session) }),
    {
        let options = media_payloads(&mut self.rtc, mid);
        let plan = plan_audio(&options);
        let outcome = self.send(mid, plan, session.audio_ts, session::AUDIO_CLOCK, data);
        session.count_audio();
        outcome
    }
}

proof fn lemma_host_pairs(addrs: Seq<SocketAddr>, addr: SocketAddr)
    ensures
        host_pairs(addrs.push(addr)) == host_pairs(addrs).insert((addr, addr)),
{
    let more = addrs.push(addr);
    assert(more[addrs.len() as int] == addr);
    assert forall|a: SocketAddr| #[trigger] more.contains(a) == (addrs.contains(a) || a == addr) by {
        if addrs.contains(a) {
            let i = choose|i: int| 0 <= i < addrs.len() && addrs[i] == a;
            assert(more[i] == a);
        }
    }
    assert(host_pairs(more) =~= host_pairs(addrs).insert((addr, addr)));
}

proof fn lemma_family_len(addrs: Seq<SocketAddr>)
    ensures
        forall|v6: bool| #[trigger] family_len(addrs, v6) <= addrs.len(),
    decreases addrs.len(),
{
    if addrs.len() > 0 {
        let rest = addrs.drop_last();
        lemma_family_len(rest);
        assert forall|v6: bool| #[trigger] family_len(addrs, v6) <= addrs.len() by {
            assert(family_len(rest, v6) <= rest.len());
        }
    }
}

proof fn lemma_part_of_hosts(addrs: Seq<SocketAddr>, n: int)
    requires
        0 <= n <= addrs.len(),
    ensures
        host_pairs(addrs.take(n)).subset_of(host_pairs(addrs)),
        forall|v6: bool| #[trigger] family_len(addrs.take(n), v6) <= family_len(addrs, v6),
    decreases addrs.len() - n,
{
    let part = addrs.take(n);
    assert forall|a: SocketAddr| #[trigger] part.contains(a) implies addrs.contains(a) by {
        let i = choose|i: int| 0 <= i < part.len() && part[i] == a;
        assert(addrs[i] == a);
    }
    if n < addrs.len() {
        lemma_part_of_hosts(addrs, n + 1);
        assert(addrs.take(n + 1).drop_last() =~= part);
        assert forall|v6: bool| #[trigger] family_len(part, v6) <= family_len(addrs, v6) by {
            assert(family_len(addrs.take(n + 1), v6) <= family_len(addrs, v6));
        }
    } else {
        assert(part =~= addrs);
    }
}

/// Takes in an event of the engine.
pub fn handle_event(session: &mut Session, event: Event) -> (action: EventAction)
    ensures
        (final(session).ice_connected, action@) == session::event_effect(
            old(session).ice_connected,
            event_view(event),
        ),
        *final(session) == (Session {
            ice_connected: final(session).ice_connected,
            ..*old(session)
        }),
{
    session.on_event(plain_event(event))
}

/// Reads the IP address of a candidate that the peer has named, and decides about it.
pub fn remote_candidate(session: &Session, text: &str) -> (r: (Option<String>, CandidateStep))
    ensures
        match r.0 {
            Some(ip) => candidate_ip_text(text@) == Some(ip@),
            None => candidate_ip_text(text@) is None,
        },
        r.1 == session::candidate_step(
            session.relay is Some,
            session::texts(session.permitted@),
            candidate_ip_text(text@),
        ),
{
    let ip = candidate_ip(text);
    let step = session.on_candidate(&ip);
    (ip, step)
}

proof fn lemma_first_h264_at(options: Seq<Payload>, mode: Option<u8>, i: int)
    requires
        0 <= i < options.len(),
        options[i].codec == Codec::H264,
        mode is None || options[i].packetization_mode == mode,
        forall|j: int|
            0 <= j < i ==> (#[trigger] options[j]).codec != Codec::H264 || mode is Some
                && options[j].packetization_mode != mode,
    ensures
        first_h264(options, mode) == Some(options[i].pt),
    decreases i,
{
    if i > 0 {
        let rest = options.drop_first();
        assert(options[0].codec != Codec::H264 || mode is Some && options[0].packetization_mode
            != mode);
        assert(rest[i - 1] == options[i]);
        assert forall|j: int| 0 <= j < i - 1 implies (#[trigger] rest[j]).codec != Codec::H264
            || mode is Some && rest[j].packetization_mode != mode by {
            assert(rest[j] == options[j + 1]);
        }
        lemma_first_h264_at(rest, mode, i - 1);
    }
}

/// Video is sent in the first format that the peer takes of H.264 that may be cut up, wherever
/// it stands, and else in the first one of any H.264.
pub proof fn law_first_fitting_format_taken(options: Seq<Payload>, i: int)
    requires
        0 <= i < options.len(),
        options[i].codec == Codec::H264,
    ensures
        options[i].packetization_mode == Some(1u8) && (forall|j: int|
            0 <= j < i ==> (#[trigger] options[j]).codec != Codec::H264
                || options[j].packetization_mode != Some(1u8)) ==> video_plan(Some(options))
            == SendPlan::Write(options[i].pt),
        (forall|j: int|
            0 <= j < options.len() ==> (#[trigger] options[j]).codec != Codec::H264
                || options[j].packetization_mode != Some(1u8)) && (forall|j: int|
            0 <= j < i ==> (#[trigger] options[j]).codec != Codec::H264) ==> video_plan(
            Some(options),
        ) == SendPlan::Write(options[i].pt),
{
    if options[i].packetization_mode == Some(1u8) && (forall|j: int|
        0 <= j < i ==> (#[trigger] options[j]).codec != Codec::H264 || options[j].packetization_mode
            != Some(1u8)) {
        lemma_first_h264_at(options, Some(1u8), i);
    }
    if forall|j: int| 0 <= j < i ==> (#[trigger] options[j]).codec != Codec::H264 {
        lemma_first_h264_at(options, None, i);
    }
    lemma_first_h264(options, Some(1u8));
}

/// Audio is sent in the first format that the peer takes, whatever it is; it is not ready
/// exactly where its line is not negotiated, and neither is video.
pub proof fn law_audio_in_first_format(options: Seq<Payload>)
    ensures
        options.len() > 0 ==> audio_plan(Some(options)) == SendPlan::Write(options[0].pt),
        options.len() == 0 ==> audio_plan(Some(options)) == SendPlan::NoPayload,
        audio_plan(None) == SendPlan::NotReady,
        video_plan(None) == SendPlan::NotReady,
{
}

/// A frame was sent only if the engine took it, and has failed only if the engine refused it,
/// as it was handed over; without a format it is neither.
pub proof fn law_sent_means_taken(
    mid: Mid,
    plan: SendPlan,
    ts: u32,
    clock: u32,
    data: Seq<u8>,
    outcome: SendOutcome,
)
    ensures
        may_send(mid, plan, ts, clock, data, outcome) <==> match (plan, outcome) {
            (SendPlan::NotReady, SendOutcome::NotReady) => true,
            (SendPlan::NoPayload, SendOutcome::NoPayload) => true,
            (SendPlan::Write(pt), SendOutcome::Sent) => may_write(mid, pt, ts, clock, data, true),
            (SendPlan::Write(pt), SendOutcome::Failed) => may_write(
                mid,
                pt,
                ts,
                clock,
                data,
                false,
            ),
            _ => false,
        },
{
    if let SendPlan::Write(pt) = plan {
        assert(may_write(mid, pt, ts, clock, data, true) ==> outcome_of(plan, true)
            == SendOutcome::Sent);
        assert(may_write(mid, pt, ts, clock, data, false) ==> outcome_of(plan, false)
            == SendOutcome::Failed);
    }
}

/// A frame that was sent waits as the last one of its line, with its place on the clock and
/// all its bytes; the frames that waited before still do, and those of other lines do as well.
/// Where no frame was sent, nothing has changed of what waits.
pub proof fn law_sent_frame_waits_last(
    rtc: Rtc,
    before: Rtc,
    mid: Mid,
    pt: u8,
    ts: u32,
    clock: u32,
    data: Seq<u8>,
    outcome: SendOutcome,
    other: Mid,
)
    requires
        queues_sent(rtc, before, mid, SendPlan::Write(pt), ts, clock, data, outcome),
    ensures
        outcome == SendOutcome::Sent ==> {
            &&& queued(rtc, mid).len() == queued(before, mid).len() + 1
            &&& queued(rtc, mid).last() == (pt, ts, clock, data)
            &&& queued(rtc, mid).drop_last() == queued(before, mid)
        },
        outcome != SendOutcome::Sent || other != mid ==> queued(rtc, other) == queued(
            before,
            other,
        ),
{
    if outcome == SendOutcome::Sent {
        assert(queued(rtc, mid) == queued(before, mid).push((pt, ts, clock, data)));
        assert(queued(rtc, mid).drop_last() =~= queued(before, mid));
    }
    assert(outcome != SendOutcome::Sent || other != mid ==> queued(rtc, other) == queued(
        before,
        other,
    ));
}

/// Where a frame is not handed over, no other waits than before.
pub proof fn law_unsent_changes_nothing(
    rtc: Rtc,
    before: Rtc,
    mid: Mid,
    plan: SendPlan,
    ts: u32,
    clock: u32,
    data: Seq<u8>,
    outcome: SendOutcome,
    other: Mid,
)
    requires
        queues_sent(rtc, before, mid, plan, ts, clock, data, outcome),
        plan == SendPlan::NotReady || plan == SendPlan::NoPayload,
    ensures
        queued(rtc, other) == queued(before, other),
{
}

/// Hosts are known under each of their addresses, and send from it.
pub proof fn law_hosts_send_from_themselves(
    addrs: Seq<SocketAddr>,
    addr: SocketAddr,
    base: SocketAddr,
)
    ensures
        host_pairs(addrs).contains((addr, base)) <==> addr == base && exists|i: int|
            0 <= i < addrs.len() && #[trigger] addrs[i] == addr,
{
    if exists|i: int| 0 <= i < addrs.len() && #[trigger] addrs[i] == addr {
        let i = choose|i: int| 0 <= i < addrs.len() && #[trigger] addrs[i] == addr;
        assert(addrs.contains(addrs[i]));
    }
}

/// An engine has room for addresses whenever they are no more than 32768 with those that it
/// knows: all of them, or the IPv6 addresses and the others, which together are all.
pub proof fn law_room_for_hosts(rtc: Rtc, addrs: Seq<SocketAddr>)
    ensures
        own_count(rtc, OwnKind::Host, true) + addrs.len() <= 32768 && own_count(
            rtc,
            OwnKind::Host,
            false,
        ) + addrs.len() <= 32768 ==> has_room(rtc, addrs),
        own_count(rtc, OwnKind::Host, true) + family_len(addrs, true) <= 32768 && own_count(
            rtc,
            OwnKind::Host,
            false,
        ) + family_len(addrs, false) <= 32768 ==> has_room(rtc, addrs),
        family_len(addrs, true) + family_len(addrs, false) == addrs.len(),
    decreases addrs.len(),
{
    if addrs.len() > 0 {
        law_room_for_hosts(rtc, addrs.drop_last());
    }
    assert forall|v6: bool|
        own_count(rtc, OwnKind::Host, true) + addrs.len() <= 32768 && own_count(
            rtc,
            OwnKind::Host,
            false,
        ) + addrs.len() <= 32768 implies #[trigger] own_count(rtc, OwnKind::Host, v6)
        + addrs.len() <= room(OwnKind::Host) by {
        assert(v6 == true || v6 == false);
    }
    assert forall|v6: bool|
        own_count(rtc, OwnKind::Host, true) + family_len(addrs, true) <= 32768 && own_count(
            rtc,
            OwnKind::Host,
            false,
        ) + family_len(addrs, false) <= 32768 implies #[trigger] own_count(rtc, OwnKind::Host, v6)
        + family_len(addrs, v6) <= room(OwnKind::Host) by {
        assert(v6 == true || v6 == false);
    }
}

/// What the peer has named before stays known when it names a candidate; that one is known
/// from then on where it is for the first component and for the peer that answered, if that is
/// said; and nothing else is.
pub proof fn law_candidates_pile_up(
    known: Set<(Seq<char>, u16)>,
    ufrag: Option<Seq<char>>,
    text: Seq<char>,
    addr: (Seq<char>, u16),
)
    ensures
        with_candidate(known, ufrag, text).contains(addr) <==> known.contains(addr) || (
        candidate_view(text) matches Some(c) && addr == (c.ip, c.port) && c.component == 1 && (ufrag
            is None || c.ufrag is None || c.ufrag == ufrag)),
{
}

/// What is planned for a frame is what is stated of the formats.
pub proof fn law_planned_as_stated(options: &Option<Vec<Payload>>, video: SendPlan, audio: SendPlan)
    requires
        call_ensures(plan_video, (options,), video),
        call_ensures(plan_audio, (options,), audio),
    ensures
        video == video_plan(options_view(*options)),
        audio == audio_plan(options_view(*options)),
        options is None <==> options_view(*options) is None,
        options matches Some(o) ==> options_view(*options) == Some(o@),
{
}

/// A video frame is sent at the session's place on a clock of 90000 ticks, in the format that
/// is planned for its line; what the very first one holds is described.
pub proof fn law_video_sent(
    engine: &mut Engine,
    session: &mut Session,
    mid: Mid,
    data: &[u8],
    report: VideoReport,
)
    requires
        call_ensures(Engine::send_video, (engine, session, mid, data), report),
    ensures
        ({
            let plan = video_plan(line_payloads(negotiated(old(engine).rtc), mid));
            &&& may_send(mid, plan, old(session).video_ts, 90000, data@, report.outcome)
            &&& queues_sent(
                final(engine).rtc,
                old(engine).rtc,
                mid,
                plan,
                old(session).video_ts,
                90000,
                data@,
                report.outcome,
            )
        }),
        final(session).video_counted(old(session), report.outcome),
        final(session).same_but_video(old(session)),
        report.stats <==> (old(session).received + 1) % 300 == 0,
        report.first_nals is Some <==> old(session).received == 0,
        report.first_nals matches Some(nals) ==> nals@ == h264::description(data@),
        same_terms(final(engine).rtc, old(engine).rtc),
        same_own(final(engine).rtc, old(engine).rtc),
        peer_addrs(final(engine).rtc) == peer_addrs(old(engine).rtc),
{
}

/// An audio packet is sent at the session's place on a clock of 48000 ticks, in the format that
/// is planned for its line; only the audio clock moves, whatever becomes of it.
pub proof fn law_audio_sent(
    engine: &mut Engine,
    session: &mut Session,
    mid: Mid,
    data: &[u8],
    outcome: SendOutcome,
)
    requires
        call_ensures(Engine::send_audio, (engine, session, mid, data), outcome),
    ensures
        ({
            let plan = audio_plan(line_payloads(negotiated(old(engine).rtc), mid));
            &&& may_send(mid, plan, old(session).audio_ts, 48000, data@, outcome)
            &&& queues_sent(
                final(engine).rtc,
                old(engine).rtc,
                mid,
                plan,
                old(session).audio_ts,
                48000,
                data@,
                outcome,
            )
        }),
        final(session).audio_ts == (old(session).audio_ts + 960) % 0x1_0000_0000,
        *final(session) == (Session { audio_ts: final(session).audio_ts, ..*old(session) }),
        same_terms(final(engine).rtc, old(engine).rtc),
        same_own(final(engine).rtc, old(engine).rtc),
        peer_addrs(final(engine).rtc) == peer_addrs(old(engine).rtc),
{
}

/// An engine offers video first, then audio, both of one stream, and the control channel; and
/// nothing of it is negotiated before the answer.
pub proof fn law_offer_made(engine: &mut Engine, r: Option<Offer>)
    requires
        call_ensures(Engine::build_full_offer, (engine,), r),
    ensures
        r is Some,
        pending_media(r->0.pending) == seq![
            (r->0.video, MediaLine::SendVideo, "anykvm"@),
            (r->0.audio, MediaLine::SendAudio, "anykvm"@),
        ],
        pending_channels(r->0.pending) == seq!["hid-control"@],
        is_offer_text(r->0.pending, r->0.sdp@),
        offers_of(final(engine).rtc) == offers_of(old(engine).rtc).insert(r->0.pending),
        negotiated(final(engine).rtc) == negotiated(old(engine).rtc),
        !negotiated(final(engine).rtc).dom().contains(r->0.video),
        !negotiated(final(engine).rtc).dom().contains(r->0.audio),
        alive(final(engine).rtc) == alive(old(engine).rtc),
        same_own(final(engine).rtc, old(engine).rtc),
        same_queues(final(engine).rtc, old(engine).rtc),
{
}

/// Once the answer to an offer is accepted, video and audio are negotiated in the formats that
/// the answer settles on; an answer that is not accepted is unfit, no answer, or one that the
/// engine refuses, and changes nothing in the first two cases.
pub proof fn law_answer_accepted(
    engine: &mut Engine,
    pending: SdpPendingOffer,
    text: &str,
    r: Result<(), AnswerError>,
    i: int,
)
    requires
        call_ensures(Engine::accept_answer, (engine, pending, text), r),
    ensures
        r is Ok && 0 <= i < pending_media(pending).len() ==> line_payloads(
            negotiated(final(engine).rtc),
            pending_media(pending)[i].0,
        ) == Some(answer_formats(text@, pending_media(pending)[i].0)),
        r is Ok ==> peer_ufrag(final(engine).rtc) is Some,
        r == Err::<(), AnswerError>(AnswerError::Unfit) <==> !answer::acceptable(text@),
        r == Err::<(), AnswerError>(AnswerError::Malformed) <==> answer::acceptable(text@)
            && !is_sdp_answer(text@),
        answer::acceptable(text@) && is_sdp_answer(text@) ==> may_accept(
            old(engine).rtc,
            pending,
            text@,
            r is Ok,
        ),
        !answer::acceptable(text@) || !is_sdp_answer(text@) ==> final(engine).rtc == old(
            engine,
        ).rtc,
        same_own(final(engine).rtc, old(engine).rtc),
        same_queues(final(engine).rtc, old(engine).rtc),
{
}

/// A candidate of the peer that is handed to the engine is known from then on, where it fits;
/// what is no candidate changes nothing.
pub proof fn law_candidate_added(engine: &mut Engine, text: &str)
    requires
        call_ensures(Engine::add_candidate, (engine, text), ()),
    ensures
        peer_addrs(final(engine).rtc) == with_candidate(
            peer_addrs(old(engine).rtc),
            peer_ufrag(old(engine).rtc),
            text@,
        ),
        candidate_view(text@) is None ==> final(engine).rtc == old(engine).rtc,
        same_terms(final(engine).rtc, old(engine).rtc),
        same_own(final(engine).rtc, old(engine).rtc),
        same_queues(final(engine).rtc, old(engine).rtc),
{
}

/// The addresses of this machine are named exactly where all of them can be; none that were
/// known is lost, and none is named that was not given.
pub proof fn law_hosts_added(engine: &mut Engine, addrs: &Vec<SocketAddr>, r: bool)
    requires
        call_ensures(Engine::add_hosts, (engine, addrs), r),
    ensures
        r <==> forall|i: int| 0 <= i < addrs@.len() ==> candidate_ip_ok(#[trigger] addrs@[i].ip),
        r ==> own_addrs(final(engine).rtc) == own_addrs(old(engine).rtc).union(host_pairs(addrs@)),
        own_addrs(old(engine).rtc).subset_of(own_addrs(final(engine).rtc)),
        own_addrs(final(engine).rtc).subset_of(
            own_addrs(old(engine).rtc).union(host_pairs(addrs@)),
        ),
        peer_addrs(final(engine).rtc) == peer_addrs(old(engine).rtc),
        same_terms(final(engine).rtc, old(engine).rtc),
        same_queues(final(engine).rtc, old(engine).rtc),
{
}

/// A public address is named together with the one that it sends from, where it can be; and
/// nothing changes where it cannot.
pub proof fn law_public_added(engine: &mut Engine, addr: SocketAddr, base: SocketAddr, r: bool)
    requires
        call_ensures(Engine::add_public, (engine, addr, base), r),
    ensures
        r <==> candidate_ip_ok(addr.ip),
        r ==> own_addrs(final(engine).rtc) == own_addrs(old(engine).rtc).insert((addr, base)),
        !r ==> final(engine).rtc == old(engine).rtc,
{
}

/// The address of a relay is named as one that sends from itself, where it can be; and nothing
/// changes where it cannot.
pub proof fn law_relay_added(engine: &mut Engine, addr: SocketAddr, r: bool)
    requires
        call_ensures(Engine::add_relay, (engine, addr), r),
    ensures
        r <==> candidate_ip_ok(addr.ip),
        r ==> own_addrs(final(engine).rtc) == own_addrs(old(engine).rtc).insert((addr, addr)),
        !r ==> final(engine).rtc == old(engine).rtc,
{
}

/// A new engine knows nothing yet, and is alive, as it tells.
pub proof fn law_new_engine(engine: Engine, r: bool)
    requires
        call_ensures(Engine::new, (), engine),
        call_ensures(Engine::is_alive, (&engine,), r),
    ensures
        is_fresh(engine.rtc),
        r,
{
}

/// Events and candidates are taken in as the session does: by what the event reports, and by
/// the IP address of the candidate.
pub proof fn law_handed_to_the_session(
    session: &mut Session,
    event: Event,
    action: EventAction,
    other: &Session,
    text: &str,
    r: (Option<String>, CandidateStep),
)
    requires
        call_ensures(handle_event, (session, event), action),
        call_ensures(remote_candidate, (other, text), r),
    ensures
        (final(session).ice_connected, action@) == session::event_effect(
            old(session).ice_connected,
            event_view(event),
        ),
        *final(session) == (Session {
            ice_connected: final(session).ice_connected,
            ..*old(session)
        }),
        match r.0 {
            Some(ip) => candidate_view(text@) matches Some(c) && c.ip == ip@,
            None => candidate_view(text@) is None,
        },
        r.1 == session::candidate_step(
            other.relay is Some,
            session::texts(other.permitted@),
            match candidate_view(text@) {
                Some(c) => Some(c.ip),
                None => None,
            },
        ),
{
}

/// The formats of a line are those that were negotiated for it, all of them in order, and
/// there are none where it was not negotiated.
pub proof fn law_formats_of_a_line(lines: Map<Mid, Seq<Payload>>, mid: Mid, formats: Seq<Payload>)
    ensures
        line_payloads(lines, mid) == Some(formats) <==> lines.dom().contains(mid) && lines[mid]
            == formats,
        line_payloads(lines, mid) is None <==> !lines.dom().contains(mid),
{
}

} // verus!
