//! The signalling client: where it connects, what it says, what it makes of what it hears,
//! and when it tries again.

use serde_json::Value;
use vstd::prelude::*;

use crate::config::SignalConfig;
use crate::json;
use crate::json::Json;

verus! {

/// The seconds before the first new attempt.
pub const FIRST_BACKOFF: u64 = 1;

/// The most seconds before a new attempt.
pub const MAX_BACKOFF: u64 = 60;

/// A message of the signalling server.
pub struct SignalMsg {
    pub msg_type: String,
    pub payload: Value,
}

/// What a session with the signalling server runs into.
pub enum SignalEvent {
    /// The stream has come to its end.
    Ended,
    /// The stream has failed.
    Failed,
    /// A text has come in: a message, if it can be read as one.
    Text(Option<SignalMsg>),
    /// The server asks for a sign of life.
    Ping(Vec<u8>),
    /// The server has closed the connection.
    Closed,
    /// Anything else has come in.
    Other,
    /// The engine has a candidate for the peer; none, once there will be no more.
    LocalCandidate(Option<String>),
}

/// What is to be done.
#[derive(Debug, Clone, PartialEq, Eq)]
pub enum SignalAction {
    Nothing,
    /// The session is over.
    Finish,
    /// The session has failed.
    Fail,
    /// The peer's answer is handed to the engine.
    Answer(String),
    /// A candidate of the peer is handed to the engine.
    RemoteCandidate(String),
    /// A sign of life is sent.
    Pong(Vec<u8>),
    /// A text is sent.
    Send(String),
}

/// What is to be done, with sequences in place of texts and vectors.
pub enum SignalEffect {
    Nothing,
    Finish,
    Fail,
    Answer(Seq<char>),
    RemoteCandidate(Seq<char>),
    Pong(Seq<u8>),
    Send(Seq<char>),
}

impl View for SignalAction {
    type V = SignalEffect;

    open spec fn view(&self) -> SignalEffect {
        match *self {
            SignalAction::Nothing => SignalEffect::Nothing,
            SignalAction::Finish => SignalEffect::Finish,
            SignalAction::Fail => SignalEffect::Fail,
            SignalAction::Answer(sdp) => SignalEffect::Answer(sdp@),
            SignalAction::RemoteCandidate(c) => SignalEffect::RemoteCandidate(c@),
            SignalAction::Pong(data) => SignalEffect::Pong(data@),
            SignalAction::Send(text) => SignalEffect::Send(text@),
        }
    }
}

/// How an attempt to connect and hold a session has ended.
#[derive(Debug, Clone, Copy, PartialEq, Eq, Structural)]
pub enum Attempt {
    /// There was no connection.
    NotConnected,
    /// The session has failed.
    SessionFailed,
    /// The session is over.
    SessionEnded,
}

/// A character that stays as it is in the parts of a URL.
pub open spec fn unreserved(b: u8) -> bool {
    ||| 0x30 <= b <= 0x39
    ||| 0x41 <= b <= 0x5A
    ||| 0x61 <= b <= 0x7A
    ||| b == 0x2D || b == 0x2E || b == 0x5F || b == 0x7E
}

/// The upper-case hexadecimal digit of a number below sixteen.
pub open spec fn hex_digit(n: int) -> char {
    if n < 10 { (0x30 + n) as char } else { (0x41 - 10 + n) as char }
}

/// A byte in a part of a URL: as it is, or as a percent sign and two digits.
pub open spec fn percent_byte(b: u8) -> Seq<char> {
    if unreserved(b) {
        seq![b as char]
    } else {
        seq!['%', hex_digit(b as int / 16), hex_digit(b as int % 16)]
    }
}

/// Bytes in a part of a URL.
pub open spec fn percent_bytes(bytes: Seq<u8>) -> Seq<char>
    decreases bytes.len(),
{
    if bytes.len() == 0 {
        Seq::empty()
    } else {
        percent_byte(bytes[0]) + percent_bytes(bytes.drop_first())
    }
}

/// A text in a part of a URL: that of its UTF-8 bytes.
pub open spec fn percent_encoded(s: Seq<char>) -> Seq<char> {
    percent_bytes(vstd::utf8::encode_utf8(s))
}

/// Where the device connects to: the server's URL, with its room and its role.
pub open spec fn device_url_text(url: Seq<char>, room: Seq<char>) -> Seq<char> {
    url + "?room="@ + percent_encoded(room) + "&role=device"@
}

/// Calls `urlencoding::encode`, which keeps letters, digits, `-`, `.`, `_` and `~`, and
/// writes every other byte of the UTF-8 encoding as a percent sign and two upper-case
/// digits.
#[verifier::external_body]
fn url_encode(s: &str) -> (r: String)
    ensures
        r@ == percent_encoded(s@),
{
    urlencoding::encode(s).into_owned()
}

/// The URL that the device connects to.
pub fn device_url(cfg: &SignalConfig) -> (r: String)
    ensures
        r@ == device_url_text(cfg.url@, cfg.room_id@),
{
    let mut r: String = cfg.url.clone();
    r.append("?room=");
    let room = url_encode(cfg.room_id.as_str());
    r.append(room.as_str());
    r.append("&role=device");
    r
}

/// What an offer's message holds.
pub open spec fn offer_json(sdp: Seq<char>) -> Json {
    Json::Members(
        map![
            "type"@ => Json::Text("offer"@),
            "payload"@ => Json::Members(
                map!["type"@ => Json::Text("offer"@), "sdp"@ => Json::Text(sdp)],
            ),
        ],
    )
}

/// What a candidate's message holds.
pub open spec fn candidate_json(candidate: Seq<char>) -> Json {
    Json::Members(
        map![
            "type"@ => Json::Text("candidate"@),
            "payload"@ => Json::Members(
                map![
                    "candidate"@ => Json::Text(candidate),
                    "sdpMid"@ => Json::Text("0"@),
                    "sdpMLineIndex"@ => Json::Number(0),
                ],
            ),
        ],
    )
}

fn message_text(msg_type: &str, payload: Value) -> (r: String)
    ensures
        r@ == json::json_text(
            Json::Members(
                map!["type"@ => Json::Text(msg_type@), "payload"@ => json::json_view(payload)],
            ),
        ),
{
    let mut message = json::object_value();
    json::set_member(&mut message, "type", json::text_value(msg_type));
    json::set_member(&mut message, "payload", payload);
    assert(json::json_view(message)->Members_0 =~= map![
        "type"@ => Json::Text(msg_type@),
        "payload"@ => json::json_view(payload),
    ]);
    json::render(&message)
}

/// The message that offers a session to the peer.
pub fn offer_message(sdp: &str) -> (r: String)
    ensures
        r@ == json::json_text(offer_json(sdp@)),
{
    let mut payload = json::object_value();
    json::set_member(&mut payload, "type", json::text_value("offer"));
    json::set_member(&mut payload, "sdp", json::text_value(sdp));
    assert(json::json_view(payload)->Members_0 =~= map![
        "type"@ => Json::Text("offer"@),
        "sdp"@ => Json::Text(sdp@),
    ]);
    message_text("offer", payload)
}

/// The message that names a candidate to the peer.
pub fn candidate_message(candidate: &str) -> (r: String)
    ensures
        r@ == json::json_text(candidate_json(candidate@)),
{
    let mut payload = json::object_value();
    json::set_member(&mut payload, "candidate", json::text_value(candidate));
    json::set_member(&mut payload, "sdpMid", json::text_value("0"));
    json::set_member(&mut payload, "sdpMLineIndex", json::number_value(0));
    assert(json::json_view(payload)->Members_0 =~= map![
        "candidate"@ => Json::Text(candidate@),
        "sdpMid"@ => Json::Text("0"@),
        "sdpMLineIndex"@ => Json::Number(0),
    ]);
    message_text("candidate", payload)
}

/// What a message of the signalling server has done: an answer and a candidate are handed
/// on, if their payload holds them as texts.
pub open spec fn message_effect(msg_type: Seq<char>, payload: Json) -> SignalEffect {
    if msg_type == "answer"@ {
        match json::member(payload, "sdp"@) {
            Some(sdp) => SignalEffect::Answer(sdp),
            None => SignalEffect::Nothing,
        }
    } else if msg_type == "candidate"@ {
        match json::member(payload, "candidate"@) {
            Some(c) => SignalEffect::RemoteCandidate(c),
            None => SignalEffect::Nothing,
        }
    } else {
        SignalEffect::Nothing
    }
}

/// What an event of a session has done.
pub open spec fn signal_effect(event: SignalEvent) -> SignalEffect {
    match event {
        SignalEvent::Ended => SignalEffect::Finish,
        SignalEvent::Failed => SignalEffect::Fail,
        SignalEvent::Text(Some(msg)) => message_effect(
            msg.msg_type@,
            json::json_view(msg.payload),
        ),
        SignalEvent::Text(None) => SignalEffect::Nothing,
        SignalEvent::Ping(data) => SignalEffect::Pong(data@),
        SignalEvent::Closed => SignalEffect::Finish,
        SignalEvent::Other => SignalEffect::Nothing,
        SignalEvent::LocalCandidate(Some(c)) => SignalEffect::Send(
            json::json_text(candidate_json(c@)),
        ),
        SignalEvent::LocalCandidate(None) => SignalEffect::Nothing,
    }
}

/// Takes in a message of the signalling server.
pub fn handle_incoming(msg: &SignalMsg) -> (action: SignalAction)
    ensures
        action@ == message_effect(msg.msg_type@, json::json_view(msg.payload)),
{
    if msg.msg_type == "answer".to_owned() {
        match json::member_text(&msg.payload, "sdp") {
            Some(sdp) => SignalAction::Answer(sdp),
            None => SignalAction::Nothing,
        }
    } else if msg.msg_type == "candidate".to_owned() {
        match json::member_text(&msg.payload, "candidate") {
            Some(c) => SignalAction::RemoteCandidate(c),
            None => SignalAction::Nothing,
        }
    } else {
        SignalAction::Nothing
    }
}

/// Decides what an event of a session does.
pub fn session_step(event: SignalEvent) -> (action: SignalAction)
    ensures
        action@ == signal_effect(event),
{
    match event {
        SignalEvent::Ended => SignalAction::Finish,
        SignalEvent::Failed => SignalAction::Fail,
        SignalEvent::Text(text) => match text {
            Some(msg) => handle_incoming(&msg),
            None => SignalAction::Nothing,
        },
        SignalEvent::Ping(data) => SignalAction::Pong(data),
        SignalEvent::Closed => SignalAction::Finish,
        SignalEvent::Other => SignalAction::Nothing,
        SignalEvent::LocalCandidate(candidate) => match candidate {
            Some(c) => SignalAction::Send(candidate_message(c.as_str())),
            None => SignalAction::Nothing,
        },
    }
}

/// The seconds to wait after an attempt, and the seconds to wait after the next one, should
/// it not connect. Whatever has ended an attempt, a new one follows.
pub open spec fn backoff_after(backoff: u64, attempt: Attempt) -> (u64, u64) {
    match attempt {
        Attempt::NotConnected => (
            backoff,
            if 2 * backoff < MAX_BACKOFF { (2 * backoff) as u64 } else { MAX_BACKOFF },
        ),
        Attempt::SessionFailed | Attempt::SessionEnded => (
            FIRST_BACKOFF,
            (2 * FIRST_BACKOFF) as u64,
        ),
    }
}

/// Decides when to try again. `backoff` is what the attempt before has left, or one second
/// at the start; a connection resets it.
pub fn retry(backoff: u64, attempt: Attempt) -> (r: (u64, u64))
    requires
        backoff <= MAX_BACKOFF,
    ensures
        r == backoff_after(backoff, attempt),
        r.1 <= MAX_BACKOFF,
{
    match attempt {
        Attempt::NotConnected => {
            let doubled: u64 = backoff * 2;
            let next: u64 = if doubled < MAX_BACKOFF {
                doubled
            } else {
                MAX_BACKOFF
            };
            (backoff, next)
        },
        Attempt::SessionFailed | Attempt::SessionEnded => (FIRST_BACKOFF, FIRST_BACKOFF * 2),
    }
}

/// A character of a percent-encoded text: one that stays as it is, or a percent sign.
pub open spec fn encoded_char(c: char) -> bool {
    c == '%' || c as int <= 0xff && unreserved(c as u8)
}

proof fn lemma_percent_chars(bytes: Seq<u8>, i: int)
    requires
        0 <= i < percent_bytes(bytes).len(),
    ensures
        encoded_char(percent_bytes(bytes)[i]),
    decreases bytes.len(),
{
    let head = percent_byte(bytes[0]);
    if i >= head.len() {
        lemma_percent_chars(bytes.drop_first(), i - head.len());
    }
}

/// No character that separates the parts of a URL gets into it from a room's name.
pub proof fn law_room_cannot_break_url(room: Seq<char>, i: int)
    requires
        0 <= i < percent_encoded(room).len(),
    ensures
        encoded_char(percent_encoded(room)[i]),
        !seq!['&', '?', '=', '#', '/', ':', ' '].contains(percent_encoded(room)[i]),
{
    lemma_percent_chars(vstd::utf8::encode_utf8(room), i);
    let separators = seq!['&', '?', '=', '#', '/', ':', ' '];
    let c = percent_encoded(room)[i];
    if separators.contains(c) {
        let k = choose|k: int| 0 <= k < separators.len() && separators[k] == c;
        assert(separators[k] == c);
    }
}

proof fn lemma_percent_injective(a: Seq<u8>, b: Seq<u8>)
    requires
        percent_bytes(a) == percent_bytes(b),
    ensures
        a == b,
    decreases a.len(),
{
    let (pa, pb) = (percent_bytes(a), percent_bytes(b));
    if a.len() == 0 {
        if b.len() > 0 {
            assert(pb.len() >= percent_byte(b[0]).len());
        }
        assert(a =~= b);
    } else if b.len() == 0 {
        assert(pa.len() >= percent_byte(a[0]).len());
    } else {
        let (ha, hb) = (percent_byte(a[0]), percent_byte(b[0]));
        assert(pa[0] == ha[0] && pb[0] == hb[0]);
        if !unreserved(a[0]) && !unreserved(b[0]) {
            assert(pa[1] == ha[1] && pb[1] == hb[1]);
            assert(pa[2] == ha[2] && pb[2] == hb[2]);
        }
        assert(a[0] == b[0]);
        let (ra, rb) = (percent_bytes(a.drop_first()), percent_bytes(b.drop_first()));
        assert(ra =~= pa.skip(ha.len() as int));
        assert(rb =~= pb.skip(ha.len() as int));
        lemma_percent_injective(a.drop_first(), b.drop_first());
        assert(a =~= seq![a[0]] + a.drop_first());
        assert(b =~= seq![b[0]] + b.drop_first());
    }
}

/// Two rooms are two URLs: a server tells devices apart by their rooms.
pub proof fn law_rooms_told_apart(url: Seq<char>, a: Seq<char>, b: Seq<char>)
    requires
        device_url_text(url, a) == device_url_text(url, b),
    ensures
        a == b,
{
    let (pa, pb) = (percent_encoded(a), percent_encoded(b));
    let from = url.len() + "?room="@.len();
    let (ua, ub) = (device_url_text(url, a), device_url_text(url, b));
    assert(ua.len() == from + pa.len() + "&role=device"@.len());
    assert(ub.len() == from + pb.len() + "&role=device"@.len());
    assert(pa =~= ua.subrange(from as int, (from + pa.len()) as int));
    assert(pb =~= ub.subrange(from as int, (from + pb.len()) as int));
    lemma_percent_injective(vstd::utf8::encode_utf8(a), vstd::utf8::encode_utf8(b));
    vstd::utf8::encode_utf8_decode_utf8(a);
    vstd::utf8::encode_utf8_decode_utf8(b);
}

/// The seconds to wait after the attempt with this number, where none has connected.
pub open spec fn nth_wait(n: nat) -> u64
    decreases n,
{
    if n == 0 {
        FIRST_BACKOFF
    } else {
        backoff_after(nth_wait((n - 1) as nat), Attempt::NotConnected).1
    }
}

/// Attempts that do not connect are followed by waits of 1, 2, 4 seconds and so on: each
/// twice the one before, up to a minute.
pub proof fn law_waits_double(n: nat)
    ensures
        nth_wait(n) == (if vstd::arithmetic::power2::pow2(n) < 60 {
            vstd::arithmetic::power2::pow2(n) as int
        } else {
            60
        }),
        backoff_after(nth_wait(n), Attempt::NotConnected) == (nth_wait(n), nth_wait(
            (n + 1) as nat,
        )),
    decreases n,
{
    if n == 0 {
        vstd::arithmetic::power2::lemma2_to64();
    } else {
        law_waits_double((n - 1) as nat);
        vstd::arithmetic::power2::lemma_pow2_unfold(n);
    }
}

/// Once a connection has been there, the waits start over at one second, whether the session
/// has failed or was closed.
pub proof fn law_connection_resets_waits(backoff: u64, attempt: Attempt)
    requires
        attempt != Attempt::NotConnected,
    ensures
        backoff_after(backoff, attempt) == (nth_wait(0), nth_wait(1)),
{
    reveal_with_fuel(nth_wait, 2);
}

/// What a message has done rests on its type and on one member of its payload, and on nothing
/// else that the payload holds: a candidate is handed on whenever it is there as a text, and
/// so is an answer. Messages of other types, and those without that text, do nothing.
pub proof fn law_payload_handed_on(msg_type: Seq<char>, payload: Json, text: Seq<char>)
    ensures
        message_effect(msg_type, payload) == SignalEffect::RemoteCandidate(text) <==> msg_type
            == "candidate"@ && match payload {
            Json::Members(m) => m.dom().contains("candidate"@) && m["candidate"@] == Json::Text(
                text,
            ),
            _ => false,
        },
        message_effect(msg_type, payload) == SignalEffect::Answer(text) <==> msg_type == "answer"@
            && match payload {
            Json::Members(m) => m.dom().contains("sdp"@) && m["sdp"@] == Json::Text(text),
            _ => false,
        },
        match message_effect(msg_type, payload) {
            SignalEffect::RemoteCandidate(_) => true,
            SignalEffect::Answer(_) => true,
            SignalEffect::Nothing => true,
            _ => false,
        },
{
    lemma_names_differ();
}

/// Two payloads that hold the same text as the candidate, or as the answer, do the same,
/// whatever else each of them holds.
pub proof fn law_other_members_ignored(
    msg_type: Seq<char>,
    a: Map<Seq<char>, Json>,
    b: Map<Seq<char>, Json>,
)
    requires
        a.dom().contains("candidate"@) == b.dom().contains("candidate"@),
        a.dom().contains("candidate"@) ==> a["candidate"@] == b["candidate"@],
        a.dom().contains("sdp"@) == b.dom().contains("sdp"@),
        a.dom().contains("sdp"@) ==> a["sdp"@] == b["sdp"@],
    ensures
        message_effect(msg_type, Json::Members(a)) == message_effect(msg_type, Json::Members(b)),
{
}

/// What the device says of a candidate is what it would take for one: its message has the
/// type and the payload of a candidate, and nothing else; and the payload, with the first
/// media line, is handed on as that candidate.
pub proof fn law_candidate_message_read_back(candidate: Seq<char>)
    ensures
        match candidate_json(candidate) {
            Json::Members(m) => {
                &&& m.dom() == set!["type"@, "payload"@]
                &&& m["type"@] == Json::Text("candidate"@)
                &&& message_effect("candidate"@, m["payload"@]) == SignalEffect::RemoteCandidate(
                    candidate,
                )
                &&& match m["payload"@] {
                    Json::Members(p) => {
                        &&& p.dom() == set!["candidate"@, "sdpMid"@, "sdpMLineIndex"@]
                        &&& p["candidate"@] == Json::Text(candidate)
                        &&& p["sdpMid"@] == Json::Text("0"@)
                        &&& p["sdpMLineIndex"@] == Json::Number(0)
                    },
                    _ => false,
                }
            },
            _ => false,
        },
{
    lemma_names_differ();
    let m = candidate_json(candidate)->Members_0;
    let p = m["payload"@]->Members_0;
    assert(m.dom() =~= set!["type"@, "payload"@]);
    assert(p.dom() =~= set!["candidate"@, "sdpMid"@, "sdpMLineIndex"@]);
}

/// The message of an offer has the type and the payload of an offer, and nothing else; the
/// payload holds the description whole.
pub proof fn law_offer_message_read_back(sdp: Seq<char>)
    ensures
        match offer_json(sdp) {
            Json::Members(m) => {
                &&& m.dom() == set!["type"@, "payload"@]
                &&& m["type"@] == Json::Text("offer"@)
                &&& match m["payload"@] {
                    Json::Members(p) => {
                        &&& p.dom() == set!["type"@, "sdp"@]
                        &&& p["type"@] == Json::Text("offer"@)
                        &&& p["sdp"@] == Json::Text(sdp)
                    },
                    _ => false,
                }
            },
            _ => false,
        },
{
    lemma_names_differ();
    let m = offer_json(sdp)->Members_0;
    let p = m["payload"@]->Members_0;
    assert(m.dom() =~= set!["type"@, "payload"@]);
    assert(p.dom() =~= set!["type"@, "sdp"@]);
}

proof fn lemma_names_differ()
    ensures
        "type"@ != "payload"@,
        "type"@ != "sdp"@,
        "candidate"@ != "sdpMid"@,
        "candidate"@ != "sdpMLineIndex"@,
        "sdpMid"@ != "sdpMLineIndex"@,
        "answer"@ != "candidate"@,
{
    reveal_strlit("type");
    reveal_strlit("payload");
    reveal_strlit("sdp");
    reveal_strlit("candidate");
    reveal_strlit("sdpMid");
    reveal_strlit("sdpMLineIndex");
    reveal_strlit("answer");
    assert("type"@.len() == 4 && "payload"@.len() == 7 && "sdp"@.len() == 3);
    assert("candidate"@.len() == 9 && "sdpMid"@.len() == 6 && "sdpMLineIndex"@.len() == 13);
    assert("answer"@.len() == 6);
}

/// A session is over exactly when the stream ends or is closed, and has failed exactly when
/// the stream has; a sign of life answers every ping, with the bytes of the ping; a candidate
/// of the engine is always sent; and nothing but a text makes the engine hear of the peer.
pub proof fn law_events_answered(event: SignalEvent)
    ensures
        signal_effect(event) is Finish <==> event is Ended || event is Closed,
        signal_effect(event) is Fail <==> event is Failed,
        match event {
            SignalEvent::Ping(data) => signal_effect(event) matches SignalEffect::Pong(back)
                && back.len() == data@.len() && forall|i: int|
                0 <= i < back.len() ==> back[i] == data@[i],
            _ => !(signal_effect(event) is Pong),
        },
        match event {
            SignalEvent::LocalCandidate(Some(c)) => signal_effect(event) == SignalEffect::Send(
                json::json_text(candidate_json(c@)),
            ),
            _ => !(signal_effect(event) is Send),
        },
        match event {
            SignalEvent::Text(Some(msg)) => signal_effect(event) == message_effect(
                msg.msg_type@,
                json::json_view(msg.payload),
            ),
            _ => !(signal_effect(event) is Answer) && !(signal_effect(event) is RemoteCandidate),
        },
{
}

/// The device connects to the server's URL, whole, and behind it names its room and its role.
pub proof fn law_url_parts(url: Seq<char>, room: Seq<char>)
    ensures
        ({
            let text = device_url_text(url, room);
            let n = url.len() as int;
            let k = percent_encoded(room).len() as int;
            &&& text.len() == n + 6 + k + 12
            &&& text.take(n) == url
            &&& text.subrange(n, n + 6) == seq!['?', 'r', 'o', 'o', 'm', '=']
            &&& text.subrange(n + 6, n + 6 + k) == percent_encoded(room)
            &&& text.skip(n + 6 + k) == seq![
                '&', 'r', 'o', 'l', 'e', '=', 'd', 'e', 'v', 'i', 'c', 'e',
            ]
        }),
{
    reveal_strlit("?room=");
    reveal_strlit("&role=device");
    let text = device_url_text(url, room);
    let n = url.len() as int;
    let k = percent_encoded(room).len() as int;
    assert(text.take(n) =~= url);
    assert(text.subrange(n, n + 6) =~= "?room="@);
    assert(text.subrange(n, n + 6) =~= seq!['?', 'r', 'o', 'o', 'm', '=']);
    assert(text.subrange(n + 6, n + 6 + k) =~= percent_encoded(room));
    assert(text.skip(n + 6 + k) =~= "&role=device"@);
    assert(text.skip(n + 6 + k) =~= seq![
        '&', 'r', 'o', 'l', 'e', '=', 'd', 'e', 'v', 'i', 'c', 'e',
    ]);
}

/// A room's name is written byte by byte, in order: letters, digits, `-`, `.`, `_` and `~` as
/// they are, and any other byte as a percent sign and its two digits.
pub proof fn law_room_written_byte_by_byte(a: Seq<u8>, b: u8)
    ensures
        percent_bytes(Seq::empty()) == Seq::<char>::empty(),
        percent_bytes(a.push(b)) == percent_bytes(a) + percent_byte(b),
        percent_byte(b).len() == (if unreserved(b) { 1int } else { 3 }),
        unreserved(b) ==> percent_byte(b)[0] as int == b,
        !unreserved(b) ==> percent_byte(b)[0] == '%',
    decreases a.len(),
{
    if a.len() == 0 {
        reveal_with_fuel(percent_bytes, 2);
        assert(a.push(b).drop_first() =~= Seq::<u8>::empty());
        assert(percent_bytes(a.push(b)) =~= percent_bytes(a) + percent_byte(b));
    } else {
        law_room_written_byte_by_byte(a.drop_first(), b);
        assert(a.push(b).drop_first() =~= a.drop_first().push(b));
        assert(percent_bytes(a.push(b)) =~= percent_bytes(a) + percent_byte(b));
    }
}

/// Whatever the wait is, an attempt that does not connect is followed by it, and the next wait
/// is twice as long, or a minute where that would be longer.
pub proof fn law_next_wait(backoff: u64)
    ensures
        ({
            let (wait, next) = backoff_after(backoff, Attempt::NotConnected);
            &&& wait == backoff
            &&& next <= 60
            &&& next <= 2 * backoff
            &&& next == 60 || next == 2 * backoff
        }),
        backoff_after(backoff, Attempt::SessionFailed) == (1u64, 2u64),
        backoff_after(backoff, Attempt::SessionEnded) == (1u64, 2u64),
{
}

/// What an action carries is what it is seen to carry, whole.
pub proof fn law_actions_seen_whole(action: SignalAction)
    ensures
        match action {
            SignalAction::Nothing => action@ is Nothing,
            SignalAction::Finish => action@ is Finish,
            SignalAction::Fail => action@ is Fail,
            SignalAction::Answer(t) => action@ matches SignalEffect::Answer(s) && s == t@,
            SignalAction::RemoteCandidate(t) => action@ matches SignalEffect::RemoteCandidate(s)
                && s == t@,
            SignalAction::Pong(v) => action@ matches SignalEffect::Pong(s) && s == v@,
            SignalAction::Send(t) => action@ matches SignalEffect::Send(s) && s == t@,
        },
{
}

/// What is made of a message rests on its type and its payload, as they came in: a candidate
/// that is there as a text is handed on, whatever else is there.
pub proof fn law_message_taken_in(msg: &SignalMsg, action: SignalAction)
    requires
        call_ensures(handle_incoming, (msg,), action),
    ensures
        action@ == message_effect(msg.msg_type@, json::json_view(msg.payload)),
        msg.msg_type@ == "candidate"@ ==> (json::json_view(msg.payload) matches Json::Members(m)
            ==> m.dom().contains("candidate"@) ==> (m["candidate"@] matches Json::Text(t) ==> (
        action matches SignalAction::RemoteCandidate(c) && c@ == t))),
{
    lemma_names_differ();
}

/// Events are answered as stated, and so are failed attempts.
pub proof fn law_steps_taken(
    event: SignalEvent,
    action: SignalAction,
    backoff: u64,
    attempt: Attempt,
    r: (u64, u64),
)
    requires
        call_ensures(session_step, (event,), action),
        backoff <= MAX_BACKOFF,
        call_ensures(retry, (backoff, attempt), r),
    ensures
        action@ == signal_effect(event),
        r == backoff_after(backoff, attempt),
        r.1 <= 60,
{
}

/// What the device says: its URL has the room in it, an offer its description, and a candidate
/// itself.
pub proof fn law_device_says(
    cfg: &SignalConfig,
    url: String,
    sdp: &str,
    offer: String,
    candidate: &str,
    named: String,
)
    requires
        call_ensures(device_url, (cfg,), url),
        call_ensures(offer_message, (sdp,), offer),
        call_ensures(candidate_message, (candidate,), named),
    ensures
        url@ == device_url_text(cfg.url@, cfg.room_id@),
        offer@ == json::json_text(offer_json(sdp@)),
        named@ == json::json_text(candidate_json(candidate@)),
{
}

} // verus!
