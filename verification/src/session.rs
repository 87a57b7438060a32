//! A session with a browser: what is sent when and where, and what incoming events and
//! datagrams mean.

use vstd::prelude::*;

use crate::config::IceConfig;
use crate::net;
use crate::net::SocketAddr;
use crate::stun;
use crate::text;
use crate::turn;
use crate::turn::TurnState;

verus! {

/// The frame rate that counts where none is configured.
pub const DEFAULT_FPS: u32 = 15;

/// The ticks of the video clock in a second.
pub const VIDEO_CLOCK: u32 = 90000;

/// The ticks of the audio clock in a second.
pub const AUDIO_CLOCK: u32 = 48000;

/// The ticks of the audio clock in a packet: twenty milliseconds.
pub const AUDIO_TICKS: u32 = 960;

/// The nanoseconds between two refreshes of a relay allocation: 240 seconds.
pub const REFRESH_INTERVAL: u128 = 240_000_000_000;

/// The most nanoseconds to wait for a datagram: five milliseconds.
pub const MAX_WAIT: u128 = 5_000_000;

/// The number of video frames between two lines of statistics.
pub const STATS_FRAMES: u64 = 300;

/// A relay allocation: the address at which the peer reaches it, and the session with the
/// server that grants it.
pub struct Relay {
    pub addr: SocketAddr,
    pub turn: TurnState,
}

/// A session with a browser.
pub struct Session {
    /// The connection is there, and media can be sent.
    pub ice_connected: bool,
    pub relay: Option<Relay>,
    /// The peers that may send through the relay, by IP address.
    pub permitted: Vec<String>,
    /// When the relay allocation is to be refreshed next, in nanoseconds.
    pub refresh_at: u128,
    /// The place of the next video frame on the video clock.
    pub video_ts: u32,
    /// The place of the next audio packet on the audio clock.
    pub audio_ts: u32,
    /// The ticks of the video clock in a frame.
    pub frame_ticks: u32,
    /// The video frames that came in.
    pub received: u64,
    /// The video frames that were handed to the engine.
    pub written: u64,
    /// The video frames that came before the engine was ready for them.
    pub dropped: u64,
    /// The datagrams that the engine had sent.
    pub transmitted: u64,
}

/// What became of a media frame.
#[derive(Debug, Clone, Copy, PartialEq, Eq, Structural)]
pub enum SendOutcome {
    /// The engine is not ready for this kind of media.
    NotReady,
    /// The peer takes no format that the frame could be sent in.
    NoPayload,
    /// The engine took the frame.
    Sent,
    /// The engine refused the frame.
    Failed,
}

/// The states of the connection to the peer.
#[derive(Debug, Clone, Copy, PartialEq, Eq, Structural)]
pub enum IceState {
    New,
    Checking,
    Connected,
    Completed,
    Disconnected,
}

/// What the engine reports.
#[derive(Debug, Clone, PartialEq, Eq)]
pub enum RtcEvent {
    /// Connection and encryption are there.
    Connected,
    /// A message came in on the control channel.
    ChannelData(Vec<u8>),
    /// The connection has changed its state.
    IceStateChange(IceState),
    /// The peer asks for a keyframe.
    KeyframeRequest,
    /// Anything else.
    Other,
}

/// What the engine reports, with sequences in place of vectors.
pub enum EventView {
    Connected,
    ChannelData(Seq<u8>),
    IceStateChange(IceState),
    KeyframeRequest,
    Other,
}

impl View for RtcEvent {
    type V = EventView;

    open spec fn view(&self) -> EventView {
        match *self {
            RtcEvent::Connected => EventView::Connected,
            RtcEvent::ChannelData(data) => EventView::ChannelData(data@),
            RtcEvent::IceStateChange(state) => EventView::IceStateChange(state),
            RtcEvent::KeyframeRequest => EventView::KeyframeRequest,
            RtcEvent::Other => EventView::Other,
        }
    }
}

/// What an event has done.
#[derive(Debug, Clone, PartialEq, Eq)]
pub enum EventAction {
    Nothing,
    /// Media can flow: the capture is to start, with a keyframe.
    StartMedia,
    /// The next picture is to be a keyframe.
    RequestKeyframe,
    /// A control frame is to be handed on.
    Forward(Vec<u8>),
    /// The session is over: the capture is to pause.
    End,
}

/// What an event has done, with sequences in place of vectors.
pub enum EventEffect {
    Nothing,
    StartMedia,
    RequestKeyframe,
    Forward(Seq<u8>),
    End,
}

impl View for EventAction {
    type V = EventEffect;

    open spec fn view(&self) -> EventEffect {
        match *self {
            EventAction::Nothing => EventEffect::Nothing,
            EventAction::StartMedia => EventEffect::StartMedia,
            EventAction::RequestKeyframe => EventEffect::RequestKeyframe,
            EventAction::Forward(data) => EventEffect::Forward(data@),
            EventAction::End => EventEffect::End,
        }
    }
}

/// What is to be done about a candidate that the peer has named.
#[derive(Debug, Clone, Copy, PartialEq, Eq, Structural)]
pub enum CandidateStep {
    /// It makes no sense, and is passed over.
    Ignore,
    /// It is handed to the engine.
    Add,
    /// The relay is asked first to let it through: by its IPv4 address, where it has one.
    Permit(Option<u32>),
}

/// How a datagram leaves.
pub enum Route {
    /// As it is, to where the engine wants it.
    Direct,
    /// In a message to the relay's server.
    Relayed { to: SocketAddr, message: Vec<u8> },
}

/// What it takes to ask a server for a relay.
pub struct TurnLogin {
    pub url: String,
    pub username: String,
    pub password: String,
}

/// The relay login that is configured: it takes the server, the name and the password.
pub fn turn_login(cfg: &IceConfig) -> (r: Option<TurnLogin>)
    ensures
        match r {
            Some(login) => {
                &&& cfg.turn_url matches Some(url) && login.url@ == url@
                &&& cfg.turn_username matches Some(name) && login.username@ == name@
                &&& cfg.turn_password matches Some(pass) && login.password@ == pass@
            },
            None => cfg.turn_url is None || cfg.turn_username is None || cfg.turn_password is None,
        },
{
    match (&cfg.turn_url, &cfg.turn_username, &cfg.turn_password) {
        (Some(url), Some(username), Some(password)) => Some(
            TurnLogin {
                url: url.clone(),
                username: username.clone(),
                password: password.clone(),
            },
        ),
        _ => None,
    }
}

/// The STUN server to ask next for the public address, where the first `tried` of them were
/// asked: one after the other, until one has answered.
pub fn next_stun_server(servers: usize, tried: usize, found: bool) -> (r: Option<usize>)
    ensures
        r == (if !found && tried < servers {
            Some(tried)
        } else {
            None
        }),
{
    if !found && tried < servers {
        Some(tried)
    } else {
        None
    }
}

/// The ticks of the video clock in a frame.
pub open spec fn ticks_per_frame(fps: u32) -> u32 {
    VIDEO_CLOCK / (if fps > 0 { fps } else { DEFAULT_FPS })
}

/// What an event has done, and whether media can be sent after it.
pub open spec fn event_effect(connected: bool, event: EventView) -> (bool, EventEffect) {
    match event {
        EventView::Connected => (true, EventEffect::StartMedia),
        EventView::ChannelData(data) => (connected, EventEffect::Forward(data)),
        EventView::IceStateChange(IceState::Connected) => (
            connected,
            EventEffect::RequestKeyframe,
        ),
        EventView::IceStateChange(IceState::Completed) => (
            connected,
            EventEffect::RequestKeyframe,
        ),
        EventView::IceStateChange(IceState::Disconnected) => (
            connected,
            if connected { EventEffect::End } else { EventEffect::Nothing },
        ),
        EventView::KeyframeRequest => (connected, EventEffect::RequestKeyframe),
        _ => (connected, EventEffect::Nothing),
    }
}

/// The views of texts.
pub open spec fn texts(v: Seq<String>) -> Seq<Seq<char>> {
    v.map_values(|s: String| s@)
}

/// The IP addresses that the relay lets through, once it lets one more through.
pub open spec fn with_permitted(permitted: Seq<Seq<char>>, ip: Seq<char>) -> Seq<Seq<char>> {
    if permitted.contains(ip) { permitted } else { permitted.push(ip) }
}

/// What is to be done about a candidate: `ip` is its IP address, if it makes sense.
pub open spec fn candidate_step(
    relayed: bool,
    permitted: Seq<Seq<char>>,
    ip: Option<Seq<char>>,
) -> CandidateStep {
    match ip {
        None => CandidateStep::Ignore,
        Some(ip) => if relayed && !permitted.contains(ip) {
            CandidateStep::Permit(net::ipv4_of(ip))
        } else {
            CandidateStep::Add
        },
    }
}

impl Session {
    /// The frames that were handed on or dropped are among those that came in, and the relay
    /// was told of no IP address twice.
    pub open spec fn wf(&self) -> bool {
        &&& self.written + self.dropped <= self.received
        &&& texts(self.permitted@).no_duplicates()
    }

    /// The data of the peer in a datagram that has reached the address `to`, and which way
    /// they went: they are the datagram itself, unless it comes from the relay's server; then
    /// what it carries came from the peer to the relay's address.
    pub open spec fn incoming_data(
        &self,
        from: SocketAddr,
        to: SocketAddr,
        datagram: Seq<u8>,
    ) -> Option<(SocketAddr, SocketAddr, Seq<u8>)> {
        match self.relay {
            Some(relay) => if relay.turn.turn_addr == from {
                match turn::peer_data(datagram) {
                    Some((peer, data)) => Some((peer, relay.addr, data)),
                    None => None,
                }
            } else {
                Some((from, to, datagram))
            },
            None => Some((from, to, datagram)),
        }
    }

    /// The video counters and the video clock after a frame.
    pub open spec fn video_counted(&self, before: &Session, outcome: SendOutcome) -> bool {
        &&& self.received == before.received + 1
        &&& self.written == before.written + (if outcome == SendOutcome::Sent || outcome
            == SendOutcome::Failed { 1int } else { 0 })
        &&& self.dropped == before.dropped + (if outcome == SendOutcome::NotReady {
            1int
        } else {
            0
        })
        &&& self.video_ts as int == (before.video_ts + before.frame_ticks) % 0x1_0000_0000
    }

    /// Nothing has changed but the video counters and the video clock.
    pub open spec fn same_but_video(&self, before: &Session) -> bool {
        &&& self.ice_connected == before.ice_connected
        &&& self.relay == before.relay
        &&& self.permitted == before.permitted
        &&& self.refresh_at == before.refresh_at
        &&& self.audio_ts == before.audio_ts
        &&& self.frame_ticks == before.frame_ticks
        &&& self.transmitted == before.transmitted
    }

    /// A session that has not connected yet; `now` is the time in nanoseconds.
    pub fn new(relay: Option<Relay>, video_fps: u32, now: u128) -> (s: Session)
        requires
            now + REFRESH_INTERVAL <= u128::MAX,
        ensures
            s.wf(),
            !s.ice_connected,
            s.relay == relay,
            s.permitted@.len() == 0,
            s.refresh_at == now + REFRESH_INTERVAL,
            s.refresh_at == now + 240_000_000_000,
            s.video_ts == 0,
            s.audio_ts == 0,
            s.frame_ticks == ticks_per_frame(video_fps),
            s.received == 0 && s.written == 0 && s.dropped == 0 && s.transmitted == 0,
    {
        let fps: u32 = if video_fps > 0 { video_fps } else { DEFAULT_FPS };
        Session {
            ice_connected: false,
            relay,
            permitted: Vec::new(),
            refresh_at: now + REFRESH_INTERVAL,
            video_ts: 0,
            audio_ts: 0,
            frame_ticks: VIDEO_CLOCK / fps,
            received: 0,
            written: 0,
            dropped: 0,
            transmitted: 0,
        }
    }

    /// Takes in an event of the engine.
    pub fn on_event(&mut self, event: RtcEvent) -> (action: EventAction)
        ensures
            (final(self).ice_connected, action@) == event_effect(old(self).ice_connected, event@),
            *final(self) == (Session { ice_connected: final(self).ice_connected, ..*old(self) }),
    {
        match event {
            RtcEvent::Connected => {
                self.ice_connected = true;
                EventAction::StartMedia
            },
            RtcEvent::ChannelData(data) => EventAction::Forward(data),
            RtcEvent::IceStateChange(state) => match state {
                IceState::Connected => EventAction::RequestKeyframe,
                IceState::Completed => EventAction::RequestKeyframe,
                IceState::Disconnected => if self.ice_connected {
                    EventAction::End
                } else {
                    EventAction::Nothing
                },
                IceState::New => EventAction::Nothing,
                IceState::Checking => EventAction::Nothing,
            },
            RtcEvent::KeyframeRequest => EventAction::RequestKeyframe,
            RtcEvent::Other => EventAction::Nothing,
        }
    }

    /// Counts a video frame, and moves the video clock on. True every 300 frames: then
    /// statistics are due.
    pub fn count_video(&mut self, outcome: SendOutcome) -> (stats: bool)
        requires
            old(self).wf(),
            old(self).received < u64::MAX,
        ensures
            final(self).wf(),
            final(self).video_counted(old(self), outcome),
            final(self).same_but_video(old(self)),
            final(self).received == old(self).received + 1,
            outcome == SendOutcome::Sent || outcome == SendOutcome::Failed ==> {
                &&& final(self).written == old(self).written + 1
                &&& final(self).dropped == old(self).dropped
            },
            outcome == SendOutcome::NotReady ==> {
                &&& final(self).written == old(self).written
                &&& final(self).dropped == old(self).dropped + 1
            },
            outcome == SendOutcome::NoPayload ==> {
                &&& final(self).written == old(self).written
                &&& final(self).dropped == old(self).dropped
            },
            final(self).video_ts == (old(self).video_ts + old(self).frame_ticks) % 0x1_0000_0000,
            *final(self) == (Session {
                received: final(self).received,
                written: final(self).written,
                dropped: final(self).dropped,
                video_ts: final(self).video_ts,
                ..*old(self)
            }),
            stats == (final(self).received % 300 == 0),
    {
        self.received = self.received + 1;
        match outcome {
            SendOutcome::NotReady => {
                self.dropped = self.dropped + 1;
            },
            SendOutcome::NoPayload => {},
            SendOutcome::Sent => {
                self.written = self.written + 1;
            },
            SendOutcome::Failed => {
                self.written = self.written + 1;
            },
        }
        self.video_ts = self.video_ts.wrapping_add(self.frame_ticks);
        self.received % STATS_FRAMES == 0
    }

    /// Moves the audio clock on by a packet.
    pub fn count_audio(&mut self)
        ensures
            final(self).audio_ts as int == (old(self).audio_ts + 960) % 0x1_0000_0000,
            *final(self) == (Session { audio_ts: final(self).audio_ts, ..*old(self) }),
    {
        self.audio_ts = self.audio_ts.wrapping_add(AUDIO_TICKS);
    }

    /// Tests whether the relay allocation is to be refreshed now.
    pub fn refresh_due(&self, now: u128) -> (r: bool)
        ensures
            r == (self.relay is Some && now >= self.refresh_at),
    {
        self.relay.is_some() && now >= self.refresh_at
    }

    /// Takes note that the relay allocation was refreshed.
    pub fn refreshed(&mut self, now: u128)
        requires
            now + REFRESH_INTERVAL <= u128::MAX,
        ensures
            *final(self) == (Session { refresh_at: (now + REFRESH_INTERVAL) as u128, ..*old(self) }),
            final(self).refresh_at == now + 240_000_000_000,
    {
        self.refresh_at = now + REFRESH_INTERVAL;
    }

    fn is_permitted(&self, ip: &String) -> (r: bool)
        ensures
            r == texts(self.permitted@).contains(ip@),
    {
        let mut i: usize = 0;
        while i < self.permitted.len()
            invariant
                i <= self.permitted@.len(),
                forall|j: int| 0 <= j < i ==> texts(self.permitted@)[j] != ip@,
            decreases self.permitted.len() - i,
        {
            if self.permitted[i] == *ip {
                assert(texts(self.permitted@)[i as int] == ip@);
                return true;
            }
            i += 1;
        }
        false
    }

    /// Decides about a candidate of the peer: `ip` is its IP address, if it makes sense.
    pub fn on_candidate(&self, ip: &Option<String>) -> (step: CandidateStep)
        ensures
            step == candidate_step(
                self.relay is Some,
                texts(self.permitted@),
                match *ip {
                    Some(s) => Some(s@),
                    None => None,
                },
            ),
    {
        match ip {
            None => CandidateStep::Ignore,
            Some(s) => if self.relay.is_some() && !self.is_permitted(s) {
                let chars = text::chars_of(s.as_str());
                CandidateStep::Permit(net::parse_ipv4(chars.as_slice()))
            } else {
                CandidateStep::Add
            },
        }
    }

    /// Takes note that the relay lets a peer through.
    pub fn permit(&mut self, ip: String)
        requires
            old(self).wf(),
        ensures
            final(self).wf(),
            texts(final(self).permitted@) == with_permitted(texts(old(self).permitted@), ip@),
            *final(self) == (Session { permitted: final(self).permitted, ..*old(self) }),
    {
        if !self.is_permitted(&ip) {
            let ghost before = texts(self.permitted@);
            self.permitted.push(ip);
            assert(texts(self.permitted@) =~= before.push(ip@));
        }
    }

    /// Finds the way for a datagram of the engine: what leaves from the relay's address
    /// goes to the relay's server.
    pub fn route(&mut self, source: SocketAddr, destination: SocketAddr, contents: &[u8]) -> (r:
        Route)
        requires
            old(self).transmitted < u64::MAX,
        ensures
            *final(self) == (Session {
                transmitted: (old(self).transmitted + 1) as u64,
                ..*old(self)
            }),
            match r {
                Route::Direct => !(old(self).relay matches Some(relay) && relay.addr == source),
                Route::Relayed { to, message } => {
                    &&& old(self).relay matches Some(relay) && relay.addr == source
                        && relay.turn.turn_addr == to
                    &&& exists|nanos: u128|
                        message@ == stun::message(
                            turn::SEND_INDICATION,
                            turn::data_attrs(destination, contents@),
                            stun::txn_id_bytes(nanos),
                        )
                },
            },
    {
        self.transmitted = self.transmitted + 1;
        match &self.relay {
            Some(relay) => if source == relay.addr {
                let message = turn::build_turn_send_indication(destination, contents);
                Route::Relayed { to: relay.turn.turn_addr, message }
            } else {
                Route::Direct
            },
            None => Route::Direct,
        }
    }

    /// Finds the data of the peer in a datagram that has reached the address `to`, and which
    /// way they went.
    pub fn incoming<'a>(&self, from: SocketAddr, to: SocketAddr, datagram: &'a [u8]) -> (r: Option<
        (SocketAddr, SocketAddr, &'a [u8]),
    >)
        ensures
            match r {
                Some((source, destination, data)) => self.incoming_data(from, to, datagram@)
                    == Some((source, destination, data@)),
                None => self.incoming_data(from, to, datagram@) is None,
            },
            !(self.relay matches Some(relay) && relay.turn.turn_addr == from) ==> (r matches Some(
                (source, destination, data),
            ) && source == from && destination == to && data@ == datagram@),
            self.relay matches Some(relay) ==> relay.turn.turn_addr == from ==> match r {
                Some((source, destination, data)) => turn::peer_data(datagram@) == Some(
                    (source, data@),
                ) && destination == relay.addr,
                None => turn::peer_data(datagram@) is None,
            },
    {
        match &self.relay {
            Some(relay) => if from == relay.turn.turn_addr {
                match turn::parse_turn_data(datagram) {
                    Some((peer, data)) => Some((peer, relay.addr, data)),
                    None => None,
                }
            } else {
                Some((from, to, datagram))
            },
            None => Some((from, to, datagram)),
        }
    }
}

/// How long to wait for a datagram, in nanoseconds, where the engine's own timeout is that
/// far away.
pub fn poll_wait(timeout: u128) -> (wait: u128)
    ensures
        wait == (if timeout < MAX_WAIT { timeout } else { MAX_WAIT }),
        wait <= timeout,
        wait <= 5_000_000,
        wait == timeout || wait == 5_000_000,
{
    if timeout < MAX_WAIT {
        timeout
    } else {
        MAX_WAIT
    }
}

/// The place on a clock of 32 bits after a number of steps.
pub open spec fn clock_after(start: u32, ticks: u32, n: nat) -> int
    decreases n,
{
    if n == 0 {
        start as int
    } else {
        (clock_after(start, ticks, (n - 1) as nat) + ticks) % 0x1_0000_0000
    }
}

/// Each frame moves the clock on by the same ticks, however many have been sent and
/// whatever became of them; the clock starts over at 2^32.
pub proof fn law_clock_is_steady(start: u32, ticks: u32, n: nat)
    ensures
        clock_after(start, ticks, n) == (start + n * ticks) % 0x1_0000_0000,
    decreases n,
{
    if n == 0 {
        assert(n * ticks == 0) by (nonlinear_arith)
            requires
                n == 0,
        ;
    } else {
        law_clock_is_steady(start, ticks, (n - 1) as nat);
        let m = n - 1;
        assert(n * ticks == m * ticks + ticks) by (nonlinear_arith)
            requires
                n == m + 1,
        ;
    }
}

/// The frames of a second take up a second of the video clock, but for what is lost to
/// rounding: less than a tick for each of them.
pub proof fn law_second_of_video(fps: u32)
    requires
        fps > 0,
    ensures
        fps * ticks_per_frame(fps) <= VIDEO_CLOCK,
        VIDEO_CLOCK < fps * ticks_per_frame(fps) + fps,
        VIDEO_CLOCK as int % fps as int == 0 ==> fps * ticks_per_frame(fps) == VIDEO_CLOCK,
{
    let (c, f) = (VIDEO_CLOCK as int, fps as int);
    vstd::arithmetic::div_mod::lemma_fundamental_div_mod(c, f);
    vstd::arithmetic::div_mod::lemma_mod_bound(c, f);
}

/// A relay allocation is refreshed before the lifetime that a refresh asks for runs out.
pub proof fn law_refreshed_before_expiry(now: u128)
    ensures
        now + REFRESH_INTERVAL < now + turn::REFRESH_LIFETIME * 1_000_000_000,
{
}

/// The relay is asked only once to let an IP address through.
pub proof fn law_permission_asked_once(relayed: bool, permitted: Seq<Seq<char>>, ip: Seq<char>)
    ensures
        candidate_step(relayed, with_permitted(permitted, ip), Some(ip)) == CandidateStep::Add,
{
    assert(permitted.push(ip)[permitted.len() as int] == ip);
}

/// Whether media can be sent after a number of events of a session.
pub open spec fn connected_after(events: Seq<EventView>) -> bool
    decreases events.len(),
{
    if events.len() == 0 {
        false
    } else {
        event_effect(connected_after(events.drop_last()), events.last()).0
    }
}

/// Media can be sent once the engine has reported that it is connected, and from then on.
pub proof fn law_connected_once_reported(events: Seq<EventView>)
    ensures
        connected_after(events) <==> exists|i: int|
            0 <= i < events.len() && events[i] == EventView::Connected,
    decreases events.len(),
{
    if events.len() > 0 {
        let before = events.drop_last();
        law_connected_once_reported(before);
        if connected_after(before) {
            let i = choose|i: int| 0 <= i < before.len() && before[i] == EventView::Connected;
            assert(events[i] == EventView::Connected);
        }
        if exists|i: int| 0 <= i < events.len() && events[i] == EventView::Connected {
            let i = choose|i: int| 0 <= i < events.len() && events[i] == EventView::Connected;
            if i < before.len() {
                assert(before[i] == EventView::Connected);
            }
        }
    }
}

/// A session ends exactly when the connection is lost after it was there: a failed attempt
/// to connect does not end it.
pub proof fn law_session_ends_on_loss(events: Seq<EventView>, event: EventView)
    ensures
        event_effect(connected_after(events), event).1 is End <==> event
            == EventView::IceStateChange(IceState::Disconnected) && exists|i: int|
            0 <= i < events.len() && events[i] == EventView::Connected,
{
    law_connected_once_reported(events);
}

/// Media starts exactly when the engine reports that it is connected; every message of the
/// control channel is handed on, byte for byte, and nothing else is; a keyframe is asked for
/// exactly when the peer wants one or the connection gets better; and nothing but a report that
/// the engine is connected changes whether media can be sent.
pub proof fn law_events_acted_on(connected: bool, event: EventView)
    ensures
        event_effect(connected, event).0 == (connected || event is Connected),
        event_effect(connected, event).1 is StartMedia <==> event is Connected,
        match event {
            EventView::ChannelData(data) => event_effect(connected, event).1 matches
                EventEffect::Forward(sent) && sent.len() == data.len() && forall|i: int|
                0 <= i < data.len() ==> sent[i] == data[i],
            _ => !(event_effect(connected, event).1 is Forward),
        },
        event_effect(connected, event).1 is RequestKeyframe <==> event is KeyframeRequest || event
            == EventView::IceStateChange(IceState::Connected) || event
            == EventView::IceStateChange(IceState::Completed),
        event_effect(connected, event).1 is End <==> connected && event
            == EventView::IceStateChange(IceState::Disconnected),
{
}

/// What an event and an action carry is what they are seen to carry, byte for byte.
pub proof fn law_events_seen_whole(event: RtcEvent, action: EventAction)
    ensures
        match event {
            RtcEvent::Connected => event@ is Connected,
            RtcEvent::ChannelData(v) => event@ matches EventView::ChannelData(s) && s == v@,
            RtcEvent::IceStateChange(i) => event@ == EventView::IceStateChange(i),
            RtcEvent::KeyframeRequest => event@ is KeyframeRequest,
            RtcEvent::Other => event@ is Other,
        },
        match action {
            EventAction::Nothing => action@ is Nothing,
            EventAction::StartMedia => action@ is StartMedia,
            EventAction::RequestKeyframe => action@ is RequestKeyframe,
            EventAction::Forward(v) => action@ matches EventEffect::Forward(s) && s == v@,
            EventAction::End => action@ is End,
        },
{
}

/// A candidate is passed over exactly where it makes no sense. It waits for the relay exactly
/// where there is one that does not let its IP address through yet: the relay is asked by the
/// number that the address is the notation of, if it is that of an IPv4 address. Any other goes
/// to the engine.
pub proof fn law_candidates_decided(
    relayed: bool,
    permitted: Seq<Seq<char>>,
    ip: Option<Seq<char>>,
    a: u32,
)
    ensures
        candidate_step(relayed, permitted, ip) is Ignore <==> ip is None,
        candidate_step(relayed, permitted, ip) is Permit <==> relayed && (ip matches Some(s)
            && forall|i: int| 0 <= i < permitted.len() ==> #[trigger] permitted[i] != s),
        candidate_step(relayed, permitted, ip) is Permit ==> (candidate_step(
            relayed,
            permitted,
            ip,
        ) == CandidateStep::Permit(Some(a)) <==> ip == Some(net::ipv4_text(a))),
        candidate_step(relayed, permitted, ip) == CandidateStep::Permit(None) ==> ip != Some(
            net::ipv4_text(a),
        ),
{
    if let Some(s) = ip {
        if permitted.contains(s) {
            let i = choose|i: int| 0 <= i < permitted.len() && permitted[i] == s;
            assert(permitted[i] == s);
        }
        if s == net::ipv4_text(a) {
            net::law_ipv4_text_injective(a, net::ipv4_of(s)->0);
        }
    }
}

/// Once the relay lets an IP address through, it is on the list, behind those that were there
/// before, all of which stay in order; it is there only once.
pub proof fn law_permissions_pile_up(permitted: Seq<Seq<char>>, ip: Seq<char>)
    ensures
        ({
            let after = with_permitted(permitted, ip);
            &&& after.contains(ip)
            &&& permitted.is_prefix_of(after)
            &&& after.len() <= permitted.len() + 1
            &&& after.len() == permitted.len() <==> permitted.contains(ip)
            &&& permitted.no_duplicates() ==> after.no_duplicates()
            &&& forall|s: Seq<char>| #[trigger]
                after.contains(s) ==> s == ip || permitted.contains(s)
        }),
{
    let after = with_permitted(permitted, ip);
    assert(permitted.push(ip)[permitted.len() as int] == ip);
    assert(permitted =~= after.take(permitted.len() as int));
    assert forall|s: Seq<char>| #[trigger] after.contains(s) implies s == ip || permitted.contains(
        s,
    ) by {
        let i = choose|i: int| 0 <= i < after.len() && after[i] == s;
        if i < permitted.len() {
            assert(permitted[i] == s);
        }
    }
}

impl Session {
    /// Whatever does not come from the relay's server is the peer's own datagram, taken as it
    /// is; what comes from there is unwrapped, and went to the relay's address.
    pub proof fn law_incoming_told_apart(
        &self,
        from: SocketAddr,
        to: SocketAddr,
        datagram: Seq<u8>,
        peer: SocketAddr,
        data: Seq<u8>,
    )
        ensures
            !(self.relay matches Some(relay) && relay.turn.turn_addr == from)
                ==> self.incoming_data(from, to, datagram) == Some((from, to, datagram)),
            self.relay matches Some(relay) ==> relay.turn.turn_addr == from ==> (
            self.incoming_data(from, to, datagram) == Some((peer, relay.addr, data))
                <==> turn::peer_data(datagram) == Some((peer, data))),
            self.relay matches Some(relay) && relay.turn.turn_addr == from
                && self.incoming_data(from, to, datagram) is None ==> turn::peer_data(datagram)
                is None,
    {
    }

    /// Counts and clock after a frame: one more came in, one more was handed on or dropped, or
    /// neither, and the clock has moved by the ticks of a frame.
    pub proof fn law_each_frame_counts_once(&self, before: &Session, outcome: SendOutcome)
        requires
            self.video_counted(before, outcome),
            self.same_but_video(before),
        ensures
            self.received == before.received + 1,
            self.written == before.written + (match outcome {
                SendOutcome::Sent => 1int,
                SendOutcome::Failed => 1,
                _ => 0,
            }),
            self.dropped == before.dropped + (match outcome {
                SendOutcome::NotReady => 1int,
                _ => 0,
            }),
            self.video_ts == (before.video_ts + before.frame_ticks) % 0x1_0000_0000,
            self.audio_ts == before.audio_ts && self.transmitted == before.transmitted,
            self.relay == before.relay && self.permitted == before.permitted,
            self.refresh_at == before.refresh_at && self.ice_connected == before.ice_connected,
            self.frame_ticks == before.frame_ticks,
    {
    }
}

/// Where no rate is configured, there are fifteen frames in a second.
pub proof fn law_default_rate()
    ensures
        ticks_per_frame(0) == 6000,
        15 * ticks_per_frame(0) == 90000,
{
}

/// The texts of a list are those of its entries, in order.
pub proof fn law_texts_in_order(v: Seq<String>)
    ensures
        texts(v).len() == v.len(),
        forall|i: int| 0 <= i < v.len() ==> texts(v)[i] == (#[trigger] v[i])@,
{
}

/// There is a login for a relay exactly where server, name and password are configured, and
/// it has all three as they are.
pub proof fn law_login_takes_all_three(cfg: &IceConfig, r: Option<TurnLogin>)
    requires
        call_ensures(turn_login, (cfg,), r),
    ensures
        r is Some <==> cfg.turn_url is Some && cfg.turn_username is Some && cfg.turn_password
            is Some,
        r matches Some(login) ==> {
            &&& login.url@ == cfg.turn_url->0@
            &&& login.username@ == cfg.turn_username->0@
            &&& login.password@ == cfg.turn_password->0@
        },
{
}

/// The servers are asked in order, each once, until one has answered.
pub proof fn law_servers_asked_in_order(servers: usize, tried: usize, found: bool, r: Option<usize>)
    requires
        call_ensures(next_stun_server, (servers, tried, found), r),
    ensures
        r is Some <==> !found && tried < servers,
        r matches Some(i) ==> i == tried,
{
}

/// A new session has not connected, knows its relay, has let nobody through and sent nothing;
/// its relay is to be refreshed in four minutes.
pub proof fn law_new_session(relay: Option<Relay>, fps: u32, now: u128, s: Session)
    requires
        call_ensures(Session::new, (relay, fps, now), s),
    ensures
        s.wf(),
        !s.ice_connected,
        s.relay == relay,
        s.permitted@.len() == 0,
        s.refresh_at == now + 240_000_000_000,
        s.video_ts == 0 && s.audio_ts == 0,
        s.frame_ticks == ticks_per_frame(fps),
        s.received == 0 && s.written == 0 && s.dropped == 0 && s.transmitted == 0,
{
}

/// An event changes at most whether media can be sent.
pub proof fn law_event_taken_in(s: &mut Session, event: RtcEvent, action: EventAction)
    requires
        call_ensures(Session::on_event, (s, event), action),
    ensures
        (final(s).ice_connected, action@) == event_effect(old(s).ice_connected, event@),
        *final(s) == (Session { ice_connected: final(s).ice_connected, ..*old(s) }),
{
}

/// A frame changes only the counts of frames and the video clock; statistics are due with
/// every three hundredth frame that comes in.
pub proof fn law_frame_counted(s: &mut Session, outcome: SendOutcome, stats: bool)
    requires
        call_ensures(Session::count_video, (s, outcome), stats),
    ensures
        final(s).received == old(s).received + 1,
        final(s).written - old(s).written == (if outcome == SendOutcome::Sent || outcome
            == SendOutcome::Failed {
            1int
        } else {
            0
        }),
        final(s).dropped - old(s).dropped == (if outcome == SendOutcome::NotReady {
            1int
        } else {
            0
        }),
        final(s).video_ts == (old(s).video_ts + old(s).frame_ticks) % 0x1_0000_0000,
        *final(s) == (Session {
            received: final(s).received,
            written: final(s).written,
            dropped: final(s).dropped,
            video_ts: final(s).video_ts,
            ..*old(s)
        }),
        stats <==> (old(s).received + 1) % 300 == 0,
{
}

/// A packet moves the audio clock on by twenty milliseconds, and nothing else.
pub proof fn law_packet_counted(s: &mut Session)
    requires
        call_ensures(Session::count_audio, (s,), ()),
    ensures
        final(s).audio_ts == (old(s).audio_ts + 960) % 0x1_0000_0000,
        *final(s) == (Session { audio_ts: final(s).audio_ts, ..*old(s) }),
{
}

/// A relay that was refreshed is to be refreshed again in four minutes, and not before.
pub proof fn law_refreshed_every_four_minutes(s: &mut Session, now: u128, later: u128, due: bool)
    requires
        call_ensures(Session::refreshed, (s, now), ()),
        call_ensures(Session::refresh_due, (&*final(s), later), due),
    ensures
        *final(s) == (Session { refresh_at: final(s).refresh_at, ..*old(s) }),
        final(s).refresh_at == now + 240_000_000_000,
        due <==> old(s).relay is Some && later >= now + 240_000_000_000,
{
}

/// Once a peer is let through, its candidate goes to the engine, and nothing else has changed.
pub proof fn law_permitted_peer_added(
    s: &mut Session,
    ip: String,
    asked: &Option<String>,
    step: CandidateStep,
)
    requires
        call_ensures(Session::permit, (s, ip), ()),
        call_ensures(Session::on_candidate, (&*final(s), asked), step),
    ensures
        texts(final(s).permitted@) == with_permitted(texts(old(s).permitted@), ip@),
        *final(s) == (Session { permitted: final(s).permitted, ..*old(s) }),
        asked is None ==> step == CandidateStep::Ignore,
        asked matches Some(a) ==> step == candidate_step(
            old(s).relay is Some,
            with_permitted(texts(old(s).permitted@), ip@),
            Some(a@),
        ),
        asked matches Some(a) ==> a@ == ip@ ==> step == CandidateStep::Add,
{
    law_permission_asked_once(old(s).relay is Some, texts(old(s).permitted@), ip@);
}

/// A datagram leaves through the relay exactly where it comes from the relay's address; then it
/// goes to the relay's server, wrapped for its destination, whole.
pub proof fn law_routed_by_source(
    s: &mut Session,
    source: SocketAddr,
    destination: SocketAddr,
    contents: &[u8],
    r: Route,
)
    requires
        old(s).transmitted < u64::MAX,
        call_ensures(Session::route, (s, source, destination, contents), r),
    ensures
        final(s).transmitted == old(s).transmitted + 1,
        *final(s) == (Session { transmitted: final(s).transmitted, ..*old(s) }),
        r is Direct <==> !(old(s).relay matches Some(relay) && relay.addr == source),
        r matches Route::Relayed { to, message } ==> {
            &&& old(s).relay matches Some(relay) && relay.turn.turn_addr == to
            &&& exists|nanos: u128|
                message@ == stun::message(
                    0x0016,
                    turn::data_attrs(destination, contents@),
                    stun::txn_id_bytes(nanos),
                )
        },
{
}

/// What comes in is told apart as stated.
pub proof fn law_incoming_as_stated(
    s: &Session,
    from: SocketAddr,
    to: SocketAddr,
    datagram: &[u8],
    r: Option<(SocketAddr, SocketAddr, &[u8])>,
)
    requires
        call_ensures(Session::incoming, (s, from, to, datagram), r),
    ensures
        match r {
            Some((source, destination, data)) => s.incoming_data(from, to, datagram@) == Some(
                (source, destination, data@),
            ),
            None => s.incoming_data(from, to, datagram@) is None,
        },
{
}

/// The wait ends with the engine's timeout, or after five milliseconds, whichever comes first.
pub proof fn law_wait_is_short(timeout: u128, wait: u128)
    requires
        call_ensures(poll_wait, (timeout,), wait),
    ensures
        wait <= timeout && wait <= 5_000_000,
        wait == timeout || wait == 5_000_000,
{
}

/// A session is well-formed exactly where no more frames were handed on or dropped than came
/// in, and no IP address is on the list twice.
pub proof fn law_well_formed(s: &Session)
    ensures
        s.wf() <==> s.written + s.dropped <= s.received && (forall|i: int, j: int|
            0 <= i < j < s.permitted@.len() ==> (#[trigger] s.permitted@[i])@ != (
            #[trigger] s.permitted@[j])@),
{
    let t = texts(s.permitted@);
    assert forall|i: int| 0 <= i < t.len() implies #[trigger] t[i] == s.permitted@[i]@ by {}
    if s.wf() {
        assert forall|i: int, j: int| 0 <= i < j < s.permitted@.len() implies (
        #[trigger] s.permitted@[i])@ != (#[trigger] s.permitted@[j])@ by {
            assert(t[i] != t[j]);
        }
    } else if s.written + s.dropped <= s.received {
        let (i, j) = choose|i: int, j: int|
            0 <= i < t.len() && 0 <= j < t.len() && i != j && t[i] == t[j];
        let (a, b) = if i < j { (i, j) } else { (j, i) };
        assert(s.permitted@[a]@ == s.permitted@[b]@);
    }
}

} // verus!
