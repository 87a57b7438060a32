use any_kvm_agent::config::IceConfig;
use any_kvm_agent::net::IpAddr;
use any_kvm_agent::net::SocketAddr;
use any_kvm_agent::session::next_stun_server;
use any_kvm_agent::session::poll_wait;
use any_kvm_agent::session::turn_login;
use any_kvm_agent::session::CandidateStep;
use any_kvm_agent::session::EventAction;
use any_kvm_agent::session::IceState;
use any_kvm_agent::session::Relay;
use any_kvm_agent::session::Route;
use any_kvm_agent::session::RtcEvent;
use any_kvm_agent::session::SendOutcome;
use any_kvm_agent::session::Session;
use any_kvm_agent::stun::parse_stun_attr;
use any_kvm_agent::turn::send_indication;
use any_kvm_agent::turn::TurnState;

const SECOND: u128 = 1_000_000_000;

fn v4(ip: [u8; 4], port: u16) -> SocketAddr {
    SocketAddr { ip: IpAddr::V4(u32::from_be_bytes(ip)), port }
}

fn server() -> SocketAddr {
    v4([203, 0, 113, 7], 3478)
}

fn relay() -> Relay {
    Relay {
        addr: v4([203, 0, 113, 7], 49160),
        turn: TurnState {
            turn_addr: server(),
            realm: b"r".to_vec(),
            nonce: b"n".to_vec(),
            username: "u".to_string(),
            password: "p".to_string(),
        },
    }
}

#[test]
fn frames_last_as_long_as_the_rate_says() {
    assert_eq!(Session::new(None, 15, 0).frame_ticks, 6000);
    assert_eq!(Session::new(None, 30, 0).frame_ticks, 3000);
    assert_eq!(Session::new(None, 7, 0).frame_ticks, 12857);
    assert_eq!(Session::new(None, 0, 0).frame_ticks, 6000);
    assert_eq!(Session::new(None, 100_000, 0).frame_ticks, 0);
}

#[test]
fn fresh_session_is_not_connected() {
    let s = Session::new(None, 15, 5);
    assert!(!s.ice_connected);
    assert_eq!((s.video_ts, s.audio_ts), (0, 0));
    assert_eq!((s.received, s.written, s.dropped, s.transmitted), (0, 0, 0, 0));
    assert_eq!(s.refresh_at, 5 + 240 * SECOND);
    assert!(s.permitted.is_empty());
}

#[test]
fn media_starts_once_connected() {
    let mut s = Session::new(None, 15, 0);
    assert_eq!(s.on_event(RtcEvent::Connected), EventAction::StartMedia);
    assert!(s.ice_connected);
}

#[test]
fn session_ends_when_an_established_connection_is_lost() {
    let mut s = Session::new(None, 15, 0);
    let lost = RtcEvent::IceStateChange(IceState::Disconnected);
    assert_eq!(s.on_event(lost.clone()), EventAction::Nothing);
    s.on_event(RtcEvent::Connected);
    assert_eq!(s.on_event(lost), EventAction::End);
}

#[test]
fn keyframes_are_requested_early_and_on_demand() {
    let mut s = Session::new(None, 15, 0);
    let ice = RtcEvent::IceStateChange;
    assert_eq!(s.on_event(ice(IceState::Connected)), EventAction::RequestKeyframe);
    assert_eq!(s.on_event(ice(IceState::Completed)), EventAction::RequestKeyframe);
    assert_eq!(s.on_event(RtcEvent::KeyframeRequest), EventAction::RequestKeyframe);
    assert_eq!(s.on_event(ice(IceState::New)), EventAction::Nothing);
    assert_eq!(s.on_event(ice(IceState::Checking)), EventAction::Nothing);
    assert_eq!(s.on_event(RtcEvent::Other), EventAction::Nothing);
    assert!(!s.ice_connected);
}

#[test]
fn control_frames_are_handed_on() {
    let mut s = Session::new(None, 15, 0);
    assert_eq!(
        s.on_event(RtcEvent::ChannelData(vec![1, 2, 3])),
        EventAction::Forward(vec![1, 2, 3])
    );
}

#[test]
fn video_frames_are_counted() {
    let mut s = Session::new(None, 15, 0);
    assert!(!s.count_video(SendOutcome::NotReady));
    assert!(!s.count_video(SendOutcome::NoPayload));
    assert!(!s.count_video(SendOutcome::Sent));
    assert!(!s.count_video(SendOutcome::Failed));
    assert_eq!((s.received, s.written, s.dropped), (4, 2, 1));
    assert_eq!(s.video_ts, 24000);
}

#[test]
fn statistics_are_due_every_300_frames() {
    let mut s = Session::new(None, 15, 0);
    let due: Vec<u64> =
        (1..=900).filter(|_| s.count_video(SendOutcome::Sent)).collect();
    assert_eq!(due, [300, 600, 900]);
}

#[test]
fn clocks_wrap_around() {
    let mut s = Session::new(None, 15, 0);
    s.video_ts = u32::MAX - 999;
    s.count_video(SendOutcome::Sent);
    assert_eq!(s.video_ts, 5000);
    s.audio_ts = u32::MAX;
    s.count_audio();
    assert_eq!(s.audio_ts, 959);
    s.count_audio();
    assert_eq!(s.audio_ts, 1919);
}

#[test]
fn relay_is_refreshed_every_four_minutes() {
    let mut s = Session::new(Some(relay()), 15, SECOND);
    assert!(!s.refresh_due(241 * SECOND - 1));
    assert!(s.refresh_due(241 * SECOND));
    s.refreshed(242 * SECOND);
    assert!(!s.refresh_due(481 * SECOND));
    assert!(s.refresh_due(482 * SECOND));
    assert!(!Session::new(None, 15, 0).refresh_due(u128::MAX));
}

#[test]
fn relay_lets_each_peer_through_once() {
    let mut s = Session::new(Some(relay()), 15, 0);
    let ip = Some("192.168.1.5".to_string());
    assert_eq!(s.on_candidate(&None), CandidateStep::Ignore);
    assert_eq!(s.on_candidate(&ip), CandidateStep::Permit(Some(0xC0A8_0105)));
    s.permit("192.168.1.5".to_string());
    assert_eq!(s.on_candidate(&ip), CandidateStep::Add);
    assert_eq!(s.on_candidate(&Some("fe80::1".to_string())), CandidateStep::Permit(None));
    s.permit("192.168.1.5".to_string());
    assert_eq!(s.permitted, ["192.168.1.5"]);
    s.permit("fe80::1".to_string());
    assert_eq!(s.permitted, ["192.168.1.5", "fe80::1"]);
}

#[test]
fn without_a_relay_candidates_are_added() {
    let s = Session::new(None, 15, 0);
    assert_eq!(s.on_candidate(&Some("1.2.3.4".to_string())), CandidateStep::Add);
    assert_eq!(s.on_candidate(&None), CandidateStep::Ignore);
}

#[test]
fn datagrams_leave_through_the_relay_or_straight() {
    let mut s = Session::new(Some(relay()), 15, 0);
    let peer = v4([198, 51, 100, 2], 5000);
    match s.route(v4([203, 0, 113, 7], 49160), peer, b"data") {
        Route::Relayed { to, message } => {
            assert_eq!(to, server());
            assert_eq!(&message[..2], &[0, 0x16]);
            assert_eq!(parse_stun_attr(&message, 0x0013), Some(&b"data"[..]));
        }
        Route::Direct => panic!("not relayed"),
    }
    assert!(matches!(s.route(v4([192, 168, 1, 5], 4000), peer, b"data"), Route::Direct));
    assert_eq!(s.transmitted, 2);
    let mut direct = Session::new(None, 15, 0);
    assert!(matches!(direct.route(v4([203, 0, 113, 7], 49160), peer, b"data"), Route::Direct));
}

#[test]
fn incoming_datagrams_are_told_apart() {
    let s = Session::new(Some(relay()), 15, 0);
    let peer = v4([198, 51, 100, 2], 5000);
    let mut data = send_indication(peer, b"data", &[0; 12]);
    data[1] = 0x17;
    let here = v4([192, 168, 1, 5], 5000);
    let relayed = v4([203, 0, 113, 7], 49160);
    assert_eq!(s.incoming(server(), here, &data), Some((peer, relayed, &b"data"[..])));
    assert_eq!(s.incoming(server(), here, b"other"), None);
    assert_eq!(s.incoming(peer, here, &data), Some((peer, here, &data[..])));
    let direct = Session::new(None, 15, 0);
    assert_eq!(direct.incoming(server(), here, &data), Some((server(), here, &data[..])));
}

#[test]
fn waits_are_short() {
    assert_eq!(poll_wait(0), 0);
    assert_eq!(poll_wait(4_999_999), 4_999_999);
    assert_eq!(poll_wait(5_000_000), 5_000_000);
    assert_eq!(poll_wait(SECOND), 5_000_000);
}

#[test]
fn stun_servers_are_asked_until_one_answers() {
    assert_eq!(next_stun_server(2, 0, false), Some(0));
    assert_eq!(next_stun_server(2, 1, false), Some(1));
    assert_eq!(next_stun_server(2, 2, false), None);
    assert_eq!(next_stun_server(2, 1, true), None);
    assert_eq!(next_stun_server(0, 0, false), None);
}

#[test]
fn relay_login_takes_all_three_parts() {
    let mut cfg = IceConfig {
        stun_servers: vec![],
        turn_url: Some("turn:h".to_string()),
        turn_username: Some("u".to_string()),
        turn_password: Some("p".to_string()),
    };
    let login = turn_login(&cfg).unwrap();
    assert_eq!((login.url.as_str(), login.username.as_str(), login.password.as_str()), ("turn:h", "u", "p"));
    cfg.turn_password = None;
    assert!(turn_login(&cfg).is_none());
    cfg.turn_password = Some("p".to_string());
    cfg.turn_username = None;
    assert!(turn_login(&cfg).is_none());
    cfg.turn_username = Some("u".to_string());
    cfg.turn_url = None;
    assert!(turn_login(&cfg).is_none());
}
