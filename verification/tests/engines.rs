use any_kvm_agent::answer::can_accept;
use any_kvm_agent::engine::handle_event;
use any_kvm_agent::engine::plan_audio;
use any_kvm_agent::engine::plan_video;
use any_kvm_agent::engine::remote_candidate;
use any_kvm_agent::engine::AnswerError;
use any_kvm_agent::engine::Codec;
use any_kvm_agent::engine::Engine;
use any_kvm_agent::engine::Payload;
use any_kvm_agent::engine::SendPlan;
use any_kvm_agent::net::IpAddr;
use any_kvm_agent::net::SocketAddr;
use any_kvm_agent::session::CandidateStep;
use any_kvm_agent::session::EventAction;
use any_kvm_agent::session::Relay;
use any_kvm_agent::session::RtcEvent;
use any_kvm_agent::session::SendOutcome;
use any_kvm_agent::session::Session;
use any_kvm_agent::turn::TurnState;
use str0m::change::SdpOffer;
use str0m::media::KeyframeRequest;
use str0m::media::KeyframeRequestKind;
use str0m::Event;
use str0m::IceConnectionState;
use str0m::Rtc;

const HOST: &str = "candidate:1 1 udp 2122260223 192.168.1.5 50028 typ host";

fn payload(pt: u8, codec: Codec, packetization_mode: Option<u8>) -> Payload {
    Payload { pt, codec, packetization_mode }
}

fn connected() -> Session {
    let mut s = Session::new(None, 15, 0);
    s.on_event(RtcEvent::Connected);
    s
}

fn answer_to(offer: &str) -> String {
    let mut peer = Rtc::new();
    let offer = SdpOffer::from_sdp_string(offer).unwrap();
    peer.sdp_api().accept_offer(offer).unwrap().to_sdp_string()
}

#[test]
fn h264_that_may_cut_pictures_up_is_preferred() {
    let some = |v: Vec<Payload>| plan_video(&Some(v));
    let cut = payload(102, Codec::H264, Some(1));
    let whole = payload(104, Codec::H264, Some(0));
    let open = payload(106, Codec::H264, None);
    let vp8 = payload(96, Codec::Other, Some(1));
    assert_eq!(some(vec![vp8, whole, open, cut]), SendPlan::Write(102));
    assert_eq!(some(vec![vp8, open, whole]), SendPlan::Write(106));
    assert_eq!(some(vec![vp8, whole]), SendPlan::Write(104));
    assert_eq!(some(vec![vp8]), SendPlan::NoPayload);
    assert_eq!(some(vec![]), SendPlan::NoPayload);
    assert_eq!(plan_video(&None), SendPlan::NotReady);
}

#[test]
fn audio_takes_the_first_format() {
    let opus = payload(111, Codec::Other, None);
    let other = payload(9, Codec::Other, None);
    assert_eq!(plan_audio(&Some(vec![opus, other])), SendPlan::Write(111));
    assert_eq!(plan_audio(&Some(vec![])), SendPlan::NoPayload);
    assert_eq!(plan_audio(&None), SendPlan::NotReady);
}

#[test]
fn offer_holds_both_media_and_the_control_channel() {
    let mut engine = Engine::new();
    let offer = engine.build_full_offer().unwrap();
    assert_eq!(offer.sdp.matches("m=video").count(), 1);
    assert_eq!(offer.sdp.matches("m=audio").count(), 1);
    assert_eq!(offer.sdp.matches("m=application").count(), 1);
    assert_eq!(offer.sdp.matches("a=sendonly").count(), 2);
    assert!(offer.sdp.contains("anykvm"));
    assert!(offer.video != offer.audio);
}

#[test]
fn answer_to_the_offer_is_accepted() {
    let mut engine = Engine::new();
    let offer = engine.build_full_offer().unwrap();
    let answer = answer_to(&offer.sdp);
    assert_eq!(engine.accept_answer(offer.pending, &answer), Ok(()));
}

#[test]
fn answer_that_is_no_description_is_malformed() {
    let mut engine = Engine::new();
    let offer = engine.build_full_offer().unwrap();
    assert_eq!(
        engine.accept_answer(offer.pending, "hello"),
        Err(AnswerError::Malformed)
    );
}

#[test]
fn answer_to_a_stale_offer_is_refused() {
    let mut engine = Engine::new();
    let stale = engine.build_full_offer().unwrap();
    let fresh = engine.build_full_offer().unwrap();
    let answer = answer_to(&fresh.sdp);
    assert_eq!(engine.accept_answer(stale.pending, &answer), Err(AnswerError::Refused));
}

#[test]
fn answer_that_names_a_line_twice_is_not_accepted() {
    let mut engine = Engine::new();
    let offer = engine.build_full_offer().unwrap();
    let answer = answer_to(&offer.sdp);
    let video = format!("a=mid:{}\r\n", &*offer.video);
    let audio = format!("a=mid:{}\r\n", &*offer.audio);
    assert!(answer.contains(&video) && answer.contains(&audio));
    let clashing = answer.replace(&audio, &video);
    assert_eq!(engine.accept_answer(offer.pending, &clashing), Err(AnswerError::Unfit));
    let again = engine.build_full_offer().unwrap();
    let answer = answer_to(&again.sdp);
    assert_eq!(engine.accept_answer(again.pending, &answer), Ok(()));
}

#[test]
fn answers_must_not_clash() {
    let takes = |lines: &str| can_accept(&format!("v=0\r\nm=x\r\n{lines}"));
    assert!(can_accept(""));
    assert!(can_accept("a=mid:0\r\nm=x\r\na=mid:0\r\n"));
    assert!(!can_accept("m=x\r\na=mid:0\r\nm=x\r\na=mid:0\r\n"));
    assert!(can_accept("a=rtpmap:200 VP8/90000\nm=x\n"));
    assert!(takes("a=mid:0\r\na=mid:1\na=rtpmap:96 VP8/90000\r\na=rtpmap:97 rtx/90000\r\n"));
    assert!(!takes("a=mid:0\r\na=mid:0"));
    assert!(!takes("a=mid:a-b\r\na=mid:a_b\r\n"));
    assert!(!takes("a=mid:0123456789abcdefX\na=mid:0123456789abcdefY\n"));
    assert!(takes("a=mid:0123456789abcdeX\na=mid:0123456789abcdeY\n"));
    assert!(!takes("a=rtpmap:96 VP8/90000\na=rtpmap:096 VP9/90000\n"));
    assert!(takes("a=rtpmap:127 VP8/90000\n"));
    assert!(!takes("a=rtpmap:128 VP8/90000\n"));
    assert!(!takes("a=rtpmap:200 OPUS/48000/2\n"));
    assert!(takes("a=rtpmap:200 telephone-event/8000\n"));
    assert!(takes("a=rtpmap:9 G722/8000\na=rtpmap:9 h265/90000\na=rtpmap:9 rtx/90000\n"));
    assert!(!takes("a=rtpmap:9 H264/90000\na=rtpmap:9 rtx/90000\n"));
    assert!(!takes("a=rtpmap:+96 VP8/90000\na=rtpmap:96 VP9/90000\n"));
    assert!(takes("a=rtpmap:256 VP8/90000\na=rtpmap:x VP9/90000\na=rtpmap:99\n"));
    assert!(takes("a=fmtp:97 apt=96\r\na=fmtp:99 apt=98\r\n"));
    assert!(!takes("a=fmtp:97 apt=96;apt=98\r\n"));
    assert!(!takes("a=fmtp:97 apt=96\r\na=fmtp:97 apt=98\r\n"));
    assert!(takes("a=fmtp:96 x=1\r\na=fmtp:96 y=2\r\n"));
    assert!(takes("a=fmtp:97 apt=96;\r\na=mid:0\r\n"));
    assert!(!takes("a=fmtp:97 apt=96;\r\n apt=98\r\n"));
    assert!(!takes("a=fmtp:97 \r\n apt=98\r\n"));
    assert!(takes("a=fmtp:97 apt=96; x=1 \r\n apt=98\r\n"));
    assert!(takes("a=fmtp:96 x=1\r\na=rtpmap:96 VP8/90000\r\na=mid:96\r\n"));
}

#[test]
fn media_waits_for_the_answer() {
    let mut engine = Engine::new();
    let mut s = connected();
    let offer = engine.build_full_offer().unwrap();
    let report = engine.send_video(&mut s, offer.video, &[0, 0, 1, 0x65]);
    assert_eq!(report.outcome, SendOutcome::NotReady);
    assert_eq!(report.first_nals.as_deref(), Some("IDR(5)"));
    assert_eq!((s.received, s.written, s.dropped), (1, 0, 1));
    assert_eq!(engine.send_audio(&mut s, offer.audio, b"opus"), SendOutcome::NotReady);
    assert_eq!((s.video_ts, s.audio_ts), (6000, 960));
}

#[test]
fn media_is_sent_once_it_was_negotiated() {
    let mut engine = Engine::new();
    let mut s = connected();
    let offer = engine.build_full_offer().unwrap();
    let answer = answer_to(&offer.sdp);
    engine.accept_answer(offer.pending, &answer).unwrap();
    let report = engine.send_video(&mut s, offer.video, &[0, 0, 0, 1, 0x65, 1, 2, 3]);
    assert_eq!(report.outcome, SendOutcome::Sent);
    assert!(!report.stats);
    assert_eq!((s.received, s.written, s.dropped), (1, 1, 0));
    assert_eq!(engine.send_audio(&mut s, offer.audio, &[0xF8, 0xFF, 0xFE]), SendOutcome::Sent);
}

#[test]
fn each_frame_is_written_once() {
    let mut engine = Engine::new();
    let mut s = connected();
    let offer = engine.build_full_offer().unwrap();
    let answer = answer_to(&offer.sdp);
    engine.accept_answer(offer.pending, &answer).unwrap();
    for _ in 0..101 {
        assert_eq!(engine.send_audio(&mut s, offer.audio, &[0xF8]), SendOutcome::Sent);
    }
    assert_eq!(engine.send_audio(&mut s, offer.audio, &[0xF8]), SendOutcome::Failed);
    let report = engine.send_video(&mut s, offer.video, &[0, 0, 1, 0x65]);
    assert_eq!(report.outcome, SendOutcome::Sent);
}

#[test]
fn candidates_are_read_for_their_address() {
    let relayed = Session::new(
        Some(Relay {
            addr: SocketAddr { ip: IpAddr::V4(1), port: 1 },
            turn: TurnState {
                turn_addr: SocketAddr { ip: IpAddr::V4(2), port: 2 },
                realm: vec![],
                nonce: vec![],
                username: String::new(),
                password: String::new(),
            },
        }),
        15,
        0,
    );
    let (ip, step) = remote_candidate(&relayed, HOST);
    assert_eq!(ip.as_deref(), Some("192.168.1.5"));
    assert_eq!(step, CandidateStep::Permit(Some(0xC0A8_0105)));
    let (ip6, step6) =
        remote_candidate(&relayed, "candidate:1 1 udp 2122260223 2001:db8::7 50028 typ host");
    assert_eq!(ip6.as_deref(), Some("2001:db8::7"));
    assert_eq!(step6, CandidateStep::Permit(None));
    let (none, ignored) = remote_candidate(&relayed, "candidate:nonsense");
    assert_eq!(none, None);
    assert_eq!(ignored, CandidateStep::Ignore);
    let direct = Session::new(None, 15, 0);
    assert_eq!(remote_candidate(&direct, HOST).1, CandidateStep::Add);
}

#[test]
fn candidates_are_handed_to_the_engine() {
    let mut engine = Engine::new();
    engine.add_candidate(HOST);
    engine.add_candidate("nonsense");
    assert!(engine.is_alive());
}

#[test]
fn events_of_the_engine_are_understood() {
    let mut s = Session::new(None, 15, 0);
    let change = Event::IceConnectionStateChange;
    assert_eq!(handle_event(&mut s, change(IceConnectionState::New)), EventAction::Nothing);
    assert_eq!(handle_event(&mut s, change(IceConnectionState::Checking)), EventAction::Nothing);
    assert_eq!(
        handle_event(&mut s, change(IceConnectionState::Connected)),
        EventAction::RequestKeyframe
    );
    assert_eq!(
        handle_event(&mut s, change(IceConnectionState::Completed)),
        EventAction::RequestKeyframe
    );
    assert_eq!(
        handle_event(&mut s, change(IceConnectionState::Disconnected)),
        EventAction::Nothing
    );
    assert_eq!(handle_event(&mut s, Event::Connected), EventAction::StartMedia);
    assert_eq!(
        handle_event(&mut s, change(IceConnectionState::Disconnected)),
        EventAction::End
    );
    let request = KeyframeRequest {
        mid: "0".into(),
        rid: None,
        kind: KeyframeRequestKind::Pli,
    };
    assert_eq!(
        handle_event(&mut s, Event::KeyframeRequest(request)),
        EventAction::RequestKeyframe
    );
    let mut other = Rtc::new();
    let id = other.sdp_api().add_channel("hid-control".to_string());
    let data = str0m::channel::ChannelData { id, binary: true, data: vec![1, 2, 3] };
    assert_eq!(
        handle_event(&mut s, Event::ChannelData(data)),
        EventAction::Forward(vec![1, 2, 3])
    );
    assert_eq!(handle_event(&mut s, Event::ChannelClose(id)), EventAction::Nothing);
}

fn v4(ip: [u8; 4], port: u16) -> SocketAddr {
    SocketAddr { ip: IpAddr::V4(u32::from_be_bytes(ip)), port }
}

fn v6(high: u128, port: u16) -> SocketAddr {
    SocketAddr { ip: IpAddr::V6(high << 112 | 7), port }
}

#[test]
fn addresses_of_this_machine_are_named_in_the_offer() {
    let mut engine = Engine::new();
    assert!(engine.add_hosts(&vec![v4([192, 168, 1, 5], 5000), v6(0x2001, 5000)]));
    assert!(engine.add_public(v4([203, 0, 113, 9], 6000), v4([192, 168, 1, 5], 5000)));
    assert!(engine.add_relay(v4([203, 0, 113, 7], 7000)));
    let sdp = engine.build_full_offer().unwrap().sdp;
    assert!(sdp.contains("192.168.1.5 5000 typ host"));
    assert!(sdp.contains("2001::7 5000 typ host"));
    assert!(sdp.contains("203.0.113.9 6000 typ srflx"));
    assert!(sdp.contains("203.0.113.7 7000 typ relay"));
}

#[test]
fn addresses_that_no_candidate_can_have_are_refused() {
    let mut engine = Engine::new();
    for ip in [[0, 0, 0, 0], [255, 255, 255, 255], [224, 0, 0, 1], [239, 1, 1, 1], [169, 254, 1, 1]] {
        assert!(!engine.add_hosts(&vec![v4([10, 0, 0, 1], 1), v4(ip, 2)]));
        assert!(!engine.add_public(v4(ip, 2), v4([10, 0, 0, 1], 1)));
        assert!(!engine.add_relay(v4(ip, 2)));
    }
    assert!(!engine.add_relay(v6(0xff02, 2)));
    assert!(!engine.add_relay(SocketAddr { ip: IpAddr::V6(0), port: 2 }));
    for ip in [[127, 0, 0, 1], [223, 255, 255, 255], [240, 0, 0, 0], [169, 253, 1, 1], [1, 0, 0, 0]] {
        assert!(engine.add_relay(v4(ip, 2)));
    }
    assert!(engine.add_relay(v6(0xfe80, 2)));
    assert!(engine.add_hosts(&vec![]));
}
