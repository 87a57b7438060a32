use any_kvm_agent::config::SignalConfig;
use any_kvm_agent::signal_client::candidate_message;
use any_kvm_agent::signal_client::device_url;
use any_kvm_agent::signal_client::handle_incoming;
use any_kvm_agent::signal_client::offer_message;
use any_kvm_agent::signal_client::retry;
use any_kvm_agent::signal_client::session_step;
use any_kvm_agent::signal_client::Attempt;
use any_kvm_agent::signal_client::SignalAction;
use any_kvm_agent::signal_client::SignalEvent;
use any_kvm_agent::signal_client::SignalMsg;
use serde_json::Value;

fn msg(msg_type: &str, payload: &str) -> SignalMsg {
    SignalMsg {
        msg_type: msg_type.to_string(),
        payload: serde_json::from_str(payload).unwrap(),
    }
}

fn url(room: &str) -> String {
    device_url(&SignalConfig {
        url: "ws://server:8080/ws".to_string(),
        room_id: room.to_string(),
    })
}

#[test]
fn device_enters_its_room() {
    assert_eq!(url("kvm-room-1"), "ws://server:8080/ws?room=kvm-room-1&role=device");
}

#[test]
fn room_is_percent_encoded() {
    assert_eq!(url("a b&c=d/é~_.-"), "ws://server:8080/ws?room=a%20b%26c%3Dd%2F%C3%A9~_.-&role=device");
    assert_eq!(url(""), "ws://server:8080/ws?room=&role=device");
    assert_eq!(url("%"), "ws://server:8080/ws?room=%25&role=device");
}

#[test]
fn rooms_are_told_apart() {
    assert_ne!(url("a b"), url("a%20b"));
    assert_ne!(url("a"), url("A"));
}

#[test]
fn offer_is_sent_as_json() {
    let sdp = "v=0\r\ns=\"x\"\\\r\n";
    let text = offer_message(sdp);
    assert_eq!(
        text,
        "{\"payload\":{\"sdp\":\"v=0\\r\\ns=\\\"x\\\"\\\\\\r\\n\",\"type\":\"offer\"},\"type\":\"offer\"}"
    );
    let back: Value = serde_json::from_str(&text).unwrap();
    assert_eq!(back["type"], "offer");
    assert_eq!(back["payload"]["type"], "offer");
    assert_eq!(back["payload"]["sdp"], sdp);
    assert_eq!(back.as_object().unwrap().len(), 2);
    assert_eq!(back["payload"].as_object().unwrap().len(), 2);
}

#[test]
fn candidate_is_sent_as_json() {
    assert_eq!(
        candidate_message("candidate:1 1 udp 1 1.2.3.4 5 typ host"),
        "{\"payload\":{\"candidate\":\"candidate:1 1 udp 1 1.2.3.4 5 typ host\",\
         \"sdpMLineIndex\":0,\"sdpMid\":\"0\"},\"type\":\"candidate\"}"
    );
}

#[test]
fn answer_is_handed_on() {
    assert_eq!(
        handle_incoming(&msg("answer", "{\"type\":\"answer\",\"sdp\":\"v=0\\n\"}")),
        SignalAction::Answer("v=0\n".to_string())
    );
    assert_eq!(handle_incoming(&msg("answer", "{\"type\":\"answer\"}")), SignalAction::Nothing);
    assert_eq!(handle_incoming(&msg("answer", "{\"sdp\":5}")), SignalAction::Nothing);
    assert_eq!(handle_incoming(&msg("answer", "\"sdp\"")), SignalAction::Nothing);
    assert_eq!(handle_incoming(&msg("answer", "[\"sdp\"]")), SignalAction::Nothing);
    assert_eq!(handle_incoming(&msg("answer", "null")), SignalAction::Nothing);
}

#[test]
fn remote_candidate_is_handed_on() {
    assert_eq!(
        handle_incoming(&msg("candidate", "{\"candidate\":\"c\",\"sdpMid\":\"0\"}")),
        SignalAction::RemoteCandidate("c".to_string())
    );
    assert_eq!(
        handle_incoming(&msg("candidate", "{\"candidate\":null}")),
        SignalAction::Nothing
    );
}

#[test]
fn other_messages_are_passed_over() {
    assert_eq!(handle_incoming(&msg("offer", "{\"sdp\":\"v=0\"}")), SignalAction::Nothing);
    assert_eq!(handle_incoming(&msg("Answer", "{\"sdp\":\"v=0\"}")), SignalAction::Nothing);
}

#[test]
fn session_runs_its_course() {
    assert_eq!(session_step(SignalEvent::Ended), SignalAction::Finish);
    assert_eq!(session_step(SignalEvent::Closed), SignalAction::Finish);
    assert_eq!(session_step(SignalEvent::Failed), SignalAction::Fail);
    assert_eq!(session_step(SignalEvent::Other), SignalAction::Nothing);
    assert_eq!(session_step(SignalEvent::Text(None)), SignalAction::Nothing);
    assert_eq!(
        session_step(SignalEvent::Text(Some(msg("answer", "{\"sdp\":\"s\"}")))),
        SignalAction::Answer("s".to_string())
    );
    assert_eq!(session_step(SignalEvent::Ping(vec![1, 2])), SignalAction::Pong(vec![1, 2]));
    assert_eq!(session_step(SignalEvent::LocalCandidate(None)), SignalAction::Nothing);
    assert_eq!(
        session_step(SignalEvent::LocalCandidate(Some("c".to_string()))),
        SignalAction::Send(candidate_message("c"))
    );
}

#[test]
fn waits_double_up_to_a_minute() {
    let mut backoff = 1;
    let mut waits = Vec::new();
    for _ in 0..9 {
        let (wait, next) = retry(backoff, Attempt::NotConnected);
        waits.push(wait);
        backoff = next;
    }
    assert_eq!(waits, [1, 2, 4, 8, 16, 32, 60, 60, 60]);
}

#[test]
fn connection_resets_the_wait() {
    assert_eq!(retry(60, Attempt::SessionFailed), (1, 2));
    assert_eq!(retry(1, Attempt::SessionFailed), (1, 2));
    assert_eq!(retry(8, Attempt::SessionEnded), (1, 2));
}
