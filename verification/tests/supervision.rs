use any_kvm_agent::audio::audio_plan;
use any_kvm_agent::config::AudioConfig;
use any_kvm_agent::supervisor::after_session;
use any_kvm_agent::supervisor::next_delay;
use any_kvm_agent::supervisor::Bridge;
use any_kvm_agent::supervisor::BridgeStep;
use any_kvm_agent::supervisor::Cleanup;
use any_kvm_agent::supervisor::SessionEnd;
use any_kvm_agent::supervisor::FIRST_DELAY;

fn config(channels: u32, bitrate_kbps: u32) -> AudioConfig {
    AudioConfig {
        device: "hw:0,0".to_string(),
        sample_rate: 48000,
        channels,
        bitrate_kbps,
        enabled: true,
    }
}

#[test]
fn queue_is_dropped_when_somebody_connects() {
    let mut b = Bridge::new();
    let seen: Vec<BridgeStep> =
        [false, true, true, false, false, true].iter().map(|&c| b.step(c)).collect();
    assert_eq!(
        seen,
        [
            BridgeStep::Pause,
            BridgeStep::DrainAndPass,
            BridgeStep::Pass,
            BridgeStep::Pause,
            BridgeStep::Pause,
            BridgeStep::DrainAndPass
        ]
    );
    assert_eq!(Bridge::new().step(true), BridgeStep::DrainAndPass);
}

#[test]
fn other_half_of_a_session_is_stopped() {
    assert_eq!(
        after_session(SessionEnd::Media),
        Cleanup { stop_media: false, stop_signalling: true, again: true }
    );
    assert_eq!(
        after_session(SessionEnd::Signalling),
        Cleanup { stop_media: true, stop_signalling: false, again: true }
    );
    assert_eq!(
        after_session(SessionEnd::Interrupt),
        Cleanup { stop_media: true, stop_signalling: true, again: false }
    );
}

#[test]
fn delays_grow_while_sessions_fail() {
    let mut delay = FIRST_DELAY;
    let mut delays = Vec::new();
    for _ in 0..8 {
        delay = next_delay(delay, 10_000_000_000);
        delays.push(delay / 1_000_000);
    }
    assert_eq!(delays, [4500, 6750, 10125, 15187, 22781, 30000, 30000, 30000]);
    assert_eq!(next_delay(delay, 10_000_000_001), FIRST_DELAY);
}

#[test]
fn sound_is_captured_in_frames_of_twenty_milliseconds() {
    let plan = audio_plan(&config(1, 16));
    assert_eq!(plan.period_samples, 960);
    assert_eq!(plan.buffer_samples, 3840);
    assert_eq!(plan.frame_len, 960);
    assert!(!plan.stereo);
    assert_eq!(plan.bitrate, 16000);
    let stereo = audio_plan(&config(2, 64));
    assert!(stereo.stereo);
    assert_eq!(stereo.frame_len, 1920);
    assert_eq!(audio_plan(&config(0, 1)).frame_len, 0);
    assert!(audio_plan(&config(0, 1)).stereo);
}

#[test]
fn rate_of_the_encoder_is_signed() {
    assert_eq!(audio_plan(&config(1, 2_147_483)).bitrate, 2_147_483_000);
    assert_eq!(audio_plan(&config(1, 2_147_484)).bitrate, -2_147_483_296);
}

#[test]
fn what_was_read_is_encoded() {
    let plan = audio_plan(&config(2, 64));
    assert_eq!(plan.encoded_len(0, 2), None);
    assert_eq!(plan.encoded_len(480, 2), Some(960));
    assert_eq!(plan.encoded_len(960, 2), Some(1920));
}
