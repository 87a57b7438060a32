use any_kvm_agent::config::default_video_source;
use any_kvm_agent::config::VideoConfig;
use any_kvm_agent::h264::describe_h264_nals;
use any_kvm_agent::video::bitrate_bps;
use any_kvm_agent::video::can_convert;
use any_kvm_agent::video::capture_request;
use any_kvm_agent::video::encode_picture;
use any_kvm_agent::video::encoded_picture;
use any_kvm_agent::video::fallback_source;
use any_kvm_agent::video::finish_picture;
use any_kvm_agent::video::first_path;
use any_kvm_agent::video::keyframe_due;
use any_kvm_agent::video::next_path;
use any_kvm_agent::video::yuyv_to_yuv420;
use any_kvm_agent::video::EncodeError;
use any_kvm_agent::video::EncodingPath;
use openh264::encoder::Encoder;
use openh264::encoder::EncoderConfig;
use openh264::formats::YUVBuffer;
use openh264::OpenH264API;

const TOO_LARGE: &str = "OpenH264 encountered an error. Native:0. Decoding State:0. User \
    Message:Some(\"Encoder max resolution 3840x2160 horizontal or 2160x3840 vertical\")";

fn config(hw_encode: bool) -> VideoConfig {
    VideoConfig {
        source: default_video_source(),
        device: "/dev/video0".to_string(),
        width: 1280,
        height: 720,
        fps: 15,
        bitrate_kbps: 500,
        hw_encode,
    }
}

fn encoder() -> Encoder {
    let cfg = EncoderConfig::new().set_bitrate_bps(300_000).max_frame_rate(15.0).debug(false);
    Encoder::with_api_config(OpenH264API::from_source(), cfg).unwrap()
}

#[test]
fn v4l2_is_the_default_source() {
    assert_eq!(default_video_source(), "v4l2");
}

#[test]
fn hardware_comes_first_and_software_after_it_fails() {
    assert_eq!(first_path(&config(true)), EncodingPath::Hardware);
    assert_eq!(first_path(&config(false)), EncodingPath::Software);
    assert_eq!(next_path(EncodingPath::Hardware, false), Some(EncodingPath::Software));
    assert_eq!(next_path(EncodingPath::Hardware, true), None);
    assert_eq!(next_path(EncodingPath::Software, false), None);
    assert_eq!(next_path(EncodingPath::Software, true), None);
}

#[test]
fn capture_is_asked_for_the_configured_picture() {
    let r = capture_request(&config(true), EncodingPath::Hardware);
    assert_eq!((r.width, r.height, r.numerator, r.denominator), (1280, 720, 1, 15));
    assert_eq!(&r.fourcc, b"H264");
    assert!(r.granted(*b"H264"));
    assert!(!r.granted(*b"H265"));
    assert!(!r.granted(*b"YUYV"));
    let s = capture_request(&config(true), EncodingPath::Software);
    assert_eq!(&s.fourcc, b"YUYV");
    assert!(s.granted(*b"YUYV"));
}

#[test]
fn rate_is_in_bits() {
    assert_eq!(bitrate_bps(500), 500_000);
    assert_eq!(bitrate_bps(4_294_967), 4_294_967_000);
}

#[test]
fn screen_takes_over_from_a_failed_capture() {
    let c = fallback_source(&config(true)).unwrap();
    assert_eq!(c.source, "screen");
    assert_eq!(c.device, "/dev/video0");
    assert_eq!((c.width, c.height, c.fps, c.bitrate_kbps, c.hw_encode), (1280, 720, 15, 500, true));
    assert!(fallback_source(&c).is_none());
}

#[test]
fn keyframes_come_every_two_seconds_and_on_request() {
    assert!(keyframe_due(0, 15, false));
    assert!(!keyframe_due(15, 15, false));
    assert!(keyframe_due(30, 15, false));
    assert!(keyframe_due(31, 15, true));
    assert!(!keyframe_due(30, 0, false));
}

#[test]
fn skipped_pictures_are_not_sent() {
    assert_eq!(encoded_picture(vec![]), None);
    assert_eq!(encoded_picture(vec![0, 0, 1]), Some(vec![0, 0, 1]));
}

#[test]
fn outcomes_of_the_encoder_are_told_apart() {
    assert_eq!(finish_picture(Ok(vec![])), Ok(None));
    assert_eq!(finish_picture(Ok(vec![0, 0, 1])), Ok(Some(vec![0, 0, 1])));
    let large = YUVBuffer::from_vec(vec![128; 3842 * 2 * 3 / 2], 3842, 2);
    let failure = encoder().encode(&large).map(|stream| stream.to_vec());
    assert_eq!(finish_picture(failure), Err(EncodeError::Refused(TOO_LARGE.to_string())));
}

#[test]
fn packed_picture_is_split_into_planes() {
    let src: Vec<u8> = (0..32).collect();
    assert!(can_convert(src.len(), 4, 4));
    let yuv = yuyv_to_yuv420(&src, 4, 4);
    assert_eq!(yuv.len(), 24);
    assert_eq!(&yuv[..16], &[0, 2, 4, 6, 8, 10, 12, 14, 16, 18, 20, 22, 24, 26, 28, 30]);
    assert_eq!(&yuv[16..20], &[1, 5, 17, 21]);
    assert_eq!(&yuv[20..], &[3, 7, 19, 23]);
}

#[test]
fn odd_width_lets_the_colour_planes_overlap() {
    let src: Vec<u8> = (0..12).collect();
    assert!(can_convert(12, 3, 2));
    let yuv = yuyv_to_yuv420(&src, 3, 2);
    assert_eq!(yuv, [0, 2, 4, 6, 8, 10, 1, 5, 7]);
}

#[test]
fn empty_picture_stays_empty() {
    assert!(can_convert(0, 0, 0));
    assert!(can_convert(0, 0, 7));
    assert!(yuyv_to_yuv420(&[], 0, 0).is_empty());
    assert!(yuyv_to_yuv420(&[1, 2], 5, 0).is_empty());
}

#[test]
fn pictures_that_cannot_be_converted_are_told_apart() {
    assert!(!can_convert(30, 4, 4));
    assert!(can_convert(31, 4, 4));
    assert!(!can_convert(100, 1, 1));
    assert!(!can_convert(usize::MAX, usize::MAX, 2));
    assert!(!can_convert(usize::MAX, usize::MAX / 3 + 1, 1));
}

#[test]
fn picture_is_encoded_in_software() {
    let mut enc = encoder();
    let packed: Vec<u8> = (0..64 * 48 * 2).map(|i| (i * 7 % 251) as u8).collect();
    let first = encode_picture(&mut enc, &packed, 64, 48, false).unwrap().unwrap();
    assert_eq!(describe_h264_nals(&first), "SPS(7), PPS(8), IDR(5)");
    let forced = encode_picture(&mut enc, &packed, 64, 48, true).unwrap();
    if let Some(bytes) = forced {
        assert!(describe_h264_nals(&bytes).contains("IDR(5)"));
    }
}

#[test]
fn picture_beyond_the_encoder_is_refused() {
    let mut enc = encoder();
    let packed = vec![128u8; 3842 * 2 * 2];
    assert_eq!(
        encode_picture(&mut enc, &packed, 3842, 2, false),
        Err(EncodeError::Refused(TOO_LARGE.to_string()))
    );
}

#[test]
fn nal_units_are_described_by_name() {
    assert_eq!(describe_h264_nals(&[]), "none");
    assert_eq!(describe_h264_nals(&[0, 0, 1]), "none");
    assert_eq!(describe_h264_nals(&[0, 0, 0, 1]), "none");
    assert_eq!(describe_h264_nals(&[0, 0, 1, 0x65]), "IDR(5)");
    assert_eq!(
        describe_h264_nals(&[
            0, 0, 0, 1, 0x67, 0x42, 0, 0, 0, 1, 0x68, 0xCE, 0, 0, 1, 0x65, 0x88, 0, 0, 1, 0x41
        ]),
        "SPS(7), PPS(8), IDR(5), P-slice(1)"
    );
    assert_eq!(describe_h264_nals(&[0, 0, 1, 0x06, 0, 0, 1, 0x09]), "SEI(6), AUD(9)");
    assert_eq!(describe_h264_nals(&[0, 0, 1, 0x7F]), "other(31)");
    assert_eq!(describe_h264_nals(&[0, 0, 1, 0x00]), "other(0)");
}

#[test]
fn bytes_without_a_start_code_are_skipped() {
    assert_eq!(describe_h264_nals(&[1, 0, 0, 2, 0, 0, 3, 7]), "none");
    assert_eq!(describe_h264_nals(&[9, 9, 0, 0, 0, 0, 1, 0x67]), "SPS(7)");
}
