use any_kvm_agent::hid::ch9329_abs_mouse;
use any_kvm_agent::hid::ch9329_frame;
use any_kvm_agent::hid::ch9329_keyboard;
use any_kvm_agent::hid::ch9329_step;
use any_kvm_agent::hid::device_status;
use any_kvm_agent::hid::gadget_step;
use any_kvm_agent::hid::initial_pointer;
use any_kvm_agent::hid::make_abs_mouse_report;
use any_kvm_agent::hid::select_mode;
use any_kvm_agent::hid::HidAction;
use any_kvm_agent::hid::HidMode;
use any_kvm_agent::hid::HidModeError;
use any_kvm_agent::hid::Outputs;
use any_kvm_agent::hid::Pointer;
use any_kvm_agent::hid::VideoControl;
use any_kvm_agent::hid::HID_STATUS_KEYBOARD;
use any_kvm_agent::hid::HID_STATUS_MOUSE;

const ALL: Outputs = Outputs { keyboard: true, mouse: true, control: true };
const NONE: Outputs = Outputs { keyboard: false, mouse: false, control: false };

#[test]
fn modes_are_chosen_by_name() {
    assert_eq!(select_mode(&"gadget".to_string(), false), Ok(HidMode::Gadget));
    assert_eq!(select_mode(&"ch9329".to_string(), true), Ok(HidMode::Ch9329));
    assert_eq!(select_mode(&"ch9329".to_string(), false), Err(HidModeError::NotCompiledIn));
    assert_eq!(select_mode(&"Gadget".to_string(), true), Err(HidModeError::Unknown));
    assert_eq!(select_mode(&String::new(), true), Err(HidModeError::Unknown));
}

#[test]
fn status_has_a_bit_for_each_device() {
    assert_eq!(device_status(false, false), 0);
    assert_eq!(device_status(true, false), HID_STATUS_KEYBOARD);
    assert_eq!(device_status(false, true), HID_STATUS_MOUSE);
    assert_eq!(device_status(true, true), HID_STATUS_KEYBOARD | HID_STATUS_MOUSE);
}

#[test]
fn mouse_report_is_little_endian() {
    assert_eq!(make_abs_mouse_report(1, 0x1234, 0x7FFF, 0), [1, 0x34, 0x12, 0xFF, 0x7F, 0]);
    assert_eq!(make_abs_mouse_report(0, 0, 0xFFFF, -1), [0, 0, 0, 0xFF, 0xFF, 0xFF]);
    assert_eq!(make_abs_mouse_report(0, 0, 0, -128)[5], 0x80);
    assert_eq!(make_abs_mouse_report(0, 0, 0, 127)[5], 0x7F);
}

#[test]
fn keys_go_to_the_keyboard() {
    let mut p = initial_pointer();
    let frame = [0x01, 0x05, 0x4C, 1, 2, 3, 4, 5];
    assert_eq!(
        gadget_step(&mut p, &frame, ALL),
        HidAction::Keyboard(vec![0x05, 0, 0x4C, 1, 2, 3, 4, 5])
    );
    assert_eq!(gadget_step(&mut p, &frame, NONE), HidAction::Nothing);
    assert_eq!(p, initial_pointer());
}

#[test]
fn pointer_starts_in_the_middle() {
    assert_eq!(initial_pointer(), Pointer { x: 0x3fff, y: 0x3fff, buttons: 0 });
}

#[test]
fn buttons_and_wheel_keep_the_position() {
    let mut p = initial_pointer();
    assert_eq!(
        gadget_step(&mut p, &[2, 1, 0x12, 0x34, 0x56, 0x78, 0, 0], ALL),
        HidAction::Mouse(vec![1, 0x34, 0x12, 0x78, 0x56, 0])
    );
    assert_eq!(
        gadget_step(&mut p, &[3, 4, 9, 9, 9, 9, 9, 9], ALL),
        HidAction::Mouse(vec![4, 0x34, 0x12, 0x78, 0x56, 0])
    );
    assert_eq!(
        gadget_step(&mut p, &[4, 0xFE, 9, 9, 9, 9, 9, 9], ALL),
        HidAction::Mouse(vec![4, 0x34, 0x12, 0x78, 0x56, 0xFE])
    );
    assert_eq!(p, Pointer { x: 0x1234, y: 0x5678, buttons: 4 });
}

#[test]
fn pointer_moves_without_a_mouse() {
    let mut p = initial_pointer();
    assert_eq!(gadget_step(&mut p, &[2, 1, 0, 5, 0, 6, 0, 0], NONE), HidAction::Nothing);
    assert_eq!(p, Pointer { x: 5, y: 6, buttons: 1 });
    assert_eq!(
        gadget_step(&mut p, &[4, 1, 0, 0, 0, 0, 0, 0], ALL),
        HidAction::Mouse(vec![1, 5, 0, 6, 0, 1])
    );
}

#[test]
fn control_frames_change_the_video() {
    let mut p = initial_pointer();
    let only_control = Outputs { keyboard: false, mouse: false, control: true };
    assert_eq!(
        gadget_step(&mut p, &[0x10, 1, 0x05, 0x00, 0x02, 0xD0, 0, 0], only_control),
        HidAction::Control(VideoControl::ChangeResolution { width: 1280, height: 720 })
    );
    assert_eq!(
        gadget_step(&mut p, &[0x10, 2, 30, 0, 0, 0, 0, 0], only_control),
        HidAction::Control(VideoControl::ChangeFps { fps: 30 })
    );
    assert_eq!(gadget_step(&mut p, &[0x10, 3, 30, 0, 0, 0, 0, 0], ALL), HidAction::Nothing);
    assert_eq!(gadget_step(&mut p, &[0x10, 2, 30, 0, 0, 0, 0, 0], NONE), HidAction::Nothing);
    assert_eq!(p, initial_pointer());
}

#[test]
fn short_and_unknown_frames_do_nothing() {
    let mut p = initial_pointer();
    assert_eq!(gadget_step(&mut p, &[2, 1, 0, 5, 0, 6, 0], ALL), HidAction::Nothing);
    assert_eq!(gadget_step(&mut p, &[], ALL), HidAction::Nothing);
    assert_eq!(gadget_step(&mut p, &[5, 1, 0, 5, 0, 6, 0, 0], ALL), HidAction::Nothing);
    assert_eq!(ch9329_step(&mut p, &[2, 1, 0, 5, 0, 6, 0], true), HidAction::Nothing);
    assert_eq!(ch9329_step(&mut p, &[9; 8], true), HidAction::Nothing);
    assert_eq!(p, initial_pointer());
}

#[test]
fn bytes_behind_the_eighth_are_ignored() {
    let mut p = initial_pointer();
    assert_eq!(
        gadget_step(&mut p, &[1, 0, 4, 0, 0, 0, 0, 0, 77, 88], ALL),
        HidAction::Keyboard(vec![0, 0, 4, 0, 0, 0, 0, 0])
    );
}

#[test]
fn ctrl_alt_del_reaches_the_keyboard() {
    let mut p = initial_pointer();
    assert_eq!(
        gadget_step(&mut p, &[1, 0x05, 0x4C, 0, 0, 0, 0, 0], ALL),
        HidAction::Keyboard(vec![0x05, 0, 0x4C, 0, 0, 0, 0, 0])
    );
}

#[test]
fn ch9329_packet_ends_with_its_checksum() {
    assert_eq!(ch9329_frame(0x01, &[]), [0x57, 0xAB, 0, 1, 0, 0x03]);
    let p = ch9329_frame(0x02, &[0xFF; 8]);
    assert_eq!(p.len(), 14);
    let sum: u32 = p[..13].iter().map(|&b| b as u32).sum();
    assert_eq!(p[13], (sum & 0xff) as u8);
}

#[test]
fn ch9329_length_keeps_eight_bits() {
    let p = ch9329_frame(0x09, &vec![1u8; 258]);
    assert_eq!(p[4], 2);
    assert_eq!(p.len(), 264);
}

#[test]
fn ch9329_keyboard_packet() {
    assert_eq!(
        ch9329_keyboard(0x05, &[0x4C, 0, 0, 0, 0, 0]),
        [0x57, 0xAB, 0x00, 0x02, 0x08, 0x05, 0, 0x4C, 0, 0, 0, 0, 0, 0x5D]
    );
}

#[test]
fn ch9329_mouse_packet() {
    assert_eq!(
        ch9329_abs_mouse(1, 0x1234, 0x0010),
        [0x57, 0xAB, 0x00, 0x04, 0x06, 1, 0x34, 0x12, 0x10, 0, 0, 0x63]
    );
}

#[test]
fn ch9329_frames_become_packets() {
    let mut p = initial_pointer();
    assert_eq!(
        ch9329_step(&mut p, &[1, 5, 0x4C, 0, 0, 0, 0, 0], true),
        HidAction::Serial(ch9329_keyboard(5, &[0x4C, 0, 0, 0, 0, 0]))
    );
    assert_eq!(
        ch9329_step(&mut p, &[2, 1, 0x12, 0x34, 0, 0x10, 0, 0], true),
        HidAction::Serial(ch9329_abs_mouse(1, 0x1234, 0x10))
    );
    assert_eq!(
        ch9329_step(&mut p, &[3, 2, 0, 0, 0, 0, 0, 0], true),
        HidAction::Serial(ch9329_abs_mouse(2, 0x1234, 0x10))
    );
    assert_eq!(
        ch9329_step(&mut p, &[4, 3, 0, 0, 0, 0, 0, 0], true),
        HidAction::Serial(ch9329_abs_mouse(0, 0x1234, 0x10))
    );
    assert_eq!(
        ch9329_step(&mut p, &[0x10, 2, 10, 0, 0, 0, 0, 0], true),
        HidAction::Control(VideoControl::ChangeFps { fps: 10 })
    );
    assert_eq!(ch9329_step(&mut p, &[0x10, 2, 10, 0, 0, 0, 0, 0], false), HidAction::Nothing);
}

#[test]
fn modes_agree_on_the_position() {
    let mut a = initial_pointer();
    let mut b = initial_pointer();
    for frame in [[2u8, 1, 1, 2, 3, 4, 0, 0], [3, 7, 0, 0, 0, 0, 0, 0], [4, 1, 9, 9, 9, 9, 9, 9]] {
        gadget_step(&mut a, &frame, ALL);
        ch9329_step(&mut b, &frame, true);
        assert_eq!((a.x, a.y), (b.x, b.y));
    }
}

#[test]
fn messages_stay_small() {
    let mut p = initial_pointer();
    for ty in 0..=255u8 {
        let frame = [ty, 1, 2, 3, 4, 5, 6, 7];
        for action in [gadget_step(&mut p, &frame, ALL), ch9329_step(&mut p, &frame, true)] {
            let len = match action {
                HidAction::Keyboard(v) => v.len(),
                HidAction::Mouse(v) => v.len(),
                HidAction::Serial(v) => v.len(),
                _ => 0,
            };
            assert!(len <= 16);
        }
    }
}

#[test]
fn idle_frames_and_long_tails_change_nothing_in_a_run() {
    let run: [&[u8]; 3] = [
        &[2, 1, 0, 5, 0, 6, 0, 0],
        &[4, 1, 0, 0, 0, 0, 0, 0],
        &[3, 2, 0, 0, 0, 0, 0, 0],
    ];
    let noisy: [&[u8]; 6] = [
        &[9, 1, 0, 7, 0, 7, 0, 0],
        &[2, 1, 0, 5, 0, 6, 0, 0, 77],
        &[2, 1, 0, 9, 0, 9, 0],
        &[4, 1, 0, 0, 0, 0, 0, 0, 1, 2, 3],
        &[],
        &[3, 2, 0, 0, 0, 0, 0, 0],
    ];
    let (mut a, mut b) = (initial_pointer(), initial_pointer());
    let plain: Vec<HidAction> = run.iter().map(|f| gadget_step(&mut a, f, ALL)).collect();
    let heard: Vec<HidAction> = noisy
        .iter()
        .map(|f| gadget_step(&mut b, f, ALL))
        .filter(|action| *action != HidAction::Nothing)
        .collect();
    assert_eq!(plain, heard);
    assert_eq!(a, b);
}
