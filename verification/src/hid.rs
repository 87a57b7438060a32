//! Input injection: from the control frames that a browser sends to the reports of a USB
//! HID gadget, or to the packets of a CH9329 serial chip.
//!
//! A control frame has eight bytes: a type, a byte of flags and six bytes of payload.
//! Bytes behind the eighth are ignored.

use vstd::prelude::*;

use crate::wire;

verus! {

/// Status bit: the keyboard can be written to.
pub const HID_STATUS_KEYBOARD: u8 = 0x01;

/// Status bit: the mouse can be written to.
pub const HID_STATUS_MOUSE: u8 = 0x02;

/// Frame type: keys.
pub const TYPE_KEYBOARD: u8 = 0x01;

/// Frame type: absolute position of the mouse.
pub const TYPE_MOUSE_MOVE: u8 = 0x02;

/// Frame type: buttons of the mouse.
pub const TYPE_MOUSE_BTN: u8 = 0x03;

/// Frame type: wheel of the mouse.
pub const TYPE_MOUSE_WHEEL: u8 = 0x04;

/// Frame type: control of the video capture.
pub const TYPE_CONTROL: u8 = 0x10;

/// Control subtype: another resolution.
pub const CONTROL_RESOLUTION: u8 = 0x01;

/// Control subtype: another frame rate.
pub const CONTROL_FPS: u8 = 0x02;

/// CH9329 command: keys.
pub const CH9329_CMD_KEYBOARD: u8 = 0x02;

/// CH9329 command: absolute mouse.
pub const CH9329_CMD_ABS_MOUSE: u8 = 0x04;

/// The coordinate at which the pointer starts, the middle of the range.
pub const POINTER_START: u16 = 0x3fff;

/// A command for the video capture.
#[derive(Debug, Clone, Copy, PartialEq, Eq, Structural)]
pub enum VideoControl {
    ChangeResolution { width: u32, height: u32 },
    ChangeFps { fps: u32 },
}

/// How input reaches the controlled machine.
#[derive(Debug, Clone, Copy, PartialEq, Eq, Structural)]
pub enum HidMode {
    Gadget,
    Ch9329,
}

/// Why a mode cannot be used.
#[derive(Debug, Clone, Copy, PartialEq, Eq, Structural)]
pub enum HidModeError {
    /// The program was built without the serial driver.
    NotCompiledIn,
    /// No mode has this name.
    Unknown,
}

/// Which outputs of the gadget are there.
#[derive(Debug, Clone, Copy, PartialEq, Eq, Structural)]
pub struct Outputs {
    pub keyboard: bool,
    pub mouse: bool,
    pub control: bool,
}

/// Where the pointer is, and which buttons are down.
#[derive(Debug, Clone, Copy, PartialEq, Eq, Structural)]
pub struct Pointer {
    pub x: u16,
    pub y: u16,
    pub buttons: u8,
}

/// What is to be done with a frame.
#[derive(Debug, Clone, PartialEq, Eq)]
pub enum HidAction {
    /// The frame is too short, of another type, or its output is not there.
    Nothing,
    /// Bytes for the keyboard.
    Keyboard(Vec<u8>),
    /// Bytes for the mouse.
    Mouse(Vec<u8>),
    /// Bytes for the serial port.
    Serial(Vec<u8>),
    /// A command for the video capture.
    Control(VideoControl),
}

/// What is to be done with a frame, with sequences in place of vectors.
pub enum HidEffect {
    Nothing,
    Keyboard(Seq<u8>),
    Mouse(Seq<u8>),
    Serial(Seq<u8>),
    Control(VideoControl),
}

impl View for HidAction {
    type V = HidEffect;

    open spec fn view(&self) -> HidEffect {
        match *self {
            HidAction::Nothing => HidEffect::Nothing,
            HidAction::Keyboard(v) => HidEffect::Keyboard(v@),
            HidAction::Mouse(v) => HidEffect::Mouse(v@),
            HidAction::Serial(v) => HidEffect::Serial(v@),
            HidAction::Control(c) => HidEffect::Control(c),
        }
    }
}

/// The byte that holds a signed number in two's complement.
pub open spec fn twos_complement(n: i8) -> u8 {
    if n < 0 { (0x100 + n) as u8 } else { n as u8 }
}

/// The report of an absolute mouse: buttons, x and y, each with its low byte first, and
/// the wheel.
pub open spec fn mouse_report(buttons: u8, x: u16, y: u16, wheel: i8) -> Seq<u8> {
    seq![
        buttons,
        (x % 0x100) as u8,
        (x / 0x100) as u8,
        (y % 0x100) as u8,
        (y / 0x100) as u8,
        twos_complement(wheel),
    ]
}

/// The report of a boot keyboard: modifiers, a reserved byte and six keys.
pub open spec fn keyboard_report(modifier: u8, keys: Seq<u8>) -> Seq<u8> {
    seq![modifier, 0u8, keys[0], keys[1], keys[2], keys[3], keys[4], keys[5]]
}

/// The sum of the bytes.
pub open spec fn byte_sum(s: Seq<u8>) -> nat
    decreases s.len(),
{
    if s.len() == 0 { 0 } else { byte_sum(s.drop_last()) + s.last() as nat }
}

/// A CH9329 packet up to its checksum: two marker bytes, the address, the command, the
/// length (its low eight bits) and the data.
pub open spec fn ch9329_body(cmd: u8, data: Seq<u8>) -> Seq<u8> {
    seq![0x57u8, 0xABu8, 0x00u8, cmd, (data.len() % 0x100) as u8] + data
}

/// A CH9329 packet: its body and the low eight bits of the sum of the body.
pub open spec fn ch9329_packet(cmd: u8, data: Seq<u8>) -> Seq<u8> {
    ch9329_body(cmd, data).push((byte_sum(ch9329_body(cmd, data)) % 0x100) as u8)
}

/// The packet that moves the mouse; it has no wheel.
pub open spec fn ch9329_mouse_packet(buttons: u8, x: u16, y: u16) -> Seq<u8> {
    ch9329_packet(CH9329_CMD_ABS_MOUSE, mouse_report(buttons, x, y, 0))
}

/// The video command in a control frame.
pub open spec fn control_of(frame: Seq<u8>) -> Option<VideoControl> {
    if frame[1] == CONTROL_RESOLUTION {
        Some(
            VideoControl::ChangeResolution {
                width: wire::be16(frame[2], frame[3]) as u32,
                height: wire::be16(frame[4], frame[5]) as u32,
            },
        )
    } else if frame[1] == CONTROL_FPS {
        Some(VideoControl::ChangeFps { fps: frame[2] as u32 })
    } else {
        None
    }
}

/// What a control frame has done where commands can be sent on.
pub open spec fn control_effect(frame: Seq<u8>, control: bool) -> HidEffect {
    match control_of(frame) {
        Some(c) => if control { HidEffect::Control(c) } else { HidEffect::Nothing },
        None => HidEffect::Nothing,
    }
}

/// A frame that is long enough and of the given type.
pub open spec fn is_frame(frame: Seq<u8>, ty: u8) -> bool {
    frame.len() >= 8 && frame[0] == ty
}

/// The signed number in a byte.
pub open spec fn signed(b: u8) -> i8 {
    if b < 0x80 { b as i8 } else { (b - 0x100) as i8 }
}

/// The pointer after a frame, in gadget mode.
pub open spec fn pointer_after(p: Pointer, frame: Seq<u8>) -> Pointer {
    if is_frame(frame, TYPE_MOUSE_MOVE) {
        Pointer {
            x: wire::be16(frame[2], frame[3]),
            y: wire::be16(frame[4], frame[5]),
            buttons: frame[1],
        }
    } else if is_frame(frame, TYPE_MOUSE_BTN) {
        Pointer { buttons: frame[1], ..p }
    } else {
        p
    }
}

/// What a frame has done in gadget mode.
pub open spec fn gadget_effect(p: Pointer, frame: Seq<u8>, out: Outputs) -> HidEffect {
    let q = pointer_after(p, frame);
    if is_frame(frame, TYPE_KEYBOARD) && out.keyboard {
        HidEffect::Keyboard(keyboard_report(frame[1], frame.subrange(2, 8)))
    } else if (is_frame(frame, TYPE_MOUSE_MOVE) || is_frame(frame, TYPE_MOUSE_BTN)) && out.mouse {
        HidEffect::Mouse(mouse_report(q.buttons, q.x, q.y, 0))
    } else if is_frame(frame, TYPE_MOUSE_WHEEL) && out.mouse {
        HidEffect::Mouse(mouse_report(q.buttons, q.x, q.y, signed(frame[1])))
    } else if is_frame(frame, TYPE_CONTROL) {
        control_effect(frame, out.control)
    } else {
        HidEffect::Nothing
    }
}

/// The pointer after a frame, in CH9329 mode: only its position is kept.
pub open spec fn ch9329_pointer_after(p: Pointer, frame: Seq<u8>) -> Pointer {
    if is_frame(frame, TYPE_MOUSE_MOVE) {
        Pointer {
            x: wire::be16(frame[2], frame[3]),
            y: wire::be16(frame[4], frame[5]),
            ..p
        }
    } else {
        p
    }
}

/// What a frame has done in CH9329 mode. The mouse packet has no wheel: a wheel frame
/// sends the position, with no button down.
pub open spec fn ch9329_effect(p: Pointer, frame: Seq<u8>, control: bool) -> HidEffect {
    let q = ch9329_pointer_after(p, frame);
    if is_frame(frame, TYPE_KEYBOARD) {
        HidEffect::Serial(
            ch9329_packet(
                CH9329_CMD_KEYBOARD,
                keyboard_report(frame[1], frame.subrange(2, 8)),
            ),
        )
    } else if is_frame(frame, TYPE_MOUSE_MOVE) || is_frame(frame, TYPE_MOUSE_BTN) {
        HidEffect::Serial(ch9329_mouse_packet(frame[1], q.x, q.y))
    } else if is_frame(frame, TYPE_MOUSE_WHEEL) {
        HidEffect::Serial(ch9329_mouse_packet(0, q.x, q.y))
    } else if is_frame(frame, TYPE_CONTROL) {
        control_effect(frame, control)
    } else {
        HidEffect::Nothing
    }
}

/// The mode that a configured name stands for.
pub fn select_mode(mode: &String, ch9329_built: bool) -> (r: Result<HidMode, HidModeError>)
    ensures
        r == (if mode@ == "gadget"@ {
            Ok::<HidMode, HidModeError>(HidMode::Gadget)
        } else if mode@ == "ch9329"@ {
            if ch9329_built {
                Ok(HidMode::Ch9329)
            } else {
                Err(HidModeError::NotCompiledIn)
            }
        } else {
            Err(HidModeError::Unknown)
        }),
{
    if *mode == "gadget".to_owned() {
        Ok(HidMode::Gadget)
    } else if *mode == "ch9329".to_owned() {
        if ch9329_built {
            Ok(HidMode::Ch9329)
        } else {
            Err(HidModeError::NotCompiledIn)
        }
    } else {
        Err(HidModeError::Unknown)
    }
}

/// The status byte: one bit for each device that could be opened.
pub fn device_status(keyboard: bool, mouse: bool) -> (status: u8)
    ensures
        status == (if keyboard { 1int } else { 0 }) + (if mouse { 2int } else { 0 }),
{
    let k: u8 = if keyboard { HID_STATUS_KEYBOARD } else { 0 };
    let m: u8 = if mouse { HID_STATUS_MOUSE } else { 0 };
    k + m
}

/// The pointer at the start: in the middle, with no button down.
pub fn initial_pointer() -> (p: Pointer)
    ensures
        p == (Pointer { x: POINTER_START, y: POINTER_START, buttons: 0 }),
        p.x == 0x3fff && p.y == 0x3fff,
{
    Pointer { x: POINTER_START, y: POINTER_START, buttons: 0 }
}

/// Writes the report of an absolute mouse.
pub fn make_abs_mouse_report(buttons: u8, x: u16, y: u16, wheel: i8) -> (r: [u8; 6])
    ensures
        r@ == mouse_report(buttons, x, y, wheel),
        r@[0] == buttons,
        r@[1] + 0x100 * r@[2] == x,
        r@[3] + 0x100 * r@[4] == y,
        r@[5] == (0x100 + wheel) % 0x100,
{
    assert((wheel as u8) == (if wheel < 0 { 256 + wheel } else { wheel as int })) by (bit_vector);
    let r = [
        buttons,
        (x % 0x100) as u8,
        (x / 0x100) as u8,
        (y % 0x100) as u8,
        (y / 0x100) as u8,
        wheel as u8,
    ];
    assert(r@ =~= mouse_report(buttons, x, y, wheel));
    r
}

fn control_command(frame: &[u8]) -> (r: Option<VideoControl>)
    requires
        frame@.len() >= 8,
    ensures
        r == control_of(frame@),
{
    if frame[1] == CONTROL_RESOLUTION {
        let width: u32 = wire::u16_from_be(frame[2], frame[3]) as u32;
        let height: u32 = wire::u16_from_be(frame[4], frame[5]) as u32;
        Some(VideoControl::ChangeResolution { width, height })
    } else if frame[1] == CONTROL_FPS {
        Some(VideoControl::ChangeFps { fps: frame[2] as u32 })
    } else {
        None
    }
}

fn control_action(frame: &[u8], control: bool) -> (r: HidAction)
    requires
        frame@.len() >= 8,
    ensures
        r@ == control_effect(frame@, control),
{
    if !control {
        return HidAction::Nothing;
    }
    match control_command(frame) {
        Some(c) => HidAction::Control(c),
        None => HidAction::Nothing,
    }
}

fn mouse_action(p: &Pointer, wheel: i8, mouse: bool) -> (r: HidAction)
    ensures
        r@ == (if mouse {
            HidEffect::Mouse(mouse_report(p.buttons, p.x, p.y, wheel))
        } else {
            HidEffect::Nothing
        }),
{
    if mouse {
        let report = make_abs_mouse_report(p.buttons, p.x, p.y, wheel);
        let mut v: Vec<u8> = Vec::new();
        wire::append_bytes(&mut v, &report);
        assert(v@ =~= report@);
        HidAction::Mouse(v)
    } else {
        HidAction::Nothing
    }
}

/// Decides what one frame does in gadget mode, and moves the pointer.
pub fn gadget_step(p: &mut Pointer, frame: &[u8], out: Outputs) -> (r: HidAction)
    ensures
        *final(p) == pointer_after(*old(p), frame@),
        r@ == gadget_effect(*old(p), frame@, out),
{
    if frame.len() < 8 {
        return HidAction::Nothing;
    }
    let ty: u8 = frame[0];
    if ty == TYPE_KEYBOARD {
        if out.keyboard {
            let report: Vec<u8> = vec![
                frame[1], 0x00, frame[2], frame[3], frame[4], frame[5], frame[6], frame[7],
            ];
            assert(report@ =~= keyboard_report(frame@[1], frame@.subrange(2, 8)));
            HidAction::Keyboard(report)
        } else {
            HidAction::Nothing
        }
    } else if ty == TYPE_MOUSE_MOVE {
        p.buttons = frame[1];
        p.x = wire::u16_from_be(frame[2], frame[3]);
        p.y = wire::u16_from_be(frame[4], frame[5]);
        mouse_action(p, 0, out.mouse)
    } else if ty == TYPE_MOUSE_BTN {
        p.buttons = frame[1];
        mouse_action(p, 0, out.mouse)
    } else if ty == TYPE_MOUSE_WHEEL {
        let b: u8 = frame[1];
        assert((b as i8) == (if b < 0x80 { b as int } else { b - 0x100 })) by (bit_vector);
        let delta: i8 = b as i8;
        mouse_action(p, delta, out.mouse)
    } else if ty == TYPE_CONTROL {
        control_action(frame, out.control)
    } else {
        HidAction::Nothing
    }
}

/// Frames a CH9329 command: marker, address, command, length, data and checksum.
pub fn ch9329_frame(cmd: u8, data: &[u8]) -> (frame: Vec<u8>)
    ensures
        frame@ == ch9329_packet(cmd, data@),
{
    let mut frame: Vec<u8> = vec![0x57u8, 0xAB, 0x00, cmd, (data.len() % 0x100) as u8];
    assert(frame@ =~= seq![0x57u8, 0xABu8, 0x00u8, cmd, (data@.len() % 0x100) as u8]);
    wire::append_bytes(&mut frame, data);
    let ghost body = ch9329_body(cmd, data@);
    assert(frame@ == body);
    let mut sum: u8 = 0;
    let mut i: usize = 0;
    while i < frame.len()
        invariant
            frame@ == body,
            i <= frame@.len(),
            sum as int == byte_sum(body.take(i as int)) % 0x100,
        decreases frame.len() - i,
    {
        assert(body.take(i + 1).drop_last() =~= body.take(i as int));
        sum = sum.wrapping_add(frame[i]);
        i += 1;
    }
    assert(body.take(body.len() as int) =~= body);
    frame.push(sum);
    frame
}

/// The CH9329 packet for six keys and their modifiers.
pub fn ch9329_keyboard(modifier: u8, keys: &[u8]) -> (packet: Vec<u8>)
    requires
        keys@.len() >= 6,
    ensures
        packet@ == ch9329_packet(CH9329_CMD_KEYBOARD, keyboard_report(modifier, keys@)),
{
    let data = [modifier, 0x00, keys[0], keys[1], keys[2], keys[3], keys[4], keys[5]];
    assert(data@ =~= keyboard_report(modifier, keys@));
    ch9329_frame(CH9329_CMD_KEYBOARD, &data)
}

/// The CH9329 packet for a position of the mouse.
pub fn ch9329_abs_mouse(buttons: u8, x: u16, y: u16) -> (packet: Vec<u8>)
    ensures
        packet@ == ch9329_mouse_packet(buttons, x, y),
{
    let data = make_abs_mouse_report(buttons, x, y, 0);
    ch9329_frame(CH9329_CMD_ABS_MOUSE, &data)
}

/// Decides what one frame does in CH9329 mode, and moves the pointer.
pub fn ch9329_step(p: &mut Pointer, frame: &[u8], control: bool) -> (r: HidAction)
    ensures
        *final(p) == ch9329_pointer_after(*old(p), frame@),
        r@ == ch9329_effect(*old(p), frame@, control),
{
    if frame.len() < 8 {
        return HidAction::Nothing;
    }
    let ty: u8 = frame[0];
    if ty == TYPE_KEYBOARD {
        HidAction::Serial(ch9329_keyboard(frame[1], vstd::slice::slice_subrange(frame, 2, 8)))
    } else if ty == TYPE_MOUSE_MOVE {
        p.x = wire::u16_from_be(frame[2], frame[3]);
        p.y = wire::u16_from_be(frame[4], frame[5]);
        HidAction::Serial(ch9329_abs_mouse(frame[1], p.x, p.y))
    } else if ty == TYPE_MOUSE_BTN {
        HidAction::Serial(ch9329_abs_mouse(frame[1], p.x, p.y))
    } else if ty == TYPE_MOUSE_WHEEL {
        HidAction::Serial(ch9329_abs_mouse(0, p.x, p.y))
    } else if ty == TYPE_CONTROL {
        control_action(frame, control)
    } else {
        HidAction::Nothing
    }
}

/// The pointer after a run of frames, in gadget mode.
pub open spec fn pointer_after_all(p: Pointer, frames: Seq<Seq<u8>>) -> Pointer
    decreases frames.len(),
{
    if frames.len() == 0 {
        p
    } else {
        pointer_after(pointer_after_all(p, frames.drop_last()), frames.last())
    }
}

/// A mouse report spells the buttons, the position and the wheel that it was made of.
pub proof fn law_mouse_report_decodes(buttons: u8, x: u16, y: u16, wheel: i8)
    ensures
        ({
            let r = mouse_report(buttons, x, y, wheel);
            &&& r.len() == 6
            &&& r[0] == buttons
            &&& r[1] + 0x100 * r[2] == x
            &&& r[3] + 0x100 * r[4] == y
            &&& signed(r[5]) == wheel
            &&& r[5] == (0x100 + wheel) % 0x100
        }),
{
}

/// A keyboard report holds the modifiers and the first six keys that it was made of, in order.
pub proof fn law_keyboard_report_decodes(modifier: u8, keys: Seq<u8>)
    requires
        keys.len() >= 6,
    ensures
        ({
            let r = keyboard_report(modifier, keys);
            &&& r.len() == 8
            &&& r[0] == modifier
            &&& r[1] == 0
            &&& forall|i: int| 0 <= i < 6 ==> r[2 + i] == #[trigger] keys[i]
        }),
{
}

/// The pointer stays where the last move put it: whatever other frames follow.
pub proof fn law_last_move_holds(p: Pointer, frames: Seq<Seq<u8>>, at: int)
    requires
        0 <= at < frames.len(),
        is_frame(frames[at], TYPE_MOUSE_MOVE),
        forall|i: int|
            at < i < frames.len() ==> !is_frame(#[trigger] frames[i], TYPE_MOUSE_MOVE),
    ensures
        pointer_after_all(p, frames).x == wire::be16(frames[at][2], frames[at][3]),
        pointer_after_all(p, frames).y == wire::be16(frames[at][4], frames[at][5]),
    decreases frames.len(),
{
    if at < frames.len() - 1 {
        let before = frames.drop_last();
        assert(before[at] == frames[at]);
        assert forall|i: int| at < i < before.len() implies !is_frame(
            #[trigger] before[i],
            TYPE_MOUSE_MOVE,
        ) by {
            assert(before[i] == frames[i]);
        }
        law_last_move_holds(p, before, at);
        assert(!is_frame(frames[frames.len() - 1], TYPE_MOUSE_MOVE));
    }
}

/// A frame that is too short, or of no type that is known.
pub open spec fn is_idle(frame: Seq<u8>) -> bool {
    !(is_frame(frame, TYPE_KEYBOARD) || is_frame(frame, TYPE_MOUSE_MOVE) || is_frame(
        frame,
        TYPE_MOUSE_BTN,
    ) || is_frame(frame, TYPE_MOUSE_WHEEL) || is_frame(frame, TYPE_CONTROL))
}

/// The first eight bytes of a frame.
pub open spec fn head(frame: Seq<u8>) -> Seq<u8> {
    if frame.len() > 8 { frame.take(8) } else { frame }
}

/// What each frame of a run has done, in gadget mode.
pub open spec fn effects_of_all(p: Pointer, frames: Seq<Seq<u8>>, out: Outputs) -> Seq<HidEffect> {
    Seq::new(
        frames.len(),
        |i: int| gadget_effect(pointer_after_all(p, frames.take(i)), frames[i], out),
    )
}

proof fn lemma_idle_frame_moves_nothing(p: Pointer, frames: Seq<Seq<u8>>, at: int)
    requires
        0 <= at < frames.len(),
        is_idle(frames[at]),
    ensures
        pointer_after_all(p, frames) == pointer_after_all(p, frames.remove(at)),
    decreases frames.len(),
{
    let before = frames.drop_last();
    if at == before.len() {
        assert(frames.remove(at) =~= before);
    } else {
        lemma_idle_frame_moves_nothing(p, before, at);
        assert(frames.remove(at).drop_last() =~= before.remove(at));
    }
}

/// A frame that is too short or of an unknown type does nothing, in either mode, and a run of
/// frames does without it what it does with it.
pub proof fn law_idle_frame_does_nothing(p: Pointer, frames: Seq<Seq<u8>>, at: int, out: Outputs)
    requires
        0 <= at < frames.len(),
        is_idle(frames[at]),
    ensures
        effects_of_all(p, frames, out)[at] == HidEffect::Nothing,
        effects_of_all(p, frames, out).remove(at) == effects_of_all(p, frames.remove(at), out),
        pointer_after_all(p, frames) == pointer_after_all(p, frames.remove(at)),
        ch9329_effect(p, frames[at], out.control) == HidEffect::Nothing,
        ch9329_pointer_after(p, frames[at]) == p,
{
    lemma_idle_frame_moves_nothing(p, frames, at);
    let rest = frames.remove(at);
    let (a, b) = (effects_of_all(p, frames, out).remove(at), effects_of_all(p, rest, out));
    assert forall|i: int| 0 <= i < rest.len() implies a[i] == b[i] by {
        if i < at {
            assert(rest.take(i) =~= frames.take(i));
        } else {
            assert(rest.take(i) =~= frames.take(i + 1).remove(at));
            lemma_idle_frame_moves_nothing(p, frames.take(i + 1), at);
        }
    }
    assert(a =~= b);
}

proof fn lemma_head_moves_alike(p: Pointer, frames: Seq<Seq<u8>>)
    ensures
        pointer_after_all(p, frames) == pointer_after_all(p, frames.map_values(|f| head(f))),
    decreases frames.len(),
{
    if frames.len() > 0 {
        let before = frames.drop_last();
        lemma_head_moves_alike(p, before);
        assert(frames.map_values(|f| head(f)).drop_last() =~= before.map_values(|f| head(f)));
    }
}

/// The bytes behind the eighth of a frame do not count, in either mode: a run of frames does
/// without them what it does with them.
pub proof fn law_eight_bytes_count(p: Pointer, frames: Seq<Seq<u8>>, out: Outputs)
    ensures
        effects_of_all(p, frames, out) == effects_of_all(p, frames.map_values(|f| head(f)), out),
        pointer_after_all(p, frames) == pointer_after_all(p, frames.map_values(|f| head(f))),
        forall|i: int|
            0 <= i < frames.len() ==> ch9329_effect(p, #[trigger] frames[i], out.control)
                == ch9329_effect(p, head(frames[i]), out.control) && ch9329_pointer_after(
                p,
                frames[i],
            ) == ch9329_pointer_after(p, head(frames[i])),
{
    lemma_head_moves_alike(p, frames);
    let heads = frames.map_values(|f| head(f));
    assert forall|i: int| 0 <= i < frames.len() implies frames[i].len() > 8
        ==> #[trigger] frames[i].subrange(2, 8) == head(frames[i]).subrange(2, 8) by {
        assert(frames[i].len() > 8 ==> frames[i].subrange(2, 8) =~= head(frames[i]).subrange(2, 8));
    }
    assert forall|i: int| 0 <= i < frames.len() implies effects_of_all(p, frames, out)[i]
        == effects_of_all(p, heads, out)[i] by {
        lemma_head_moves_alike(p, frames.take(i));
        assert(heads.take(i) =~= frames.take(i).map_values(|f| head(f)));
        assert(frames[i].len() > 8 ==> frames[i].subrange(2, 8) =~= head(frames[i]).subrange(2, 8));
    }
    assert(effects_of_all(p, frames, out) =~= effects_of_all(p, heads, out));
}

/// The buttons stay as the last frame that names them left them.
pub proof fn law_last_buttons_hold(p: Pointer, frames: Seq<Seq<u8>>, at: int)
    requires
        0 <= at < frames.len(),
        is_frame(frames[at], TYPE_MOUSE_MOVE) || is_frame(frames[at], TYPE_MOUSE_BTN),
        forall|i: int|
            at < i < frames.len() ==> !is_frame(#[trigger] frames[i], TYPE_MOUSE_MOVE)
                && !is_frame(frames[i], TYPE_MOUSE_BTN),
    ensures
        pointer_after_all(p, frames).buttons == frames[at][1],
    decreases frames.len(),
{
    if at < frames.len() - 1 {
        let before = frames.drop_last();
        assert(before[at] == frames[at]);
        assert forall|i: int| at < i < before.len() implies !is_frame(
            #[trigger] before[i],
            TYPE_MOUSE_MOVE,
        ) && !is_frame(before[i], TYPE_MOUSE_BTN) by {
            assert(before[i] == frames[i]);
        }
        law_last_buttons_hold(p, before, at);
        assert(!is_frame(frames[frames.len() - 1], TYPE_MOUSE_MOVE));
    }
}

/// A control frame does what it does without any device: it neither needs the keyboard or
/// the mouse nor moves the pointer, and both modes treat it alike.
pub proof fn law_control_needs_no_device(p: Pointer, frame: Seq<u8>, a: Outputs, b: Outputs)
    requires
        is_frame(frame, TYPE_CONTROL),
        a.control == b.control,
    ensures
        pointer_after(p, frame) == p,
        gadget_effect(p, frame, a) == gadget_effect(p, frame, b),
        gadget_effect(p, frame, a) == ch9329_effect(p, frame, a.control),
{
}

/// A CH9329 packet starts with its marker, names its command, and ends with the checksum
/// of what stands ahead of it; the data stand in between.
pub proof fn law_ch9329_packet(cmd: u8, data: Seq<u8>)
    ensures
        ({
            let f = ch9329_packet(cmd, data);
            &&& f.len() == data.len() + 6
            &&& f[0] == 0x57 && f[1] == 0xAB && f[2] == 0x00 && f[3] == cmd
            &&& f[4] == data.len() % 0x100
            &&& f.subrange(5, f.len() - 1) == data
            &&& f.last() == byte_sum(f.drop_last()) % 0x100
        }),
{
    let f = ch9329_packet(cmd, data);
    assert(f.subrange(5, f.len() - 1) =~= data);
    assert(f.drop_last() =~= ch9329_body(cmd, data));
}

/// Two commands that differ, in the command or in the data, are two packets.
pub proof fn law_ch9329_injective(cmd1: u8, data1: Seq<u8>, cmd2: u8, data2: Seq<u8>)
    requires
        ch9329_packet(cmd1, data1) == ch9329_packet(cmd2, data2),
    ensures
        cmd1 == cmd2,
        data1 == data2,
{
    law_ch9329_packet(cmd1, data1);
    law_ch9329_packet(cmd2, data2);
}

/// Nothing that a frame sends is longer than sixteen bytes.
pub proof fn law_message_size(p: Pointer, frame: Seq<u8>, out: Outputs)
    ensures
        match gadget_effect(p, frame, out) {
            HidEffect::Keyboard(r) => r.len() == 8,
            HidEffect::Mouse(r) => r.len() == 6,
            HidEffect::Serial(_) => false,
            _ => true,
        },
        match ch9329_effect(p, frame, out.control) {
            HidEffect::Serial(r) => r.len() == 14 || r.len() == 12,
            HidEffect::Keyboard(_) => false,
            HidEffect::Mouse(_) => false,
            _ => true,
        },
{
}

/// Both modes agree on where the pointer is after a frame.
pub proof fn law_modes_agree_on_position(p: Pointer, frame: Seq<u8>)
    ensures
        pointer_after(p, frame).x == ch9329_pointer_after(p, frame).x,
        pointer_after(p, frame).y == ch9329_pointer_after(p, frame).y,
{
}

/// Keys go through as they come. Where there is a keyboard, its report holds the modifiers
/// of the frame, every bit of them, a zero and the six keys in order; without one, nothing
/// happens. The serial chip gets the same eight bytes, with the sum of the packet behind them.
/// The pointer stays where it is.
pub proof fn law_keys_go_through(p: Pointer, frame: Seq<u8>, out: Outputs)
    requires
        frame.len() >= 8,
        frame[0] == 1,
    ensures
        pointer_after(p, frame) == p,
        ch9329_pointer_after(p, frame) == p,
        match gadget_effect(p, frame, out) {
            HidEffect::Keyboard(r) => {
                &&& out.keyboard
                &&& r.len() == 8
                &&& r[0] == frame[1]
                &&& r[1] == 0
                &&& forall|i: int| 2 <= i < 8 ==> r[i] == frame[i]
            },
            HidEffect::Nothing => !out.keyboard,
            _ => false,
        },
        match ch9329_effect(p, frame, out.control) {
            HidEffect::Serial(r) => {
                &&& r.len() == 14
                &&& r[0] == 0x57 && r[1] == 0xAB && r[2] == 0 && r[3] == 2 && r[4] == 8
                &&& r[5] == frame[1]
                &&& r[6] == 0
                &&& forall|i: int| 7 <= i < 13 ==> r[i] == frame[i - 5]
                &&& r[13] == (0x57 + 0xAB + 2 + 8 + frame[1] + frame[2] + frame[3] + frame[4]
                    + frame[5] + frame[6] + frame[7]) % 0x100
            },
            _ => false,
        },
{
    let keys = frame.subrange(2, 8);
    assert forall|i: int| 2 <= i < 8 implies keyboard_report(frame[1], keys)[i] == frame[i] by {}
    lemma_packet_8(2, keyboard_report(frame[1], keys));
}

/// The sum that a checksum is taken from grows with every byte by that byte, from zero.
pub proof fn law_every_byte_counts(s: Seq<u8>, b: u8)
    ensures
        byte_sum(s.push(b)) == byte_sum(s) + b,
        byte_sum(Seq::empty()) == 0,
{
    assert(s.push(b).drop_last() =~= s);
}

proof fn lemma_sum_append(s: Seq<u8>, t: Seq<u8>)
    ensures
        byte_sum(s + t) == byte_sum(s) + byte_sum(t),
    decreases t.len(),
{
    if t.len() == 0 {
        assert(s + t =~= s);
    } else {
        assert((s + t).drop_last() =~= s + t.drop_last());
        lemma_sum_append(s, t.drop_last());
    }
}

proof fn lemma_sum_6(s: Seq<u8>)
    requires
        s.len() == 6,
    ensures
        byte_sum(s) == s[0] + s[1] + s[2] + s[3] + s[4] + s[5],
{
    reveal_with_fuel(byte_sum, 7);
}

proof fn lemma_packet_sum(cmd: u8, data: Seq<u8>)
    ensures
        byte_sum(ch9329_body(cmd, data)) == 0x57 + 0xAB + cmd + data.len() % 0x100 + byte_sum(data),
{
    let start = seq![0x57u8, 0xABu8, 0x00u8, cmd, (data.len() % 0x100) as u8];
    lemma_sum_append(start, data);
    reveal_with_fuel(byte_sum, 6);
}

proof fn lemma_packet_6(cmd: u8, d: Seq<u8>)
    requires
        d.len() == 6,
    ensures
        ({
            let r = ch9329_packet(cmd, d);
            &&& r.len() == 12
            &&& r[0] == 0x57 && r[1] == 0xAB && r[2] == 0 && r[3] == cmd && r[4] == 6
            &&& forall|i: int| 5 <= i < 11 ==> r[i] == d[i - 5]
            &&& r[11] == (0x57 + 0xAB + cmd + 6 + d[0] + d[1] + d[2] + d[3] + d[4] + d[5]) % 0x100
        }),
{
    lemma_packet_sum(cmd, d);
    lemma_sum_6(d);
}

proof fn lemma_packet_8(cmd: u8, d: Seq<u8>)
    requires
        d.len() == 8,
    ensures
        ({
            let r = ch9329_packet(cmd, d);
            &&& r.len() == 14
            &&& r[0] == 0x57 && r[1] == 0xAB && r[2] == 0 && r[3] == cmd && r[4] == 8
            &&& forall|i: int| 5 <= i < 13 ==> r[i] == d[i - 5]
            &&& r[13] == (0x57 + 0xAB + cmd + 8 + d[0] + d[1] + d[2] + d[3] + d[4] + d[5] + d[6]
                + d[7]) % 0x100
        }),
{
    let six = d.take(6);
    assert(d =~= six.push(d[6]).push(d[7]));
    law_every_byte_counts(six, d[6]);
    law_every_byte_counts(six.push(d[6]), d[7]);
    lemma_sum_6(six);
    lemma_packet_sum(cmd, d);
}

/// A move puts the pointer where the frame says, with the buttons of the frame down, whether
/// there is a mouse or not; where there is one, its report says the same, with the wheel at
/// rest.
pub proof fn law_move_goes_through(p: Pointer, frame: Seq<u8>, out: Outputs)
    requires
        frame.len() >= 8,
        frame[0] == 2,
    ensures
        pointer_after(p, frame).x == 0x100 * frame[2] + frame[3],
        pointer_after(p, frame).y == 0x100 * frame[4] + frame[5],
        pointer_after(p, frame).buttons == frame[1],
        match gadget_effect(p, frame, out) {
            HidEffect::Mouse(r) => {
                &&& out.mouse
                &&& r.len() == 6
                &&& r[0] == frame[1]
                &&& r[1] == frame[3] && r[2] == frame[2]
                &&& r[3] == frame[5] && r[4] == frame[4]
                &&& r[5] == 0
            },
            HidEffect::Nothing => !out.mouse,
            _ => false,
        },
{
}

/// Buttons change no position: the frame's buttons are down from then on, and the report of
/// the mouse, where there is one, has them at the old position, with the wheel at rest.
pub proof fn law_buttons_go_through(p: Pointer, frame: Seq<u8>, out: Outputs)
    requires
        frame.len() >= 8,
        frame[0] == 3,
    ensures
        pointer_after(p, frame).x == p.x,
        pointer_after(p, frame).y == p.y,
        pointer_after(p, frame).buttons == frame[1],
        match gadget_effect(p, frame, out) {
            HidEffect::Mouse(r) => {
                &&& out.mouse
                &&& r.len() == 6
                &&& r[0] == frame[1]
                &&& r[1] + 0x100 * r[2] == p.x
                &&& r[3] + 0x100 * r[4] == p.y
                &&& r[5] == 0
            },
            HidEffect::Nothing => !out.mouse,
            _ => false,
        },
{
}

/// The wheel changes neither position nor buttons: the report of the mouse, where there is
/// one, has them as they are, and the wheel's byte as the frame has it.
pub proof fn law_wheel_goes_through(p: Pointer, frame: Seq<u8>, out: Outputs)
    requires
        frame.len() >= 8,
        frame[0] == 4,
    ensures
        pointer_after(p, frame) == p,
        match gadget_effect(p, frame, out) {
            HidEffect::Mouse(r) => {
                &&& out.mouse
                &&& r.len() == 6
                &&& r[0] == p.buttons
                &&& r[1] + 0x100 * r[2] == p.x
                &&& r[3] + 0x100 * r[4] == p.y
                &&& r[5] == frame[1]
            },
            HidEffect::Nothing => !out.mouse,
            _ => false,
        },
{
}

/// The serial chip is told of every mouse frame, in a packet of twelve bytes: the position
/// that the frame names, or else the one from before; the buttons of the frame, or none for a
/// wheel, which it does not have. Only a move changes what is kept, and only the position.
pub proof fn law_mouse_over_serial(p: Pointer, frame: Seq<u8>, control: bool)
    requires
        frame.len() >= 8,
        frame[0] == 2 || frame[0] == 3 || frame[0] == 4,
    ensures
        ({
            let q = ch9329_pointer_after(p, frame);
            &&& q.buttons == p.buttons
            &&& q.x == (if frame[0] == 2 { 0x100 * frame[2] + frame[3] } else { p.x as int })
            &&& q.y == (if frame[0] == 2 { 0x100 * frame[4] + frame[5] } else { p.y as int })
            &&& match ch9329_effect(p, frame, control) {
                HidEffect::Serial(r) => {
                    &&& r.len() == 12
                    &&& r[0] == 0x57 && r[1] == 0xAB && r[2] == 0 && r[3] == 4 && r[4] == 6
                    &&& r[5] == (if frame[0] == 4 { 0 } else { frame[1] })
                    &&& r[6] + 0x100 * r[7] == q.x
                    &&& r[8] + 0x100 * r[9] == q.y
                    &&& r[10] == 0
                    &&& r[11] == (0x57 + 0xAB + 4 + 6 + r[5] + r[6] + r[7] + r[8] + r[9]) % 0x100
                },
                _ => false,
            }
        }),
{
    let q = ch9329_pointer_after(p, frame);
    let buttons = if frame[0] == 4 { 0u8 } else { frame[1] };
    lemma_packet_6(4, mouse_report(buttons, q.x, q.y, 0));
}

/// A control frame asks for a size, spelled in two pairs of bytes, or for a rate of up to 255
/// pictures, in either mode, and for nothing where nobody listens; others ask for nothing.
pub proof fn law_control_goes_through(p: Pointer, frame: Seq<u8>, out: Outputs)
    requires
        frame.len() >= 8,
        frame[0] == 0x10,
    ensures
        pointer_after(p, frame) == p,
        ch9329_pointer_after(p, frame) == p,
        ch9329_effect(p, frame, out.control) == gadget_effect(p, frame, out),
        match gadget_effect(p, frame, out) {
            HidEffect::Control(VideoControl::ChangeResolution { width, height }) => {
                &&& out.control
                &&& frame[1] == 1
                &&& width == 0x100 * frame[2] + frame[3]
                &&& height == 0x100 * frame[4] + frame[5]
            },
            HidEffect::Control(VideoControl::ChangeFps { fps }) => {
                &&& out.control
                &&& frame[1] == 2
                &&& fps == frame[2]
            },
            HidEffect::Nothing => !out.control || frame[1] != 1 && frame[1] != 2,
            _ => false,
        },
{
}

/// Any other frame, and any that is too short, does nothing at all.
pub proof fn law_other_frames_ignored(p: Pointer, frame: Seq<u8>, out: Outputs)
    requires
        frame.len() < 8 || frame[0] == 0 || 5 <= frame[0] < 0x10 || frame[0] > 0x10,
    ensures
        pointer_after(p, frame) == p,
        ch9329_pointer_after(p, frame) == p,
        gadget_effect(p, frame, out) == HidEffect::Nothing,
        ch9329_effect(p, frame, out.control) == HidEffect::Nothing,
{
}

/// What an action carries is what it is seen to carry, byte for byte.
pub proof fn law_actions_seen_whole(action: HidAction)
    ensures
        match action {
            HidAction::Nothing => action@ is Nothing,
            HidAction::Keyboard(v) => action@ matches HidEffect::Keyboard(r) && r == v@,
            HidAction::Mouse(v) => action@ matches HidEffect::Mouse(r) && r == v@,
            HidAction::Serial(v) => action@ matches HidEffect::Serial(r) && r == v@,
            HidAction::Control(c) => action@ matches HidEffect::Control(d) && d == c,
        },
{
}

/// A step in gadget mode moves the pointer, and comes back with what the frame does there.
pub proof fn law_gadget_step(p: &mut Pointer, frame: &[u8], out: Outputs, r: HidAction)
    requires
        call_ensures(gadget_step, (p, frame, out), r),
    ensures
        *final(p) == pointer_after(*old(p), frame@),
        r@ == gadget_effect(*old(p), frame@, out),
        frame@.len() >= 8 && frame@[0] == 1 && out.keyboard ==> (r matches HidAction::Keyboard(v)
            && v@.len() == 8 && v@[0] == frame@[1] && v@[1] == 0 && forall|i: int|
            2 <= i < 8 ==> v@[i] == frame@[i]),
{
    if frame@.len() >= 8 && frame@[0] == 1 {
        law_keys_go_through(*old(p), frame@, out);
    }
}

/// A step in CH9329 mode moves the pointer, and comes back with what the frame does there.
pub proof fn law_ch9329_step(p: &mut Pointer, frame: &[u8], control: bool, r: HidAction)
    requires
        call_ensures(ch9329_step, (p, frame, control), r),
    ensures
        *final(p) == ch9329_pointer_after(*old(p), frame@),
        r@ == ch9329_effect(*old(p), frame@, control),
{
}

/// Packets for the serial chip are framed alike, whatever they carry: marker, command, length,
/// data and checksum.
pub proof fn law_packets_framed(
    cmd: u8,
    data: &[u8],
    packet: Vec<u8>,
    modifier: u8,
    keys: Vec<u8>,
    buttons: u8,
    x: u16,
    y: u16,
    mouse: Vec<u8>,
)
    requires
        call_ensures(ch9329_frame, (cmd, data), packet),
        data@.len() >= 6,
        call_ensures(ch9329_keyboard, (modifier, data), keys),
        call_ensures(ch9329_abs_mouse, (buttons, x, y), mouse),
    ensures
        packet@ == ch9329_packet(cmd, data@),
        keys@ == ch9329_packet(2, keyboard_report(modifier, data@)),
        mouse@ == ch9329_packet(4, mouse_report(buttons, x, y, 0)),
{
}

/// A mouse report, as it is made, spells the buttons, the position and the wheel.
pub proof fn law_report_made(buttons: u8, x: u16, y: u16, wheel: i8, r: [u8; 6])
    requires
        call_ensures(make_abs_mouse_report, (buttons, x, y, wheel), r),
    ensures
        r@[0] == buttons,
        r@[1] + 0x100 * r@[2] == x,
        r@[3] + 0x100 * r@[4] == y,
        r@[5] == (0x100 + wheel) % 0x100,
{
}

/// The two modes go by their names, the serial one only where the program has its driver; no
/// other name is known.
pub proof fn law_modes_by_name(mode: &String, built: bool, r: Result<HidMode, HidModeError>)
    requires
        call_ensures(select_mode, (mode, built), r),
    ensures
        r == Ok::<HidMode, HidModeError>(HidMode::Gadget) <==> mode@ == "gadget"@,
        r == Ok::<HidMode, HidModeError>(HidMode::Ch9329) <==> mode@ == "ch9329"@ && built,
        r == Err::<HidMode, HidModeError>(HidModeError::NotCompiledIn) <==> mode@ == "ch9329"@
            && !built,
        r == Err::<HidMode, HidModeError>(HidModeError::Unknown) <==> mode@ != "gadget"@ && mode@
            != "ch9329"@,
{
    reveal_strlit("gadget");
    reveal_strlit("ch9329");
    assert("gadget"@[0] != "ch9329"@[0]);
}

/// Each device has a bit of its own in the status, which is set exactly where it is there.
pub proof fn law_a_bit_for_each_device(
    keyboard: bool,
    mouse: bool,
    both: u8,
    first: u8,
    second: u8,
)
    requires
        call_ensures(device_status, (keyboard, mouse), both),
        call_ensures(device_status, (keyboard, false), first),
        call_ensures(device_status, (false, mouse), second),
    ensures
        both == first + second,
        keyboard ==> first == 0x01,
        mouse ==> second == 0x02,
        !keyboard ==> first == 0,
        !mouse ==> second == 0,
{
}

/// The pointer starts in the middle, with no button down.
pub proof fn law_pointer_starts_in_the_middle(p: Pointer)
    requires
        call_ensures(initial_pointer, (), p),
    ensures
        p.x == 0x3fff && p.y == 0x3fff && p.buttons == 0,
{
}

} // verus!
