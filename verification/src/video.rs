//! Video capture: which encoder is used and with what, and the conversion of captured
//! pictures for the software encoder.

use openh264::encoder::Encoder;
use vstd::prelude::*;

use crate::config::VideoConfig;

verus! {

/// The declaration of the software encoder.
#[verifier::external_type_specification]
#[verifier::external_body]
pub struct ExEncoder(openh264::encoder::Encoder);

/// The declaration of the software encoder's error.
#[verifier::external_type_specification]
#[verifier::external_body]
pub struct ExEncoderError(openh264::Error);

/// The format code of an H.264 stream.
pub const FOURCC_H264: [u8; 4] = [0x48, 0x32, 0x36, 0x34];

/// The format code of packed pictures.
pub const FOURCC_YUYV: [u8; 4] = [0x59, 0x55, 0x59, 0x56];

/// The seconds between two keyframes.
pub const KEYFRAME_SECONDS: u64 = 2;

/// Where the stream is encoded: in the capture device, or by the software encoder.
#[derive(Debug, Clone, Copy, PartialEq, Eq, Structural)]
pub enum EncodingPath {
    Hardware,
    Software,
}

/// What a capture device is asked for.
#[derive(Debug, Clone, Copy)]
pub struct CaptureRequest {
    pub width: u32,
    pub height: u32,
    pub fourcc: [u8; 4],
    /// The seconds between two pictures, as a fraction.
    pub numerator: u32,
    pub denominator: u32,
}

/// What went wrong with a picture.
#[derive(Debug, Clone, PartialEq, Eq)]
pub enum EncodeError {
    /// The software encoder refused it, and says why.
    Refused(String),
}

/// The format code that an encoding path needs the capture device to deliver.
pub open spec fn path_fourcc(path: EncodingPath) -> Seq<u8> {
    match path {
        EncodingPath::Hardware => FOURCC_H264@,
        EncodingPath::Software => FOURCC_YUYV@,
    }
}

/// The encoding path that is tried first: the hardware one where the configuration asks
/// for it.
pub fn first_path(cfg: &VideoConfig) -> (path: EncodingPath)
    ensures
        path == (if cfg.hw_encode { EncodingPath::Hardware } else { EncodingPath::Software }),
{
    if cfg.hw_encode {
        EncodingPath::Hardware
    } else {
        EncodingPath::Software
    }
}

/// The encoding path that is tried after another one has ended: the software one, where
/// the hardware one has failed.
pub fn next_path(path: EncodingPath, succeeded: bool) -> (next: Option<EncodingPath>)
    ensures
        next == (if path == EncodingPath::Hardware && !succeeded {
            Some(EncodingPath::Software)
        } else {
            None
        }),
{
    if path == EncodingPath::Hardware && !succeeded {
        Some(EncodingPath::Software)
    } else {
        None
    }
}

/// What the capture device is asked for: the configured size and rate, in the format that
/// the encoding path needs.
pub fn capture_request(cfg: &VideoConfig, path: EncodingPath) -> (r: CaptureRequest)
    ensures
        r.width == cfg.width,
        r.height == cfg.height,
        r.fourcc@ == path_fourcc(path),
        path == EncodingPath::Hardware ==> r.fourcc@ == seq![0x48u8, 0x32, 0x36, 0x34],
        path == EncodingPath::Software ==> r.fourcc@ == seq![0x59u8, 0x55, 0x59, 0x56],
        r.numerator == 1,
        r.denominator == cfg.fps,
{
    let fourcc = match path {
        EncodingPath::Hardware => FOURCC_H264,
        EncodingPath::Software => FOURCC_YUYV,
    };
    CaptureRequest {
        width: cfg.width,
        height: cfg.height,
        fourcc,
        numerator: 1,
        denominator: cfg.fps,
    }
}

impl CaptureRequest {
    /// Tests whether the device delivers the format that it was asked for.
    pub fn granted(&self, actual: [u8; 4]) -> (r: bool)
        ensures
            r == (actual@ == self.fourcc@),
    {
        let r = actual[0] == self.fourcc[0] && actual[1] == self.fourcc[1] && actual[2]
            == self.fourcc[2] && actual[3] == self.fourcc[3];
        assert(r ==> actual@ =~= self.fourcc@);
        r
    }
}

/// The bits per second of a configured rate.
pub fn bitrate_bps(kbps: u32) -> (bps: u32)
    requires
        kbps * 1000 <= u32::MAX,
    ensures
        bps == kbps * 1000,
{
    kbps * 1000
}

/// The configuration to go on with once the video capture has failed: the screen of this
/// machine, unless that is what has failed.
pub fn fallback_source(cfg: &VideoConfig) -> (r: Option<VideoConfig>)
    ensures
        r is Some <==> cfg.source@ != "screen"@,
        match r {
            Some(c) => {
                &&& c.source@ == "screen"@
                &&& c.device@ == cfg.device@
                &&& c.width == cfg.width
                &&& c.height == cfg.height
                &&& c.fps == cfg.fps
                &&& c.bitrate_kbps == cfg.bitrate_kbps
                &&& c.hw_encode == cfg.hw_encode
            },
            None => true,
        },
{
    if cfg.source == "screen".to_owned() {
        None
    } else {
        Some(
            VideoConfig {
                source: "screen".to_owned(),
                device: cfg.device.clone(),
                width: cfg.width,
                height: cfg.height,
                fps: cfg.fps,
                bitrate_kbps: cfg.bitrate_kbps,
                hw_encode: cfg.hw_encode,
            },
        )
    }
}

/// A picture is a keyframe where one was requested, and every two seconds, counted in
/// pictures.
pub open spec fn is_keyframe(picture: int, fps: u32, requested: bool) -> bool {
    requested || fps > 0 && picture % (KEYFRAME_SECONDS * fps) == 0
}

/// Any two seconds of pictures hold a keyframe, requested or not.
pub proof fn law_keyframe_every_two_seconds(start: int, fps: u32) -> (k: int)
    requires
        start >= 0,
        fps > 0,
    ensures
        start <= k < start + 2 * fps,
        is_keyframe(k, fps, false),
{
    let d = KEYFRAME_SECONDS * fps;
    let k = start + d - 1 - (start + d - 1) % d;
    vstd::arithmetic::div_mod::lemma_fundamental_div_mod(start + d - 1, d);
    vstd::arithmetic::div_mod::lemma_mod_bound(start + d - 1, d);
    let q = (start + d - 1) / d;
    assert(k == d * q);
    vstd::arithmetic::div_mod::lemma_mod_multiples_basic(q, d);
    assert(d * q == q * d) by (nonlinear_arith);
    k
}

/// The very first picture is a keyframe, and from one keyframe to the next it is two seconds
/// of pictures, with none in between, as long as none is requested. A requested one always
/// comes; where the rate is zero, no other does.
pub proof fn law_keyframes_two_seconds_apart(k: int, step: int, fps: u32)
    requires
        k >= 0,
    ensures
        is_keyframe(k, fps, true),
        !is_keyframe(k, 0, false),
        fps > 0 ==> is_keyframe(0, fps, false),
        fps > 0 && is_keyframe(k, fps, false) ==> is_keyframe(k + 2 * fps, fps, false),
        is_keyframe(k, fps, false) && 0 < step < 2 * fps ==> !is_keyframe(k + step, fps, false),
{
    if fps > 0 && is_keyframe(k, fps, false) {
        let d = KEYFRAME_SECONDS * fps;
        vstd::arithmetic::div_mod::lemma_fundamental_div_mod(k, d);
        let q = k / d;
        assert(k + d == (q + 1) * d) by (nonlinear_arith)
            requires
                k == d * q,
        ;
        vstd::arithmetic::div_mod::lemma_mod_multiples_basic(q + 1, d);
        if 0 < step < d {
            assert(k + step == q * d + step) by (nonlinear_arith)
                requires
                    k == d * q,
            ;
            vstd::arithmetic::div_mod::lemma_fundamental_div_mod_converse(k + step, d, q, step);
        }
    }
}

/// Tests whether the next picture, before which there were so many, has to be a keyframe.
pub fn keyframe_due(pictures: u64, fps: u32, requested: bool) -> (r: bool)
    ensures
        r == is_keyframe(pictures as int, fps, requested),
{
    requested || fps > 0 && pictures % (KEYFRAME_SECONDS * fps as u64) == 0
}

/// What is sent on of an encoded picture: the encoder skips pictures, and then gives none.
pub fn encoded_picture(encoded: Vec<u8>) -> (r: Option<Vec<u8>>)
    ensures
        r == (if encoded@.len() > 0 { Some(encoded) } else { None }),
{
    if encoded.len() > 0 {
        Some(encoded)
    } else {
        None
    }
}

/// Whether an `openh264::encoder::Encoder` is to make a keyframe of its next picture: as of
/// its first one, and wherever `force_intra_frame` was called.
pub uninterp spec fn keyframe_next(encoder: Encoder) -> bool;

/// What `openh264::encoder::Encoder::force_intra_frame` makes of an encoder.
pub uninterp spec fn with_keyframe(encoder: Encoder) -> Encoder;

/// Calls `openh264::encoder::Encoder::force_intra_frame`: the next picture becomes a
/// keyframe. What else is inside the encoder is not stated.
#[verifier::external_body]
fn force_keyframe(encoder: &mut Encoder)
    ensures
        *final(encoder) == with_keyframe(*old(encoder)),
        keyframe_next(*final(encoder)),
{
    encoder.force_intra_frame();
}

/// The encoder that a picture is handed to: one that is to make a keyframe of it, where one
/// is asked for.
pub open spec fn asked_for(encoder: Encoder, keyframe: bool) -> Encoder {
    if keyframe { with_keyframe(encoder) } else { encoder }
}

/// The text of an `openh264::Error`.
pub uninterp spec fn error_text(e: openh264::Error) -> Seq<char>;

/// Calls `to_string` of `openh264::Error`.
#[verifier::external_body]
fn text_of_error(e: &openh264::Error) -> (r: String)
    ensures
        r@ == error_text(*e),
{
    e.to_string()
}

/// Whether `openh264::encoder::Encoder::encode`, called once on an encoder with a planar
/// picture of some width and height, may come to an outcome, and leave another encoder behind:
/// the bytes of the stream, or the text of the error where it fails.
pub uninterp spec fn may_encode(
    before: Encoder,
    yuv: Seq<u8>,
    w: int,
    h: int,
    outcome: Result<Seq<u8>, Seq<char>>,
    after: Encoder,
) -> bool;

/// The outcome of the software encoder.
pub open spec fn encoder_outcome(r: Result<Vec<u8>, openh264::Error>) -> Result<
    Seq<u8>,
    Seq<char>,
> {
    match r {
        Ok(bytes) => Ok(bytes@),
        Err(e) => Err(error_text(e)),
    }
}

/// What comes of a picture, out of an outcome of the software encoder: a failure is an error,
/// and a stream without bytes is not sent on.
pub open spec fn picture_result(outcome: Result<Seq<u8>, Seq<char>>) -> Result<
    Option<Seq<u8>>,
    Seq<char>,
> {
    match outcome {
        Ok(bytes) => Ok(
            if bytes.len() > 0 {
                Some(bytes)
            } else {
                None
            },
        ),
        Err(text) => Err(text),
    }
}

/// What may come of a planar picture that is handed to an encoder once, and which encoder is
/// left behind.
pub open spec fn may_come_of(
    before: Encoder,
    yuv: Seq<u8>,
    w: int,
    h: int,
    r: Result<Option<Seq<u8>>, Seq<char>>,
    after: Encoder,
) -> bool {
    exists|outcome: Result<Seq<u8>, Seq<char>>| #[trigger]
        may_encode(before, yuv, w, h, outcome, after) && r == picture_result(outcome)
}

/// What came of a picture, with sequences in place of vectors and texts.
pub open spec fn result_view(r: Result<Option<Vec<u8>>, EncodeError>) -> Result<
    Option<Seq<u8>>,
    Seq<char>,
> {
    match r {
        Ok(Some(bytes)) => Ok(Some(bytes@)),
        Ok(None) => Ok(None),
        Err(EncodeError::Refused(text)) => Err(text@),
    }
}

/// Nothing that the software encoder makes is lost or changed, however much it is: a stream
/// with any bytes is sent on whole, one without is not sent on, and a failure is reported in
/// the encoder's words.
pub proof fn law_streams_sent_whole(outcome: Result<Seq<u8>, Seq<char>>)
    ensures
        match (outcome, picture_result(outcome)) {
            (Ok(bytes), Ok(Some(sent))) => {
                &&& bytes.len() > 0
                &&& sent.len() == bytes.len()
                &&& forall|i: int| 0 <= i < bytes.len() ==> sent[i] == bytes[i]
            },
            (Ok(bytes), Ok(None)) => bytes.len() == 0,
            (Err(text), Err(told)) => told == text,
            _ => false,
        },
{
}

/// What comes of a picture is what one call of the encoder has come to: the bytes that are
/// sent on are all that it made, none are sent on where it made none, and it has failed where
/// an error is reported.
pub proof fn law_one_call_per_picture(
    before: Encoder,
    yuv: Seq<u8>,
    w: int,
    h: int,
    r: Result<Option<Seq<u8>>, Seq<char>>,
    after: Encoder,
)
    ensures
        may_come_of(before, yuv, w, h, r, after) <==> match r {
            Ok(Some(sent)) => sent.len() > 0 && may_encode(before, yuv, w, h, Ok(sent), after),
            Ok(None) => may_encode(before, yuv, w, h, Ok(Seq::empty()), after),
            Err(told) => may_encode(before, yuv, w, h, Err(told), after),
        },
{
    if may_come_of(before, yuv, w, h, r, after) {
        let outcome = choose|outcome: Result<Seq<u8>, Seq<char>>| #[trigger]
            may_encode(before, yuv, w, h, outcome, after) && r == picture_result(outcome);
        if let Ok(bytes) = outcome {
            assert(bytes.len() == 0 ==> bytes =~= Seq::<u8>::empty());
        }
    }
}

/// Makes of an outcome of the software encoder what comes of the picture.
pub fn finish_picture(encoded: Result<Vec<u8>, openh264::Error>) -> (r: Result<
    Option<Vec<u8>>,
    EncodeError,
>)
    ensures
        result_view(r) == picture_result(encoder_outcome(encoded)),
        match (encoded, r) {
            (Ok(bytes), Ok(Some(sent))) => bytes@.len() > 0 && sent@ == bytes@,
            (Ok(bytes), Ok(None)) => bytes@.len() == 0,
            (Ok(_), Err(_)) => false,
            (Err(e), Err(EncodeError::Refused(text))) => text@ == error_text(e),
            (Err(_), Ok(_)) => false,
        },
{
    match encoded {
        Ok(bytes) => Ok(encoded_picture(bytes)),
        Err(e) => Err(EncodeError::Refused(text_of_error(&e))),
    }
}

/// Calls `openh264::encoder::Encoder::encode` on the planar picture, through
/// `openh264::formats::YUVBuffer::from_vec`, which wants even sides and one and a half
/// bytes per pixel. The outcome is one that the encoder may come to for this picture and these
/// sides; it refuses pictures beyond 3840 by 2160, upright or not. Which of the outcomes it
/// is rests on all the pictures before and on the machine, and is not stated.
#[verifier::external_body]
fn encode_planar(encoder: &mut Encoder, yuv: Vec<u8>, w: usize, h: usize) -> (r: Result<
    Vec<u8>,
    openh264::Error,
>)
    requires
        w % 2 == 0,
        h % 2 == 0,
        w <= i32::MAX,
        h <= i32::MAX,
        w * h * 3 <= usize::MAX,
        yuv@.len() == planar_len(w as int, h as int),
    ensures
        may_encode(
            *old(encoder),
            yuv@,
            w as int,
            h as int,
            encoder_outcome(r),
            *final(encoder),
        ),
        w > 3840 || h > 3840 || w > 2160 && h > 2160 ==> r is Err,
{
    let picture = openh264::formats::YUVBuffer::from_vec(yuv, w, h);
    let stream = encoder.encode(&picture)?;
    Ok(stream.to_vec())
}

/// Encodes one packed picture in software, as a keyframe where one is asked for: the encoder
/// gets the planar picture once, and what comes of that is what it makes of it. Nothing is to
/// be sent on where the encoder skips the picture.
pub fn encode_picture(
    encoder: &mut Encoder,
    packed: &[u8],
    w: usize,
    h: usize,
    keyframe: bool,
) -> (r: Result<Option<Vec<u8>>, EncodeError>)
    requires
        convertible(packed@.len() as int, w as int, h as int),
        w % 2 == 0,
        h % 2 == 0,
        w <= i32::MAX,
        h <= i32::MAX,
    ensures
        keyframe ==> keyframe_next(asked_for(*old(encoder), keyframe)),
        may_come_of(
            asked_for(*old(encoder), keyframe),
            planar(packed@, w as int, h as int),
            w as int,
            h as int,
            result_view(r),
            *final(encoder),
        ),
        may_encode(
            if keyframe {
                with_keyframe(*old(encoder))
            } else {
                *old(encoder)
            },
            planar(packed@, w as int, h as int),
            w as int,
            h as int,
            match r {
                Ok(Some(bytes)) => Ok(bytes@),
                Ok(None) => Ok(Seq::empty()),
                Err(EncodeError::Refused(text)) => Err(text@),
            },
            *final(encoder),
        ),
        r matches Ok(Some(bytes)) ==> bytes@.len() > 0,
        w > 3840 || h > 3840 || w > 2160 && h > 2160 ==> r is Err,
{
    if keyframe {
        force_keyframe(encoder);
    }
    let yuv = yuyv_to_yuv420(packed, w, h);
    proof {
        law_brightness_kept(packed@, w as int, h as int);
    }
    let encoded = encode_planar(encoder, yuv, w, h);
    assert(encoded matches Ok(bytes) ==> bytes@.len() == 0 ==> bytes@ =~= Seq::<u8>::empty());
    finish_picture(encoded)
}

/// The number of bytes of a planar picture.
pub open spec fn planar_len(w: int, h: int) -> int {
    w * h * 3 / 2
}

/// The planar picture before its colour is filled in: the brightness of each pixel, and
/// zeros.
pub open spec fn luma(src: Seq<u8>, w: int, h: int) -> Seq<u8> {
    Seq::new(planar_len(w, h) as nat, |i: int| if i < w * h { src[2 * i] } else { 0u8 })
}

/// Where the pixel in the upper left corner of a block of two by two stands in a packed
/// picture.
pub open spec fn block_at(w: int, row: int, col: int) -> int {
    (2 * row * w + 2 * col) * 2
}

/// Where a block's colour goes in the first of the two colour planes.
pub open spec fn plane_at(w: int, h: int, row: int, col: int) -> int {
    w * h + row * (w / 2) + col
}

/// The picture after the colour of one block was filled in.
pub open spec fn with_block(
    yuv: Seq<u8>,
    src: Seq<u8>,
    w: int,
    h: int,
    row: int,
    col: int,
) -> Seq<u8> {
    let at = plane_at(w, h, row, col);
    yuv.update(at, src[block_at(w, row, col) + 1]).update(
        at + w * h / 4,
        src[block_at(w, row, col) + 3],
    )
}

/// The picture after the colour of the first `n` blocks of a row was filled in, from left
/// to right.
pub open spec fn with_blocks(
    yuv: Seq<u8>,
    src: Seq<u8>,
    w: int,
    h: int,
    row: int,
    n: nat,
) -> Seq<u8>
    decreases n,
{
    if n == 0 {
        yuv
    } else {
        with_block(with_blocks(yuv, src, w, h, row, (n - 1) as nat), src, w, h, row, n - 1)
    }
}

/// The picture after the colour of the first `m` rows of blocks was filled in, from top to
/// bottom.
pub open spec fn with_rows(yuv: Seq<u8>, src: Seq<u8>, w: int, h: int, m: nat) -> Seq<u8>
    decreases m,
{
    if m == 0 {
        yuv
    } else {
        with_blocks(
            with_rows(yuv, src, w, h, (m - 1) as nat),
            src,
            w,
            h,
            m - 1,
            halves(w) as nat,
        )
    }
}

/// Half of a number, rounded up.
pub open spec fn halves(n: int) -> int {
    n / 2 + n % 2
}

/// The planar picture of a packed one: the brightness of every pixel, then the colour of
/// the upper left pixel of every block of two by two. Where a side is odd the colour
/// planes overlap, and what was filled in last stays.
pub open spec fn planar(src: Seq<u8>, w: int, h: int) -> Seq<u8> {
    with_rows(luma(src, w, h), src, w, h, halves(h) as nat)
}

/// A packed picture of `len` bytes can be converted: the sizes fit, every pixel and every
/// block's colour is there, and the colour planes hold the last block.
pub open spec fn convertible(len: int, w: int, h: int) -> bool {
    &&& w * h * 3 <= usize::MAX
    &&& w > 0 && h > 0 ==> {
        &&& (w * h - 1) * 2 < len
        &&& block_at(w, halves(h) - 1, halves(w) - 1) + 3 < len
        &&& plane_at(w, h, halves(h) - 1, halves(w) - 1) + w * h / 4 < planar_len(w, h)
    }
}

proof fn lemma_block_bounds(len: int, w: int, h: int, row: int, col: int)
    requires
        convertible(len, w, h),
        0 <= row < halves(h),
        0 <= col < halves(w),
        w >= 0,
        h >= 0,
    ensures
        w > 0,
        h > 0,
        0 <= row * w,
        0 <= 2 * row * w + 2 * col,
        0 <= block_at(w, row, col),
        block_at(w, row, col) + 3 < len,
        0 <= row * (w / 2),
        w * h <= plane_at(w, h, row, col),
        plane_at(w, h, row, col) + w * h / 4 < planar_len(w, h),
        0 <= w * h,
{
    let lr = halves(h) - 1;
    let lc = halves(w) - 1;
    assert(0 <= row * w <= lr * w) by (nonlinear_arith)
        requires
            0 <= row <= lr,
            w >= 0,
    ;
    assert(2 * row * w == 2 * (row * w)) by (nonlinear_arith);
    assert(2 * lr * w == 2 * (lr * w)) by (nonlinear_arith);
    let half = w / 2;
    assert(0 <= row * half <= lr * half) by (nonlinear_arith)
        requires
            0 <= row <= lr,
            half >= 0,
    ;
    assert(0 <= w * h) by (nonlinear_arith)
        requires
            w >= 0,
            h >= 0,
    ;
}

/// Tests whether a packed picture of `len` bytes can be converted.
pub fn can_convert(len: usize, w: usize, h: usize) -> (r: bool)
    ensures
        r == convertible(len as int, w as int, h as int),
{
    if w == 0 || h == 0 {
        assert(w * h == 0) by (nonlinear_arith)
            requires
                w == 0 || h == 0,
        ;
        return true;
    }
    let frame_size: usize = match w.checked_mul(h) {
        Some(n) => n,
        None => {
            return false;
        },
    };
    let triple: usize = match frame_size.checked_mul(3) {
        Some(n) => n,
        None => {
            return false;
        },
    };
    let lr: usize = h / 2 + h % 2 - 1;
    let lc: usize = w / 2 + w % 2 - 1;
    proof {
        assert(0 <= 2 * lr * w <= w * h) by (nonlinear_arith)
            requires
                0 <= 2 * lr <= h,
                w >= 0,
        ;
        assert(2 * lr * w == 2 * (lr * w)) by (nonlinear_arith);
        let half = (w / 2) as int;
        assert(0 <= lr * half <= lr * w) by (nonlinear_arith)
            requires
                0 <= half <= w,
                lr >= 0,
        ;
        assert(w <= w * h) by (nonlinear_arith)
            requires
                w >= 0,
                h >= 1,
        ;
    }
    let corner: u128 = (2 * (lr * w)) as u128 + 2 * (lc as u128);
    let last: u128 = frame_size as u128 + (lr * (w / 2)) as u128 + lc as u128 + (frame_size
        / 4) as u128;
    ((frame_size - 1) as u128) * 2 < len as u128 && corner * 2 + 3 < len as u128 && last < (triple
        / 2) as u128
}

/// Converts a packed picture (two bytes per pixel: brightness, and by turns the two
/// colours) into a planar one, with a quarter of the colour.
pub fn yuyv_to_yuv420(src: &[u8], w: usize, h: usize) -> (yuv: Vec<u8>)
    requires
        convertible(src@.len() as int, w as int, h as int),
    ensures
        yuv@ == planar(src@, w as int, h as int),
{
    let ghost (gw, gh) = (w as int, h as int);
    proof {
        assert(0 <= w * h) by (nonlinear_arith)
            requires
                w >= 0,
                h >= 0,
        ;
        if w == 0 || h == 0 {
            assert(w * h == 0) by (nonlinear_arith)
                requires
                    w == 0 || h == 0,
            ;
        } else {
            assert(w * h > 0) by (nonlinear_arith)
                requires
                    w > 0,
                    h > 0,
            ;
        }
    }
    let frame_size: usize = w * h;
    let len: usize = frame_size * 3 / 2;
    let packed: usize = src.len();
    let mut yuv: Vec<u8> = Vec::new();
    let mut i: usize = 0;
    while i < len
        invariant
            i <= len,
            len == planar_len(gw, gh),
            frame_size == gw * gh,
            packed == src@.len(),
            frame_size > 0 ==> (frame_size - 1) * 2 < packed,
            yuv@.len() == i,
            forall|j: int| 0 <= j < i ==> yuv@[j] == luma(src@, gw, gh)[j],
        decreases len - i,
    {
        if i < frame_size {
            yuv.push(src[2 * i]);
        } else {
            yuv.push(0);
        }
        i += 1;
    }
    assert(yuv@ =~= luma(src@, gw, gh));
    let rows: usize = h / 2 + h % 2;
    let cols: usize = w / 2 + w % 2;
    let mut row: usize = 0;
    while row < rows
        invariant
            row <= rows,
            rows == halves(gh),
            cols == halves(gw),
            gw == w,
            gh == h,
            packed == src@.len(),
            frame_size == gw * gh,
            yuv@.len() == planar_len(gw, gh),
            convertible(src@.len() as int, gw, gh),
            yuv@ == with_rows(luma(src@, gw, gh), src@, gw, gh, row as nat),
        decreases rows - row,
    {
        let ghost start = yuv@;
        let mut col: usize = 0;
        while col < cols
            invariant
                row < rows,
                col <= cols,
                rows == halves(gh),
                cols == halves(gw),
                gw == w,
                gh == h,
                packed == src@.len(),
                frame_size == gw * gh,
                yuv@.len() == planar_len(gw, gh),
                convertible(src@.len() as int, gw, gh),
                yuv@ == with_blocks(start, src@, gw, gh, row as int, col as nat),
            decreases cols - col,
        {
            proof {
                lemma_block_bounds(src@.len() as int, gw, gh, row as int, col as int);
                assert(2 * row * w == 2 * (row * w)) by (nonlinear_arith);
            }
            let at: usize = (2 * (row * w) + 2 * col) * 2;
            let idx: usize = row * (w / 2) + col;
            yuv.set(frame_size + idx, src[at + 1]);
            yuv.set(frame_size + frame_size / 4 + idx, src[at + 3]);
            col += 1;
        }
        row += 1;
    }
    yuv
}

proof fn lemma_blocks_keep_luma(yuv: Seq<u8>, src: Seq<u8>, w: int, h: int, row: int, n: nat)
    requires
        w >= 0,
        h >= 0,
        convertible(src.len() as int, w, h),
        0 <= row < halves(h),
        n <= halves(w),
        yuv.len() == planar_len(w, h),
    ensures
        with_blocks(yuv, src, w, h, row, n).len() == yuv.len(),
        forall|i: int|
            0 <= i < w * h ==> with_blocks(yuv, src, w, h, row, n)[i] == #[trigger] yuv[i],
    decreases n,
{
    if n > 0 {
        lemma_blocks_keep_luma(yuv, src, w, h, row, (n - 1) as nat);
        lemma_block_bounds(src.len() as int, w, h, row, n - 1);
    }
}

proof fn lemma_rows_keep_luma(yuv: Seq<u8>, src: Seq<u8>, w: int, h: int, m: nat)
    requires
        w >= 0,
        h >= 0,
        convertible(src.len() as int, w, h),
        m <= halves(h),
        yuv.len() == planar_len(w, h),
    ensures
        with_rows(yuv, src, w, h, m).len() == yuv.len(),
        forall|i: int| 0 <= i < w * h ==> with_rows(yuv, src, w, h, m)[i] == #[trigger] yuv[i],
    decreases m,
{
    if m > 0 {
        lemma_rows_keep_luma(yuv, src, w, h, (m - 1) as nat);
        lemma_blocks_keep_luma(
            with_rows(yuv, src, w, h, (m - 1) as nat),
            src,
            w,
            h,
            m - 1,
            halves(w) as nat,
        );
    }
}

/// A planar picture has one and a half bytes for each pixel, the first of which are the
/// brightness of every pixel, in order; whatever its sides.
pub proof fn law_brightness_kept(src: Seq<u8>, w: int, h: int)
    requires
        w >= 0,
        h >= 0,
        convertible(src.len() as int, w, h),
    ensures
        planar(src, w, h).len() == planar_len(w, h),
        forall|i: int| 0 <= i < w * h ==> #[trigger] planar(src, w, h)[i] == src[2 * i],
{
    assert(0 <= w * h) by (nonlinear_arith)
        requires
            w >= 0,
            h >= 0,
    ;
    let base = luma(src, w, h);
    lemma_rows_keep_luma(base, src, w, h, halves(h) as nat);
    assert forall|i: int| 0 <= i < w * h implies #[trigger] planar(src, w, h)[i] == src[2 * i] by {
        assert(base[i] == src[2 * i]);
    }
}

/// The colour of a block stands in both colour planes.
pub open spec fn block_filled(
    yuv: Seq<u8>,
    src: Seq<u8>,
    w: int,
    h: int,
    row: int,
    col: int,
) -> bool {
    &&& yuv[plane_at(w, h, row, col)] == src[block_at(w, row, col) + 1]
    &&& yuv[plane_at(w, h, row, col) + w * h / 4] == src[block_at(w, row, col) + 3]
}

/// The blocks of the first `m` rows are filled, and the first `n` of the next one.
spec fn filled(yuv: Seq<u8>, src: Seq<u8>, w: int, h: int, m: int, n: int) -> bool {
    &&& yuv.len() == planar_len(w, h)
    &&& forall|row: int, col: int|
        0 <= row < h / 2 && 0 <= col < w / 2 && (row < m || row == m && col < n)
            ==> #[trigger] block_filled(yuv, src, w, h, row, col)
}

proof fn lemma_even_bounds(w: int, h: int, row: int, col: int)
    requires
        w % 2 == 0,
        h % 2 == 0,
        0 <= row < h / 2,
        0 <= col < w / 2,
    ensures
        w * h == 4 * ((w / 2) * (h / 2)),
        0 <= row * (w / 2),
        row * (w / 2) + col < w * h / 4,
        (row + 1) * (w / 2) <= w * h / 4,
        2 * row * w == 4 * (row * (w / 2)),
{
    let (a, b) = (w / 2, h / 2);
    assert(w * h == 4 * (a * b)) by (nonlinear_arith)
        requires
            w == 2 * a,
            h == 2 * b,
    ;
    assert(0 <= row * a && row * a + col < a * b && (row + 1) * a <= a * b) by (nonlinear_arith)
        requires
            0 <= row < b,
            0 <= col < a,
    ;
    assert(2 * row * w == 4 * (row * a)) by (nonlinear_arith)
        requires
            w == 2 * a,
    ;
}

proof fn lemma_block_fills(yuv: Seq<u8>, src: Seq<u8>, w: int, h: int, m: int, n: int)
    requires
        w % 2 == 0,
        h % 2 == 0,
        0 <= m < h / 2,
        0 <= n < w / 2,
        filled(yuv, src, w, h, m, n),
    ensures
        filled(with_block(yuv, src, w, h, m, n), src, w, h, m, n + 1),
{
    let next = with_block(yuv, src, w, h, m, n);
    lemma_even_bounds(w, h, m, n);
    assert forall|row: int, col: int|
        0 <= row < h / 2 && 0 <= col < w / 2 && (row < m || row == m && col < n
            + 1) implies #[trigger] block_filled(next, src, w, h, row, col) by {
        lemma_even_bounds(w, h, row, col);
        if row < m {
            let half = w / 2;
            assert((row + 1) * half <= m * half && (row + 1) * half == row * half + half)
                by (nonlinear_arith)
                requires
                    row + 1 <= m,
                    half >= 0,
            ;
        }
        if row < m || col < n {
            assert(block_filled(yuv, src, w, h, row, col));
        }
    }
}

proof fn lemma_blocks_fill(yuv: Seq<u8>, src: Seq<u8>, w: int, h: int, m: int, n: nat)
    requires
        w % 2 == 0,
        h % 2 == 0,
        0 <= m < h / 2,
        n <= w / 2,
        filled(yuv, src, w, h, m, 0),
    ensures
        filled(with_blocks(yuv, src, w, h, m, n), src, w, h, m, n as int),
    decreases n,
{
    if n > 0 {
        lemma_blocks_fill(yuv, src, w, h, m, (n - 1) as nat);
        lemma_block_fills(
            with_blocks(yuv, src, w, h, m, (n - 1) as nat),
            src,
            w,
            h,
            m,
            n - 1,
        );
    }
}

proof fn lemma_rows_fill(yuv: Seq<u8>, src: Seq<u8>, w: int, h: int, m: nat)
    requires
        w % 2 == 0,
        h % 2 == 0,
        w >= 0,
        m <= h / 2,
        yuv.len() == planar_len(w, h),
    ensures
        filled(with_rows(yuv, src, w, h, m), src, w, h, m as int, 0),
    decreases m,
{
    if m > 0 {
        lemma_rows_fill(yuv, src, w, h, (m - 1) as nat);
        lemma_blocks_fill(
            with_rows(yuv, src, w, h, (m - 1) as nat),
            src,
            w,
            h,
            m - 1,
            halves(w) as nat,
        );
        let y = with_rows(yuv, src, w, h, m);
        assert(filled(y, src, w, h, m - 1, w / 2));
        assert forall|row: int, col: int|
            0 <= row < h / 2 && 0 <= col < w / 2 && (row < m || row == m && col
                < 0) implies #[trigger] block_filled(y, src, w, h, row, col) by {
            assert(row < m - 1 || row == m - 1 && col < w / 2);
        }
    }
}

/// Where both sides are even, the colour of every block of two by two stands in the colour
/// planes: that of its upper left pixel and its right neighbour.
pub proof fn law_colour_planes(src: Seq<u8>, w: int, h: int, row: int, col: int)
    requires
        w % 2 == 0,
        h % 2 == 0,
        0 <= row < h / 2,
        0 <= col < w / 2,
    ensures
        planar(src, w, h)[w * h + row * (w / 2) + col] == src[(2 * row * w + 2 * col) * 2 + 1],
        planar(src, w, h)[w * h + w * h / 4 + row * (w / 2) + col] == src[(2 * row * w + 2 * col)
            * 2 + 3],
{
    assert(0 <= w * h) by (nonlinear_arith)
        requires
            w >= 0,
            h >= 0,
    ;
    lemma_rows_fill(luma(src, w, h), src, w, h, halves(h) as nat);
    assert(block_filled(planar(src, w, h), src, w, h, row, col));
}

/// A whole picture with even sides can be converted, wherever its sizes fit.
pub proof fn law_even_pictures_convert(len: int, w: int, h: int)
    requires
        w >= 0,
        h >= 0,
        w % 2 == 0,
        h % 2 == 0,
        len >= 2 * (w * h),
        w * h * 3 <= usize::MAX,
    ensures
        convertible(len, w, h),
{
    if w > 0 && h > 0 {
        let (row, col) = (h / 2 - 1, w / 2 - 1);
        lemma_even_bounds(w, h, row, col);
        let half = w / 2;
        assert((row + 1) * half == row * half + half) by (nonlinear_arith);
    }
}

/// A block of two by two has a place for one of its two colours here, in a planar picture.
pub open spec fn colours(w: int, h: int, row: int, col: int, at: int) -> bool {
    ||| at == w * h + row * (w / 2) + col
    ||| at == w * h + w * h / 4 + row * (w / 2) + col
}

proof fn lemma_block_misses(
    yuv: Seq<u8>,
    src: Seq<u8>,
    w: int,
    h: int,
    row: int,
    from: nat,
    n: nat,
    at: int,
)
    requires
        w >= 0,
        h >= 0,
        convertible(src.len() as int, w, h),
        0 <= row < halves(h),
        from <= n <= halves(w),
        yuv.len() == planar_len(w, h),
        0 <= at < yuv.len(),
        forall|col: int| from <= col < n ==> !#[trigger] colours(w, h, row, col, at),
    ensures
        with_blocks(yuv, src, w, h, row, n)[at] == with_blocks(yuv, src, w, h, row, from)[at],
    decreases n,
{
    if from < n {
        lemma_block_misses(yuv, src, w, h, row, from, (n - 1) as nat, at);
        lemma_blocks_keep_luma(yuv, src, w, h, row, (n - 1) as nat);
        lemma_block_bounds(src.len() as int, w, h, row, n - 1);
        assert(!colours(w, h, row, n - 1, at));
    }
}

proof fn lemma_rows_miss(yuv: Seq<u8>, src: Seq<u8>, w: int, h: int, from: nat, m: nat, at: int)
    requires
        w >= 0,
        h >= 0,
        convertible(src.len() as int, w, h),
        from <= m <= halves(h),
        yuv.len() == planar_len(w, h),
        0 <= at < yuv.len(),
        forall|row: int, col: int|
            from <= row < m && 0 <= col < halves(w) ==> !#[trigger] colours(w, h, row, col, at),
    ensures
        with_rows(yuv, src, w, h, m)[at] == with_rows(yuv, src, w, h, from)[at],
    decreases m,
{
    if from < m {
        let before = with_rows(yuv, src, w, h, (m - 1) as nat);
        lemma_rows_miss(yuv, src, w, h, from, (m - 1) as nat, at);
        lemma_rows_keep_luma(yuv, src, w, h, (m - 1) as nat);
        lemma_block_misses(before, src, w, h, m - 1, 0, halves(w) as nat, at);
    }
}

/// Whatever the sides of a picture, each place in its colour planes has the colour of the last
/// block that has this place, from left to right and from top to bottom: the first colour of a
/// pixel pair in the first plane, the second in the second. A place of no block is zero.
pub proof fn law_last_colour_stays(src: Seq<u8>, w: int, h: int, row: int, col: int, at: int)
    requires
        w >= 0,
        h >= 0,
        convertible(src.len() as int, w, h),
        0 <= row < (h + 1) / 2,
        0 <= col < (w + 1) / 2,
        w * h <= at < w * h * 3 / 2,
    ensures
        (forall|r: int, c: int|
            0 <= r < (h + 1) / 2 && 0 <= c < (w + 1) / 2 ==> !#[trigger] colours(w, h, r, c, at))
            ==> planar(src, w, h)[at] == 0,
        (forall|r: int, c: int|
            r < (h + 1) / 2 && 0 <= c < (w + 1) / 2 && (row < r || row == r && col < c)
                ==> !#[trigger] colours(w, h, r, c, at)) ==> {
            let second = w * h + w * h / 4 + row * (w / 2) + col;
            &&& at == second ==> planar(src, w, h)[at] == src[(2 * row * w + 2 * col) * 2 + 3]
            &&& at == w * h + row * (w / 2) + col && at != second ==> planar(src, w, h)[at]
                == src[(2 * row * w + 2 * col) * 2 + 1]
        },
{
    assert(0 <= w * h) by (nonlinear_arith)
        requires
            w >= 0,
            h >= 0,
    ;
    let base = luma(src, w, h);
    let (rows, cols) = (halves(h) as nat, halves(w) as nat);
    if forall|r: int, c: int|
        0 <= r < (h + 1) / 2 && 0 <= c < (w + 1) / 2 ==> !#[trigger] colours(w, h, r, c, at) {
        lemma_rows_miss(base, src, w, h, 0, rows, at);
    }
    if forall|r: int, c: int|
        r < (h + 1) / 2 && 0 <= c < (w + 1) / 2 && (row < r || row == r && col < c)
            ==> !#[trigger] colours(w, h, r, c, at) {
        let above = with_rows(base, src, w, h, row as nat);
        lemma_rows_keep_luma(base, src, w, h, row as nat);
        lemma_rows_miss(base, src, w, h, (row + 1) as nat, rows, at);
        lemma_block_misses(above, src, w, h, row, (col + 1) as nat, cols, at);
        lemma_blocks_keep_luma(above, src, w, h, row, col as nat);
        lemma_block_bounds(src.len() as int, w, h, row, col);
    }
}

/// A block of two by two is there in a packed picture of so many bytes, and has its two places
/// in the planar one.
pub open spec fn has_block(len: int, w: int, h: int, row: int, col: int) -> bool {
    &&& (2 * row * w + 2 * col) * 2 + 3 < len
    &&& w * h + w * h / 4 + row * (w / 2) + col < w * h * 3 / 2
}

/// A picture can be converted exactly where its size can be counted, the brightness of its
/// last pixel is there, and so is every block with its places.
pub proof fn law_converts_what_is_there(len: int, w: int, h: int)
    requires
        w >= 0,
        h >= 0,
    ensures
        convertible(len, w, h) <==> {
            &&& w * h * 3 <= usize::MAX
            &&& w * h > 0 ==> 2 * (w * h - 1) < len
            &&& forall|row: int, col: int|
                0 <= row < (h + 1) / 2 && 0 <= col < (w + 1) / 2 ==> #[trigger] has_block(
                    len,
                    w,
                    h,
                    row,
                    col,
                )
        },
{
    assert(w * h > 0 <==> w > 0 && h > 0) by (nonlinear_arith)
        requires
            w >= 0,
            h >= 0,
    ;
    if convertible(len, w, h) {
        assert forall|row: int, col: int|
            0 <= row < (h + 1) / 2 && 0 <= col < (w + 1) / 2 implies #[trigger] has_block(
            len,
            w,
            h,
            row,
            col,
        ) by {
            lemma_block_bounds(len, w, h, row, col);
        }
    } else if w > 0 && h > 0 {
        assert(has_block(len, w, h, halves(h) - 1, halves(w) - 1) ==> convertible(len, w, h) || w
            * h * 3 > usize::MAX || 2 * (w * h - 1) >= len);
    }
}

/// What comes of a picture, out of what the encoder has come to: all of its bytes, however
/// many, nothing where there are none, and its own words where it has failed.
pub proof fn law_picture_finished(
    encoded: Result<Vec<u8>, openh264::Error>,
    r: Result<Option<Vec<u8>>, EncodeError>,
)
    requires
        call_ensures(finish_picture, (encoded,), r),
    ensures
        encoded matches Ok(bytes) ==> match r {
            Ok(Some(sent)) => bytes@.len() > 0 && sent@ == bytes@,
            Ok(None) => bytes@.len() == 0,
            Err(_) => false,
        },
        encoded matches Err(e) ==> (r matches Err(EncodeError::Refused(text)) && text@
            == error_text(e)),
{
}

/// An encoded picture is sent on as it is, whatever its size, unless it is empty.
pub proof fn law_picture_sent_on(encoded: Vec<u8>, r: Option<Vec<u8>>)
    requires
        call_ensures(encoded_picture, (encoded,), r),
    ensures
        match r {
            Some(sent) => encoded@.len() > 0 && sent@ == encoded@,
            None => encoded@.len() == 0,
        },
{
}

/// Encoding a picture is one call of the encoder on the planar picture, after it was told to
/// make a keyframe where one is asked for.
pub proof fn law_picture_encoded(
    encoder: &mut Encoder,
    packed: &[u8],
    w: usize,
    h: usize,
    keyframe: bool,
    r: Result<Option<Vec<u8>>, EncodeError>,
)
    requires
        call_ensures(encode_picture, (encoder, packed, w, h, keyframe), r),
    ensures
        may_encode(
            if keyframe {
                with_keyframe(*old(encoder))
            } else {
                *old(encoder)
            },
            planar(packed@, w as int, h as int),
            w as int,
            h as int,
            match r {
                Ok(Some(bytes)) => Ok(bytes@),
                Ok(None) => Ok(Seq::empty()),
                Err(EncodeError::Refused(text)) => Err(text@),
            },
            *final(encoder),
        ),
        r matches Ok(Some(bytes)) ==> bytes@.len() > 0,
        keyframe ==> keyframe_next(with_keyframe(*old(encoder))),
        w > 3840 || h > 3840 || w > 2160 && h > 2160 ==> r is Err,
{
}

/// A picture is converted into its planar form wherever that is possible.
pub proof fn law_picture_converted(
    src: &[u8],
    len: usize,
    w: usize,
    h: usize,
    can: bool,
    yuv: Vec<u8>,
)
    requires
        call_ensures(can_convert, (len, w, h), can),
        call_ensures(yuyv_to_yuv420, (src, w, h), yuv),
    ensures
        can <==> convertible(len as int, w as int, h as int),
        yuv@ == planar(src@, w as int, h as int),
{
}

/// A keyframe is due exactly where the picture is one.
pub proof fn law_keyframe_due(pictures: u64, fps: u32, requested: bool, r: bool)
    requires
        call_ensures(keyframe_due, (pictures, fps, requested), r),
    ensures
        r <==> is_keyframe(pictures as int, fps, requested),
{
}

/// The hardware path is taken first exactly where it is asked for. Only where it fails is
/// another one taken, the software path, and behind that there is none.
pub proof fn law_one_fallback_path(
    cfg: &VideoConfig,
    first: EncodingPath,
    succeeded: bool,
    second: Option<EncodingPath>,
    again: bool,
    third: Option<EncodingPath>,
)
    requires
        call_ensures(first_path, (cfg,), first),
        call_ensures(next_path, (first, succeeded), second),
        second is Some ==> call_ensures(next_path, (second->0, again), third),
    ensures
        first == EncodingPath::Hardware <==> cfg.hw_encode,
        second is Some <==> cfg.hw_encode && !succeeded,
        second is Some ==> second->0 == EncodingPath::Software && third is None,
{
}

/// A capture device is asked for the configured size and rate, in the format of the path; and
/// only that format, all four bytes of it, will do.
pub proof fn law_device_asked(
    cfg: &VideoConfig,
    path: EncodingPath,
    request: CaptureRequest,
    actual: [u8; 4],
    granted: bool,
)
    requires
        call_ensures(capture_request, (cfg, path), request),
        call_ensures(CaptureRequest::granted, (&request, actual), granted),
    ensures
        request.width == cfg.width && request.height == cfg.height,
        request.numerator == 1 && request.denominator == cfg.fps,
        granted <==> actual@ == (match path {
            EncodingPath::Hardware => seq![0x48u8, 0x32, 0x36, 0x34],
            EncodingPath::Software => seq![0x59u8, 0x55, 0x59, 0x56],
        }),
{
}

/// A thousand bits are a kilobit.
pub proof fn law_bits_of_kilobits(kbps: u32, bps: u32)
    requires
        kbps * 1000 <= u32::MAX,
        call_ensures(bitrate_bps, (kbps,), bps),
    ensures
        bps == 1000 * kbps,
{
}

/// When the capture fails, the screen takes its place, with everything else as it was, unless
/// the screen is what has failed; so there is one fallback, and none behind it.
pub proof fn law_one_fallback_source(
    cfg: &VideoConfig,
    r: Option<VideoConfig>,
    again: Option<VideoConfig>,
)
    requires
        call_ensures(fallback_source, (cfg,), r),
        r matches Some(c) ==> call_ensures(fallback_source, (&c,), again),
    ensures
        r is None <==> cfg.source@ == "screen"@,
        r is Some ==> again is None,
        r matches Some(c) ==> {
            &&& c.source@ == "screen"@
            &&& c.device@ == cfg.device@
            &&& c.width == cfg.width && c.height == cfg.height
            &&& c.fps == cfg.fps && c.bitrate_kbps == cfg.bitrate_kbps
            &&& c.hw_encode == cfg.hw_encode
        },
{
}

} // verus!
