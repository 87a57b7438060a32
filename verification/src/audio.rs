//! Audio capture: what the sound device and the encoder are asked for, and which samples
//! are encoded.

use vstd::prelude::*;

use crate::config::AudioConfig;

verus! {

/// The samples of each channel that are encoded together: twenty milliseconds at 48 kHz.
pub const FRAME_SAMPLES: usize = 960;

/// The frames that the sound device buffers.
pub const BUFFERED_FRAMES: usize = 4;

/// What the sound device and the encoder are asked for.
#[derive(Debug, Clone, Copy, PartialEq, Eq, Structural)]
pub struct AudioPlan {
    /// The samples of each channel that the sound device buffers.
    pub buffer_samples: usize,
    /// The samples of each channel that the sound device delivers at once.
    pub period_samples: usize,
    /// The encoder has two channels.
    pub stereo: bool,
    /// The bits per second of the encoder.
    pub bitrate: i32,
    /// The samples, of all channels, in a frame.
    pub frame_len: usize,
}

/// The number that 32 bits stand for, as a signed one.
pub open spec fn as_signed(n: int) -> int {
    if n <= i32::MAX { n } else { n - 0x1_0000_0000 }
}

/// What the sound device and the encoder are asked for under a configuration.
pub fn audio_plan(cfg: &AudioConfig) -> (plan: AudioPlan)
    requires
        cfg.bitrate_kbps * 1000 <= u32::MAX,
        cfg.channels * FRAME_SAMPLES <= usize::MAX,
    ensures
        plan.buffer_samples == 3840,
        plan.period_samples == 960,
        plan.stereo == (cfg.channels != 1),
        plan.bitrate == as_signed(cfg.bitrate_kbps * 1000),
        plan.bitrate == cfg.bitrate_kbps * 1000 || plan.bitrate + 0x1_0000_0000
            == cfg.bitrate_kbps * 1000,
        plan.frame_len == cfg.channels * 960,
{
    let bps: u32 = cfg.bitrate_kbps * 1000;
    assert((bps as i32) == (if bps <= 0x7fff_ffff { bps as int } else { bps - 0x1_0000_0000 }))
        by (bit_vector);
    AudioPlan {
        buffer_samples: FRAME_SAMPLES * BUFFERED_FRAMES,
        period_samples: FRAME_SAMPLES,
        stereo: cfg.channels != 1,
        bitrate: bps as i32,
        frame_len: cfg.channels as usize * FRAME_SAMPLES,
    }
}

impl AudioPlan {
    /// How much of a frame is encoded, where so many samples of each channel were read:
    /// nothing, where none were.
    pub fn encoded_len(&self, read: usize, channels: u32) -> (r: Option<usize>)
        requires
            self.frame_len == channels * FRAME_SAMPLES,
            read <= FRAME_SAMPLES,
        ensures
            r == (if read == 0 {
                None
            } else {
                Some((read * channels) as usize)
            }),
            r matches Some(n) ==> n <= self.frame_len,
    {
        if read == 0 {
            None
        } else {
            assert(read * channels <= FRAME_SAMPLES * channels) by (nonlinear_arith)
                requires
                    read <= FRAME_SAMPLES,
            ;
            Some(read * channels as usize)
        }
    }
}

/// The sound device delivers twenty milliseconds at a time and buffers four times as much; the
/// encoder has one channel exactly where one is configured; a frame has the samples of every
/// channel.
pub proof fn law_sound_asked_for(cfg: &AudioConfig, plan: AudioPlan)
    requires
        cfg.bitrate_kbps * 1000 <= u32::MAX,
        cfg.channels * FRAME_SAMPLES <= usize::MAX,
        call_ensures(audio_plan, (cfg,), plan),
    ensures
        plan.period_samples == 960,
        plan.buffer_samples == 4 * plan.period_samples,
        plan.frame_len == plan.period_samples * cfg.channels,
        plan.stereo <==> cfg.channels != 1,
        plan.bitrate == 1000 * cfg.bitrate_kbps || plan.bitrate + 0x1_0000_0000 == 1000
            * cfg.bitrate_kbps,
{
}

/// All samples that were read are encoded, of every channel; nothing only where none were.
pub proof fn law_all_samples_encoded(
    plan: AudioPlan,
    read: usize,
    channels: u32,
    r: Option<usize>,
)
    requires
        plan.frame_len == channels * FRAME_SAMPLES,
        read <= FRAME_SAMPLES,
        call_ensures(AudioPlan::encoded_len, (&plan, read, channels), r),
    ensures
        r is None <==> read == 0,
        r matches Some(n) ==> n == read * channels && n <= plan.frame_len,
{
    assert(0 <= read * channels <= FRAME_SAMPLES * channels) by (nonlinear_arith)
        requires
            read <= FRAME_SAMPLES,
    ;
}

} // verus!
