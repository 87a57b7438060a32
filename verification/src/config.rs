//! What the agent is configured with.

use vstd::prelude::*;

verus! {

/// The whole configuration.
#[derive(Debug, Clone)]
pub struct Config {
    pub signal: SignalConfig,
    pub video: VideoConfig,
    pub audio: AudioConfig,
    pub hid: HidConfig,
    pub ice: IceConfig,
}

/// The signalling server, and the room that the device enters.
#[derive(Debug, Clone)]
pub struct SignalConfig {
    pub url: String,
    pub room_id: String,
}

/// The video capture.
#[derive(Debug, Clone)]
pub struct VideoConfig {
    /// Where the picture comes from: "v4l2" for a capture device, "screen" for the screen
    /// of this machine.
    pub source: String,
    /// The path of the capture device.
    pub device: String,
    pub width: u32,
    pub height: u32,
    pub fps: u32,
    pub bitrate_kbps: u32,
    pub hw_encode: bool,
}

/// The audio capture.
#[derive(Debug, Clone)]
pub struct AudioConfig {
    pub device: String,
    pub sample_rate: u32,
    pub channels: u32,
    pub bitrate_kbps: u32,
    pub enabled: bool,
}

/// The injection of input.
#[derive(Debug, Clone)]
pub struct HidConfig {
    /// "gadget" or "ch9329".
    pub mode: String,
    /// The path of the keyboard gadget.
    pub keyboard_device: String,
    /// The path of the mouse gadget.
    pub mouse_device: String,
    pub serial_port: String,
    pub serial_baud: u32,
}

/// The servers that help to reach a peer.
#[derive(Debug, Clone)]
pub struct IceConfig {
    pub stun_servers: Vec<String>,
    pub turn_url: Option<String>,
    pub turn_username: Option<String>,
    pub turn_password: Option<String>,
}

/// The video source where none is configured.
pub fn default_video_source() -> (source: String)
    ensures
        source@ == "v4l2"@,
{
    "v4l2".to_owned()
}

/// Pictures come from a capture device where nothing else is configured.
pub proof fn law_default_source(source: String)
    requires
        call_ensures(default_video_source, (), source),
    ensures
        source@ == "v4l2"@,
{
}

} // verus!
