//! Verified core of the Any-KVM device agent.
//!
//! Each module holds the rules of one part of the agent. Most are functions from plain
//! values to plain values; where a rule needs the WebRTC engine, the software encoder, JSON
//! or the encoding of URLs, it calls them. Sockets, device nodes and timers stay with the
//! program that links this library.

pub mod answer;
pub mod audio;
pub mod config;
pub mod engine;
pub mod h264;
pub mod hid;
pub mod json;
pub mod md5;
pub mod net;
pub mod session;
pub mod sha1;
pub mod signal_client;
pub mod stun;
pub mod supervisor;
pub mod text;
pub mod turn;
pub mod video;
pub mod wire;
