//! Real-time relay of a host's system audio to remote listeners.
//!
//! The library holds the relay's logic: the fixed audio format, the wire
//! envelopes, frame accumulation on the capture side, the broadcast hub with
//! its listener registry, the per-connection session state machines of host
//! and client, and the playback buffer. Device access, sockets and the audio
//! codec itself are driven from outside and hand plain values in and out.

use vstd::prelude::*;

pub mod format;
pub mod wire;
pub mod registry;
pub mod hub;
pub mod server;
pub mod client;
pub mod capture;
pub mod playback;
pub mod settings;
pub mod status;
