//! Companion: the verified core of a voice-and-text desktop companion.
use vstd::prelude::*;

pub mod text;
pub mod bytes;
pub mod hotkey;
pub mod agent;
pub mod chat;
pub mod input;
pub mod status;
pub mod config;
pub mod asr;
pub mod tts;
pub mod audio;
pub mod voice;
pub mod session;
pub mod sidecar;
pub mod downloader;
pub mod models;
pub mod encoding;
pub mod system;
pub mod cli;
pub mod global_voice;
pub mod tray;
pub mod stream;

verus! {

} // verus!
