//! Verified core of the Discord voice channel and the agent persona system.
pub mod text;
pub mod glob;
pub mod personas;
pub mod tool;
pub mod tts;
pub mod stt;
pub mod audio;
pub mod voice_config;
pub mod gateway;
pub mod voice_channel;
