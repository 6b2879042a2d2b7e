//! Verified core of an instant-replay screen recorder: configuration
//! validation, hotkey parsing, buffer retention and the ffmpeg command
//! lines that the recorder runs.

pub mod config;
pub mod ffmpeg;
pub mod hotkey;
pub mod paths;
pub mod retention;
pub mod settings;
pub mod text;
