pub mod text;
pub mod json;
pub mod avs;
pub mod config;
pub mod auth;
pub mod remote;
pub mod cache;
pub mod audio;
pub mod stt;
pub mod tts;
pub mod cli;
