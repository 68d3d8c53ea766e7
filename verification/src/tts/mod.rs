//! Text-to-speech backends: what can be said of them without running one.
pub mod piper;
