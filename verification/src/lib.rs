//! Yell Guard: detection of sustained loud voice from microphone loudness
//! windows, event log framing and summary statistics.
pub mod level;
pub mod clock;
pub mod detector;
pub mod detector_laws;
pub mod text;
pub mod since;
pub mod logger;
pub mod metrics;
pub mod audio;
pub mod config;
