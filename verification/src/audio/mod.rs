//! Playback: loaded tracks, the mixer's control logic and track offsets.

pub mod track;
pub mod mixer;
pub mod engine;
pub mod devices;
