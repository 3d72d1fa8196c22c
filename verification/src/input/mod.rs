//! Control inputs: MIDI messages and keys.

pub mod midi;
pub mod keyboard;
