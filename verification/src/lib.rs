//! Padsound: the show model, validation and playback control logic of a
//! theatre sound-cue player, verified with Verus.
//!
//! Real-valued quantities (seconds, gains) are carried as raw IEEE-754 bit
//! patterns (`u64` for binary64, `u32` for binary32); see [`numeric`].

pub mod numeric;
pub mod text;
pub mod paths;
pub mod error;
pub mod sort;
pub mod config;
pub mod generate;
pub mod command;
pub mod audio;
pub mod state;
pub mod input;
pub mod ui;
pub mod runtime;
