//! The terminal screen: its state, what each key does, and its texts.

pub mod start_input;
pub mod tui;
