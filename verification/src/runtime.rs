//! How a show is started: the devices asked for.

use vstd::prelude::*;

verus! {

/// The devices a show starts on.
#[derive(Debug, Clone)]
pub struct RuntimeOptions {
    /// The audio output to use, by name; the default output when absent.
    pub audio_device: Option<String>,
    /// The MIDI input to use, by name; the first input when absent.
    pub midi_device: Option<String>,
    /// Whether MIDI input stays off.
    pub disable_midi: bool,
}

impl Default for RuntimeOptions {
    fn default() -> (r: Self)
        ensures
            r.audio_device is None,
            r.midi_device is None,
            !r.disable_midi,
    {
        RuntimeOptions { audio_device: None, midi_device: None, disable_midi: false }
    }
}

} // verus!
