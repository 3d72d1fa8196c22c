//! Commands sent from the controls (keyboard, MIDI, screen) to the mixer.

use vstd::prelude::*;
use crate::audio::track::FadeShape;
use crate::config::PlaybackMode;

verus! {

/// New playback settings for a loaded track, already converted to frames.
#[derive(Debug, Clone, Copy, PartialEq, Eq, Structural)]
pub struct TrackRuntimeUpdate {
    pub mode: PlaybackMode,
    pub looping: bool,
    pub start_frame: usize,
    pub end_frame: usize,
    pub fade_in: Option<FadeShape>,
    pub fade_out: Option<FadeShape>,
    /// Default volume (binary32 bit pattern).
    pub default_volume: u32,
}

/// A control request for the mixer.
#[derive(Debug, Clone, PartialEq)]
pub enum Command {
    Play { track_id: String },
    Stop { track_id: String },
    Toggle { track_id: String },
    HoldStart { track_id: String },
    HoldEnd { track_id: String },
    /// `volume` is a binary32 bit pattern.
    SetVolume { track_id: String, volume: u32 },
    UpdateTrackRuntime { track_id: String, update: TrackRuntimeUpdate },
    StopAll,
}

/// The mathematical form of a [`Command`].
pub enum CommandModel {
    Play { track_id: Seq<char> },
    Stop { track_id: Seq<char> },
    Toggle { track_id: Seq<char> },
    HoldStart { track_id: Seq<char> },
    HoldEnd { track_id: Seq<char> },
    SetVolume { track_id: Seq<char>, volume: u32 },
    UpdateTrackRuntime { track_id: Seq<char>, update: TrackRuntimeUpdate },
    StopAll,
}

impl View for Command {
    type V = CommandModel;

    open spec fn view(&self) -> CommandModel {
        match self {
            Command::Play { track_id } => CommandModel::Play { track_id: track_id@ },
            Command::Stop { track_id } => CommandModel::Stop { track_id: track_id@ },
            Command::Toggle { track_id } => CommandModel::Toggle { track_id: track_id@ },
            Command::HoldStart { track_id } => CommandModel::HoldStart { track_id: track_id@ },
            Command::HoldEnd { track_id } => CommandModel::HoldEnd { track_id: track_id@ },
            Command::SetVolume { track_id, volume } => CommandModel::SetVolume {
                track_id: track_id@,
                volume: *volume,
            },
            Command::UpdateTrackRuntime { track_id, update } => CommandModel::UpdateTrackRuntime {
                track_id: track_id@,
                update: *update,
            },
            Command::StopAll => CommandModel::StopAll,
        }
    }
}

} // verus!
