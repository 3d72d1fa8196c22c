//! A track as the mixer holds it, and the state of one playing instance.

use vstd::prelude::*;
use crate::config::{FadeCurve, PlaybackMode};

verus! {

/// A fade converted to frames at the output sample rate.
#[derive(Debug, Clone, Copy, PartialEq, Eq, Structural)]
pub struct FadeShape {
    pub frames: usize,
    pub curve: FadeCurve,
}

/// A decoded track ready to play. Its samples stay with the audio output;
/// the mixer needs only their layout and the playback settings.
#[derive(Debug, Clone)]
pub struct LoadedTrack {
    pub id: String,
    pub name: String,
    pub channels: usize,
    pub sample_rate: u32,
    pub frame_count: usize,
    pub start_frame: usize,
    pub end_frame: usize,
    pub mode: PlaybackMode,
    pub looping: bool,
    pub fade_in: Option<FadeShape>,
    pub fade_out: Option<FadeShape>,
    /// Default volume (binary32 bit pattern).
    pub default_volume: u32,
}

/// The mathematical form of a [`LoadedTrack`].
pub struct LoadedTrackModel {
    pub id: Seq<char>,
    pub name: Seq<char>,
    pub channels: usize,
    pub sample_rate: u32,
    pub frame_count: usize,
    pub start_frame: usize,
    pub end_frame: usize,
    pub mode: PlaybackMode,
    pub looping: bool,
    pub fade_in: Option<FadeShape>,
    pub fade_out: Option<FadeShape>,
    pub default_volume: u32,
}

impl View for LoadedTrack {
    type V = LoadedTrackModel;

    open spec fn view(&self) -> LoadedTrackModel {
        LoadedTrackModel {
            id: self.id@,
            name: self.name@,
            channels: self.channels,
            sample_rate: self.sample_rate,
            frame_count: self.frame_count,
            start_frame: self.start_frame,
            end_frame: self.end_frame,
            mode: self.mode,
            looping: self.looping,
            fade_in: self.fade_in,
            fade_out: self.fade_out,
            default_volume: self.default_volume,
        }
    }
}

/// Number of frames a fade lasts (none: zero).
pub open spec fn fade_frames_spec(fade: Option<FadeShape>) -> usize {
    match fade {
        Some(f) => f.frames,
        None => 0,
    }
}

/// The curve a fade uses (none: linear).
pub open spec fn fade_curve_spec(fade: Option<FadeShape>) -> FadeCurve {
    match fade {
        Some(f) => f.curve,
        None => FadeCurve::Linear,
    }
}

/// Number of frames a fade lasts (none: zero).
pub fn fade_frames(fade: Option<FadeShape>) -> (r: usize)
    ensures
        r == fade_frames_spec(fade),
{
    match fade {
        Some(f) => f.frames,
        None => 0,
    }
}

/// The curve a fade uses (none: linear).
pub fn fade_curve(fade: Option<FadeShape>) -> (r: FadeCurve)
    ensures
        r == fade_curve_spec(fade),
{
    match fade {
        Some(f) => f.curve,
        None => FadeCurve::Linear,
    }
}

impl LoadedTrack {
    /// The playable length in frames: `end_frame - start_frame`, or zero.
    pub fn duration_frames(&self) -> (r: usize)
        ensures
            r == (if self.end_frame >= self.start_frame {
                self.end_frame - self.start_frame
            } else {
                0
            }),
    {
        self.end_frame.saturating_sub(self.start_frame)
    }
}

/// A fade-out started by a stop request.
#[derive(Debug, Clone, Copy, PartialEq, Eq, Structural)]
pub struct ManualFadeOut {
    pub elapsed_frames: usize,
    pub total_frames: usize,
}

/// One playing instance of a track.
#[derive(Debug, Clone, Copy, PartialEq, Eq, Structural)]
pub struct TrackRuntime {
    pub track_index: usize,
    pub position_frame: usize,
    /// Volume (binary32 bit pattern).
    pub volume: u32,
    pub manual_fade_out: Option<ManualFadeOut>,
}

} // verus!
