//! Frame offsets of loaded tracks and runtime updates of their settings.

use vstd::prelude::*;
use crate::audio::track::FadeShape;
use crate::command::TrackRuntimeUpdate;
use crate::config::{FadeConfig, TrackConfig};

verus! {

/// A track's times converted to frames at the output sample rate:
/// `round(seconds * sample_rate)`, negative results taken as zero. The
/// conversion itself is real arithmetic and happens with the audio output.
#[derive(Debug, Clone, Copy, PartialEq, Eq, Structural)]
pub struct TrackTiming {
    /// Frames in `start_at`.
    pub start_frames: usize,
    /// Frames in `stop_before_end`.
    pub stop_before_frames: usize,
    /// Frames in the fade-in (zero without one).
    pub fade_in_frames: usize,
    /// Frames in the fade-out (zero without one).
    pub fade_out_frames: usize,
}

/// The first playable frame: `start_frames`, but not past the end of the
/// audio.
pub open spec fn start_frame_spec(frame_count: usize, timing: TrackTiming) -> usize {
    if timing.start_frames <= frame_count {
        timing.start_frames
    } else {
        frame_count
    }
}

/// The frame where playback ends: `frame_count - stop_before_frames`, or
/// zero.
pub open spec fn end_frame_spec(frame_count: usize, timing: TrackTiming) -> usize {
    if timing.stop_before_frames <= frame_count {
        (frame_count - timing.stop_before_frames) as usize
    } else {
        0
    }
}

/// The playable frame range of a track of `frame_count` frames, when it is
/// not empty.
pub open spec fn frame_range_spec(frame_count: usize, timing: TrackTiming) -> Option<
    (usize, usize),
> {
    let start = start_frame_spec(frame_count, timing);
    let end = end_frame_spec(frame_count, timing);
    if start < end {
        Some((start, end))
    } else {
        None
    }
}

/// The playable frame range `(start, end)` of a track with `frame_count`
/// frames, or `None` when the offsets leave nothing to play.
pub fn track_frame_range(frame_count: usize, timing: &TrackTiming) -> (r: Option<(usize, usize)>)
    ensures
        r == frame_range_spec(frame_count, *timing),
        r matches Some((s, e)) ==> s < e && e <= frame_count,
{
    let start_frame = if timing.start_frames <= frame_count {
        timing.start_frames
    } else {
        frame_count
    };
    let end_frame = frame_count.saturating_sub(timing.stop_before_frames);
    if start_frame >= end_frame {
        return None;
    }
    Some((start_frame, end_frame))
}

/// A fade of the configuration with its length in frames.
pub open spec fn fade_shape_spec(fade: Option<FadeConfig>, frames: usize) -> Option<FadeShape> {
    match fade {
        Some(f) => Some(FadeShape { frames, curve: f.curve }),
        None => None,
    }
}

fn fade_shape(fade: Option<FadeConfig>, frames: usize) -> (r: Option<FadeShape>)
    ensures
        r == fade_shape_spec(fade, frames),
{
    match fade {
        Some(f) => Some(FadeShape { frames, curve: f.curve }),
        None => None,
    }
}

/// A track of `frame_count` frames plays from its start offset to its end
/// offset: there is something to play exactly when the two offsets
/// together leave at least one frame, and then the range runs from
/// `start_frames` up to `frame_count - stop_before_frames`.
pub proof fn lemma_frame_range(frame_count: usize, timing: TrackTiming)
    ensures
        frame_range_spec(frame_count, timing) is Some <==> timing.start_frames
            + timing.stop_before_frames < frame_count,
        timing.start_frames + timing.stop_before_frames < frame_count ==> frame_range_spec(
            frame_count,
            timing,
        ) == Some(
            (timing.start_frames, (frame_count - timing.stop_before_frames) as usize),
        ),
{
}

/// A configured fade becomes a fade of the given number of frames on the
/// same curve; no fade stays none.
pub proof fn lemma_fade_shape(fade: Option<FadeConfig>, frames: usize)
    ensures
        fade is None ==> fade_shape_spec(fade, frames) is None,
        fade matches Some(f) ==> fade_shape_spec(fade, frames) == Some(
            FadeShape { frames, curve: f.curve },
        ),
{
}

/// The runtime settings for a configured track whose audio has
/// `frame_count` frames, with its times converted to frames in `timing`;
/// `None` when the offsets leave nothing to play.
pub fn runtime_update_for_track(track: &TrackConfig, frame_count: usize, timing: &TrackTiming) -> (r:
    Option<TrackRuntimeUpdate>)
    ensures
        match frame_range_spec(frame_count, *timing) {
            None => r is None,
            Some((s, e)) => r == Some(
                TrackRuntimeUpdate {
                    mode: track.mode,
                    looping: track.looping,
                    start_frame: s,
                    end_frame: e,
                    fade_in: fade_shape_spec(track.fade_in, timing.fade_in_frames),
                    fade_out: fade_shape_spec(track.fade_out, timing.fade_out_frames),
                    default_volume: track.volume,
                },
            ),
        },
        r matches Some(u) ==> u.start_frame < u.end_frame && u.end_frame <= frame_count,
{
    match track_frame_range(frame_count, timing) {
        None => None,
        Some((start_frame, end_frame)) => Some(
            TrackRuntimeUpdate {
                mode: track.mode,
                looping: track.looping,
                start_frame,
                end_frame,
                fade_in: fade_shape(track.fade_in, timing.fade_in_frames),
                fade_out: fade_shape(track.fade_out, timing.fade_out_frames),
                default_volume: track.volume,
            },
        ),
    }
}

} // verus!

verus! {

/// Track `j` is the first of the tracks reading the same file as track `i`.
pub open spec fn first_reader(files: Seq<Seq<char>>, i: int, j: int) -> bool {
    &&& 0 <= j <= i
    &&& files[j] == files[i]
    &&& forall|k: int| 0 <= k < j ==> files[k] != files[i]
}

/// For each track, given the text of its resolved file, the first track
/// that reads the same file: that track's decoded audio is reused, so each
/// file is decoded once.
pub fn first_readers(files: &Vec<String>) -> (r: Vec<usize>)
    ensures
        r.len() == files.len(),
        forall|i: int|
            0 <= i < files.len() ==> first_reader(
                files@.map_values(|f: String| f@),
                i,
                #[trigger] r@[i] as int,
            ),
{
    let ghost fs = files@.map_values(|f: String| f@);
    let mut out: Vec<usize> = Vec::new();
    let mut i: usize = 0;
    while i < files.len()
        invariant
            fs == files@.map_values(|f: String| f@),
            fs.len() == files.len(),
            i <= files.len(),
            out.len() == i,
            forall|q: int| 0 <= q < i ==> first_reader(fs, q, #[trigger] out@[q] as int),
        decreases files.len() - i,
    {
        let mut j: usize = 0;
        while j < i && !crate::text::str_eq(files[j].as_str(), files[i].as_str())
            invariant
                fs == files@.map_values(|f: String| f@),
                fs.len() == files.len(),
                i < files.len(),
                j <= i,
                forall|k: int| 0 <= k < j ==> fs[k] != fs[i as int],
            decreases i - j,
        {
            j += 1;
        }
        let ghost before = out@;
        out.push(j);
        proof {
            assert forall|q: int| 0 <= q < i + 1 implies first_reader(fs, q, #[trigger] out@[q] as int) by {
                if q < i {
                    assert(out@[q] == before[q]);
                }
            }
        }
        i += 1;
    }
    out
}

} // verus!
