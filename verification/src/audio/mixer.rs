//! The mixer's control logic: which tracks play, where, how loud, and which
//! fades apply to the next output frame. Turning that into samples is done
//! by the audio output from the [`Voice`]s it returns.

use vstd::prelude::*;
use crate::audio::track::{
    fade_curve, fade_curve_spec, fade_frames, fade_frames_spec, LoadedTrack, LoadedTrackModel,
    ManualFadeOut, TrackRuntime,
};
use crate::command::{Command, CommandModel, TrackRuntimeUpdate};
use crate::config::FadeCurve;
use crate::numeric::{clamp_gain, clamp_gain_spec};
use crate::text::str_eq;

verus! {

/// How far along a fade is: the fade's gain is its curve at
/// `position / length`.
#[derive(Debug, Clone, Copy, PartialEq, Eq, Structural)]
pub struct FadeProgress {
    pub position: usize,
    pub length: usize,
    pub curve: FadeCurve,
}

/// One playing instance's contribution to the next output frame: the
/// track's sample frame `frame`, scaled by `volume` (binary32 bit pattern)
/// and by the smallest gain among the fades present.
#[derive(Debug, Clone, Copy, PartialEq, Eq, Structural)]
pub struct Voice {
    pub track_index: usize,
    pub frame: usize,
    pub volume: u32,
    pub fade_in: Option<FadeProgress>,
    pub fade_out: Option<FadeProgress>,
    pub manual_fade_out: Option<FadeProgress>,
}

/// What the screens show about one track.
#[derive(Debug, Clone)]
pub struct RuntimeTrackState {
    pub track_id: String,
    pub is_playing: bool,
    /// Volume (binary32 bit pattern).
    pub volume: u32,
    /// Frames played since the track's start frame.
    pub elapsed_frames: usize,
    pub sample_rate: u32,
}

/// The mathematical form of a [`RuntimeTrackState`].
pub struct RuntimeTrackStateModel {
    pub track_id: Seq<char>,
    pub is_playing: bool,
    pub volume: u32,
    pub elapsed_frames: usize,
    pub sample_rate: u32,
}

impl View for RuntimeTrackState {
    type V = RuntimeTrackStateModel;

    open spec fn view(&self) -> RuntimeTrackStateModel {
        RuntimeTrackStateModel {
            track_id: self.track_id@,
            is_playing: self.is_playing,
            volume: self.volume,
            elapsed_frames: self.elapsed_frames,
            sample_rate: self.sample_rate,
        }
    }
}

/// The mixer: loaded tracks, their current volumes and the playing
/// instances, in start order.
#[derive(Debug)]
pub struct Mixer {
    tracks: Vec<LoadedTrack>,
    volumes: Vec<u32>,
    active: Vec<TrackRuntime>,
}

/// The mathematical form of a [`Mixer`].
pub struct MixerModel {
    pub tracks: Seq<LoadedTrackModel>,
    pub volumes: Seq<u32>,
    pub active: Seq<TrackRuntime>,
}

impl View for Mixer {
    type V = MixerModel;

    closed spec fn view(&self) -> MixerModel {
        MixerModel {
            tracks: self.tracks@.map_values(|t: LoadedTrack| t@),
            volumes: self.volumes@,
            active: self.active@,
        }
    }
}

/// `a - b`, or zero when `b > a`.
pub open spec fn sat_sub(a: usize, b: usize) -> usize {
    if a >= b {
        (a - b) as usize
    } else {
        0
    }
}

/// The mixer's invariant: one volume per track; every playing instance
/// refers to a track with a non-empty frame range, is not before the track's
/// start frame, and a manual fade-out in progress has frames left.
pub open spec fn mixer_wf(m: MixerModel) -> bool {
    &&& m.volumes.len() == m.tracks.len()
    &&& forall|k: int| 0 <= k < m.active.len() ==> runtime_wf(m.tracks, #[trigger] m.active[k])
}

/// One playing instance is consistent with the tracks.
pub open spec fn runtime_wf(tracks: Seq<LoadedTrackModel>, rt: TrackRuntime) -> bool {
    &&& rt.track_index < tracks.len()
    &&& tracks[rt.track_index as int].start_frame < tracks[rt.track_index as int].end_frame
    &&& tracks[rt.track_index as int].start_frame <= rt.position_frame
    &&& rt.manual_fade_out matches Some(f) ==> f.elapsed_frames < f.total_frames
}

/// The index of the track with this id (the last one, should ids repeat).
pub open spec fn track_index_of(tracks: Seq<LoadedTrackModel>, id: Seq<char>) -> Option<int>
    decreases tracks.len(),
{
    if tracks.len() == 0 {
        None
    } else if tracks.last().id == id {
        Some(tracks.len() - 1)
    } else {
        track_index_of(tracks.drop_last(), id)
    }
}

proof fn lemma_track_index_of_range(tracks: Seq<LoadedTrackModel>, id: Seq<char>)
    ensures
        track_index_of(tracks, id) matches Some(i) ==> 0 <= i < tracks.len() && tracks[i].id == id,
        track_index_of(tracks, id) is None ==> forall|k: int|
            0 <= k < tracks.len() ==> (#[trigger] tracks[k]).id != id,
    decreases tracks.len(),
{
    if tracks.len() > 0 && tracks.last().id != id {
        lemma_track_index_of_range(tracks.drop_last(), id);
        assert forall|k: int| 0 <= k < tracks.len() - 1 implies tracks.drop_last()[k] == tracks[k] by {}
    }
}

/// The instances of other tracks than `index`, in order.
pub open spec fn without_track(s: Seq<TrackRuntime>, index: usize) -> Seq<TrackRuntime>
    decreases s.len(),
{
    if s.len() == 0 {
        s
    } else {
        let rest = without_track(s.drop_last(), index);
        if s.last().track_index == index {
            rest
        } else {
            rest.push(s.last())
        }
    }
}

/// An instance after a stop request with a fade-out of `frames` frames: an
/// instance of track `index` that is not already fading out starts doing so.
pub open spec fn begin_fade(rt: TrackRuntime, index: usize, frames: usize) -> TrackRuntime {
    if rt.track_index == index && rt.manual_fade_out is None {
        TrackRuntime {
            manual_fade_out: Some(ManualFadeOut { elapsed_frames: 0, total_frames: frames }),
            ..rt
        }
    } else {
        rt
    }
}

/// An instance after a volume change of track `index` to `volume`.
pub open spec fn with_volume(rt: TrackRuntime, index: usize, volume: u32) -> TrackRuntime {
    if rt.track_index == index {
        TrackRuntime { volume, ..rt }
    } else {
        rt
    }
}

/// The instances after new settings for track `index`: its instances take
/// the new volume and only those inside the new frame range stay.
pub open spec fn retune(s: Seq<TrackRuntime>, index: usize, volume: u32, start: usize, end: usize) -> Seq<
    TrackRuntime,
>
    decreases s.len(),
{
    if s.len() == 0 {
        s
    } else {
        let rest = retune(s.drop_last(), index, volume, start, end);
        let rt = s.last();
        if rt.track_index != index {
            rest.push(rt)
        } else if start <= rt.position_frame && rt.position_frame < end {
            rest.push(TrackRuntime { volume, ..rt })
        } else {
            rest
        }
    }
}

/// The mixer after a stop request for `id`.
pub open spec fn stop_spec(m: MixerModel, id: Seq<char>) -> MixerModel {
    match track_index_of(m.tracks, id) {
        None => m,
        Some(i) => {
            let frames = fade_frames_spec(m.tracks[i].fade_out);
            if frames == 0 {
                MixerModel { active: without_track(m.active, i as usize), ..m }
            } else {
                MixerModel {
                    active: m.active.map_values(|rt: TrackRuntime| begin_fade(rt, i as usize, frames)),
                    ..m
                }
            }
        },
    }
}

/// The mixer after a play request for `id`: instances of the track are
/// stopped (or start fading out), then a new one starts at the start frame
/// with the track's current volume.
pub open spec fn play_spec(m: MixerModel, id: Seq<char>) -> MixerModel {
    match track_index_of(m.tracks, id) {
        None => m,
        Some(i) => {
            let m1 = stop_spec(m, id);
            let t = m1.tracks[i];
            if t.start_frame >= t.end_frame {
                m1
            } else {
                MixerModel {
                    active: m1.active.push(
                        TrackRuntime {
                            track_index: i as usize,
                            position_frame: t.start_frame,
                            volume: m1.volumes[i],
                            manual_fade_out: None,
                        },
                    ),
                    ..m1
                }
            }
        },
    }
}

/// Some instance of the track `id` is playing.
pub open spec fn is_active_spec(m: MixerModel, id: Seq<char>) -> bool {
    match track_index_of(m.tracks, id) {
        None => false,
        Some(i) => exists|k: int| 0 <= k < m.active.len() && (#[trigger] m.active[k]).track_index == i,
    }
}

/// The mixer after a volume change of `id` to `volume` (clamped to 0..1).
pub open spec fn set_volume_spec(m: MixerModel, id: Seq<char>, volume: u32) -> MixerModel {
    match track_index_of(m.tracks, id) {
        None => m,
        Some(i) => {
            let v = clamp_gain_spec(volume);
            MixerModel {
                volumes: m.volumes.update(i, v),
                active: m.active.map_values(|rt: TrackRuntime| with_volume(rt, i as usize, v)),
                ..m
            }
        },
    }
}

/// A loaded track with new settings.
pub open spec fn updated_track(t: LoadedTrackModel, u: TrackRuntimeUpdate) -> LoadedTrackModel {
    LoadedTrackModel {
        mode: u.mode,
        looping: u.looping,
        start_frame: u.start_frame,
        end_frame: u.end_frame,
        fade_in: u.fade_in,
        fade_out: u.fade_out,
        default_volume: clamp_gain_spec(u.default_volume),
        ..t
    }
}

/// The mixer after new settings for `id`; settings whose frame range is
/// empty or runs past the audio are ignored.
pub open spec fn update_spec(m: MixerModel, id: Seq<char>, u: TrackRuntimeUpdate) -> MixerModel {
    match track_index_of(m.tracks, id) {
        None => m,
        Some(i) => {
            if u.start_frame >= u.end_frame || u.end_frame > m.tracks[i].frame_count {
                m
            } else {
                let v = clamp_gain_spec(u.default_volume);
                MixerModel {
                    tracks: m.tracks.update(i, updated_track(m.tracks[i], u)),
                    volumes: m.volumes.update(i, v),
                    active: retune(m.active, i as usize, v, u.start_frame, u.end_frame),
                }
            }
        },
    }
}

/// The mixer after a command.
pub open spec fn handle_command_spec(m: MixerModel, c: CommandModel) -> MixerModel {
    match c {
        CommandModel::Play { track_id } => play_spec(m, track_id),
        CommandModel::HoldStart { track_id } => play_spec(m, track_id),
        CommandModel::Stop { track_id } => stop_spec(m, track_id),
        CommandModel::HoldEnd { track_id } => stop_spec(m, track_id),
        CommandModel::Toggle { track_id } => if is_active_spec(m, track_id) {
            stop_spec(m, track_id)
        } else {
            play_spec(m, track_id)
        },
        CommandModel::SetVolume { track_id, volume } => set_volume_spec(m, track_id, volume),
        CommandModel::UpdateTrackRuntime { track_id, update } => update_spec(m, track_id, update),
        CommandModel::StopAll => MixerModel { active: Seq::empty(), ..m },
    }
}

/// `s` with element `i` replaced by the last one and the last one dropped.
pub open spec fn swap_remove_spec(s: Seq<TrackRuntime>, i: int) -> Seq<TrackRuntime> {
    s.update(i, s.last()).drop_last()
}

/// The contribution of an instance playing `track` at frame `pos`.
pub open spec fn voice_spec(track: LoadedTrackModel, rt: TrackRuntime, pos: usize) -> Voice {
    let fade_in_frames = fade_frames_spec(track.fade_in);
    let fade_out_frames = fade_frames_spec(track.fade_out);
    let remaining = sat_sub(track.end_frame, pos);
    Voice {
        track_index: rt.track_index,
        frame: pos,
        volume: rt.volume,
        fade_in: if fade_in_frames > 0 {
            Some(
                FadeProgress {
                    position: sat_sub(pos, track.start_frame),
                    length: fade_in_frames,
                    curve: fade_curve_spec(track.fade_in),
                },
            )
        } else {
            None
        },
        fade_out: if fade_out_frames > 0 && remaining < fade_out_frames {
            Some(
                FadeProgress {
                    position: remaining,
                    length: fade_out_frames,
                    curve: fade_curve_spec(track.fade_out),
                },
            )
        } else {
            None
        },
        manual_fade_out: match rt.manual_fade_out {
            Some(f) => Some(
                FadeProgress {
                    position: sat_sub(f.total_frames, f.elapsed_frames),
                    length: f.total_frames,
                    curve: fade_curve_spec(track.fade_out),
                },
            ),
            None => None,
        },
    }
}

/// An instance after contributing frame `pos`: it moves to the next frame
/// and a manual fade-out advances by one frame.
pub open spec fn advanced(rt: TrackRuntime, pos: usize) -> TrackRuntime {
    TrackRuntime {
        position_frame: (pos + 1) as usize,
        manual_fade_out: match rt.manual_fade_out {
            Some(f) => Some(
                ManualFadeOut { elapsed_frames: (f.elapsed_frames + 1) as usize, ..f },
            ),
            None => None,
        },
        ..rt
    }
}

/// Producing one output frame from instance `i` on: an instance past its
/// end frame wraps to the start when the track loops and is dropped
/// otherwise; a playing instance contributes a voice and advances; an
/// instance whose manual fade-out is complete is dropped. Dropping moves
/// the last instance into the freed place, which is processed next.
/// Returns the instances afterwards and the voices, in processing order.
pub open spec fn mix_from(tracks: Seq<LoadedTrackModel>, active: Seq<TrackRuntime>, i: int) -> (
    Seq<TrackRuntime>,
    Seq<Voice>,
)
    decreases active.len() - i,
{
    if i < 0 || i >= active.len() {
        (active, Seq::empty())
    } else {
        let rt = active[i];
        let track = tracks[rt.track_index as int];
        if rt.position_frame >= track.end_frame && !track.looping {
            mix_from(tracks, swap_remove_spec(active, i), i)
        } else {
            let pos = if rt.position_frame >= track.end_frame {
                track.start_frame
            } else {
                rt.position_frame
            };
            let voice = voice_spec(track, rt, pos);
            let next = advanced(rt, pos);
            let rest = if next.manual_fade_out matches Some(f) && f.elapsed_frames
                >= f.total_frames {
                mix_from(tracks, swap_remove_spec(active, i), i)
            } else {
                mix_from(tracks, active.update(i, next), i + 1)
            };
            (rest.0, seq![voice] + rest.1)
        }
    }
}

/// The first instance of track `index` in `s`.
pub open spec fn first_runtime_of(s: Seq<TrackRuntime>, index: usize) -> Option<TrackRuntime>
    decreases s.len(),
{
    if s.len() == 0 {
        None
    } else if s[0].track_index == index {
        Some(s[0])
    } else {
        first_runtime_of(s.drop_first(), index)
    }
}

/// What the screens show about track `k`: its first playing instance, if
/// any, gives the volume and position; otherwise the track's current volume
/// and its start.
pub open spec fn track_state_spec(m: MixerModel, k: int) -> RuntimeTrackStateModel {
    let t = m.tracks[k];
    let first = first_runtime_of(m.active, k as usize);
    let position = match first {
        Some(rt) => rt.position_frame,
        None => t.start_frame,
    };
    RuntimeTrackStateModel {
        track_id: t.id,
        is_playing: first is Some,
        volume: match first {
            Some(rt) => rt.volume,
            None => m.volumes[k],
        },
        elapsed_frames: sat_sub(position, t.start_frame),
        sample_rate: t.sample_rate,
    }
}

proof fn lemma_without_track_wf(tracks: Seq<LoadedTrackModel>, s: Seq<TrackRuntime>, index: usize)
    requires
        forall|k: int| 0 <= k < s.len() ==> runtime_wf(tracks, #[trigger] s[k]),
    ensures
        forall|k: int|
            0 <= k < without_track(s, index).len() ==> runtime_wf(
                tracks,
                #[trigger] without_track(s, index)[k],
            ),
        forall|k: int|
            0 <= k < without_track(s, index).len() ==> (#[trigger] without_track(s, index)[k]).track_index
                != index,
    decreases s.len(),
{
    if s.len() > 0 {
        assert forall|k: int| 0 <= k < s.drop_last().len() implies runtime_wf(
            tracks,
            #[trigger] s.drop_last()[k],
        ) by {
            assert(s.drop_last()[k] == s[k]);
        }
        lemma_without_track_wf(tracks, s.drop_last(), index);
        assert(runtime_wf(tracks, s[s.len() - 1]));
    }
}

proof fn lemma_retune_wf(
    tracks: Seq<LoadedTrackModel>,
    s: Seq<TrackRuntime>,
    index: usize,
    volume: u32,
    start: usize,
    end: usize,
)
    requires
        forall|k: int| 0 <= k < s.len() ==> runtime_wf(tracks, #[trigger] s[k]),
    ensures
        forall|k: int|
            0 <= k < retune(s, index, volume, start, end).len() ==> runtime_wf(
                tracks,
                #[trigger] retune(s, index, volume, start, end)[k],
            ),
        forall|k: int|
            0 <= k < retune(s, index, volume, start, end).len() && (#[trigger] retune(
                s,
                index,
                volume,
                start,
                end,
            )[k]).track_index == index ==> start <= retune(s, index, volume, start, end)[k].position_frame
                < end,
        retune(s, index, volume, start, end).len() <= s.len(),
    decreases s.len(),
{
    if s.len() > 0 {
        assert forall|k: int| 0 <= k < s.drop_last().len() implies runtime_wf(
            tracks,
            #[trigger] s.drop_last()[k],
        ) by {
            assert(s.drop_last()[k] == s[k]);
        }
        lemma_retune_wf(tracks, s.drop_last(), index, volume, start, end);
        assert(runtime_wf(tracks, s[s.len() - 1]));
    }
}

proof fn lemma_first_runtime_of(s: Seq<TrackRuntime>, index: usize, j: int)
    requires
        0 <= j <= s.len(),
        forall|k: int| 0 <= k < j ==> (#[trigger] s[k]).track_index != index,
    ensures
        j < s.len() && s[j].track_index == index ==> first_runtime_of(s, index) == Some(s[j]),
        j == s.len() ==> first_runtime_of(s, index) is None,
    decreases j,
{
    if j > 0 {
        assert forall|k: int| 0 <= k < j - 1 implies (#[trigger] s.drop_first()[k]).track_index
            != index by {
            assert(s.drop_first()[k] == s[k + 1]);
        }
        lemma_first_runtime_of(s.drop_first(), index, j - 1);
        assert(s[0].track_index != index);
    }
}

fn saturating_sub(a: usize, b: usize) -> (r: usize)
    ensures
        r == sat_sub(a, b),
{
    if a >= b {
        a - b
    } else {
        0
    }
}

fn make_voice(track: &LoadedTrack, rt: TrackRuntime, pos: usize) -> (v: Voice)
    ensures
        v == voice_spec(track@, rt, pos),
{
    let fade_in_frames = fade_frames(track.fade_in);
    let fade_out_frames = fade_frames(track.fade_out);
    let remaining = saturating_sub(track.end_frame, pos);
    let fade_in = if fade_in_frames > 0 {
        Some(
            FadeProgress {
                position: saturating_sub(pos, track.start_frame),
                length: fade_in_frames,
                curve: fade_curve(track.fade_in),
            },
        )
    } else {
        None
    };
    let fade_out = if fade_out_frames > 0 && remaining < fade_out_frames {
        Some(
            FadeProgress {
                position: remaining,
                length: fade_out_frames,
                curve: fade_curve(track.fade_out),
            },
        )
    } else {
        None
    };
    let manual_fade_out = match rt.manual_fade_out {
        Some(f) => Some(
            FadeProgress {
                position: saturating_sub(f.total_frames, f.elapsed_frames),
                length: f.total_frames,
                curve: fade_curve(track.fade_out),
            },
        ),
        None => None,
    };
    Voice {
        track_index: rt.track_index,
        frame: pos,
        volume: rt.volume,
        fade_in,
        fade_out,
        manual_fade_out,
    }
}

impl Mixer {
    /// The mixer's invariant holds ([`mixer_wf`] of its model).
    pub open spec fn wf(&self) -> bool {
        mixer_wf(self@)
    }

    /// A mixer over `tracks`, each at its default volume, nothing playing.
    pub fn new(tracks: Vec<LoadedTrack>) -> (r: Mixer)
        ensures
            r.wf(),
            r@.tracks == tracks@.map_values(|t: LoadedTrack| t@),
            r@.volumes == tracks@.map_values(|t: LoadedTrack| t.default_volume),
            r@.active.len() == 0,
    {
        let mut volumes: Vec<u32> = Vec::new();
        let mut i: usize = 0;
        while i < tracks.len()
            invariant
                i <= tracks.len(),
                volumes@ == tracks@.subrange(0, i as int).map_values(
                    |t: LoadedTrack| t.default_volume,
                ),
            decreases tracks.len() - i,
        {
            volumes.push(tracks[i].default_volume);
            assert(volumes@ =~= tracks@.subrange(0, i + 1).map_values(
                |t: LoadedTrack| t.default_volume,
            ));
            i += 1;
        }
        assert(tracks@.subrange(0, i as int) =~= tracks@);
        Mixer { tracks, volumes, active: Vec::new() }
    }

    /// The loaded tracks.
    pub fn tracks(&self) -> (r: &[LoadedTrack])
        ensures
            r@.map_values(|t: LoadedTrack| t@) == self@.tracks,
    {
        self.tracks.as_slice()
    }

    fn index_of(&self, id: &str) -> (r: Option<usize>)
        requires
            self.wf(),
        ensures
            match r {
                Some(i) => track_index_of(self@.tracks, id@) == Some(i as int) && i
                    < self.tracks.len() && i < self@.tracks.len(),
                None => track_index_of(self@.tracks, id@) is None,
            },
    {
        proof {
            lemma_track_index_of_range(self@.tracks, id@);
        }
        let ghost m = self@.tracks;
        let mut n = self.tracks.len();
        assert(m.subrange(0, n as int) =~= m);
        while n > 0
            invariant
                m == self@.tracks,
                m.len() == self.tracks.len(),
                n <= self.tracks.len(),
                track_index_of(m, id@) == track_index_of(m.subrange(0, n as int), id@),
            decreases n,
        {
            assert(m.subrange(0, n as int).last() == m[n - 1]);
            assert(m.subrange(0, n as int).drop_last() =~= m.subrange(0, n - 1));
            if str_eq(self.tracks[n - 1].id.as_str(), id) {
                return Some(n - 1);
            }
            n -= 1;
        }
        None
    }

    fn stop(&mut self, id: &str)
        requires
            old(self).wf(),
        ensures
            final(self).wf(),
            final(self)@ == stop_spec(old(self)@, id@),
    {
        let Some(index) = self.index_of(id) else {
            return ;
        };
        let ghost m0 = self@;
        assert(mixer_wf(m0));
        let frames = fade_frames(self.tracks[index].fade_out);
        assert(self@.tracks[index as int] == self.tracks@[index as int]@);
        let ghost old_active = self.active@;
        if frames == 0 {
            let mut kept: Vec<TrackRuntime> = Vec::new();
            let mut j: usize = 0;
            while j < self.active.len()
                invariant
                    m0 == self@,
                    mixer_wf(m0),
                    old_active == self.active@,
                    j <= self.active.len(),
                    kept@ == without_track(old_active.subrange(0, j as int), index),
                decreases self.active.len() - j,
            {
                let rt = self.active[j];
                assert(old_active.subrange(0, j + 1).drop_last() =~= old_active.subrange(
                    0,
                    j as int,
                ));
                if rt.track_index != index {
                    kept.push(rt);
                }
                j += 1;
            }
            assert(old_active.subrange(0, j as int) =~= old_active);
            assert(mixer_wf(self@));
            assert(self@.active == old_active);
            proof {
                lemma_without_track_wf(self@.tracks, old_active, index);
            }
            self.active = kept;
        } else {
            let mut faded: Vec<TrackRuntime> = Vec::new();
            let mut j: usize = 0;
            while j < self.active.len()
                invariant
                    m0 == self@,
                    mixer_wf(m0),
                    old_active == self.active@,
                    j <= self.active.len(),
                    faded@ == old_active.subrange(0, j as int).map_values(
                        |rt: TrackRuntime| begin_fade(rt, index, frames),
                    ),
                decreases self.active.len() - j,
            {
                let rt = self.active[j];
                if rt.track_index == index && rt.manual_fade_out.is_none() {
                    let mut started = rt;
                    started.manual_fade_out = Some(
                        ManualFadeOut { elapsed_frames: 0, total_frames: frames },
                    );
                    faded.push(started);
                } else {
                    faded.push(rt);
                }
                assert(faded@ =~= old_active.subrange(0, j + 1).map_values(
                    |rt: TrackRuntime| begin_fade(rt, index, frames),
                ));
                j += 1;
            }
            assert(old_active.subrange(0, j as int) =~= old_active);
            let ghost tracks = self@.tracks;
            assert(self@.active == old_active);
            assert forall|k: int| 0 <= k < old_active.len() implies runtime_wf(
                tracks,
                #[trigger] old_active[k],
            ) by {
                assert(runtime_wf(m0.tracks, m0.active[k]));
            }
            self.active = faded;
            assert forall|k: int| 0 <= k < self@.active.len() implies runtime_wf(
                self@.tracks,
                #[trigger] self@.active[k],
            ) by {
                assert(runtime_wf(tracks, old_active[k]));
            }
        }
    }

    fn play(&mut self, id: &str)
        requires
            old(self).wf(),
        ensures
            final(self).wf(),
            final(self)@ == play_spec(old(self)@, id@),
    {
        let Some(index) = self.index_of(id) else {
            return ;
        };
        self.stop(id);
        let track = &self.tracks[index];
        assert(self@.tracks[index as int] == self.tracks@[index as int]@);
        if track.start_frame >= track.end_frame {
            return ;
        }
        let runtime = TrackRuntime {
            track_index: index,
            position_frame: track.start_frame,
            volume: self.volumes[index],
            manual_fade_out: None,
        };
        self.active.push(runtime);
    }

    fn is_active(&self, id: &str) -> (r: bool)
        requires
            self.wf(),
        ensures
            r == is_active_spec(self@, id@),
    {
        let Some(index) = self.index_of(id) else {
            return false;
        };
        let mut j: usize = 0;
        while j < self.active.len()
            invariant
                track_index_of(self@.tracks, id@) == Some(index as int),
                j <= self.active.len(),
                forall|k: int| 0 <= k < j ==> (#[trigger] self@.active[k]).track_index != index,
            decreases self.active.len() - j,
        {
            if self.active[j].track_index == index {
                assert(self@.active[j as int].track_index == index);
                assert(0 <= j < self@.active.len());
                assert(track_index_of(self@.tracks, id@) == Some(index as int));
                return true;
            }
            j += 1;
        }
        false
    }

    fn set_volume(&mut self, id: &str, volume: u32)
        requires
            old(self).wf(),
        ensures
            final(self).wf(),
            final(self)@ == set_volume_spec(old(self)@, id@, volume),
    {
        let Some(index) = self.index_of(id) else {
            return ;
        };
        let volume = clamp_gain(volume);
        assert(mixer_wf(self@));
        assert(mixer_wf(old(self)@));
        self.volumes.set(index, volume);
        let ghost m0 = self@;
        let ghost old_active = self.active@;
        assert(self@.active == old_active);
        assert(self@.tracks == old(self)@.tracks);
        assert(self@.active == old(self)@.active);
        let mut louder: Vec<TrackRuntime> = Vec::new();
        let mut j: usize = 0;
        while j < self.active.len()
            invariant
                m0 == self@,
                old_active == self.active@,
                j <= self.active.len(),
                louder@ == old_active.subrange(0, j as int).map_values(
                    |rt: TrackRuntime| with_volume(rt, index, volume),
                ),
            decreases self.active.len() - j,
        {
            let rt = self.active[j];
            if rt.track_index == index {
                let mut changed = rt;
                changed.volume = volume;
                louder.push(changed);
            } else {
                louder.push(rt);
            }
            assert(louder@ =~= old_active.subrange(0, j + 1).map_values(
                |rt: TrackRuntime| with_volume(rt, index, volume),
            ));
            j += 1;
        }
        assert(old_active.subrange(0, j as int) =~= old_active);
        let ghost tracks = self@.tracks;
        assert(forall|k: int|
            0 <= k < old_active.len() ==> runtime_wf(tracks, #[trigger] old_active[k]));
        self.active = louder;
        assert forall|k: int| 0 <= k < self@.active.len() implies runtime_wf(
            self@.tracks,
            #[trigger] self@.active[k],
        ) by {
            assert(runtime_wf(tracks, old_active[k]));
        }
        assert(self@.tracks == old(self)@.tracks);
        assert(self@.volumes == old(self)@.volumes.update(index as int, volume));
        assert(self@.active == old(self)@.active.map_values(|rt: TrackRuntime| with_volume(rt, index, volume)));
        assert(track_index_of(old(self)@.tracks, id@) == Some(index as int));
    }

    fn update_track_runtime(&mut self, id: &str, update: TrackRuntimeUpdate)
        requires
            old(self).wf(),
        ensures
            final(self).wf(),
            final(self)@ == update_spec(old(self)@, id@, update),
    {
        let Some(index) = self.index_of(id) else {
            return ;
        };
        assert(self@.tracks[index as int] == self.tracks@[index as int]@);
        if update.start_frame >= update.end_frame || update.end_frame
            > self.tracks[index].frame_count {
            return ;
        }
        let default_volume = clamp_gain(update.default_volume);
        let ghost old_tracks = self@.tracks;
        let ghost old_active = self.active@;
        assert(mixer_wf(self@));
        assert forall|k: int| 0 <= k < old_active.len() implies runtime_wf(
            old_tracks,
            #[trigger] old_active[k],
        ) by {
            assert(runtime_wf(self@.tracks, self@.active[k]));
        }
        let old_track = &self.tracks[index];
        let track = LoadedTrack {
            id: old_track.id.clone(),
            name: old_track.name.clone(),
            channels: old_track.channels,
            sample_rate: old_track.sample_rate,
            frame_count: old_track.frame_count,
            start_frame: update.start_frame,
            end_frame: update.end_frame,
            mode: update.mode,
            looping: update.looping,
            fade_in: update.fade_in,
            fade_out: update.fade_out,
            default_volume,
        };
        self.tracks.set(index, track);
        assert(self@.tracks =~= old_tracks.update(
            index as int,
            updated_track(old_tracks[index as int], update),
        ));
        self.volumes.set(index, default_volume);
        let ghost m1 = self@;
        let mut kept: Vec<TrackRuntime> = Vec::new();
        let mut j: usize = 0;
        while j < self.active.len()
            invariant
                m1 == self@,
                forall|k: int|
                    0 <= k < old_active.len() ==> runtime_wf(old_tracks, #[trigger] old_active[k]),
                old_active == self.active@,
                j <= self.active.len(),
                kept@ == retune(
                    old_active.subrange(0, j as int),
                    index,
                    default_volume,
                    update.start_frame,
                    update.end_frame,
                ),
            decreases self.active.len() - j,
        {
            let rt = self.active[j];
            assert(old_active.subrange(0, j + 1).drop_last() =~= old_active.subrange(0, j as int));
            if rt.track_index != index {
                kept.push(rt);
            } else if update.start_frame <= rt.position_frame && rt.position_frame
                < update.end_frame {
                let mut retuned = rt;
                retuned.volume = default_volume;
                kept.push(retuned);
            }
            j += 1;
        }
        assert(old_active.subrange(0, j as int) =~= old_active);
        proof {
            lemma_retune_wf(
                old_tracks,
                old_active,
                index,
                default_volume,
                update.start_frame,
                update.end_frame,
            );
        }
        self.active = kept;
        assert forall|k: int| 0 <= k < self@.active.len() implies runtime_wf(
            self@.tracks,
            #[trigger] self@.active[k],
        ) by {
            assert(runtime_wf(old_tracks, self@.active[k]));
        }
    }

    /// Applies a command.
    pub fn handle_command(&mut self, command: Command)
        requires
            old(self).wf(),
        ensures
            final(self).wf(),
            final(self)@ == handle_command_spec(old(self)@, command@),
    {
        match command {
            Command::Play { track_id } => self.play(track_id.as_str()),
            Command::HoldStart { track_id } => self.play(track_id.as_str()),
            Command::Stop { track_id } => self.stop(track_id.as_str()),
            Command::HoldEnd { track_id } => self.stop(track_id.as_str()),
            Command::Toggle { track_id } => {
                if self.is_active(track_id.as_str()) {
                    self.stop(track_id.as_str());
                } else {
                    self.play(track_id.as_str());
                }
            },
            Command::SetVolume { track_id, volume } => self.set_volume(track_id.as_str(), volume),
            Command::UpdateTrackRuntime { track_id, update } => self.update_track_runtime(
                track_id.as_str(),
                update,
            ),
            Command::StopAll => {
                self.active.clear();
            },
        }
    }
}

} // verus!

verus! {

impl Mixer {
    /// Produces the next output frame's voices (see [`mix_from`]) and moves
    /// every playing instance on by one frame.
    pub fn advance_frame(&mut self) -> (r: Vec<Voice>)
        requires
            old(self).wf(),
        ensures
            final(self).wf(),
            final(self)@.tracks == old(self)@.tracks,
            final(self)@.volumes == old(self)@.volumes,
            (final(self)@.active, r@) == mix_from(old(self)@.tracks, old(self)@.active, 0),
    {
        let ghost tracks = self@.tracks;
        let ghost volumes = self@.volumes;
        let ghost total = mix_from(tracks, self@.active, 0);
        let mut voices: Vec<Voice> = Vec::new();
        let mut i: usize = 0;
        assert(voices@ + total.1 =~= total.1);
        while i < self.active.len()
            invariant
                self@.tracks == tracks,
                self@.volumes == volumes,
                mixer_wf(self@),
                i <= self.active.len(),
                total.0 == mix_from(tracks, self@.active, i as int).0,
                total.1 == voices@ + mix_from(tracks, self@.active, i as int).1,
            decreases self.active.len() - i,
        {
            let ghost a = self@.active;
            let rt = self.active[i];
            assert(a[i as int] == rt);
            assert(runtime_wf(tracks, rt));
            let track = &self.tracks[rt.track_index];
            assert(tracks[rt.track_index as int] == track@);
            if rt.position_frame >= track.end_frame && !track.looping {
                self.active.swap_remove(i);
                assert(self@.active == swap_remove_spec(a, i as int));
                assert forall|k: int| 0 <= k < self@.active.len() implies runtime_wf(
                    tracks,
                    #[trigger] self@.active[k],
                ) by {
                    if k == i {
                        assert(self@.active[k] == a[a.len() - 1]);
                    } else {
                        assert(self@.active[k] == a[k]);
                    }
                }
                continue;
            }
            let pos = if rt.position_frame >= track.end_frame {
                track.start_frame
            } else {
                rt.position_frame
            };
            let voice = make_voice(track, rt, pos);
            let mut next = rt;
            next.position_frame = pos + 1;
            let mut finished = false;
            if let Some(f) = rt.manual_fade_out {
                let elapsed = f.elapsed_frames + 1;
                next.manual_fade_out = Some(
                    ManualFadeOut { elapsed_frames: elapsed, total_frames: f.total_frames },
                );
                if elapsed >= f.total_frames {
                    finished = true;
                }
            }
            assert(next == advanced(rt, pos));
            let ghost before = voices@;
            voices.push(voice);
            if finished {
                self.active.swap_remove(i);
                assert(self@.active == swap_remove_spec(a, i as int));
                assert forall|k: int| 0 <= k < self@.active.len() implies runtime_wf(
                    tracks,
                    #[trigger] self@.active[k],
                ) by {
                    if k == i {
                        assert(self@.active[k] == a[a.len() - 1]);
                    } else {
                        assert(self@.active[k] == a[k]);
                    }
                }
                assert(before + (seq![voice] + mix_from(tracks, self@.active, i as int).1)
                    =~= voices@ + mix_from(tracks, self@.active, i as int).1);
            } else {
                self.active.set(i, next);
                assert(self@.active == a.update(i as int, next));
                assert forall|k: int| 0 <= k < self@.active.len() implies runtime_wf(
                    tracks,
                    #[trigger] self@.active[k],
                ) by {
                    if k != i {
                        assert(self@.active[k] == a[k]);
                    }
                }
                assert(before + (seq![voice] + mix_from(tracks, self@.active, i + 1).1)
                    =~= voices@ + mix_from(tracks, self@.active, i + 1).1);
                i += 1;
            }
        }
        assert(voices@ + Seq::<Voice>::empty() =~= voices@);
        voices
    }

    fn first_runtime(&self, index: usize) -> (r: Option<TrackRuntime>)
        ensures
            r == first_runtime_of(self@.active, index),
    {
        let mut j: usize = 0;
        while j < self.active.len()
            invariant
                j <= self.active.len(),
                forall|q: int| 0 <= q < j ==> (#[trigger] self@.active[q]).track_index != index,
            decreases self.active.len() - j,
        {
            if self.active[j].track_index == index {
                proof {
                    lemma_first_runtime_of(self@.active, index, j as int);
                }
                return Some(self.active[j]);
            }
            j += 1;
        }
        proof {
            lemma_first_runtime_of(self@.active, index, j as int);
        }
        None
    }

    /// What the screens show about each track, in track order.
    pub fn runtime_state(&self) -> (r: Vec<RuntimeTrackState>)
        requires
            self.wf(),
        ensures
            r@.len() == self@.tracks.len(),
            forall|k: int| 0 <= k < r@.len() ==> (#[trigger] r@[k])@ == track_state_spec(self@, k),
    {
        let mut states: Vec<RuntimeTrackState> = Vec::new();
        let mut k: usize = 0;
        while k < self.tracks.len()
            invariant
                mixer_wf(self@),
                k <= self.tracks.len(),
                states@.len() == k,
                forall|q: int| 0 <= q < k ==> (#[trigger] states@[q])@ == track_state_spec(self@, q),
            decreases self.tracks.len() - k,
        {
            let track = &self.tracks[k];
            assert(self@.tracks[k as int] == track@);
            let found = self.first_runtime(k);
            let position = match found {
                Some(rt) => rt.position_frame,
                None => track.start_frame,
            };
            let volume = match found {
                Some(rt) => rt.volume,
                None => self.volumes[k],
            };
            let state = RuntimeTrackState {
                track_id: track.id.clone(),
                is_playing: found.is_some(),
                volume,
                elapsed_frames: saturating_sub(position, track.start_frame),
                sample_rate: track.sample_rate,
            };
            states.push(state);
            k += 1;
        }
        states
    }
}

} // verus!

verus! {

/// The fades a voice at frame `v.frame` of track `t` carries. When the
/// track fades in, the fade-in has run for the frames since the start frame;
/// otherwise there is none. When the track fades out over `f > 0` frames and
/// fewer than `f` frames are left before the end frame, the fade-out stands
/// at the frames left, out of `f`; otherwise there is none. Each fade is
/// independent of the other.
pub open spec fn voice_fades_match(t: LoadedTrackModel, v: Voice) -> bool {
    let fade_in = fade_frames_spec(t.fade_in);
    let fade_out = fade_frames_spec(t.fade_out);
    let left = t.end_frame - v.frame;
    &&& fade_in > 0 ==> v.fade_in == Some(
        FadeProgress {
            position: (v.frame - t.start_frame) as usize,
            length: fade_in,
            curve: fade_curve_spec(t.fade_in),
        },
    )
    &&& fade_in == 0 ==> v.fade_in is None
    &&& fade_out > 0 && left < fade_out ==> v.fade_out == Some(
        FadeProgress { position: left as usize, length: fade_out, curve: fade_curve_spec(t.fade_out) },
    )
    &&& !(fade_out > 0 && left < fade_out) ==> v.fade_out is None
}

/// Every voice of an output frame plays a frame inside its track's playable
/// range `[start_frame, end_frame)` and carries the fades due at that frame
/// (see [`voice_fades_match`]), and the instances left afterwards are
/// consistent with the tracks.
pub proof fn lemma_voices_within_track_range(
    tracks: Seq<LoadedTrackModel>,
    active: Seq<TrackRuntime>,
    i: int,
)
    requires
        0 <= i,
        forall|k: int| 0 <= k < active.len() ==> runtime_wf(tracks, #[trigger] active[k]),
    ensures
        forall|k: int|
            0 <= k < mix_from(tracks, active, i).1.len() ==> {
                let v = #[trigger] mix_from(tracks, active, i).1[k];
                &&& v.track_index < tracks.len()
                &&& tracks[v.track_index as int].start_frame <= v.frame
                &&& v.frame < tracks[v.track_index as int].end_frame
                &&& voice_fades_match(tracks[v.track_index as int], v)
            },
        forall|k: int|
            0 <= k < mix_from(tracks, active, i).0.len() ==> runtime_wf(
                tracks,
                #[trigger] mix_from(tracks, active, i).0[k],
            ),
    decreases active.len() - i,
{
    if i < active.len() {
        let rt = active[i];
        let track = tracks[rt.track_index as int];
        assert(runtime_wf(tracks, active[i]));
        let removed = swap_remove_spec(active, i);
        assert forall|k: int| 0 <= k < removed.len() implies runtime_wf(
            tracks,
            #[trigger] removed[k],
        ) by {
            if k == i {
                assert(removed[k] == active[active.len() - 1]);
            } else {
                assert(removed[k] == active[k]);
            }
        }
        if rt.position_frame >= track.end_frame && !track.looping {
            lemma_voices_within_track_range(tracks, removed, i);
        } else {
            let pos = if rt.position_frame >= track.end_frame {
                track.start_frame
            } else {
                rt.position_frame
            };
            let voice = voice_spec(track, rt, pos);
            let next = advanced(rt, pos);
            if next.manual_fade_out matches Some(f) && f.elapsed_frames >= f.total_frames {
                lemma_voices_within_track_range(tracks, removed, i);
                let rest = mix_from(tracks, removed, i);
                assert forall|k: int| 0 <= k < (seq![voice] + rest.1).len() implies ({
                    let v = #[trigger] (seq![voice] + rest.1)[k];
                    &&& v.track_index < tracks.len()
                    &&& tracks[v.track_index as int].start_frame <= v.frame
                    &&& v.frame < tracks[v.track_index as int].end_frame
                    &&& voice_fades_match(tracks[v.track_index as int], v)
                }) by {
                    if k > 0 {
                        assert((seq![voice] + rest.1)[k] == rest.1[k - 1]);
                    }
                }
            } else {
                let updated = active.update(i, next);
                assert forall|k: int| 0 <= k < updated.len() implies runtime_wf(
                    tracks,
                    #[trigger] updated[k],
                ) by {
                    if k != i {
                        assert(updated[k] == active[k]);
                    }
                }
                lemma_voices_within_track_range(tracks, updated, i + 1);
                let rest = mix_from(tracks, updated, i + 1);
                assert forall|k: int| 0 <= k < (seq![voice] + rest.1).len() implies ({
                    let v = #[trigger] (seq![voice] + rest.1)[k];
                    &&& v.track_index < tracks.len()
                    &&& tracks[v.track_index as int].start_frame <= v.frame
                    &&& v.frame < tracks[v.track_index as int].end_frame
                    &&& voice_fades_match(tracks[v.track_index as int], v)
                }) by {
                    if k > 0 {
                        assert((seq![voice] + rest.1)[k] == rest.1[k - 1]);
                    }
                }
            }
        }
    }
}

/// Stopping everything leaves nothing playing.
pub proof fn lemma_stop_all_silences(m: MixerModel)
    ensures
        handle_command_spec(m, CommandModel::StopAll).active.len() == 0,
        handle_command_spec(m, CommandModel::StopAll).tracks == m.tracks,
        handle_command_spec(m, CommandModel::StopAll).volumes == m.volumes,
{
}

/// A volume change applies to later playback: after setting the volume of
/// a track and playing it, the new instance plays at the clamped volume.
pub proof fn lemma_volume_applies_to_next_play(m: MixerModel, id: Seq<char>, volume: u32)
    requires
        m.tracks.len() <= usize::MAX,
        mixer_wf(m),
        track_index_of(m.tracks, id) is Some,
        m.tracks[track_index_of(m.tracks, id)->0].start_frame < m.tracks[track_index_of(
            m.tracks,
            id,
        )->0].end_frame,
    ensures
        ({
            let after = play_spec(set_volume_spec(m, id, volume), id);
            &&& after.active.len() > 0
            &&& after.active.last().volume == clamp_gain_spec(volume)
            &&& after.active.last().track_index == track_index_of(m.tracks, id)->0
            &&& after.active.last().position_frame == m.tracks[track_index_of(
                m.tracks,
                id,
            )->0].start_frame
        }),
{
    lemma_track_index_of_range(m.tracks, id);
    let i = track_index_of(m.tracks, id)->0;
    let sv = set_volume_spec(m, id, volume);
    assert(sv.tracks == m.tracks);
    assert(sv.volumes[i] == clamp_gain_spec(volume));
    let st = stop_spec(sv, id);
    assert(st.tracks == m.tracks);
    assert(st.volumes == sv.volumes);
    let after = play_spec(sv, id);
    assert(after.active == st.active.push(
        TrackRuntime {
            track_index: i as usize,
            position_frame: m.tracks[i].start_frame,
            volume: sv.volumes[i],
            manual_fade_out: None,
        },
    ));
}

/// Toggling a track that is not playing starts it; toggling it again stops
/// it at once when it has no fade-out.
pub proof fn lemma_toggle_twice_without_fade_out(m: MixerModel, id: Seq<char>)
    requires
        m.tracks.len() <= usize::MAX,
        mixer_wf(m),
        track_index_of(m.tracks, id) is Some,
        m.tracks[track_index_of(m.tracks, id)->0].start_frame < m.tracks[track_index_of(
            m.tracks,
            id,
        )->0].end_frame,
        fade_frames_spec(m.tracks[track_index_of(m.tracks, id)->0].fade_out) == 0,
        !is_active_spec(m, id),
    ensures
        is_active_spec(handle_command_spec(m, CommandModel::Toggle { track_id: id }), id),
        !is_active_spec(
            handle_command_spec(
                handle_command_spec(m, CommandModel::Toggle { track_id: id }),
                CommandModel::Toggle { track_id: id },
            ),
            id,
        ),
{
    lemma_track_index_of_range(m.tracks, id);
    let i = track_index_of(m.tracks, id)->0;
    let once = handle_command_spec(m, CommandModel::Toggle { track_id: id });
    assert(once == play_spec(m, id));
    let m1 = stop_spec(m, id);
    assert(m1.tracks == m.tracks);
    assert(once.active == m1.active.push(
        TrackRuntime {
            track_index: i as usize,
            position_frame: m.tracks[i].start_frame,
            volume: m1.volumes[i],
            manual_fade_out: None,
        },
    ));
    assert(once.active.last().track_index == i);
    assert(once.active[once.active.len() - 1].track_index == i);
    assert(is_active_spec(once, id));
    let twice = handle_command_spec(once, CommandModel::Toggle { track_id: id });
    assert(once.tracks == m.tracks);
    assert(twice == stop_spec(once, id));
    assert(mixer_wf(m1)) by {
        lemma_without_track_wf(m.tracks, m.active, i as usize);
    }
    assert forall|k: int| 0 <= k < once.active.len() implies runtime_wf(
        once.tracks,
        #[trigger] once.active[k],
    ) by {
        if k < m1.active.len() {
            assert(once.active[k] == m1.active[k]);
        }
    }
    lemma_without_track_wf(once.tracks, once.active, i as usize);
    assert(twice.active == without_track(once.active, i as usize));
}

/// The playing instances after `k` output frames, starting from `active`.
pub open spec fn run_frames(tracks: Seq<LoadedTrackModel>, active: Seq<TrackRuntime>, k: nat) -> Seq<
    TrackRuntime,
>
    decreases k,
{
    if k == 0 {
        active
    } else {
        mix_from(tracks, run_frames(tracks, active, (k - 1) as nat), 0).0
    }
}

/// The voices of output frame `k` (counting from `0`), starting from
/// `active`.
pub open spec fn frame_voices(tracks: Seq<LoadedTrackModel>, active: Seq<TrackRuntime>, k: nat) -> Seq<
    Voice,
> {
    mix_from(tracks, run_frames(tracks, active, k), 0).1
}

/// A single playing instance of track `i` at `position`, without a manual
/// fade-out.
pub open spec fn lone_instance(i: usize, position: usize, volume: u32) -> Seq<TrackRuntime> {
    seq![TrackRuntime { track_index: i, position_frame: position, volume, manual_fade_out: None }]
}

proof fn lemma_lone_step(tracks: Seq<LoadedTrackModel>, i: usize, p: usize, v: u32)
    requires
        i < tracks.len(),
        tracks[i as int].start_frame <= p <= tracks[i as int].end_frame,
    ensures
        ({
            let t = tracks[i as int];
            let r = mix_from(tracks, lone_instance(i, p, v), 0);
            let pos = if p >= t.end_frame {
                t.start_frame
            } else {
                p
            };
            &&& p >= t.end_frame && !t.looping ==> r.0.len() == 0 && r.1.len() == 0
            &&& !(p >= t.end_frame && !t.looping) ==> r.0 == lone_instance(i, (pos + 1) as usize, v)
                && r.1 == seq![voice_spec(t, lone_instance(i, p, v)[0], pos)]
        }),
{
    let a = lone_instance(i, p, v);
    let t = tracks[i as int];
    let rt = a[0];
    if p >= t.end_frame && !t.looping {
        assert(swap_remove_spec(a, 0) =~= Seq::<TrackRuntime>::empty());
        assert(mix_from(tracks, swap_remove_spec(a, 0), 0) == (
            Seq::<TrackRuntime>::empty(),
            Seq::<Voice>::empty(),
        ));
    } else {
        let pos = if p >= t.end_frame {
            t.start_frame
        } else {
            p
        };
        let next = advanced(rt, pos);
        assert(a.update(0, next) =~= lone_instance(i, (pos + 1) as usize, v));
        assert(mix_from(tracks, a.update(0, next), 1) == (a.update(0, next), Seq::<Voice>::empty()));
        assert(seq![voice_spec(t, rt, pos)] + Seq::<Voice>::empty() =~= seq![voice_spec(t, rt, pos)]);
    }
}

proof fn lemma_empty_step(tracks: Seq<LoadedTrackModel>)
    ensures
        mix_from(tracks, Seq::<TrackRuntime>::empty(), 0) == (
            Seq::<TrackRuntime>::empty(),
            Seq::<Voice>::empty(),
        ),
{
}

/// `k mod len` follows `(k - 1) mod len` by one, wrapping at `len`.
#[verifier::spinoff_prover]
proof fn lemma_mod_step(k: int, len: int)
    requires
        len > 0,
        k >= 1,
    ensures
        0 <= (k - 1) % len < len,
        k % len == if (k - 1) % len + 1 == len {
            0
        } else {
            (k - 1) % len + 1
        },
        0int % len == 0,
{
    vstd::arithmetic::div_mod::lemma_fundamental_div_mod(k - 1, len);
    vstd::arithmetic::div_mod::lemma_mod_pos_bound(k - 1, len);
    let q = (k - 1) / len;
    let r = (k - 1) % len;
    if r + 1 == len {
        assert(k == (q + 1) * len + 0) by (nonlinear_arith)
            requires
                k - 1 == len * q + r,
                r + 1 == len,
        ;
        vstd::arithmetic::div_mod::lemma_fundamental_div_mod_converse(k, len, q + 1, 0);
    } else {
        assert(k == q * len + (r + 1)) by (nonlinear_arith)
            requires
                k - 1 == len * q + r,
        ;
        vstd::arithmetic::div_mod::lemma_fundamental_div_mod_converse(k, len, q, r + 1);
    }
    vstd::arithmetic::div_mod::lemma_fundamental_div_mod_converse(0, len, 0, 0);
}

/// Where a looping lone instance stands after `k` frames.
pub open spec fn loop_position(start: usize, end: usize, k: nat) -> int {
    if k == 0 {
        start as int
    } else {
        start + (k - 1) % (end - start) + 1
    }
}

proof fn lemma_loop_run(tracks: Seq<LoadedTrackModel>, i: usize, v: u32, k: nat)
    requires
        i < tracks.len(),
        tracks[i as int].start_frame < tracks[i as int].end_frame,
        tracks[i as int].looping,
    ensures
        ({
            let t = tracks[i as int];
            &&& t.start_frame < loop_position(t.start_frame, t.end_frame, k) <= t.end_frame || k == 0
            &&& run_frames(tracks, lone_instance(i, t.start_frame, v), k) == lone_instance(
                i,
                loop_position(t.start_frame, t.end_frame, k) as usize,
                v,
            )
        }),
    decreases k,
{
    let t = tracks[i as int];
    let s = t.start_frame;
    let e = t.end_frame;
    let len = e - s;
    if k > 0 {
        lemma_loop_run(tracks, i, v, (k - 1) as nat);
        let p = loop_position(s, e, (k - 1) as nat);
        lemma_mod_step(k as int, len);
        if k >= 2 {
            lemma_mod_step(k - 1, len);
        }
        lemma_lone_step(tracks, i, p as usize, v);
    }
}

proof fn lemma_once_run(tracks: Seq<LoadedTrackModel>, i: usize, v: u32, k: nat)
    requires
        i < tracks.len(),
        tracks[i as int].start_frame < tracks[i as int].end_frame,
        !tracks[i as int].looping,
    ensures
        ({
            let t = tracks[i as int];
            let len = t.end_frame - t.start_frame;
            &&& k <= len ==> run_frames(tracks, lone_instance(i, t.start_frame, v), k)
                == lone_instance(i, (t.start_frame + k) as usize, v)
            &&& k > len ==> run_frames(tracks, lone_instance(i, t.start_frame, v), k).len() == 0
        }),
    decreases k,
{
    let t = tracks[i as int];
    let s = t.start_frame;
    let len = t.end_frame - s;
    if k > 0 {
        lemma_once_run(tracks, i, v, (k - 1) as nat);
        if k - 1 <= len {
            lemma_lone_step(tracks, i, (s + k - 1) as usize, v);
        } else {
            lemma_empty_step(tracks);
            assert(run_frames(tracks, lone_instance(i, s, v), (k - 1) as nat) =~= Seq::<
                TrackRuntime,
            >::empty());
        }
    }
}

/// Playing a lone track. On a mixer with nothing playing, start a track
/// whose frame range runs from `s` to `e` (`s < e`, `len = e - s`), then
/// produce output frames `k = 0, 1, ...`. A looping track contributes
/// exactly one voice to each frame, playing its frame `s + k mod len` at the
/// track's current volume, and it keeps playing. A track that does not loop
/// plays frames `s, s + 1, ..., e - 1` in turn; from frame `len` on it
/// contributes nothing and, once that frame is produced, is no longer
/// playing.
pub proof fn lemma_lone_track_playback(m: MixerModel, id: Seq<char>, k: nat)
    requires
        m.active.len() == 0,
        m.tracks.len() <= usize::MAX,
        track_index_of(m.tracks, id) is Some,
        m.tracks[track_index_of(m.tracks, id)->0].start_frame < m.tracks[track_index_of(
            m.tracks,
            id,
        )->0].end_frame,
    ensures
        ({
            let i = track_index_of(m.tracks, id)->0;
            let t = m.tracks[i];
            let s = t.start_frame;
            let len = t.end_frame - t.start_frame;
            let m1 = play_spec(m, id);
            let voices = frame_voices(m1.tracks, m1.active, k);
            &&& m1.tracks == m.tracks
            &&& t.looping ==> voices.len() == 1 && voices[0].track_index == i && voices[0].frame
                == s + (k as int) % len && voices[0].volume == m.volumes[i] && run_frames(
                m1.tracks,
                m1.active,
                k + 1,
            ).len() == 1
            &&& !t.looping && k < len ==> voices.len() == 1 && voices[0].track_index == i
                && voices[0].frame == s + k && voices[0].volume == m.volumes[i]
            &&& !t.looping && k >= len ==> voices.len() == 0 && run_frames(
                m1.tracks,
                m1.active,
                k + 1,
            ).len() == 0
        }),
{
    lemma_track_index_of_range(m.tracks, id);
    let i = track_index_of(m.tracks, id)->0;
    let t = m.tracks[i];
    let s = t.start_frame;
    let e = t.end_frame;
    let len = e - s;
    let v = m.volumes[i];
    let m0 = stop_spec(m, id);
    assert(m0.active =~= Seq::<TrackRuntime>::empty());
    let m1 = play_spec(m, id);
    assert(m1.active =~= lone_instance(i as usize, s, v));
    let tracks = m.tracks;
    if t.looping {
        lemma_loop_run(tracks, i as usize, v, k);
        lemma_loop_run(tracks, i as usize, v, k + 1);
        let p = loop_position(s, e, k);
        lemma_lone_step(tracks, i as usize, p as usize, v);
        if k >= 1 {
            lemma_mod_step(k as int, len);
        } else {
            lemma_mod_step(1, len);
        }
    } else {
        lemma_once_run(tracks, i as usize, v, k);
        lemma_once_run(tracks, i as usize, v, k + 1);
        if k <= len {
            lemma_lone_step(tracks, i as usize, (s + k) as usize, v);
        } else {
            lemma_empty_step(tracks);
            assert(run_frames(tracks, lone_instance(i as usize, s, v), k) =~= Seq::<
                TrackRuntime,
            >::empty());
        }
        if k < len {
            assert((k as int) % len == k) by {
                vstd::arithmetic::div_mod::lemma_fundamental_div_mod_converse(k as int, len, 0, k as int);
            }
        }
    }
}

proof fn lemma_retune_members(s: Seq<TrackRuntime>, index: usize, volume: u32, start: usize, end: usize)
    ensures
        ({
            let r = retune(s, index, volume, start, end);
            &&& forall|k: int|
                0 <= k < r.len() && (#[trigger] r[k]).track_index == index ==> r[k].volume == volume
                    && start <= r[k].position_frame < end
            &&& forall|k: int|
                0 <= k < r.len() && (#[trigger] r[k]).track_index != index ==> s.contains(r[k])
            &&& forall|k: int|
                0 <= k < s.len() && (#[trigger] s[k]).track_index != index ==> r.contains(s[k])
            &&& forall|k: int|
                0 <= k < s.len() && (#[trigger] s[k]).track_index == index && start
                    <= s[k].position_frame < end ==> r.contains(TrackRuntime { volume, ..s[k] })
        }),
    decreases s.len(),
{
    if s.len() > 0 {
        let p = s.drop_last();
        lemma_retune_members(p, index, volume, start, end);
        let rest = retune(p, index, volume, start, end);
        let r = retune(s, index, volume, start, end);
        let last = s.last();
        assert forall|k: int| 0 <= k < r.len() && (#[trigger] r[k]).track_index != index implies s.contains(
            r[k],
        ) by {
            if k < rest.len() {
                assert(r[k] == rest[k]);
                let w = choose|w: int| 0 <= w < p.len() && p[w] == rest[k];
                assert(s[w] == p[w]);
            } else {
                assert(s[s.len() - 1] == last);
            }
        }
        assert forall|k: int| 0 <= k < r.len() && (#[trigger] r[k]).track_index == index implies r[k].volume
            == volume && start <= r[k].position_frame < end by {
            if k < rest.len() {
                assert(r[k] == rest[k]);
            }
        }
        assert forall|k: int| 0 <= k < s.len() && (#[trigger] s[k]).track_index != index implies r.contains(
            s[k],
        ) by {
            if k < p.len() {
                assert(s[k] == p[k]);
                let w = choose|w: int| 0 <= w < rest.len() && rest[w] == p[k];
                assert(r[w] == rest[w]);
            } else {
                assert(r[r.len() - 1] == last);
            }
        }
        assert forall|k: int|
            0 <= k < s.len() && (#[trigger] s[k]).track_index == index && start <= s[k].position_frame
                < end implies r.contains(TrackRuntime { volume, ..s[k] }) by {
            if k < p.len() {
                assert(s[k] == p[k]);
                let w = choose|w: int| 0 <= w < rest.len() && rest[w] == TrackRuntime { volume, ..p[k] };
                assert(r[w] == rest[w]);
            } else {
                assert(r[r.len() - 1] == TrackRuntime { volume, ..last });
            }
        }
    }
}

/// New runtime settings for a track. Settings whose frame range is empty
/// or runs past the audio leave the mixer unchanged. Otherwise the track
/// takes the settings' mode, looping, frame range and fades, and the
/// settings' volume clamped to `0.0..=1.0` becomes both its default and
/// its current volume; other tracks and volumes do not change. Of the
/// track's playing instances, exactly those inside the new range stay, at
/// the new volume; every instance of another track stays as it was, and
/// nothing else plays.
pub proof fn lemma_update_runtime_effect(m: MixerModel, id: Seq<char>, u: TrackRuntimeUpdate)
    requires
        mixer_wf(m),
        track_index_of(m.tracks, id) is Some,
        m.tracks.len() <= usize::MAX,
    ensures
        ({
            let i = track_index_of(m.tracks, id)->0;
            let n = update_spec(m, id, u);
            let v = clamp_gain_spec(u.default_volume);
            &&& (u.start_frame >= u.end_frame || u.end_frame > m.tracks[i].frame_count) ==> n == m
            &&& !(u.start_frame >= u.end_frame || u.end_frame > m.tracks[i].frame_count) ==> {
                &&& n.tracks.len() == m.tracks.len()
                &&& n.tracks[i] == updated_track(m.tracks[i], u)
                &&& n.tracks[i].default_volume == v
                &&& n.volumes[i] == v
                &&& forall|k: int| 0 <= k < m.tracks.len() && k != i ==> n.tracks[k] == m.tracks[k]
                &&& forall|k: int| 0 <= k < m.volumes.len() && k != i ==> n.volumes[k] == m.volumes[k]
                &&& forall|k: int|
                    0 <= k < n.active.len() && (#[trigger] n.active[k]).track_index == i
                        ==> n.active[k].volume == v && u.start_frame <= n.active[k].position_frame
                        < u.end_frame
                &&& forall|k: int|
                    0 <= k < n.active.len() && (#[trigger] n.active[k]).track_index != i
                        ==> m.active.contains(n.active[k])
                &&& forall|k: int|
                    0 <= k < m.active.len() && (#[trigger] m.active[k]).track_index != i
                        ==> n.active.contains(m.active[k])
                &&& forall|k: int|
                    0 <= k < m.active.len() && (#[trigger] m.active[k]).track_index == i
                        && u.start_frame <= m.active[k].position_frame < u.end_frame
                        ==> n.active.contains(TrackRuntime { volume: v, ..m.active[k] })
            }
        }),
{
    lemma_track_index_of_range(m.tracks, id);
    let i = track_index_of(m.tracks, id)->0;
    let v = clamp_gain_spec(u.default_volume);
    lemma_retune_members(m.active, i as usize, v, u.start_frame, u.end_frame);
    let n = update_spec(m, id, u);
    if !(u.start_frame >= u.end_frame || u.end_frame > m.tracks[i].frame_count) {
        assert(n.active == retune(m.active, i as usize, v, u.start_frame, u.end_frame));
        assert(n.tracks == m.tracks.update(i, updated_track(m.tracks[i], u)));
        assert(n.volumes == m.volumes.update(i, v));
    }
}

proof fn lemma_first_runtime_found(s: Seq<TrackRuntime>, index: usize)
    ensures
        first_runtime_of(s, index) is None ==> forall|j: int|
            0 <= j < s.len() ==> (#[trigger] s[j]).track_index != index,
        first_runtime_of(s, index) matches Some(rt) ==> exists|j: int|
            0 <= j < s.len() && s[j] == rt && rt.track_index == index && forall|q: int|
                0 <= q < j ==> (#[trigger] s[q]).track_index != index,
    decreases s.len(),
{
    if s.len() > 0 && s[0].track_index != index {
        let t = s.drop_first();
        lemma_first_runtime_found(t, index);
        assert forall|j: int| 1 <= j < s.len() implies s[j] == t[j - 1] by {}
        if let Some(rt) = first_runtime_of(t, index) {
            let j = choose|j: int|
                0 <= j < t.len() && t[j] == rt && rt.track_index == index && forall|q: int|
                    0 <= q < j ==> (#[trigger] t[q]).track_index != index;
            assert(s[j + 1] == rt);
            assert forall|q: int| 0 <= q < j + 1 implies (#[trigger] s[q]).track_index != index by {
                if q > 0 {
                    assert(s[q] == t[q - 1]);
                }
            }
        } else {
            assert forall|j: int| 0 <= j < s.len() implies (#[trigger] s[j]).track_index != index by {
                if j > 0 {
                    assert(s[j] == t[j - 1]);
                }
            }
        }
    }
}

/// What the screens show about track `k`. A track with no playing instance
/// is not playing, shows its current volume and no elapsed time. Otherwise
/// it is playing, and its earliest started instance gives the volume and
/// the elapsed frames: how far that instance is past the track's start
/// frame. The id and sample rate are the track's.
pub proof fn lemma_track_state(m: MixerModel, k: int)
    requires
        mixer_wf(m),
        m.tracks.len() <= usize::MAX,
        0 <= k < m.tracks.len(),
    ensures
        ({
            let st = track_state_spec(m, k);
            let t = m.tracks[k];
            &&& st.track_id == t.id
            &&& st.sample_rate == t.sample_rate
            &&& (forall|j: int| 0 <= j < m.active.len() ==> (#[trigger] m.active[j]).track_index != k)
                ==> !st.is_playing && st.elapsed_frames == 0 && st.volume == m.volumes[k]
            &&& forall|j: int|
                0 <= j < m.active.len() && (#[trigger] m.active[j]).track_index == k && (forall|
                    q: int,
                | 0 <= q < j ==> (#[trigger] m.active[q]).track_index != k) ==> st.is_playing
                    && st.volume == m.active[j].volume && st.elapsed_frames == m.active[j].position_frame
                    - t.start_frame
        }),
{
    lemma_first_runtime_found(m.active, k as usize);
    let st = track_state_spec(m, k);
    if let Some(rt) = first_runtime_of(m.active, k as usize) {
        let w = choose|j: int|
            0 <= j < m.active.len() && m.active[j] == rt && rt.track_index == k as usize && forall|
                q: int,
            | 0 <= q < j ==> (#[trigger] m.active[q]).track_index != k as usize;
        assert(runtime_wf(m.tracks, m.active[w]));
        assert forall|j: int|
            0 <= j < m.active.len() && (#[trigger] m.active[j]).track_index == k && (forall|q: int|
                0 <= q < j ==> (#[trigger] m.active[q]).track_index != k) implies st.is_playing
            && st.volume == m.active[j].volume && st.elapsed_frames == m.active[j].position_frame
            - m.tracks[k].start_frame by {
            if j < w {
                assert(m.active[j].track_index != k);
            } else if j > w {
                assert(m.active[w].track_index != k);
            }
        }
        assert(m.active[w].track_index == k);
    }
}

/// The voice an instance `rt` gives: its track, the frame it stands at (the
/// track's start frame once a looping instance is past the end), its
/// volume, and its manual fade-out as the frames left out of the fade's
/// length, on the track's fade-out curve.
pub open spec fn voice_from(tracks: Seq<LoadedTrackModel>, rt: TrackRuntime, v: Voice) -> bool {
    let t = tracks[rt.track_index as int];
    &&& v.track_index == rt.track_index
    &&& v.volume == rt.volume
    &&& v.frame == if rt.position_frame >= t.end_frame {
        t.start_frame
    } else {
        rt.position_frame
    }
    &&& v.manual_fade_out == match rt.manual_fade_out {
        Some(f) => Some(
            FadeProgress {
                position: (f.total_frames - f.elapsed_frames) as usize,
                length: f.total_frames,
                curve: fade_curve_spec(t.fade_out),
            },
        ),
        None => None::<FadeProgress>,
    }
}

proof fn lemma_voices_from(
    tracks: Seq<LoadedTrackModel>,
    active: Seq<TrackRuntime>,
    i: int,
    orig: Seq<TrackRuntime>,
)
    requires
        0 <= i,
        forall|k: int| 0 <= k < active.len() ==> runtime_wf(tracks, #[trigger] active[k]),
        forall|k: int| i <= k < active.len() ==> orig.contains(#[trigger] active[k]),
    ensures
        forall|k: int|
            #![trigger mix_from(tracks, active, i).1[k]]
            0 <= k < mix_from(tracks, active, i).1.len() ==> exists|j: int|
                0 <= j < orig.len() && voice_from(
                    tracks,
                    #[trigger] orig[j],
                    mix_from(tracks, active, i).1[k],
                ),
    decreases active.len() - i,
{
    if i < active.len() {
        let rt = active[i];
        let track = tracks[rt.track_index as int];
        assert(runtime_wf(tracks, active[i]));
        assert(orig.contains(active[i]));
        let removed = swap_remove_spec(active, i);
        assert forall|k: int| 0 <= k < removed.len() implies runtime_wf(
            tracks,
            #[trigger] removed[k],
        ) by {
            if k == i {
                assert(removed[k] == active[active.len() - 1]);
            } else {
                assert(removed[k] == active[k]);
            }
        }
        assert forall|k: int| i <= k < removed.len() implies orig.contains(#[trigger] removed[k]) by {
            if k == i {
                assert(removed[k] == active[active.len() - 1]);
            } else {
                assert(removed[k] == active[k]);
            }
        }
        if rt.position_frame >= track.end_frame && !track.looping {
            lemma_voices_from(tracks, removed, i, orig);
            assert(mix_from(tracks, active, i) == mix_from(tracks, removed, i));
        } else {
            let pos = if rt.position_frame >= track.end_frame {
                track.start_frame
            } else {
                rt.position_frame
            };
            let voice = voice_spec(track, rt, pos);
            let w = choose|w: int| 0 <= w < orig.len() && orig[w] == rt;
            assert(voice_from(tracks, orig[w], voice));
            let next = advanced(rt, pos);
            let rest = if next.manual_fade_out matches Some(f) && f.elapsed_frames >= f.total_frames {
                lemma_voices_from(tracks, removed, i, orig);
                mix_from(tracks, removed, i)
            } else {
                let updated = active.update(i, next);
                assert forall|k: int| 0 <= k < updated.len() implies runtime_wf(
                    tracks,
                    #[trigger] updated[k],
                ) by {
                    if k != i {
                        assert(updated[k] == active[k]);
                    }
                }
                assert forall|k: int| i + 1 <= k < updated.len() implies orig.contains(
                    #[trigger] updated[k],
                ) by {
                    assert(updated[k] == active[k]);
                }
                lemma_voices_from(tracks, updated, i + 1, orig);
                mix_from(tracks, updated, i + 1)
            };
            assert(mix_from(tracks, active, i).1 == seq![voice] + rest.1);
            assert forall|k: int|
                #![trigger (seq![voice] + rest.1)[k]]
                0 <= k < (seq![voice] + rest.1).len() implies exists|j: int|
                0 <= j < orig.len() && voice_from(tracks, #[trigger] orig[j], (seq![voice]
                    + rest.1)[k]) by {
                if k > 0 {
                    assert((seq![voice] + rest.1)[k] == rest.1[k - 1]);
                } else {
                    assert(voice_from(tracks, orig[w], (seq![voice] + rest.1)[k]));
                }
            }
        }
    }
}

/// Each voice of an output frame comes from one of the instances playing
/// before it: it plays that instance's track, at the frame the instance
/// stands at (its track's start frame once a looping instance is past the
/// end), at the instance's volume, and carries the instance's manual
/// fade-out as the frames left out of the fade's length.
pub proof fn lemma_voices_come_from_instances(tracks: Seq<LoadedTrackModel>, active: Seq<TrackRuntime>)
    requires
        forall|k: int| 0 <= k < active.len() ==> runtime_wf(tracks, #[trigger] active[k]),
    ensures
        forall|k: int|
            #![trigger mix_from(tracks, active, 0).1[k]]
            0 <= k < mix_from(tracks, active, 0).1.len() ==> exists|j: int|
                0 <= j < active.len() && voice_from(
                    tracks,
                    #[trigger] active[j],
                    mix_from(tracks, active, 0).1[k],
                ),
{
    assert forall|k: int| 0 <= k < active.len() implies active.contains(#[trigger] active[k]) by {}
    lemma_voices_from(tracks, active, 0, active);
}

proof fn lemma_without_track_members(s: Seq<TrackRuntime>, index: usize)
    ensures
        forall|k: int|
            0 <= k < without_track(s, index).len() ==> (#[trigger] without_track(s, index)[k]).track_index
                != index && s.contains(without_track(s, index)[k]),
        forall|k: int|
            0 <= k < s.len() && (#[trigger] s[k]).track_index != index ==> without_track(
                s,
                index,
            ).contains(s[k]),
    decreases s.len(),
{
    if s.len() > 0 {
        let p = s.drop_last();
        lemma_without_track_members(p, index);
        let rest = without_track(p, index);
        let r = without_track(s, index);
        assert forall|k: int| 0 <= k < r.len() implies (#[trigger] r[k]).track_index != index
            && s.contains(r[k]) by {
            if k < rest.len() {
                assert(r[k] == rest[k]);
                let w = choose|w: int| 0 <= w < p.len() && p[w] == rest[k];
                assert(s[w] == p[w]);
            } else {
                assert(s[s.len() - 1] == r[k]);
            }
        }
        assert forall|k: int| 0 <= k < s.len() && (#[trigger] s[k]).track_index != index implies r.contains(
            s[k],
        ) by {
            if k < p.len() {
                assert(s[k] == p[k]);
                let w = choose|w: int| 0 <= w < rest.len() && rest[w] == p[k];
                assert(r[w] == rest[w]);
            } else {
                assert(r[r.len() - 1] == s[k]);
            }
        }
    }
}

/// A stop request. Without a fade-out, every instance of the track stops at
/// once and every instance of another track keeps playing as it was. With a
/// fade-out of `f` frames, every instance of the track that is not already
/// fading out starts a manual fade-out of `f` frames, and nothing else
/// changes. Tracks and volumes never change.
pub proof fn lemma_stop_effect(m: MixerModel, id: Seq<char>)
    requires
        track_index_of(m.tracks, id) is Some,
        m.tracks.len() <= usize::MAX,
    ensures
        ({
            let i = track_index_of(m.tracks, id)->0;
            let f = fade_frames_spec(m.tracks[i].fade_out);
            let n = stop_spec(m, id);
            &&& n.tracks == m.tracks
            &&& n.volumes == m.volumes
            &&& f == 0 ==> {
                &&& forall|k: int| 0 <= k < n.active.len() ==> (#[trigger] n.active[k]).track_index != i
                    && m.active.contains(n.active[k])
                &&& forall|k: int|
                    0 <= k < m.active.len() && (#[trigger] m.active[k]).track_index != i
                        ==> n.active.contains(m.active[k])
            }
            &&& f > 0 ==> {
                &&& n.active.len() == m.active.len()
                &&& forall|k: int|
                    0 <= k < m.active.len() ==> #[trigger] n.active[k] == if m.active[k].track_index
                        == i && m.active[k].manual_fade_out is None {
                        TrackRuntime {
                            manual_fade_out: Some(ManualFadeOut { elapsed_frames: 0, total_frames: f }),
                            ..m.active[k]
                        }
                    } else {
                        m.active[k]
                    }
            }
        }),
{
    lemma_track_index_of_range(m.tracks, id);
    let i = track_index_of(m.tracks, id)->0;
    lemma_without_track_members(m.active, i as usize);
}

/// A play request stops the track's instances as a stop request does, then
/// starts one new instance of it at its start frame and current volume,
/// without a manual fade-out, after all others (when its frame range is not
/// empty).
pub proof fn lemma_play_effect(m: MixerModel, id: Seq<char>)
    requires
        track_index_of(m.tracks, id) is Some,
        m.tracks.len() <= usize::MAX,
    ensures
        ({
            let i = track_index_of(m.tracks, id)->0;
            let t = m.tracks[i];
            let s = stop_spec(m, id);
            let n = play_spec(m, id);
            &&& n.tracks == m.tracks
            &&& n.volumes == m.volumes
            &&& t.start_frame < t.end_frame ==> n.active == s.active.push(
                TrackRuntime {
                    track_index: i as usize,
                    position_frame: t.start_frame,
                    volume: m.volumes[i],
                    manual_fade_out: None,
                },
            )
            &&& t.start_frame >= t.end_frame ==> n == s
        }),
{
    lemma_track_index_of_range(m.tracks, id);
}

/// A volume change. The track's current volume and that of each of its
/// playing instances become the requested volume clamped to `0.0..=1.0`;
/// other volumes, instances and the tracks do not change.
pub proof fn lemma_set_volume_effect(m: MixerModel, id: Seq<char>, volume: u32)
    requires
        track_index_of(m.tracks, id) is Some,
        m.tracks.len() <= usize::MAX,
        m.volumes.len() == m.tracks.len(),
    ensures
        ({
            let i = track_index_of(m.tracks, id)->0;
            let v = clamp_gain_spec(volume);
            let n = set_volume_spec(m, id, volume);
            &&& n.tracks == m.tracks
            &&& n.volumes.len() == m.volumes.len()
            &&& n.volumes[i] == v
            &&& forall|k: int| 0 <= k < m.volumes.len() && k != i ==> n.volumes[k] == m.volumes[k]
            &&& n.active.len() == m.active.len()
            &&& forall|k: int|
                0 <= k < m.active.len() ==> #[trigger] n.active[k] == if m.active[k].track_index == i {
                    TrackRuntime { volume: v, ..m.active[k] }
                } else {
                    m.active[k]
                }
        }),
{
    lemma_track_index_of_range(m.tracks, id);
}

/// The frame instance `rt` plays next: where it stands, or its track's start
/// frame once it is past the end.
pub open spec fn next_frame_of(tracks: Seq<LoadedTrackModel>, rt: TrackRuntime) -> int {
    let t = tracks[rt.track_index as int];
    if rt.position_frame >= t.end_frame {
        t.start_frame as int
    } else {
        rt.position_frame as int
    }
}

/// Whether instance `rt` is still playing after the next output frame: a
/// non-looping instance past its track's end stops, and so does one whose
/// manual fade-out reaches its length with that frame.
pub open spec fn survives_frame(tracks: Seq<LoadedTrackModel>, rt: TrackRuntime) -> bool {
    let t = tracks[rt.track_index as int];
    &&& !(rt.position_frame >= t.end_frame && !t.looping)
    &&& rt.manual_fade_out matches Some(f) ==> f.elapsed_frames + 1 < f.total_frames
}

/// Instance `x` is instance `rt` one frame later: same track and volume,
/// one frame past the frame `rt` played, one more frame into its manual
/// fade-out.
pub open spec fn one_frame_later(tracks: Seq<LoadedTrackModel>, rt: TrackRuntime, x: TrackRuntime) -> bool {
    &&& x.track_index == rt.track_index
    &&& x.volume == rt.volume
    &&& x.position_frame == next_frame_of(tracks, rt) + 1
    &&& x.manual_fade_out == match rt.manual_fade_out {
        Some(f) => Some(
            ManualFadeOut { elapsed_frames: (f.elapsed_frames + 1) as usize, total_frames: f.total_frames },
        ),
        None => None::<ManualFadeOut>,
    }
}

proof fn lemma_mix_keeps_prefix(tracks: Seq<LoadedTrackModel>, active: Seq<TrackRuntime>, i: int)
    requires
        0 <= i,
    ensures
        mix_from(tracks, active, i).0.len() >= if i <= active.len() {
            i
        } else {
            active.len() as int
        },
        forall|k: int|
            0 <= k < i && k < active.len() ==> #[trigger] mix_from(tracks, active, i).0[k]
                == active[k],
    decreases active.len() - i,
{
    if i < active.len() {
        let rt = active[i];
        let track = tracks[rt.track_index as int];
        let removed = swap_remove_spec(active, i);
        lemma_mix_keeps_prefix(tracks, removed, i);
        if !(rt.position_frame >= track.end_frame && !track.looping) {
            let pos = if rt.position_frame >= track.end_frame {
                track.start_frame
            } else {
                rt.position_frame
            };
            let next = advanced(rt, pos);
            lemma_mix_keeps_prefix(tracks, active.update(i, next), i + 1);
        }
    }
}

/// `x` is, one frame later, some instance of `before` that survives the
/// frame.
pub open spec fn comes_from(tracks: Seq<LoadedTrackModel>, before: Seq<TrackRuntime>, x: TrackRuntime) -> bool {
    exists|j: int|
        0 <= j < before.len() && one_frame_later(tracks, #[trigger] before[j], x) && survives_frame(
            tracks,
            before[j],
        )
}

/// Some instance of `after` is `rt` one frame later.
pub open spec fn goes_on_in(tracks: Seq<LoadedTrackModel>, rt: TrackRuntime, after: Seq<TrackRuntime>) -> bool {
    exists|q: int| 0 <= q < after.len() && one_frame_later(tracks, rt, #[trigger] after[q])
}

proof fn lemma_mix_instances(
    tracks: Seq<LoadedTrackModel>,
    active: Seq<TrackRuntime>,
    i: int,
    orig: Seq<TrackRuntime>,
)
    requires
        0 <= i,
        forall|k: int| 0 <= k < active.len() ==> runtime_wf(tracks, #[trigger] active[k]),
        forall|k: int| i <= k < active.len() ==> orig.contains(#[trigger] active[k]),
        forall|k: int| 0 <= k < i && k < active.len() ==> comes_from(tracks, orig, #[trigger] active[k]),
    ensures
        forall|k: int|
            0 <= k < mix_from(tracks, active, i).0.len() ==> comes_from(
                tracks,
                orig,
                #[trigger] mix_from(tracks, active, i).0[k],
            ),
        forall|k: int|
            i <= k < active.len() && survives_frame(tracks, #[trigger] active[k]) ==> goes_on_in(
                tracks,
                active[k],
                mix_from(tracks, active, i).0,
            ),
    decreases active.len() - i,
{
    if i < active.len() {
        let rt = active[i];
        let track = tracks[rt.track_index as int];
        assert(runtime_wf(tracks, active[i]));
        let removed = swap_remove_spec(active, i);
        assert forall|k: int| 0 <= k < removed.len() implies runtime_wf(
            tracks,
            #[trigger] removed[k],
        ) by {
            if k == i {
                assert(removed[k] == active[active.len() - 1]);
            } else {
                assert(removed[k] == active[k]);
            }
        }
        assert forall|k: int| i <= k < removed.len() implies orig.contains(#[trigger] removed[k]) by {
            if k == i {
                assert(removed[k] == active[active.len() - 1]);
            } else {
                assert(removed[k] == active[k]);
            }
        }
        assert forall|k: int| 0 <= k < i && k < removed.len() implies comes_from(
            tracks,
            orig,
            #[trigger] removed[k],
        ) by {
            assert(removed[k] == active[k]);
        }
        let pos = if rt.position_frame >= track.end_frame {
            track.start_frame
        } else {
            rt.position_frame
        };
        let next = advanced(rt, pos);
        let finished = next.manual_fade_out matches Some(f) && f.elapsed_frames >= f.total_frames;
        if (rt.position_frame >= track.end_frame && !track.looping) || finished {
            assert(!survives_frame(tracks, rt));
            lemma_mix_instances(tracks, removed, i, orig);
            assert(mix_from(tracks, active, i).0 == mix_from(tracks, removed, i).0);
            let r = mix_from(tracks, removed, i).0;
            assert forall|k: int| i <= k < active.len() && survives_frame(tracks, #[trigger] active[k])
                implies goes_on_in(tracks, active[k], r) by {
                if k == active.len() - 1 {
                    if k > i {
                        assert(removed[i] == active[k]);
                        assert(survives_frame(tracks, removed[i]));
                    } else {
                        assert(active[k] == rt);
                    }
                } else {
                    assert(k != i);
                    assert(removed[k] == active[k]);
                    assert(survives_frame(tracks, removed[k]));
                }
            }
        } else {
            let updated = active.update(i, next);
            assert(survives_frame(tracks, rt));
            assert(one_frame_later(tracks, rt, next));
            let w = choose|w: int| 0 <= w < orig.len() && orig[w] == rt;
            assert forall|k: int| 0 <= k < updated.len() implies runtime_wf(
                tracks,
                #[trigger] updated[k],
            ) by {
                if k != i {
                    assert(updated[k] == active[k]);
                }
            }
            assert forall|k: int| i + 1 <= k < updated.len() implies orig.contains(
                #[trigger] updated[k],
            ) by {
                assert(updated[k] == active[k]);
            }
            assert forall|k: int| 0 <= k < i + 1 && k < updated.len() implies comes_from(
                tracks,
                orig,
                #[trigger] updated[k],
            ) by {
                if k == i {
                    assert(one_frame_later(tracks, orig[w], updated[k]));
                } else {
                    assert(updated[k] == active[k]);
                }
            }
            lemma_mix_instances(tracks, updated, i + 1, orig);
            lemma_mix_keeps_prefix(tracks, updated, i + 1);
            let r = mix_from(tracks, updated, i + 1).0;
            assert(mix_from(tracks, active, i).0 == r);
            assert forall|k: int| i <= k < active.len() && survives_frame(tracks, #[trigger] active[k])
                implies goes_on_in(tracks, active[k], r) by {
                if k == i {
                    assert(r[i] == updated[i]);
                    assert(one_frame_later(tracks, active[k], r[i]));
                } else {
                    assert(updated[k] == active[k]);
                    assert(survives_frame(tracks, updated[k]));
                }
            }
        }
    }
}

/// What one output frame does to the playing instances. Each instance left
/// afterwards is one that played before, moved one frame past the frame it
/// played, one frame further into its manual fade-out, at the same volume;
/// and each instance that was playing stays (so moved) unless it was past
/// the end of a track that does not loop or its manual fade-out ended with
/// this frame.
pub proof fn lemma_frame_advances_instances(tracks: Seq<LoadedTrackModel>, active: Seq<TrackRuntime>)
    requires
        forall|k: int| 0 <= k < active.len() ==> runtime_wf(tracks, #[trigger] active[k]),
    ensures
        forall|k: int|
            0 <= k < mix_from(tracks, active, 0).0.len() ==> comes_from(
                tracks,
                active,
                #[trigger] mix_from(tracks, active, 0).0[k],
            ),
        forall|k: int|
            0 <= k < active.len() && survives_frame(tracks, #[trigger] active[k]) ==> goes_on_in(
                tracks,
                active[k],
                mix_from(tracks, active, 0).0,
            ),
{
    assert forall|k: int| 0 <= k < active.len() implies active.contains(#[trigger] active[k]) by {}
    lemma_mix_instances(tracks, active, 0, active);
}

} // verus!
