//! The state shared by the controls: the pending MIDI learn request, the
//! completion of a learn request, and edits of a track's settings.

use vstd::prelude::*;
use crate::audio::engine::{frame_range_spec, runtime_update_for_track, TrackTiming, fade_shape_spec};
use crate::command::TrackRuntimeUpdate;
use crate::config::{
    has_track, learn_cc_spec, learn_note_spec, set_track_midi_note, set_track_midi_volume_cc,
    tracks_model, validation_error, Config, ConfigModel, FadeConfig, PlaybackMode, TrackConfig,
    TrackModel,
};
use crate::error::{ErrorModel, PadsoundError};
use crate::numeric::{seconds_is_positive, seconds_positive};
use crate::audio::track::FadeShape;
use crate::text::{str_eq, trim, trim_spec};

verus! {

/// What a MIDI learn request is waiting for.
#[derive(Debug, Clone, Copy, PartialEq, Eq, Structural)]
pub enum LearnKind {
    /// The next note becomes the track's trigger.
    Trigger,
    /// The next controller becomes the track's volume knob.
    Volume,
}

/// A pending MIDI learn request for one track.
#[derive(Debug, Clone)]
pub struct LearnRequest {
    pub track_id: String,
    pub kind: LearnKind,
}

/// The mathematical form of a [`LearnRequest`].
pub struct LearnRequestModel {
    pub track_id: Seq<char>,
    pub kind: LearnKind,
}

impl View for LearnRequest {
    type V = LearnRequestModel;

    open spec fn view(&self) -> LearnRequestModel {
        LearnRequestModel { track_id: self.track_id@, kind: self.kind }
    }
}

/// An optional request, in mathematical form.
pub open spec fn request_model(r: Option<LearnRequest>) -> Option<LearnRequestModel> {
    match r {
        Some(x) => Some(x@),
        None => None,
    }
}

impl LearnRequest {
    /// A copy of this request.
    pub fn duplicate(&self) -> (r: LearnRequest)
        ensures
            r@ == self@,
    {
        LearnRequest { track_id: self.track_id.clone(), kind: self.kind }
    }
}

/// The slot holding at most one pending MIDI learn request.
#[derive(Debug)]
pub struct LearnSlot {
    pending: Option<LearnRequest>,
}

impl View for LearnSlot {
    type V = Option<LearnRequestModel>;

    closed spec fn view(&self) -> Option<LearnRequestModel> {
        request_model(self.pending)
    }
}

/// The slot after a request of kind `kind` was asked for: a matching
/// request leaves it, anything else stays.
pub open spec fn take_for_spec(slot: Option<LearnRequestModel>, kind: LearnKind) -> (
    Option<LearnRequestModel>,
    Option<LearnRequestModel>,
) {
    match slot {
        Some(r) => if r.kind == kind {
            (None, Some(r))
        } else {
            (slot, None)
        },
        None => (None, None),
    }
}

impl LearnSlot {
    /// An empty slot.
    pub fn new() -> (r: LearnSlot)
        ensures
            r@ is None,
    {
        LearnSlot { pending: None }
    }

    /// Waits for `request`, replacing any earlier request.
    pub fn start(&mut self, request: LearnRequest)
        ensures
            final(self)@ == Some(request@),
    {
        self.pending = Some(request);
    }

    /// Drops the pending request and returns it.
    pub fn cancel(&mut self) -> (r: Option<LearnRequest>)
        ensures
            request_model(r) == old(self)@,
            final(self)@ is None,
    {
        let r = self.pending.take();
        r
    }

    /// The pending request.
    pub fn pending(&self) -> (r: Option<LearnRequest>)
        ensures
            request_model(r) == self@,
    {
        match &self.pending {
            Some(request) => Some(request.duplicate()),
            None => None,
        }
    }

    /// Takes the pending request when it is of kind `kind`; a request of the
    /// other kind stays pending.
    pub fn take_for(&mut self, kind: LearnKind) -> (r: Option<LearnRequest>)
        ensures
            (final(self)@, request_model(r)) == take_for_spec(old(self)@, kind),
    {
        let taken = self.pending.take();
        match taken {
            Some(request) => {
                if request.kind == kind {
                    Some(request)
                } else {
                    self.pending = Some(request);
                    None
                }
            },
            None => None,
        }
    }
}

/// What completing a learn request of kind `kind` with the value `value`
/// does to the show: nothing without a matching request; otherwise the
/// track of the request takes the note (or controller), and the result is
/// validated.
pub open spec fn learned_tracks(tracks: Seq<TrackModel>, r: LearnRequestModel, value: u8) -> Seq<
    TrackModel,
> {
    match r.kind {
        LearnKind::Trigger => learn_note_spec(tracks, r.track_id, value),
        LearnKind::Volume => learn_cc_spec(tracks, r.track_id, value),
    }
}

/// Completes a pending learn request of kind `kind` with the note or
/// controller `value`.
///
/// Without a pending request of that kind, nothing changes and the result
/// is `Ok(None)`. Otherwise the request leaves the slot and the track it
/// names takes `value` (any other track holding it loses it); then the show
/// is validated, with `files_found` saying for each track whether its
/// resolved file exists. The show keeps the change even when validation
/// fails; the caller saves it when the result is `Ok(Some(_))`.
pub fn finish_learn(
    slot: &mut LearnSlot,
    config: &mut Config,
    kind: LearnKind,
    value: u8,
    base_dir: &str,
    files_found: &Vec<bool>,
) -> (r: Result<Option<LearnRequest>, PadsoundError>)
    requires
        files_found.len() == old(config).tracks.len(),
    ensures
        ({
            let (rest, taken) = take_for_spec(old(slot)@, kind);
            &&& final(slot)@ == rest
            &&& match taken {
                None => {
                    &&& r matches Ok(None)
                    &&& final(config)@ == old(config)@
                },
                Some(req) => if !has_track(old(config)@.tracks, req.track_id) {
                    &&& final(config)@ == old(config)@
                    &&& r matches Err(e) && e@ == ErrorModel::TrackNotFound { id: req.track_id }
                } else {
                    let learned = ConfigModel {
                        tracks: learned_tracks(old(config)@.tracks, req, value),
                        ..old(config)@
                    };
                    &&& final(config)@ == learned
                    &&& match validation_error(learned, base_dir@, Some(files_found@)) {
                        Some(err) => r matches Err(e) && e@ == err,
                        None => r matches Ok(Some(q)) && q@ == req,
                    }
                },
            }
        }),
        !(old(slot)@ matches Some(q) && q.kind == kind) ==> ((r matches Ok(None)) && final(slot)@
            == old(slot)@ && final(config)@ == old(config)@),
        (old(slot)@ matches Some(q) && q.kind == kind) ==> (final(slot)@ is None),
        r matches Ok(Some(q)) ==> (old(slot)@ == Some(q@) && q@.kind == kind && final(config)@
            == (ConfigModel {
            tracks: learned_tracks(old(config)@.tracks, q@, value),
            ..old(config)@
        }) && validation_error(final(config)@, base_dir@, Some(files_found@)) is None),
{
    let taken = slot.take_for(kind);
    match taken {
        None => Ok(None),
        Some(request) => {
            let set = match kind {
                LearnKind::Trigger => set_track_midi_note(config, request.track_id.as_str(), value),
                LearnKind::Volume => set_track_midi_volume_cc(
                    config,
                    request.track_id.as_str(),
                    value,
                ),
            };
            match set {
                Err(e) => Err(e),
                Ok(()) => {
                    proof {
                        assert(tracks_model(config.tracks@).len() == tracks_model(
                            old(config).tracks@,
                        ).len());
                    }
                    match config.validate(base_dir, Some(files_found)) {
                        Err(e) => Err(e),
                        Ok(()) => Ok(Some(request)),
                    }
                },
            }
        },
    }
}

/// The decoded audio behind a loaded track.
#[derive(Debug, Clone, Copy, PartialEq, Eq, Structural)]
pub struct TrackRuntimeSpec {
    pub frame_count: usize,
    pub sample_rate: u32,
}

/// New settings for one track, as edited on screen. Seconds are binary64
/// and the volume binary32 bit patterns.
#[derive(Debug, Clone)]
pub struct TrackConfigUpdate {
    pub track_id: String,
    pub name: String,
    pub key: Option<String>,
    pub mode: PlaybackMode,
    pub looping: bool,
    pub start_at: u64,
    pub stop_before_end: u64,
    pub fade_in: Option<FadeConfig>,
    pub fade_out: Option<FadeConfig>,
    pub volume: u32,
    pub midi_note: Option<u8>,
    pub midi_volume_cc: Option<u8>,
}

/// An optional text after trimming: `None` when nothing is left.
pub open spec fn normalized_text(v: Option<Seq<char>>) -> Option<Seq<char>> {
    match v {
        Some(s) => if trim_spec(s).len() == 0 {
            None
        } else {
            Some(trim_spec(s))
        },
        None => None,
    }
}

/// An optional text, in mathematical form.
pub open spec fn text_model(v: Option<String>) -> Option<Seq<char>> {
    match v {
        Some(s) => Some(s@),
        None => None,
    }
}

/// Trims an optional text, dropping it when nothing is left.
pub fn normalize_optional_string(value: Option<String>) -> (r: Option<String>)
    ensures
        text_model(r) == normalized_text(text_model(value)),
{
    match value {
        Some(s) => {
            let t = trim(s.as_str());
            if t.as_str().unicode_len() == 0 {
                None
            } else {
                Some(t)
            }
        },
        None => None,
    }
}

/// A fade with a positive duration; any other fade is dropped.
pub open spec fn normalized_fade(v: Option<FadeConfig>) -> Option<FadeConfig> {
    match v {
        Some(f) => if seconds_is_positive(f.seconds) {
            v
        } else {
            None
        },
        None => None,
    }
}

/// Keeps a fade only when its duration is positive.
pub fn normalize_fade(value: Option<FadeConfig>) -> (r: Option<FadeConfig>)
    ensures
        r == normalized_fade(value),
{
    match value {
        Some(f) => if seconds_positive(f.seconds) {
            Some(f)
        } else {
            None
        },
        None => None,
    }
}

/// A track with the settings of `u` applied.
pub open spec fn updated_track(t: TrackModel, u: TrackConfigUpdate) -> TrackModel {
    TrackModel {
        name: u.name@,
        key: normalized_text(text_model(u.key)),
        mode: u.mode,
        looping: u.looping,
        start_at: u.start_at,
        stop_before_end: u.stop_before_end,
        fade_in: normalized_fade(u.fade_in),
        fade_out: normalized_fade(u.fade_out),
        volume: u.volume,
        midi_note: u.midi_note,
        midi_volume_cc: u.midi_volume_cc,
        ..t
    }
}

/// The position of the first track with this id.
#[verifier::opaque]
pub open spec fn first_track_index(tracks: Seq<TrackModel>, id: Seq<char>) -> int {
    choose|i: int|
        0 <= i < tracks.len() && tracks[i].id == id && forall|k: int|
            0 <= k < i ==> (#[trigger] tracks[k]).id != id
}

/// The show after applying `u` to the first track with its id.
#[verifier::opaque]
pub open spec fn updated_config(c: ConfigModel, u: TrackConfigUpdate) -> ConfigModel {
    let i = first_track_index(c.tracks, u.track_id@);
    ConfigModel { tracks: c.tracks.update(i, updated_track(c.tracks[i], u)), ..c }
}

/// The runtime description registered last under `id`.
pub open spec fn spec_for_track(specs: Seq<(String, TrackRuntimeSpec)>, id: Seq<char>) -> Option<
    TrackRuntimeSpec,
>
    decreases specs.len(),
{
    if specs.len() == 0 {
        None
    } else if specs.last().0@ == id {
        Some(specs.last().1)
    } else {
        spec_for_track(specs.drop_last(), id)
    }
}

/// The runtime settings that follow from an updated track.
pub open spec fn runtime_update_spec(t: TrackModel, frame_count: usize, timing: TrackTiming) -> Option<
    TrackRuntimeUpdate,
> {
    match frame_range_spec(frame_count, timing) {
        None => None,
        Some((s, e)) => Some(
            TrackRuntimeUpdate {
                mode: t.mode,
                looping: t.looping,
                start_frame: s,
                end_frame: e,
                fade_in: fade_shape_spec(t.fade_in, timing.fade_in_frames),
                fade_out: fade_shape_spec(t.fade_out, timing.fade_out_frames),
                default_volume: t.volume,
            },
        ),
    }
}

/// What editing a track's settings yields: the new show and the runtime
/// settings for the mixer, or the first error among: no track with the
/// update's id; the new show failing validation; no runtime description
/// for the track; offsets that leave nothing to play.
pub open spec fn track_update_spec(
    c: ConfigModel,
    u: TrackConfigUpdate,
    base_dir: Seq<char>,
    files: Seq<bool>,
    specs: Seq<(String, TrackRuntimeSpec)>,
    timing: TrackTiming,
) -> Result<(ConfigModel, TrackRuntimeUpdate), ErrorModel> {
    if !has_track(c.tracks, u.track_id@) {
        Err(ErrorModel::TrackNotFound { id: u.track_id@ })
    } else {
        validated_runtime_spec(
            updated_config(c, u),
            first_track_index(c.tracks, u.track_id@),
            u.track_id@,
            base_dir,
            files,
            specs,
            timing,
        )
    }
}

/// The second half of [`track_update_spec`], once the new show `n` passed
/// validation: the runtime settings of its track at `i`, or the error.
pub open spec fn runtime_part(
    n: ConfigModel,
    i: int,
    id: Seq<char>,
    specs: Seq<(String, TrackRuntimeSpec)>,
    timing: TrackTiming,
) -> Result<(ConfigModel, TrackRuntimeUpdate), ErrorModel> {
    match spec_for_track(specs, id) {
        None => Err(ErrorModel::RuntimeTrackMissing { id }),
        Some(s) => match runtime_update_spec(n.tracks[i], s.frame_count, timing) {
            None => Err(ErrorModel::InvalidRuntimeOffsets { id }),
            Some(ru) => Ok((n, ru)),
        },
    }
}

/// The position of the first track with the id `id`.
pub fn track_position(tracks: &Vec<TrackConfig>, id: &str) -> (r: Option<usize>)
    ensures
        match r {
            Some(i) => i < tracks.len() && first_track_index(tracks_model(tracks@), id@) == i
                && tracks_model(tracks@)[i as int].id == id@,
            None => !has_track(tracks_model(tracks@), id@),
        },
{
    let ghost m = tracks_model(tracks@);
    let mut j: usize = 0;
    while j < tracks.len()
        invariant
            m == tracks_model(tracks@),
            m.len() == tracks.len(),
            j <= tracks.len(),
            forall|k: int| 0 <= k < j ==> (#[trigger] m[k]).id != id@,
        decreases tracks.len() - j,
    {
        if str_eq(tracks[j].id.as_str(), id) {
            proof {
                reveal(first_track_index);
                let p = |i: int|
                    0 <= i < m.len() && m[i].id == id@ && forall|k: int|
                        0 <= k < i ==> (#[trigger] m[k]).id != id@;
                assert(p(j as int));
                let c = first_track_index(m, id@);
                assert(p(c));
                if c < j {
                    assert(m[c].id != id@);
                } else if c > j {
                    assert(m[j as int].id != id@);
                }
            }
            return Some(j);
        }
        j += 1;
    }
    None
}

fn find_runtime_spec(specs: &Vec<(String, TrackRuntimeSpec)>, id: &str) -> (r: Option<
    TrackRuntimeSpec,
>)
    ensures
        r == spec_for_track(specs@, id@),
{
    let mut j: usize = specs.len();
    proof {
        assert(specs@.take(j as int) =~= specs@);
    }
    while j > 0
        invariant
            j <= specs.len(),
            spec_for_track(specs@, id@) == spec_for_track(specs@.take(j as int), id@),
        decreases j,
    {
        proof {
            assert(specs@.take(j as int).drop_last() =~= specs@.take(j - 1));
        }
        if str_eq(specs[j - 1].0.as_str(), id) {
            return Some(specs[j - 1].1);
        }
        j -= 1;
    }
    None
}

/// The show with `update` applied to the track at `index`, the first one
/// with the update's id.
fn updated_show(config: &Config, index: usize, update: &TrackConfigUpdate) -> (r: Config)
    requires
        index < config.tracks.len(),
        first_track_index(config@.tracks, update.track_id@) == index,
    ensures
        r@ == updated_config(config@, *update),
        r.tracks.len() == config.tracks.len(),
{
    proof {
        reveal(updated_config);
    }
    let ghost m = config@.tracks;
    let mut tracks: Vec<TrackConfig> = Vec::new();
    let mut j: usize = 0;
    while j < config.tracks.len()
        invariant
            m == tracks_model(config.tracks@),
            m.len() == config.tracks.len(),
            index < config.tracks.len(),
            j <= config.tracks.len(),
            forall|k: int|
                0 <= k < j ==> (#[trigger] tracks_model(tracks@)[k]) == (if k == index {
                    updated_track(m[k], *update)
                } else {
                    m[k]
                }),
            tracks.len() == j,
        decreases config.tracks.len() - j,
    {
        let source = &config.tracks[j];
        let t = if j == index {
            TrackConfig {
                id: source.id.clone(),
                name: update.name.clone(),
                file: source.file.clone(),
                key: normalize_optional_string(crate::config::clone_text(&update.key)),
                mode: update.mode,
                looping: update.looping,
                start_at: update.start_at,
                stop_before_end: update.stop_before_end,
                fade_in: normalize_fade(update.fade_in),
                fade_out: normalize_fade(update.fade_out),
                volume: update.volume,
                midi_note: update.midi_note,
                midi_volume_cc: update.midi_volume_cc,
            }
        } else {
            source.duplicate()
        };
        proof {
            assert(text_model(update.key) == crate::config::opt_text(update.key));
        }
        let ghost before = tracks@;
        tracks.push(t);
        proof {
            assert(tracks@ == before.push(t));
            assert forall|k: int| 0 <= k < j + 1 implies (#[trigger] tracks_model(tracks@)[k]) == (
            if k == index {
                updated_track(m[k], *update)
            } else {
                m[k]
            }) by {
                if k < j {
                    assert(tracks_model(tracks@)[k] == tracks_model(before)[k]);
                }
            }
        }
        j += 1;
    }
    let new_config = Config {
        schema_version: config.schema_version,
        name: crate::config::clone_text(&config.name),
        midi_volume_mode: config.midi_volume_mode,
        tracks,
    };
    proof {
        let n = updated_config(config@, *update);
        assert(new_config@.tracks =~= n.tracks);
    }
    new_config
}

/// What validating the show `c` reports, with `files` saying which files
/// exist; see [`validation_error`].
#[verifier::opaque]
pub open spec fn show_validation(c: ConfigModel, base_dir: Seq<char>, files: Seq<bool>) -> Option<
    ErrorModel,
> {
    validation_error(c, base_dir, Some(files))
}

/// Validation of a show, checking files.
fn check_show(config: &Config, base_dir: &str, files_found: &Vec<bool>) -> (r: Result<
    (),
    PadsoundError,
>)
    requires
        files_found.len() == config.tracks.len(),
    ensures
        match r {
            Ok(()) => show_validation(config@, base_dir@, files_found@) is None,
            Err(e) => show_validation(config@, base_dir@, files_found@) == Some(e@),
        },
{
    proof {
        reveal(show_validation);
    }
    config.validate(base_dir, Some(files_found))
}

/// The runtime settings of the track at `index` of the validated show.
fn runtime_for(
    new_config: Config,
    index: usize,
    id: &String,
    specs: &Vec<(String, TrackRuntimeSpec)>,
    timing: &TrackTiming,
) -> (r: Result<(Config, TrackRuntimeUpdate), PadsoundError>)
    requires
        index < new_config.tracks.len(),
    ensures
        match r {
            Ok((c, u)) => runtime_part(new_config@, index as int, id@, specs@, *timing) == Ok::<
                (ConfigModel, TrackRuntimeUpdate),
                ErrorModel,
            >((c@, u)),
            Err(e) => runtime_part(new_config@, index as int, id@, specs@, *timing) == Err::<
                (ConfigModel, TrackRuntimeUpdate),
                ErrorModel,
            >(e@),
        },
{
    let spec = match find_runtime_spec(specs, id.as_str()) {
        Some(s) => s,
        None => {
            return Err(PadsoundError::RuntimeTrackMissing { id: id.clone() });
        },
    };
    assert(new_config@.tracks[index as int] == new_config.tracks@[index as int]@);
    match runtime_update_for_track(&new_config.tracks[index], spec.frame_count, timing) {
        None => Err(PadsoundError::InvalidRuntimeOffsets { id: id.clone() }),
        Some(u) => Ok((new_config, u)),
    }
}

/// The outcome of an edit once the new show is built: its validation
/// error, or the runtime settings of its track at `index`.
pub open spec fn validated_runtime_spec(
    n: ConfigModel,
    index: int,
    id: Seq<char>,
    base_dir: Seq<char>,
    files: Seq<bool>,
    specs: Seq<(String, TrackRuntimeSpec)>,
    timing: TrackTiming,
) -> Result<(ConfigModel, TrackRuntimeUpdate), ErrorModel> {
    match show_validation(n, base_dir, files) {
        Some(e) => Err(e),
        None => runtime_part(n, index, id, specs, timing),
    }
}

fn validated_runtime(
    new_config: Config,
    index: usize,
    id: &String,
    base_dir: &str,
    files_found: &Vec<bool>,
    specs: &Vec<(String, TrackRuntimeSpec)>,
    timing: &TrackTiming,
) -> (r: Result<(Config, TrackRuntimeUpdate), PadsoundError>)
    requires
        index < new_config.tracks.len(),
        files_found.len() == new_config.tracks.len(),
    ensures
        match r {
            Ok((c, u)) => validated_runtime_spec(new_config@, index as int, id@, base_dir@, files_found@, specs@, *timing) == Ok::<
                (ConfigModel, TrackRuntimeUpdate),
                ErrorModel,
            >((c@, u)),
            Err(e) => validated_runtime_spec(new_config@, index as int, id@, base_dir@, files_found@, specs@, *timing) == Err::<
                (ConfigModel, TrackRuntimeUpdate),
                ErrorModel,
            >(e@),
        },
{
    match check_show(&new_config, base_dir, files_found) {
        Err(e) => {
            return Err(e);
        },
        Ok(()) => {},
    }
    runtime_for(new_config, index, id, specs, timing)
}

/// Applies the edited settings `update` to the first track with its id.
///
/// Returns the new show, for the caller to save and then install, and the
/// runtime settings to send to the mixer. `files_found` says for each track
/// whether its resolved file exists; `specs` lists the decoded audio of each
/// track by id (the last entry for an id counts); `timing` holds the
/// update's times converted to frames at that audio's sample rate.
pub fn update_track_config(
    config: &Config,
    update: &TrackConfigUpdate,
    base_dir: &str,
    files_found: &Vec<bool>,
    specs: &Vec<(String, TrackRuntimeSpec)>,
    timing: &TrackTiming,
) -> (r: Result<(Config, TrackRuntimeUpdate), PadsoundError>)
    requires
        files_found.len() == config.tracks.len(),
    ensures
        match r {
            Ok((c, u)) => track_update_spec(
                config@,
                *update,
                base_dir@,
                files_found@,
                specs@,
                *timing,
            ) == Ok::<(ConfigModel, TrackRuntimeUpdate), ErrorModel>((c@, u)),
            Err(e) => track_update_spec(config@, *update, base_dir@, files_found@, specs@, *timing)
                == Err::<(ConfigModel, TrackRuntimeUpdate), ErrorModel>(e@),
        },
{
    let index = match track_position(&config.tracks, update.track_id.as_str()) {
        Some(i) => i,
        None => {
            return Err(PadsoundError::TrackNotFound { id: update.track_id.clone() });
        },
    };
    proof {
        assert(config@.tracks[index as int].id == update.track_id@);
        assert(has_track(config@.tracks, update.track_id@));
    }
    let new_config = updated_show(config, index, update);
    let r = validated_runtime(new_config, index, &update.track_id, base_dir, files_found, specs, timing);
    r
}

/// Some track before `j` has the id `id`, or none; either way a first
/// track with that id exists once any does.
proof fn lemma_first_track_index(tracks: Seq<TrackModel>, id: Seq<char>, j: int)
    requires
        0 <= j < tracks.len(),
        tracks[j].id == id,
    ensures
        ({
            let i = first_track_index(tracks, id);
            &&& 0 <= i < tracks.len()
            &&& tracks[i].id == id
            &&& forall|k: int| 0 <= k < i ==> (#[trigger] tracks[k]).id != id
        }),
    decreases j,
{
    reveal(first_track_index);
    if exists|k: int| 0 <= k < j && (#[trigger] tracks[k]).id == id {
        let k = choose|k: int| 0 <= k < j && (#[trigger] tracks[k]).id == id;
        lemma_first_track_index(tracks, id, k);
    } else {
        let p = |i: int|
            0 <= i < tracks.len() && tracks[i].id == id && forall|k: int|
                0 <= k < i ==> (#[trigger] tracks[k]).id != id;
        assert(p(j));
    }
}

/// Editing a track changes that track alone. A successful edit finds the
/// first track with the update's id; the new show has the same tracks in
/// the same order, that track keeps its id and file and takes every other
/// setting from the update (the key trimmed and dropped when blank, fades
/// kept only with a positive duration); all other tracks and the show's
/// other fields are unchanged. The new show passes validation with the
/// given file answers, and the runtime settings are those of the edited
/// track for the audio registered under its id. An edit fails exactly when
/// no track has the id, the new show fails validation, no audio is
/// registered under the id, or the offsets leave nothing to play.
pub proof fn lemma_track_update_changes_one_track(
    c: ConfigModel,
    u: TrackConfigUpdate,
    base_dir: Seq<char>,
    files: Seq<bool>,
    specs: Seq<(String, TrackRuntimeSpec)>,
    timing: TrackTiming,
)
    ensures
        ({
            let r = track_update_spec(c, u, base_dir, files, specs, timing);
            let i = first_track_index(c.tracks, u.track_id@);
            let n = updated_config(c, u);
            &&& r is Ok ==> {
                let (m, ru) = r->Ok_0;
                &&& 0 <= i < c.tracks.len()
                &&& c.tracks[i].id == u.track_id@
                &&& forall|k: int| 0 <= k < i ==> (#[trigger] c.tracks[k]).id != u.track_id@
                &&& m == n
                &&& m.schema_version == c.schema_version
                &&& m.name == c.name
                &&& m.midi_volume_mode == c.midi_volume_mode
                &&& m.tracks.len() == c.tracks.len()
                &&& m.tracks[i] == updated_track(c.tracks[i], u)
                &&& m.tracks[i].id == c.tracks[i].id
                &&& m.tracks[i].file == c.tracks[i].file
                &&& m.tracks[i].name == u.name@
                &&& m.tracks[i].mode == u.mode
                &&& m.tracks[i].looping == u.looping
                &&& m.tracks[i].start_at == u.start_at
                &&& m.tracks[i].stop_before_end == u.stop_before_end
                &&& m.tracks[i].volume == u.volume
                &&& m.tracks[i].midi_note == u.midi_note
                &&& m.tracks[i].midi_volume_cc == u.midi_volume_cc
                &&& (u.key is None ==> m.tracks[i].key is None)
                &&& (u.key matches Some(k) ==> (if trim_spec(k@).len() == 0 {
                    m.tracks[i].key is None
                } else {
                    m.tracks[i].key == Some(trim_spec(k@))
                }))
                &&& (if u.fade_in matches Some(f) && seconds_is_positive(f.seconds) {
                    m.tracks[i].fade_in == u.fade_in
                } else {
                    m.tracks[i].fade_in is None
                })
                &&& (if u.fade_out matches Some(f) && seconds_is_positive(f.seconds) {
                    m.tracks[i].fade_out == u.fade_out
                } else {
                    m.tracks[i].fade_out is None
                })
                &&& ru.mode == u.mode
                &&& ru.looping == u.looping
                &&& ru.default_volume == u.volume
                &&& (if u.fade_in matches Some(f) && seconds_is_positive(f.seconds) {
                    ru.fade_in == Some(FadeShape { frames: timing.fade_in_frames, curve: u.fade_in->0.curve })
                } else {
                    ru.fade_in is None
                })
                &&& (if u.fade_out matches Some(f) && seconds_is_positive(f.seconds) {
                    ru.fade_out == Some(FadeShape { frames: timing.fade_out_frames, curve: u.fade_out->0.curve })
                } else {
                    ru.fade_out is None
                })
                &&& forall|k: int|
                    0 <= k < c.tracks.len() && k != i ==> (#[trigger] m.tracks[k]) == c.tracks[k]
                &&& validation_error(m, base_dir, Some(files)) is None
                &&& spec_for_track(specs, u.track_id@) is Some
                &&& runtime_update_spec(
                    m.tracks[i],
                    spec_for_track(specs, u.track_id@)->0.frame_count,
                    timing,
                ) == Some(ru)
            }
            &&& r is Err <==> {
                ||| !has_track(c.tracks, u.track_id@)
                ||| validation_error(n, base_dir, Some(files)) is Some
                ||| spec_for_track(specs, u.track_id@) is None
                ||| runtime_update_spec(
                    n.tracks[i],
                    spec_for_track(specs, u.track_id@)->0.frame_count,
                    timing,
                ) is None
            }
        }),
{
    reveal(updated_config);
    reveal(show_validation);
    if has_track(c.tracks, u.track_id@) {
        let j = choose|j: int| 0 <= j < c.tracks.len() && (#[trigger] c.tracks[j]).id == u.track_id@;
        lemma_first_track_index(c.tracks, u.track_id@, j);
    }
}

} // verus!
