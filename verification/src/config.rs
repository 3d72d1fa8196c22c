//! The show configuration: tracks, their triggers and playback settings,
//! validation, and MIDI learn updates.

use vstd::prelude::*;
use crate::error::{ErrorModel, PadsoundError};
use crate::numeric::{
    gain_in_range, gain_in_unit_range, seconds_is_negative, seconds_negative, UNIT_GAIN,
};
use crate::paths::{is_absolute_path, joined_path, parent_path, path_is_absolute, path_join, path_parent};
use crate::text::{is_blank, is_blank_str, str_eq};

verus! {

/// How a trigger plays a track.
#[derive(Debug, Clone, Copy, PartialEq, Eq, Structural)]
pub enum PlaybackMode {
    /// Each press starts the track, or stops it when it is playing.
    Toggle,
    /// The track plays while the trigger is held.
    Hold,
}

/// How MIDI volume knobs are read.
#[derive(Debug, Clone, Copy, PartialEq, Eq, Structural)]
pub enum MidiVolumeMode {
    Relative,
    Absolute,
}

impl Default for MidiVolumeMode {
    fn default() -> (r: Self)
        ensures
            r == MidiVolumeMode::Relative,
    {
        MidiVolumeMode::Relative
    }
}

/// The shape of a fade.
#[derive(Debug, Clone, Copy, PartialEq, Eq, Structural)]
pub enum FadeCurve {
    Linear,
    EqualPower,
    Exponential,
}

impl Default for FadeCurve {
    fn default() -> (r: Self)
        ensures
            r == FadeCurve::Linear,
    {
        FadeCurve::Linear
    }
}

/// A fade: its duration in seconds (binary64 bit pattern) and its curve.
#[derive(Debug, Clone, Copy, PartialEq, Eq, Structural)]
pub struct FadeConfig {
    pub seconds: u64,
    pub curve: FadeCurve,
}

/// One track of a show.
#[derive(Debug, Clone)]
pub struct TrackConfig {
    pub id: String,
    pub name: String,
    pub file: String,
    pub key: Option<String>,
    pub mode: PlaybackMode,
    pub looping: bool,
    /// Seconds skipped at the start (binary64 bit pattern).
    pub start_at: u64,
    /// Seconds cut from the end (binary64 bit pattern).
    pub stop_before_end: u64,
    pub fade_in: Option<FadeConfig>,
    pub fade_out: Option<FadeConfig>,
    /// Default volume (binary32 bit pattern).
    pub volume: u32,
    pub midi_note: Option<u8>,
    pub midi_volume_cc: Option<u8>,
}

/// A whole show.
#[derive(Debug, Clone)]
pub struct Config {
    pub schema_version: u32,
    pub name: Option<String>,
    pub midi_volume_mode: MidiVolumeMode,
    pub tracks: Vec<TrackConfig>,
}

/// Text held in an `Option<String>`, as characters.
pub open spec fn opt_text(o: Option<String>) -> Option<Seq<char>> {
    match o {
        Some(s) => Some(s@),
        None => None,
    }
}

/// The mathematical form of a [`TrackConfig`].
pub struct TrackModel {
    pub id: Seq<char>,
    pub name: Seq<char>,
    pub file: Seq<char>,
    pub key: Option<Seq<char>>,
    pub mode: PlaybackMode,
    pub looping: bool,
    pub start_at: u64,
    pub stop_before_end: u64,
    pub fade_in: Option<FadeConfig>,
    pub fade_out: Option<FadeConfig>,
    pub volume: u32,
    pub midi_note: Option<u8>,
    pub midi_volume_cc: Option<u8>,
}

impl View for TrackConfig {
    type V = TrackModel;

    open spec fn view(&self) -> TrackModel {
        TrackModel {
            id: self.id@,
            name: self.name@,
            file: self.file@,
            key: opt_text(self.key),
            mode: self.mode,
            looping: self.looping,
            start_at: self.start_at,
            stop_before_end: self.stop_before_end,
            fade_in: self.fade_in,
            fade_out: self.fade_out,
            volume: self.volume,
            midi_note: self.midi_note,
            midi_volume_cc: self.midi_volume_cc,
        }
    }
}

/// The tracks of a vector, in mathematical form.
pub open spec fn tracks_model(v: Seq<TrackConfig>) -> Seq<TrackModel> {
    v.map_values(|t: TrackConfig| t@)
}

/// The mathematical form of a [`Config`].
pub struct ConfigModel {
    pub schema_version: u32,
    pub name: Option<Seq<char>>,
    pub midi_volume_mode: MidiVolumeMode,
    pub tracks: Seq<TrackModel>,
}

impl View for Config {
    type V = ConfigModel;

    open spec fn view(&self) -> ConfigModel {
        ConfigModel {
            schema_version: self.schema_version,
            name: opt_text(self.name),
            midi_volume_mode: self.midi_volume_mode,
            tracks: tracks_model(self.tracks@),
        }
    }
}

/// The only configuration schema this version reads.
pub open spec fn schema_version_spec() -> u32 {
    1
}

/// The schema version written into new configurations.
pub fn default_schema_version() -> (r: u32)
    ensures
        r == schema_version_spec(),
{
    1
}

/// The volume a track gets when the configuration leaves it out: +1.0.
pub fn default_volume() -> (r: u32)
    ensures
        r == UNIT_GAIN,
{
    UNIT_GAIN
}

impl Default for Config {
    fn default() -> (r: Self)
        ensures
            r@.schema_version == schema_version_spec(),
            r@.name is None,
            r@.midi_volume_mode == MidiVolumeMode::Relative,
            r@.tracks.len() == 0,
    {
        Config {
            schema_version: default_schema_version(),
            name: None,
            midi_volume_mode: MidiVolumeMode::Relative,
            tracks: Vec::new(),
        }
    }
}

// ---------------------------------------------------------------------------
// Paths
// ---------------------------------------------------------------------------

/// Where a track's file lives: absolute paths as they are, relative paths
/// below the show's base directory.
pub open spec fn resolved_file_spec(file: Seq<char>, base_dir: Seq<char>) -> Seq<char> {
    if is_absolute_path(file) {
        file
    } else {
        joined_path(base_dir, file)
    }
}

/// The directory that holds a configuration file (`"."` when it has none).
pub open spec fn base_dir_spec(config_path: Seq<char>) -> Seq<char> {
    match parent_path(config_path) {
        Some(p) => p,
        None => "."@,
    }
}

impl TrackConfig {
    /// The track's file, resolved against the show's base directory.
    pub fn resolved_file(&self, base_dir: &str) -> (r: String)
        ensures
            r@ == resolved_file_spec(self.file@, base_dir@),
    {
        if path_is_absolute(self.file.as_str()) {
            self.file.clone()
        } else {
            path_join(base_dir, self.file.as_str())
        }
    }

    /// A copy of this track.
    pub fn duplicate(&self) -> (r: TrackConfig)
        ensures
            r@ == self@,
    {
        TrackConfig {
            id: self.id.clone(),
            name: self.name.clone(),
            file: self.file.clone(),
            key: clone_text(&self.key),
            mode: self.mode,
            looping: self.looping,
            start_at: self.start_at,
            stop_before_end: self.stop_before_end,
            fade_in: self.fade_in,
            fade_out: self.fade_out,
            volume: self.volume,
            midi_note: self.midi_note,
            midi_volume_cc: self.midi_volume_cc,
        }
    }
}

/// A copy of an optional string.
pub fn clone_text(o: &Option<String>) -> (r: Option<String>)
    ensures
        opt_text(r) == opt_text(*o),
{
    match o {
        Some(s) => Some(s.clone()),
        None => None,
    }
}

// ---------------------------------------------------------------------------
// Validation
// ---------------------------------------------------------------------------

/// Some track before `i` has this id.
pub open spec fn id_used_before(tracks: Seq<TrackModel>, i: int, id: Seq<char>) -> bool {
    exists|j: int| 0 <= j < i && (#[trigger] tracks[j]).id == id
}

/// Some track before `i` has this key.
pub open spec fn key_used_before(tracks: Seq<TrackModel>, i: int, key: Seq<char>) -> bool {
    exists|j: int| 0 <= j < i && (#[trigger] tracks[j]).key == Some(key)
}

/// Some track before `i` has this MIDI note.
pub open spec fn note_used_before(tracks: Seq<TrackModel>, i: int, note: u8) -> bool {
    exists|j: int| 0 <= j < i && (#[trigger] tracks[j]).midi_note == Some(note)
}

/// Some track before `i` has this MIDI volume controller.
pub open spec fn cc_used_before(tracks: Seq<TrackModel>, i: int, cc: u8) -> bool {
    exists|j: int| 0 <= j < i && (#[trigger] tracks[j]).midi_volume_cc == Some(cc)
}

/// What validation reports about track `i`, given that every earlier track
/// passed. The checks run in this order; the first failing one is reported.
/// `files`, when present, says for each track whether its resolved file is
/// an existing regular file.
pub open spec fn track_error(
    tracks: Seq<TrackModel>,
    i: int,
    base_dir: Seq<char>,
    files: Option<Seq<bool>>,
) -> Option<ErrorModel> {
    let t = tracks[i];
    if is_blank(t.id) {
        Some(ErrorModel::EmptyTrackId)
    } else if id_used_before(tracks, i, t.id) {
        Some(ErrorModel::DuplicateTrackId { id: t.id })
    } else if is_blank(t.name) {
        Some(ErrorModel::EmptyTrackName { track: t.id })
    } else if t.file.len() == 0 {
        Some(ErrorModel::MissingFile { track: t.id })
    } else if seconds_is_negative(t.start_at) {
        Some(ErrorModel::NegativeStartAt { track: t.id })
    } else if seconds_is_negative(t.stop_before_end) {
        Some(ErrorModel::NegativeStopBeforeEnd { track: t.id })
    } else if t.fade_in matches Some(f) && seconds_is_negative(f.seconds) {
        Some(ErrorModel::NegativeFadeIn { track: t.id })
    } else if t.fade_out matches Some(f) && seconds_is_negative(f.seconds) {
        Some(ErrorModel::NegativeFadeOut { track: t.id })
    } else if !gain_in_unit_range(t.volume) {
        Some(ErrorModel::VolumeOutOfRange { track: t.id })
    } else if t.key matches Some(k) && is_blank(k) {
        Some(ErrorModel::EmptyKey { track: t.id })
    } else if t.key matches Some(k) && key_used_before(tracks, i, k) {
        Some(ErrorModel::DuplicateKey { key: t.key->0 })
    } else if t.midi_note matches Some(n) && note_used_before(tracks, i, n) {
        Some(ErrorModel::DuplicateMidiNote { note: t.midi_note->0 })
    } else if t.midi_volume_cc matches Some(c) && cc_used_before(tracks, i, c) {
        Some(ErrorModel::DuplicateMidiCc { cc: t.midi_volume_cc->0 })
    } else if t.key is None && t.midi_note is None {
        Some(ErrorModel::MissingTrigger { track: t.id })
    } else if files matches Some(f) && !f[i] {
        Some(ErrorModel::AudioFileNotFound {
            track: t.id,
            file: resolved_file_spec(t.file, base_dir),
        })
    } else {
        None
    }
}

/// The first error among tracks `i..`.
pub open spec fn first_track_error(
    tracks: Seq<TrackModel>,
    i: int,
    base_dir: Seq<char>,
    files: Option<Seq<bool>>,
) -> Option<ErrorModel>
    decreases tracks.len() - i,
{
    if i < 0 || i >= tracks.len() {
        None
    } else {
        match track_error(tracks, i, base_dir, files) {
            Some(e) => Some(e),
            None => first_track_error(tracks, i + 1, base_dir, files),
        }
    }
}

/// What validating a configuration reports: `None` when it is accepted.
pub open spec fn validation_error(
    c: ConfigModel,
    base_dir: Seq<char>,
    files: Option<Seq<bool>>,
) -> Option<ErrorModel> {
    if c.schema_version != schema_version_spec() {
        Some(ErrorModel::UnsupportedSchemaVersion { found: c.schema_version })
    } else if c.tracks.len() == 0 {
        Some(ErrorModel::NoTracks)
    } else {
        first_track_error(c.tracks, 0, base_dir, files)
    }
}

/// The file-existence answers handed to validation, in mathematical form.
pub open spec fn files_model(files: Option<&Vec<bool>>) -> Option<Seq<bool>> {
    match files {
        Some(f) => Some(f@),
        None => None,
    }
}

/// A valid configuration's tracks have pairwise distinct ids, keys, MIDI
/// notes and MIDI volume controllers, and each one has a key or a note.
pub open spec fn distinct_triggers(tracks: Seq<TrackModel>) -> bool {
    &&& forall|i: int, j: int|
        0 <= i < j < tracks.len() ==> tracks[i].id != tracks[j].id
    &&& forall|i: int, j: int|
        0 <= i < j < tracks.len() && tracks[i].key is Some ==> tracks[i].key != tracks[j].key
    &&& forall|i: int, j: int|
        0 <= i < j < tracks.len() && tracks[i].midi_note is Some ==> tracks[i].midi_note
            != tracks[j].midi_note
    &&& forall|i: int, j: int|
        0 <= i < j < tracks.len() && tracks[i].midi_volume_cc is Some
            ==> tracks[i].midi_volume_cc != tracks[j].midi_volume_cc
    &&& forall|i: int|
        0 <= i < tracks.len() ==> (#[trigger] tracks[i]).key is Some || tracks[i].midi_note is Some
}

/// When every track before `i` passes, the first error from `0` is the first
/// error from `i`.
proof fn lemma_first_error_skip(
    tracks: Seq<TrackModel>,
    i: int,
    base_dir: Seq<char>,
    files: Option<Seq<bool>>,
)
    requires
        0 <= i <= tracks.len(),
        forall|k: int| 0 <= k < i ==> track_error(tracks, k, base_dir, files) is None,
    ensures
        first_track_error(tracks, 0, base_dir, files) == first_track_error(
            tracks,
            i,
            base_dir,
            files,
        ),
    decreases i,
{
    if i > 0 {
        lemma_first_error_skip(tracks, i - 1, base_dir, files);
        assert(track_error(tracks, i - 1, base_dir, files) is None);
    }
}

/// Every track from `0` passing is the same as no first error.
proof fn lemma_all_pass(
    tracks: Seq<TrackModel>,
    i: int,
    base_dir: Seq<char>,
    files: Option<Seq<bool>>,
)
    requires
        0 <= i <= tracks.len(),
        first_track_error(tracks, i, base_dir, files) is None,
    ensures
        forall|k: int| i <= k < tracks.len() ==> track_error(tracks, k, base_dir, files) is None,
    decreases tracks.len() - i,
{
    if i < tracks.len() {
        lemma_all_pass(tracks, i + 1, base_dir, files);
    }
}

/// An accepted configuration has distinct ids, keys, notes and volume
/// controllers, and every track can be triggered.
pub proof fn lemma_valid_config_has_distinct_triggers(
    c: ConfigModel,
    base_dir: Seq<char>,
    files: Option<Seq<bool>>,
)
    requires
        validation_error(c, base_dir, files) is None,
    ensures
        distinct_triggers(c.tracks),
        c.tracks.len() > 0,
        c.schema_version == schema_version_spec(),
{
    let t = c.tracks;
    lemma_all_pass(t, 0, base_dir, files);
    assert forall|i: int, j: int| 0 <= i < j < t.len() implies t[i].id != t[j].id by {
        assert(track_error(t, j, base_dir, files) is None);
        if t[i].id == t[j].id {
            assert(id_used_before(t, j, t[j].id));
        }
    }
    assert forall|i: int, j: int|
        0 <= i < j < t.len() && t[i].key is Some implies t[i].key != t[j].key by {
        assert(track_error(t, j, base_dir, files) is None);
        if t[i].key == t[j].key {
            assert(key_used_before(t, j, t[j].key->0));
        }
    }
    assert forall|i: int, j: int|
        0 <= i < j < t.len() && t[i].midi_note is Some implies t[i].midi_note
        != t[j].midi_note by {
        assert(track_error(t, j, base_dir, files) is None);
        if t[i].midi_note == t[j].midi_note {
            assert(note_used_before(t, j, t[j].midi_note->0));
        }
    }
    assert forall|i: int, j: int|
        0 <= i < j < t.len() && t[i].midi_volume_cc is Some implies t[i].midi_volume_cc
        != t[j].midi_volume_cc by {
        assert(track_error(t, j, base_dir, files) is None);
        if t[i].midi_volume_cc == t[j].midi_volume_cc {
            assert(cc_used_before(t, j, t[j].midi_volume_cc->0));
        }
    }
    assert forall|i: int| 0 <= i < t.len() implies (#[trigger] t[i]).key is Some
        || t[i].midi_note is Some by {
        assert(track_error(t, i, base_dir, files) is None);
    }
}

/// What a single track needs, on its own, to be accepted: a non-blank id
/// and name, a file, no negative times or fades, a volume in `0.0..=1.0`,
/// a non-blank key if it has one, and a key or a MIDI note to trigger it.
pub open spec fn track_acceptable(t: TrackModel) -> bool {
    &&& !is_blank(t.id)
    &&& !is_blank(t.name)
    &&& t.file.len() > 0
    &&& !seconds_is_negative(t.start_at)
    &&& !seconds_is_negative(t.stop_before_end)
    &&& (t.fade_in matches Some(f) ==> !seconds_is_negative(f.seconds))
    &&& (t.fade_out matches Some(f) ==> !seconds_is_negative(f.seconds))
    &&& gain_in_unit_range(t.volume)
    &&& (t.key matches Some(k) ==> !is_blank(k))
    &&& (t.key is Some || t.midi_note is Some)
}

/// A configuration that validation accepts when files are not checked,
/// stated directly: schema version 1, at least one track, every track
/// acceptable on its own, and ids, keys, MIDI notes and MIDI volume
/// controllers pairwise distinct.
pub open spec fn config_acceptable(c: ConfigModel) -> bool {
    &&& c.schema_version == schema_version_spec()
    &&& c.tracks.len() > 0
    &&& distinct_triggers(c.tracks)
    &&& forall|i: int| 0 <= i < c.tracks.len() ==> track_acceptable(#[trigger] c.tracks[i])
}

/// Every file-existence answer, when answers are given, is yes.
pub open spec fn all_files_found(files: Option<Seq<bool>>) -> bool {
    files matches Some(f) ==> forall|i: int| 0 <= i < f.len() ==> #[trigger] f[i]
}

proof fn lemma_validation_closed_form(c: ConfigModel, base_dir: Seq<char>, files: Option<Seq<bool>>)
    requires
        files matches Some(f) ==> f.len() == c.tracks.len(),
    ensures
        validation_error(c, base_dir, files) is None <==> config_acceptable(c) && all_files_found(
            files,
        ),
{
    let t = c.tracks;
    if validation_error(c, base_dir, files) is None {
        lemma_valid_config_has_distinct_triggers(c, base_dir, files);
        lemma_all_pass(t, 0, base_dir, files);
        assert forall|i: int| 0 <= i < t.len() implies track_acceptable(#[trigger] t[i]) by {
            assert(track_error(t, i, base_dir, files) is None);
        }
        if let Some(f) = files {
            assert forall|i: int| 0 <= i < f.len() implies #[trigger] f[i] by {
                assert(track_error(t, i, base_dir, files) is None);
            }
        }
    }
    if config_acceptable(c) && all_files_found(files) {
        assert forall|k: int| 0 <= k < t.len() implies track_error(t, k, base_dir, files) is None by {
            assert(track_acceptable(t[k]));
            if id_used_before(t, k, t[k].id) {
                let j = choose|j: int| 0 <= j < k && (#[trigger] t[j]).id == t[k].id;
                assert(t[j].id != t[k].id);
            }
            if t[k].key is Some && key_used_before(t, k, t[k].key->0) {
                let key = t[k].key->0;
                let j = choose|j: int| 0 <= j < k && (#[trigger] t[j]).key == Some(key);
                assert(t[j].key != t[k].key);
            }
            if t[k].midi_note is Some && note_used_before(t, k, t[k].midi_note->0) {
                let n = t[k].midi_note->0;
                let j = choose|j: int| 0 <= j < k && (#[trigger] t[j]).midi_note == Some(n);
                assert(t[j].midi_note != t[k].midi_note);
            }
            if t[k].midi_volume_cc is Some && cc_used_before(t, k, t[k].midi_volume_cc->0) {
                let cc = t[k].midi_volume_cc->0;
                let j = choose|j: int| 0 <= j < k && (#[trigger] t[j]).midi_volume_cc == Some(cc);
                assert(t[j].midi_volume_cc != t[k].midi_volume_cc);
            }
            if let Some(f) = files {
                assert(f[k]);
            }
        }
        lemma_first_error_skip(t, t.len() as int, base_dir, files);
    }
}

/// Without a file check, validation accepts a configuration exactly when it
/// has schema version 1 and at least one track, every track is acceptable
/// on its own, and ids, keys, MIDI notes and MIDI volume controllers are
/// pairwise distinct. The base directory plays no part.
pub proof fn lemma_validation_without_files(c: ConfigModel, base_dir: Seq<char>)
    ensures
        validation_error(c, base_dir, None) is None <==> config_acceptable(c),
{
    lemma_validation_closed_form(c, base_dir, None);
}

/// Checking files accepts a configuration exactly when validation without
/// the check accepts it and every track's resolved file was found.
pub proof fn lemma_validation_with_files(c: ConfigModel, base_dir: Seq<char>, files: Seq<bool>)
    requires
        files.len() == c.tracks.len(),
    ensures
        validation_error(c, base_dir, Some(files)) is None <==> validation_error(
            c,
            base_dir,
            None,
        ) is None && forall|i: int| 0 <= i < files.len() ==> #[trigger] files[i],
{
    lemma_validation_closed_form(c, base_dir, Some(files));
    lemma_validation_closed_form(c, base_dir, None);
}

fn id_taken(tracks: &Vec<TrackConfig>, i: usize, id: &String) -> (r: bool)
    requires
        i <= tracks.len(),
    ensures
        r == id_used_before(tracks_model(tracks@), i as int, id@),
{
    let ghost m = tracks_model(tracks@);
    let mut j: usize = 0;
    while j < i
        invariant
            i <= tracks.len(),
            m == tracks_model(tracks@),
            j <= i,
            forall|k: int| 0 <= k < j ==> (#[trigger] m[k]).id != id@,
        decreases i - j,
    {
        if tracks[j].id == *id {
            assert(m[j as int].id == id@);
            return true;
        }
        j += 1;
    }
    false
}

fn key_taken(tracks: &Vec<TrackConfig>, i: usize, key: &String) -> (r: bool)
    requires
        i <= tracks.len(),
    ensures
        r == key_used_before(tracks_model(tracks@), i as int, key@),
{
    let ghost m = tracks_model(tracks@);
    let mut j: usize = 0;
    while j < i
        invariant
            i <= tracks.len(),
            m == tracks_model(tracks@),
            j <= i,
            forall|k: int| 0 <= k < j ==> (#[trigger] m[k]).key != Some(key@),
        decreases i - j,
    {
        match &tracks[j].key {
            Some(other) => {
                if *other == *key {
                    assert(m[j as int].key == Some(key@));
                    return true;
                }
            },
            None => {},
        }
        j += 1;
    }
    false
}

fn note_taken(tracks: &Vec<TrackConfig>, i: usize, note: u8) -> (r: bool)
    requires
        i <= tracks.len(),
    ensures
        r == note_used_before(tracks_model(tracks@), i as int, note),
{
    let ghost m = tracks_model(tracks@);
    let mut j: usize = 0;
    while j < i
        invariant
            i <= tracks.len(),
            m == tracks_model(tracks@),
            j <= i,
            forall|k: int| 0 <= k < j ==> (#[trigger] m[k]).midi_note != Some(note),
        decreases i - j,
    {
        if tracks[j].midi_note == Some(note) {
            assert(m[j as int].midi_note == Some(note));
            return true;
        }
        j += 1;
    }
    false
}

fn cc_taken(tracks: &Vec<TrackConfig>, i: usize, cc: u8) -> (r: bool)
    requires
        i <= tracks.len(),
    ensures
        r == cc_used_before(tracks_model(tracks@), i as int, cc),
{
    let ghost m = tracks_model(tracks@);
    let mut j: usize = 0;
    while j < i
        invariant
            i <= tracks.len(),
            m == tracks_model(tracks@),
            j <= i,
            forall|k: int| 0 <= k < j ==> (#[trigger] m[k]).midi_volume_cc != Some(cc),
        decreases i - j,
    {
        if tracks[j].midi_volume_cc == Some(cc) {
            assert(m[j as int].midi_volume_cc == Some(cc));
            return true;
        }
        j += 1;
    }
    false
}

impl Config {
    /// Checks track `i`, assuming every earlier track passed.
    fn check_track(&self, i: usize, base_dir: &str, files_found: Option<&Vec<bool>>) -> (r: Result<
        (),
        PadsoundError,
    >)
        requires
            i < self.tracks.len(),
            files_found matches Some(f) ==> f.len() == self.tracks.len(),
        ensures
            match r {
                Ok(()) => track_error(self@.tracks, i as int, base_dir@, files_model(files_found))
                    is None,
                Err(e) => track_error(self@.tracks, i as int, base_dir@, files_model(files_found))
                    == Some(e@),
            },
    {
        let track = &self.tracks[i];
        let ghost m = self@.tracks;
        assert(m[i as int] == track@);
        if is_blank_str(track.id.as_str()) {
            return Err(PadsoundError::EmptyTrackId);
        }
        if id_taken(&self.tracks, i, &track.id) {
            return Err(PadsoundError::DuplicateTrackId { id: track.id.clone() });
        }
        if is_blank_str(track.name.as_str()) {
            return Err(PadsoundError::EmptyTrackName { track: track.id.clone() });
        }
        if track.file.unicode_len() == 0 {
            return Err(PadsoundError::MissingFile { track: track.id.clone() });
        }
        if seconds_negative(track.start_at) {
            return Err(PadsoundError::NegativeStartAt { track: track.id.clone() });
        }
        if seconds_negative(track.stop_before_end) {
            return Err(PadsoundError::NegativeStopBeforeEnd { track: track.id.clone() });
        }
        if let Some(fade_in) = track.fade_in {
            if seconds_negative(fade_in.seconds) {
                return Err(PadsoundError::NegativeFadeIn { track: track.id.clone() });
            }
        }
        if let Some(fade_out) = track.fade_out {
            if seconds_negative(fade_out.seconds) {
                return Err(PadsoundError::NegativeFadeOut { track: track.id.clone() });
            }
        }
        if !gain_in_range(track.volume) {
            return Err(PadsoundError::VolumeOutOfRange { track: track.id.clone() });
        }
        if let Some(key) = &track.key {
            if is_blank_str(key.as_str()) {
                return Err(PadsoundError::EmptyKey { track: track.id.clone() });
            }
            if key_taken(&self.tracks, i, key) {
                return Err(PadsoundError::DuplicateKey { key: key.clone() });
            }
        }
        if let Some(note) = track.midi_note {
            if note_taken(&self.tracks, i, note) {
                return Err(PadsoundError::DuplicateMidiNote { note });
            }
        }
        if let Some(cc) = track.midi_volume_cc {
            if cc_taken(&self.tracks, i, cc) {
                return Err(PadsoundError::DuplicateMidiCc { cc });
            }
        }
        if track.key.is_none() && track.midi_note.is_none() {
            return Err(PadsoundError::MissingTrigger { track: track.id.clone() });
        }
        if let Some(files) = files_found {
            if !files[i] {
                return Err(
                    PadsoundError::AudioFileNotFound {
                        track: track.id.clone(),
                        file: track.resolved_file(base_dir),
                    },
                );
            }
        }
        Ok(())
    }

    /// Validates the configuration. `files_found`, when given, says for each
    /// track whether its resolved file exists as a regular file (the caller
    /// looks at the disk); when absent, files are not checked. The first
    /// problem, in track order and in the order of the checks, is reported.
    pub fn validate(&self, base_dir: &str, files_found: Option<&Vec<bool>>) -> (r: Result<
        (),
        PadsoundError,
    >)
        requires
            files_found matches Some(f) ==> f.len() == self.tracks.len(),
        ensures
            match r {
                Ok(()) => validation_error(self@, base_dir@, files_model(files_found)) is None,
                Err(e) => validation_error(self@, base_dir@, files_model(files_found)) == Some(
                    e@,
                ),
            },
            r is Ok ==> distinct_triggers(self@.tracks),
    {
        if self.schema_version != default_schema_version() {
            return Err(PadsoundError::UnsupportedSchemaVersion { found: self.schema_version });
        }
        if self.tracks.len() == 0 {
            return Err(PadsoundError::NoTracks);
        }
        let ghost m = self@.tracks;
        let ghost fm = files_model(files_found);
        assert(m.len() == self.tracks.len());
        assert(self@.schema_version == schema_version_spec());
        let mut i: usize = 0;
        while i < self.tracks.len()
            invariant
                m == self@.tracks,
                m.len() == self.tracks.len(),
                m.len() > 0,
                self@.schema_version == schema_version_spec(),
                fm == files_model(files_found),
                files_found matches Some(f) ==> f.len() == self.tracks.len(),
                i <= self.tracks.len(),
                forall|k: int| 0 <= k < i ==> track_error(m, k, base_dir@, fm) is None,
            decreases self.tracks.len() - i,
        {
            match self.check_track(i, base_dir, files_found) {
                Ok(()) => {},
                Err(e) => {
                    proof {
                        lemma_first_error_skip(m, i as int, base_dir@, fm);
                        assert(first_track_error(m, i as int, base_dir@, fm) == Some(e@));
                        assert(validation_error(self@, base_dir@, fm) == Some(e@));
                    }
                    return Err(e);
                },
            }
            i += 1;
        }
        proof {
            lemma_first_error_skip(m, i as int, base_dir@, fm);
            lemma_valid_config_has_distinct_triggers(self@, base_dir@, fm);
        }
        Ok(())
    }

    /// The directory that holds the configuration file at `config_path`.
    pub fn base_dir(config_path: &str) -> (r: String)
        ensures
            r@ == base_dir_spec(config_path@),
    {
        match path_parent(config_path) {
            Some(p) => p,
            None => String::from_str("."),
        }
    }
}

} // verus!

verus! {

// ---------------------------------------------------------------------------
// MIDI learn
// ---------------------------------------------------------------------------

/// Some track of the show has this id.
pub open spec fn has_track(tracks: Seq<TrackModel>, id: Seq<char>) -> bool {
    exists|j: int| 0 <= j < tracks.len() && (#[trigger] tracks[j]).id == id
}

/// A track after learning MIDI note `note` for the track `id`: that track
/// takes the note, any other track holding it loses it.
pub open spec fn learn_note_track(t: TrackModel, id: Seq<char>, note: u8) -> TrackModel {
    if t.id == id {
        TrackModel { midi_note: Some(note), ..t }
    } else if t.midi_note == Some(note) {
        TrackModel { midi_note: None, ..t }
    } else {
        t
    }
}

/// A track after learning MIDI volume controller `cc` for the track `id`.
pub open spec fn learn_cc_track(t: TrackModel, id: Seq<char>, cc: u8) -> TrackModel {
    if t.id == id {
        TrackModel { midi_volume_cc: Some(cc), ..t }
    } else if t.midi_volume_cc == Some(cc) {
        TrackModel { midi_volume_cc: None, ..t }
    } else {
        t
    }
}

/// All tracks after learning MIDI note `note` for the track `id`.
pub open spec fn learn_note_spec(tracks: Seq<TrackModel>, id: Seq<char>, note: u8) -> Seq<
    TrackModel,
> {
    tracks.map_values(|t: TrackModel| learn_note_track(t, id, note))
}

/// All tracks after learning MIDI volume controller `cc` for the track `id`.
pub open spec fn learn_cc_spec(tracks: Seq<TrackModel>, id: Seq<char>, cc: u8) -> Seq<
    TrackModel,
> {
    tracks.map_values(|t: TrackModel| learn_cc_track(t, id, cc))
}

fn find_track(tracks: &Vec<TrackConfig>, id: &str) -> (r: Option<usize>)
    ensures
        match r {
            Some(i) => i < tracks.len() && tracks_model(tracks@)[i as int].id == id@ && forall|
                k: int,
            | 0 <= k < i ==> (#[trigger] tracks_model(tracks@)[k]).id != id@,
            None => !has_track(tracks_model(tracks@), id@),
        },
{
    let ghost m = tracks_model(tracks@);
    let mut j: usize = 0;
    while j < tracks.len()
        invariant
            m == tracks_model(tracks@),
            m.len() == tracks.len(),
            j <= tracks.len(),
            forall|k: int| 0 <= k < j ==> (#[trigger] m[k]).id != id@,
        decreases tracks.len() - j,
    {
        if str_eq(tracks[j].id.as_str(), id) {
            return Some(j);
        }
        j += 1;
    }
    None
}

/// Gives the track `track_id` the MIDI note `note`, taking it away from any
/// other track that had it.
pub fn set_track_midi_note(config: &mut Config, track_id: &str, note: u8) -> (r: Result<
    (),
    PadsoundError,
>)
    ensures
        match r {
            Ok(()) => has_track(old(config)@.tracks, track_id@) && final(config)@ == ConfigModel {
                tracks: learn_note_spec(old(config)@.tracks, track_id@, note),
                ..old(config)@
            },
            Err(e) => !has_track(old(config)@.tracks, track_id@) && e@
                == ErrorModel::TrackNotFound { id: track_id@ } && final(config)@ == old(config)@,
        },
{
    if find_track(&config.tracks, track_id).is_none() {
        return Err(PadsoundError::TrackNotFound { id: String::from_str(track_id) });
    }
    let ghost old_m = old(config)@.tracks;
    let mut tracks: Vec<TrackConfig> = Vec::new();
    let mut j: usize = 0;
    while j < config.tracks.len()
        invariant
            old_m == tracks_model(config.tracks@),
            old_m.len() == config.tracks.len(),
            j <= config.tracks.len(),
            tracks_model(tracks@) == learn_note_spec(old_m, track_id@, note).subrange(0, j as int),
        decreases config.tracks.len() - j,
    {
        let mut t = config.tracks[j].duplicate();
        if str_eq(t.id.as_str(), track_id) {
            t.midi_note = Some(note);
        } else if t.midi_note == Some(note) {
            t.midi_note = None;
        }
        assert(t@ == learn_note_track(old_m[j as int], track_id@, note));
        let ghost before = tracks_model(tracks@);
        tracks.push(t);
        assert(tracks_model(tracks@) =~= before.push(t@));
        assert(tracks_model(tracks@) =~= learn_note_spec(old_m, track_id@, note).subrange(
            0,
            j + 1,
        ));
        j += 1;
    }
    assert(learn_note_spec(old_m, track_id@, note).subrange(0, j as int) =~= learn_note_spec(
        old_m,
        track_id@,
        note,
    ));
    config.tracks = tracks;
    Ok(())
}

/// Gives the track `track_id` the MIDI volume controller `cc`, taking it
/// away from any other track that had it.
pub fn set_track_midi_volume_cc(config: &mut Config, track_id: &str, cc: u8) -> (r: Result<
    (),
    PadsoundError,
>)
    ensures
        match r {
            Ok(()) => has_track(old(config)@.tracks, track_id@) && final(config)@ == ConfigModel {
                tracks: learn_cc_spec(old(config)@.tracks, track_id@, cc),
                ..old(config)@
            },
            Err(e) => !has_track(old(config)@.tracks, track_id@) && e@
                == ErrorModel::TrackNotFound { id: track_id@ } && final(config)@ == old(config)@,
        },
{
    if find_track(&config.tracks, track_id).is_none() {
        return Err(PadsoundError::TrackNotFound { id: String::from_str(track_id) });
    }
    let ghost old_m = old(config)@.tracks;
    let mut tracks: Vec<TrackConfig> = Vec::new();
    let mut j: usize = 0;
    while j < config.tracks.len()
        invariant
            old_m == tracks_model(config.tracks@),
            old_m.len() == config.tracks.len(),
            j <= config.tracks.len(),
            tracks_model(tracks@) == learn_cc_spec(old_m, track_id@, cc).subrange(0, j as int),
        decreases config.tracks.len() - j,
    {
        let mut t = config.tracks[j].duplicate();
        if str_eq(t.id.as_str(), track_id) {
            t.midi_volume_cc = Some(cc);
        } else if t.midi_volume_cc == Some(cc) {
            t.midi_volume_cc = None;
        }
        assert(t@ == learn_cc_track(old_m[j as int], track_id@, cc));
        let ghost before = tracks_model(tracks@);
        tracks.push(t);
        assert(tracks_model(tracks@) =~= before.push(t@));
        assert(tracks_model(tracks@) =~= learn_cc_spec(old_m, track_id@, cc).subrange(0, j + 1));
        j += 1;
    }
    assert(learn_cc_spec(old_m, track_id@, cc).subrange(0, j as int) =~= learn_cc_spec(
        old_m,
        track_id@,
        cc,
    ));
    config.tracks = tracks;
    Ok(())
}

/// After learning, the learned note belongs to exactly the tracks named
/// `id`, and every other track keeps its note unless it was `note`.
pub proof fn lemma_learned_note_belongs_to_target(tracks: Seq<TrackModel>, id: Seq<char>, note: u8)
    ensures
        forall|i: int|
            0 <= i < tracks.len() ==> ((#[trigger] learn_note_spec(tracks, id, note)[i]).midi_note
                == Some(note) <==> tracks[i].id == id),
        forall|i: int|
            0 <= i < tracks.len() && tracks[i].id != id && tracks[i].midi_note != Some(note)
                ==> (#[trigger] learn_note_spec(tracks, id, note)[i]) == tracks[i],
{
}

/// Learning a MIDI note keeps MIDI notes distinct between tracks (given
/// distinct track ids).
pub proof fn lemma_learn_note_keeps_notes_distinct(tracks: Seq<TrackModel>, id: Seq<char>, note: u8)
    requires
        forall|i: int, j: int| 0 <= i < j < tracks.len() ==> tracks[i].id != tracks[j].id,
        forall|i: int, j: int|
            0 <= i < j < tracks.len() && tracks[i].midi_note is Some ==> tracks[i].midi_note
                != tracks[j].midi_note,
    ensures
        forall|i: int, j: int|
            0 <= i < j < tracks.len() && (#[trigger] learn_note_spec(tracks, id, note)[i]).midi_note
                is Some ==> learn_note_spec(tracks, id, note)[i].midi_note != (#[trigger] learn_note_spec(
                tracks,
                id,
                note,
            )[j]).midi_note,
{
    let after = learn_note_spec(tracks, id, note);
    assert forall|i: int, j: int|
        0 <= i < j < tracks.len() && (#[trigger] after[i]).midi_note is Some implies after[i].midi_note
        != (#[trigger] after[j]).midi_note by {
        assert(tracks[i].id != tracks[j].id);
    }
}

/// Learning a MIDI volume controller keeps controllers distinct between
/// tracks (given distinct track ids).
pub proof fn lemma_learn_cc_keeps_ccs_distinct(tracks: Seq<TrackModel>, id: Seq<char>, cc: u8)
    requires
        forall|i: int, j: int| 0 <= i < j < tracks.len() ==> tracks[i].id != tracks[j].id,
        forall|i: int, j: int|
            0 <= i < j < tracks.len() && tracks[i].midi_volume_cc is Some
                ==> tracks[i].midi_volume_cc != tracks[j].midi_volume_cc,
    ensures
        forall|i: int, j: int|
            0 <= i < j < tracks.len() && (#[trigger] learn_cc_spec(tracks, id, cc)[i]).midi_volume_cc
                is Some ==> learn_cc_spec(tracks, id, cc)[i].midi_volume_cc != (#[trigger] learn_cc_spec(
                tracks,
                id,
                cc,
            )[j]).midi_volume_cc,
{
    let after = learn_cc_spec(tracks, id, cc);
    assert forall|i: int, j: int|
        0 <= i < j < tracks.len() && (#[trigger] after[i]).midi_volume_cc is Some implies after[i].midi_volume_cc
        != (#[trigger] after[j]).midi_volume_cc by {
        assert(tracks[i].id != tracks[j].id);
    }
}

/// Learning the same note twice is the same as learning it once.
pub proof fn lemma_learn_note_idempotent(tracks: Seq<TrackModel>, id: Seq<char>, note: u8)
    ensures
        learn_note_spec(learn_note_spec(tracks, id, note), id, note) == learn_note_spec(
            tracks,
            id,
            note,
        ),
{
    assert(learn_note_spec(learn_note_spec(tracks, id, note), id, note) =~= learn_note_spec(
        tracks,
        id,
        note,
    ));
}

} // verus!
