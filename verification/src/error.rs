//! Errors of the show logic and their human-readable messages.

use vstd::prelude::*;
use crate::text::{decimal, push_decimal};

verus! {

/// Everything the show logic can refuse.
#[derive(Debug, Clone)]
pub enum PadsoundError {
    UnsupportedSchemaVersion { found: u32 },
    NoTracks,
    EmptyTrackId,
    DuplicateTrackId { id: String },
    EmptyTrackName { track: String },
    MissingFile { track: String },
    NegativeStartAt { track: String },
    NegativeStopBeforeEnd { track: String },
    NegativeFadeIn { track: String },
    NegativeFadeOut { track: String },
    VolumeOutOfRange { track: String },
    EmptyKey { track: String },
    DuplicateKey { key: String },
    DuplicateMidiNote { note: u8 },
    DuplicateMidiCc { cc: u8 },
    MissingTrigger { track: String },
    AudioFileNotFound { track: String, file: String },
    TrackNotFound { id: String },
    NoAudioFiles { dir: String },
    TooManyAudioFiles { found: usize, available: usize },
    CurrentDirUnavailable,
    RuntimeTrackMissing { id: String },
    InvalidRuntimeOffsets { id: String },
}

/// The mathematical form of [`PadsoundError`]: text as character sequences.
pub enum ErrorModel {
    UnsupportedSchemaVersion { found: u32 },
    NoTracks,
    EmptyTrackId,
    DuplicateTrackId { id: Seq<char> },
    EmptyTrackName { track: Seq<char> },
    MissingFile { track: Seq<char> },
    NegativeStartAt { track: Seq<char> },
    NegativeStopBeforeEnd { track: Seq<char> },
    NegativeFadeIn { track: Seq<char> },
    NegativeFadeOut { track: Seq<char> },
    VolumeOutOfRange { track: Seq<char> },
    EmptyKey { track: Seq<char> },
    DuplicateKey { key: Seq<char> },
    DuplicateMidiNote { note: u8 },
    DuplicateMidiCc { cc: u8 },
    MissingTrigger { track: Seq<char> },
    AudioFileNotFound { track: Seq<char>, file: Seq<char> },
    TrackNotFound { id: Seq<char> },
    NoAudioFiles { dir: Seq<char> },
    TooManyAudioFiles { found: usize, available: usize },
    CurrentDirUnavailable,
    RuntimeTrackMissing { id: Seq<char> },
    InvalidRuntimeOffsets { id: Seq<char> },
}

impl View for PadsoundError {
    type V = ErrorModel;

    open spec fn view(&self) -> ErrorModel {
        match self {
            PadsoundError::UnsupportedSchemaVersion { found } => ErrorModel::UnsupportedSchemaVersion {
                found: *found,
            },
            PadsoundError::NoTracks => ErrorModel::NoTracks,
            PadsoundError::EmptyTrackId => ErrorModel::EmptyTrackId,
            PadsoundError::DuplicateTrackId { id } => ErrorModel::DuplicateTrackId { id: id@ },
            PadsoundError::EmptyTrackName { track } => ErrorModel::EmptyTrackName { track: track@ },
            PadsoundError::MissingFile { track } => ErrorModel::MissingFile { track: track@ },
            PadsoundError::NegativeStartAt { track } => ErrorModel::NegativeStartAt { track: track@ },
            PadsoundError::NegativeStopBeforeEnd { track } => ErrorModel::NegativeStopBeforeEnd {
                track: track@,
            },
            PadsoundError::NegativeFadeIn { track } => ErrorModel::NegativeFadeIn { track: track@ },
            PadsoundError::NegativeFadeOut { track } => ErrorModel::NegativeFadeOut { track: track@ },
            PadsoundError::VolumeOutOfRange { track } => ErrorModel::VolumeOutOfRange {
                track: track@,
            },
            PadsoundError::EmptyKey { track } => ErrorModel::EmptyKey { track: track@ },
            PadsoundError::DuplicateKey { key } => ErrorModel::DuplicateKey { key: key@ },
            PadsoundError::DuplicateMidiNote { note } => ErrorModel::DuplicateMidiNote { note: *note },
            PadsoundError::DuplicateMidiCc { cc } => ErrorModel::DuplicateMidiCc { cc: *cc },
            PadsoundError::MissingTrigger { track } => ErrorModel::MissingTrigger { track: track@ },
            PadsoundError::AudioFileNotFound { track, file } => ErrorModel::AudioFileNotFound {
                track: track@,
                file: file@,
            },
            PadsoundError::TrackNotFound { id } => ErrorModel::TrackNotFound { id: id@ },
            PadsoundError::NoAudioFiles { dir } => ErrorModel::NoAudioFiles { dir: dir@ },
            PadsoundError::TooManyAudioFiles { found, available } => ErrorModel::TooManyAudioFiles {
                found: *found,
                available: *available,
            },
            PadsoundError::CurrentDirUnavailable => ErrorModel::CurrentDirUnavailable,
            PadsoundError::RuntimeTrackMissing { id } => ErrorModel::RuntimeTrackMissing { id: id@ },
            PadsoundError::InvalidRuntimeOffsets { id } => ErrorModel::InvalidRuntimeOffsets {
                id: id@,
            },
        }
    }
}

/// `"track " + name + rest`.
pub open spec fn about_track(track: Seq<char>, rest: Seq<char>) -> Seq<char> {
    "track "@ + track + rest
}

/// The message shown for an error.
pub open spec fn message_spec(e: ErrorModel) -> Seq<char> {
    match e {
        ErrorModel::UnsupportedSchemaVersion { found } => "unsupported schema_version: "@
            + decimal(found as nat) + " (supported: 1)"@,
        ErrorModel::NoTracks => "configuration must contain at least one track"@,
        ErrorModel::EmptyTrackId => "a track has an empty id"@,
        ErrorModel::DuplicateTrackId { id } => "duplicate track id: "@ + id,
        ErrorModel::EmptyTrackName { track } => about_track(track, " has an empty name"@),
        ErrorModel::MissingFile { track } => about_track(track, " has no configured file"@),
        ErrorModel::NegativeStartAt { track } => about_track(track, " has a negative start_at"@),
        ErrorModel::NegativeStopBeforeEnd { track } => about_track(
            track,
            " has a negative stop_before_end"@,
        ),
        ErrorModel::NegativeFadeIn { track } => about_track(
            track,
            " has a negative fade_in duration"@,
        ),
        ErrorModel::NegativeFadeOut { track } => about_track(
            track,
            " has a negative fade_out duration"@,
        ),
        ErrorModel::VolumeOutOfRange { track } => about_track(
            track,
            " has volume outside range 0.0-1.0"@,
        ),
        ErrorModel::EmptyKey { track } => about_track(track, " has an empty key"@),
        ErrorModel::DuplicateKey { key } => "duplicate key in configuration: "@ + key,
        ErrorModel::DuplicateMidiNote { note } => "duplicate MIDI note in configuration: "@
            + decimal(note as nat),
        ErrorModel::DuplicateMidiCc { cc } => "duplicate MIDI volume CC in configuration: "@
            + decimal(cc as nat),
        ErrorModel::MissingTrigger { track } => about_track(
            track,
            " must have at least one trigger: key or midi_note"@,
        ),
        ErrorModel::AudioFileNotFound { track, file } => "audio file not found for track "@ + track
            + ": "@ + file,
        ErrorModel::TrackNotFound { id } => "track not found: "@ + id,
        ErrorModel::NoAudioFiles { dir } => "no audio files found in "@ + dir,
        ErrorModel::TooManyAudioFiles { found, available } => "too many audio files: "@ + decimal(
            found as nat,
        ) + " found, "@ + decimal(available as nat) + " automatic keys available"@,
        ErrorModel::CurrentDirUnavailable => "failed to determine current directory"@,
        ErrorModel::RuntimeTrackMissing { id } => "runtime track metadata not found: "@ + id,
        ErrorModel::InvalidRuntimeOffsets { id } => "invalid runtime offsets for track "@ + id,
    }
}

fn track_message(track: &String, rest: &str) -> (r: String)
    ensures
        r@ == about_track(track@, rest@),
{
    let mut s = String::from_str("track ");
    s.append(track.as_str());
    s.append(rest);
    s
}

impl PadsoundError {
    /// The human-readable message for this error.
    pub fn message(&self) -> (r: String)
        ensures
            r@ == message_spec(self@),
    {
        match self {
            PadsoundError::UnsupportedSchemaVersion { found } => {
                let mut s = String::from_str("unsupported schema_version: ");
                push_decimal(&mut s, *found as u128);
                s.append(" (supported: 1)");
                s
            },
            PadsoundError::NoTracks => String::from_str(
                "configuration must contain at least one track",
            ),
            PadsoundError::EmptyTrackId => String::from_str("a track has an empty id"),
            PadsoundError::DuplicateTrackId { id } => {
                let mut s = String::from_str("duplicate track id: ");
                s.append(id.as_str());
                s
            },
            PadsoundError::EmptyTrackName { track } => track_message(track, " has an empty name"),
            PadsoundError::MissingFile { track } => track_message(track, " has no configured file"),
            PadsoundError::NegativeStartAt { track } => track_message(
                track,
                " has a negative start_at",
            ),
            PadsoundError::NegativeStopBeforeEnd { track } => track_message(
                track,
                " has a negative stop_before_end",
            ),
            PadsoundError::NegativeFadeIn { track } => track_message(
                track,
                " has a negative fade_in duration",
            ),
            PadsoundError::NegativeFadeOut { track } => track_message(
                track,
                " has a negative fade_out duration",
            ),
            PadsoundError::VolumeOutOfRange { track } => track_message(
                track,
                " has volume outside range 0.0-1.0",
            ),
            PadsoundError::EmptyKey { track } => track_message(track, " has an empty key"),
            PadsoundError::DuplicateKey { key } => {
                let mut s = String::from_str("duplicate key in configuration: ");
                s.append(key.as_str());
                s
            },
            PadsoundError::DuplicateMidiNote { note } => {
                let mut s = String::from_str("duplicate MIDI note in configuration: ");
                push_decimal(&mut s, *note as u128);
                s
            },
            PadsoundError::DuplicateMidiCc { cc } => {
                let mut s = String::from_str("duplicate MIDI volume CC in configuration: ");
                push_decimal(&mut s, *cc as u128);
                s
            },
            PadsoundError::MissingTrigger { track } => track_message(
                track,
                " must have at least one trigger: key or midi_note",
            ),
            PadsoundError::AudioFileNotFound { track, file } => {
                let mut s = String::from_str("audio file not found for track ");
                s.append(track.as_str());
                s.append(": ");
                s.append(file.as_str());
                s
            },
            PadsoundError::TrackNotFound { id } => {
                let mut s = String::from_str("track not found: ");
                s.append(id.as_str());
                s
            },
            PadsoundError::NoAudioFiles { dir } => {
                let mut s = String::from_str("no audio files found in ");
                s.append(dir.as_str());
                s
            },
            PadsoundError::TooManyAudioFiles { found, available } => {
                let mut s = String::from_str("too many audio files: ");
                push_decimal(&mut s, *found as u128);
                s.append(" found, ");
                push_decimal(&mut s, *available as u128);
                s.append(" automatic keys available");
                s
            },
            PadsoundError::CurrentDirUnavailable => String::from_str(
                "failed to determine current directory",
            ),
            PadsoundError::RuntimeTrackMissing { id } => {
                let mut s = String::from_str("runtime track metadata not found: ");
                s.append(id.as_str());
                s
            },
            PadsoundError::InvalidRuntimeOffsets { id } => {
                let mut s = String::from_str("invalid runtime offsets for track ");
                s.append(id.as_str());
                s
            },
        }
    }
}

} // verus!
