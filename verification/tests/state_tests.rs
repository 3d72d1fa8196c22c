use padsound::audio::engine::TrackTiming;
use padsound::config::{Config, FadeConfig, FadeCurve, MidiVolumeMode, PlaybackMode, TrackConfig};
use padsound::error::PadsoundError;
use padsound::input::midi::MidiBindings;
use padsound::state::{
    finish_learn, normalize_fade, normalize_optional_string, update_track_config, LearnKind,
    LearnRequest, LearnSlot, TrackConfigUpdate, TrackRuntimeSpec,
};

fn track(id: &str, key: &str) -> TrackConfig {
    TrackConfig {
        id: id.to_string(),
        name: id.to_uppercase(),
        file: format!("{id}.wav"),
        key: Some(key.to_string()),
        mode: PlaybackMode::Toggle,
        looping: false,
        start_at: 0,
        stop_before_end: 0,
        fade_in: None,
        fade_out: None,
        volume: 1.0f32.to_bits(),
        midi_note: None,
        midi_volume_cc: None,
    }
}

fn show() -> Config {
    Config {
        schema_version: 1,
        name: None,
        midi_volume_mode: MidiVolumeMode::Relative,
        tracks: vec![track("one", "1"), track("two", "2")],
    }
}

fn request(id: &str, kind: LearnKind) -> LearnRequest {
    LearnRequest { track_id: id.to_string(), kind }
}

fn timing() -> TrackTiming {
    TrackTiming { start_frames: 0, stop_before_frames: 0, fade_in_frames: 0, fade_out_frames: 0 }
}

fn edit_of(t: &TrackConfig) -> TrackConfigUpdate {
    padsound::ui::tui::update_from_track(t)
}

#[test]
fn learn_slot_keeps_one_request() {
    let mut slot = LearnSlot::new();
    assert!(slot.pending().is_none());
    slot.start(request("one", LearnKind::Trigger));
    slot.start(request("two", LearnKind::Volume));
    let p = slot.pending().expect("pending");
    assert_eq!((p.track_id.as_str(), p.kind), ("two", LearnKind::Volume));
    assert!(slot.take_for(LearnKind::Trigger).is_none());
    assert!(slot.pending().is_some());
    assert_eq!(slot.take_for(LearnKind::Volume).expect("taken").track_id, "two");
    assert!(slot.pending().is_none());
    slot.start(request("one", LearnKind::Trigger));
    assert_eq!(slot.cancel().expect("cancelled").track_id, "one");
    assert!(slot.cancel().is_none());
}

#[test]
fn learned_note_becomes_the_trigger() {
    let mut config = show();
    config.tracks[0].midi_note = Some(36);
    let mut slot = LearnSlot::new();
    slot.start(request("two", LearnKind::Trigger));
    let files = vec![true, true];

    let done = finish_learn(&mut slot, &mut config, LearnKind::Trigger, 36, "/show", &files)
        .expect("valid")
        .expect("learned");
    assert_eq!(done.track_id, "two");
    assert!(slot.pending().is_none());
    assert_eq!(config.tracks[0].midi_note, None);
    assert_eq!(config.tracks[1].midi_note, Some(36));
    let b = MidiBindings::from_config(&config);
    assert_eq!(b.note_bindings.get(&36).expect("bound").track_id, "two");
}

#[test]
fn learn_without_matching_request_changes_nothing() {
    let mut config = show();
    let mut slot = LearnSlot::new();
    let files = vec![true, true];
    assert!(matches!(finish_learn(&mut slot, &mut config, LearnKind::Trigger, 1, "/", &files), Ok(None)));
    slot.start(request("one", LearnKind::Volume));
    assert!(matches!(finish_learn(&mut slot, &mut config, LearnKind::Trigger, 1, "/", &files), Ok(None)));
    assert_eq!(slot.pending().expect("still pending").kind, LearnKind::Volume);
    let done = finish_learn(&mut slot, &mut config, LearnKind::Volume, 7, "/", &files);
    assert!(matches!(done, Ok(Some(_))));
    assert_eq!(config.tracks[0].midi_volume_cc, Some(7));
}

#[test]
fn learn_reports_missing_track_and_invalid_show() {
    let mut config = show();
    let mut slot = LearnSlot::new();
    slot.start(request("ghost", LearnKind::Trigger));
    let files = vec![true, true];
    let e = finish_learn(&mut slot, &mut config, LearnKind::Trigger, 36, "/", &files).expect_err("missing");
    assert_eq!(e.message(), "track not found: ghost");

    slot.start(request("one", LearnKind::Trigger));
    let files = vec![false, true];
    let e = finish_learn(&mut slot, &mut config, LearnKind::Trigger, 36, "/s", &files).expect_err("file");
    assert_eq!(e.message(), "audio file not found for track one: /s/one.wav");
    // The show keeps the learned note even though it was not saved.
    assert_eq!(config.tracks[0].midi_note, Some(36));
}

#[test]
fn normalizes_optional_text_and_fades() {
    assert_eq!(normalize_optional_string(Some("  k ".to_string())).as_deref(), Some("k"));
    assert_eq!(normalize_optional_string(Some(" \t ".to_string())), None);
    assert_eq!(normalize_optional_string(None), None);
    let fade = FadeConfig { seconds: 0.5f64.to_bits(), curve: FadeCurve::Linear };
    assert_eq!(normalize_fade(Some(fade)), Some(fade));
    let zero = FadeConfig { seconds: 0.0f64.to_bits(), curve: FadeCurve::Linear };
    assert_eq!(normalize_fade(Some(zero)), None);
    let negative = FadeConfig { seconds: (-1.0f64).to_bits(), curve: FadeCurve::Linear };
    assert_eq!(normalize_fade(Some(negative)), None);
    let nan = FadeConfig { seconds: f64::NAN.to_bits(), curve: FadeCurve::Linear };
    assert_eq!(normalize_fade(Some(nan)), None);
}

#[test]
fn track_update_applies_and_describes_runtime() {
    let config = show();
    let mut u = edit_of(&config.tracks[1]);
    u.name = "Second".to_string();
    u.key = Some(" x ".to_string());
    u.looping = true;
    u.fade_in = Some(FadeConfig { seconds: 0.0f64.to_bits(), curve: FadeCurve::Linear });
    let specs = vec![("two".to_string(), TrackRuntimeSpec { frame_count: 100, sample_rate: 48_000 })];
    let files = vec![true, true];
    let t = TrackTiming { start_frames: 10, ..timing() };

    let (new_config, runtime) =
        update_track_config(&config, &u, "/", &files, &specs, &t).expect("update");
    assert_eq!(new_config.tracks[1].name, "Second");
    assert_eq!(new_config.tracks[1].key.as_deref(), Some("x"));
    assert!(new_config.tracks[1].looping);
    assert_eq!(new_config.tracks[1].fade_in, None);
    assert_eq!(new_config.tracks[0].name, "ONE");
    assert_eq!((runtime.start_frame, runtime.end_frame), (10, 100));
    assert!(runtime.looping);
}

#[test]
fn track_update_reports_each_failure() {
    let config = show();
    let files = vec![true, true];
    let specs = vec![("one".to_string(), TrackRuntimeSpec { frame_count: 100, sample_rate: 48_000 })];

    let mut u = edit_of(&config.tracks[0]);
    u.track_id = "ghost".to_string();
    let e = update_track_config(&config, &u, "/", &files, &specs, &timing()).expect_err("missing");
    assert_eq!(e.message(), "track not found: ghost");

    let mut u = edit_of(&config.tracks[0]);
    u.key = Some("2".to_string());
    let e = update_track_config(&config, &u, "/", &files, &specs, &timing()).expect_err("dup");
    assert_eq!(e.message(), "duplicate key in configuration: 2");

    let u = edit_of(&config.tracks[1]);
    let e = update_track_config(&config, &u, "/", &files, &specs, &timing()).expect_err("spec");
    assert!(matches!(e, PadsoundError::RuntimeTrackMissing { .. }));
    assert_eq!(e.message(), "runtime track metadata not found: two");

    let u = edit_of(&config.tracks[0]);
    let t = TrackTiming { start_frames: 100, ..timing() };
    let e = update_track_config(&config, &u, "/", &files, &specs, &t).expect_err("offsets");
    assert_eq!(e.message(), "invalid runtime offsets for track one");
}

#[test]
fn track_update_leaves_other_tracks_alone() {
    let config = show();
    let mut u = edit_of(&config.tracks[0]);
    u.name = "First".to_string();
    u.volume = 0.5f32.to_bits();
    u.midi_note = Some(60);
    let specs = vec![("one".to_string(), TrackRuntimeSpec { frame_count: 10, sample_rate: 48_000 })];
    let files = vec![true, true];

    let (new_config, runtime) =
        update_track_config(&config, &u, "/", &files, &specs, &timing()).expect("update");
    assert_eq!(new_config.tracks.len(), 2);
    assert_eq!(new_config.tracks[0].id, "one");
    assert_eq!(new_config.tracks[0].file, "one.wav");
    assert_eq!(new_config.tracks[0].name, "First");
    assert_eq!(new_config.tracks[0].midi_note, Some(60));
    assert_eq!(new_config.tracks[0].volume, 0.5f32.to_bits());
    let (before, after) = (&config.tracks[1], &new_config.tracks[1]);
    assert_eq!(after.id, before.id);
    assert_eq!(after.name, before.name);
    assert_eq!(after.file, before.file);
    assert_eq!(after.key, before.key);
    assert_eq!(after.midi_note, before.midi_note);
    assert_eq!(after.volume, before.volume);
    assert_eq!((runtime.start_frame, runtime.end_frame), (0, 10));
    assert_eq!(runtime.default_volume, 0.5f32.to_bits());
}
