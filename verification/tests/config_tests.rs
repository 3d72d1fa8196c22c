use padsound::config::{
    default_schema_version, default_volume, set_track_midi_note, set_track_midi_volume_cc, Config,
    FadeConfig, FadeCurve, MidiVolumeMode, PlaybackMode, TrackConfig,
};
use padsound::error::PadsoundError;
use padsound::generate::{
    default_generated_keys, is_supported_audio_file, path_for_config, sanitize_track_id,
    unique_track_id, AudioDirEntry,
};

fn track(id: &str, name: &str, file: &str) -> TrackConfig {
    TrackConfig {
        id: id.to_string(),
        name: name.to_string(),
        file: file.to_string(),
        key: None,
        mode: PlaybackMode::Toggle,
        looping: false,
        start_at: 0.0f64.to_bits(),
        stop_before_end: 0.0f64.to_bits(),
        fade_in: None,
        fade_out: None,
        volume: 1.0f32.to_bits(),
        midi_note: None,
        midi_volume_cc: None,
    }
}

fn show(tracks: Vec<TrackConfig>) -> Config {
    Config {
        schema_version: 1,
        name: None,
        midi_volume_mode: MidiVolumeMode::Relative,
        tracks,
    }
}

fn entry(path: &str) -> AudioDirEntry {
    AudioDirEntry { path: path.to_string(), is_file: true }
}

#[test]
fn parses_valid_config_without_file_check() {
    let mut intro = track("intro", "Intro", "audio/intro.wav");
    intro.key = Some("1".to_string());
    let mut drone = track("drone", "Drone", "audio/drone.wav");
    drone.midi_note = Some(37);
    drone.mode = PlaybackMode::Hold;
    drone.looping = true;
    drone.fade_in = Some(FadeConfig { seconds: 1.0f64.to_bits(), curve: FadeCurve::Linear });
    drone.fade_out = Some(FadeConfig { seconds: 2.0f64.to_bits(), curve: FadeCurve::EqualPower });
    drone.volume = 0.5f32.to_bits();
    let config = show(vec![intro, drone]);

    assert!(config.validate(".", None).is_ok(), "config should validate");
    assert_eq!(config.tracks.len(), 2);
    assert_eq!(config.tracks[0].mode, PlaybackMode::Toggle);
    assert_eq!(config.tracks[1].mode, PlaybackMode::Hold);
    assert_eq!(f64::from_bits(config.tracks[1].fade_out.expect("fade out").seconds), 2.0);
}

#[test]
fn rejects_duplicate_track_ids() {
    let mut one = track("same", "One", "one.wav");
    one.key = Some("1".to_string());
    let mut two = track("same", "Two", "two.wav");
    two.key = Some("2".to_string());
    let config = show(vec![one, two]);

    let error = config.validate(".", None).expect_err("config should fail");

    assert!(error.message().contains("duplicate"));
}

#[test]
fn learned_midi_note_moves_existing_conflict() {
    let mut one = track("one", "One", "one.wav");
    one.key = Some("1".to_string());
    one.midi_note = Some(36);
    let mut two = track("two", "Two", "two.wav");
    two.key = Some("2".to_string());
    let mut config = show(vec![one, two]);

    assert!(set_track_midi_note(&mut config, "two", 36).is_ok(), "learn should update");

    assert_eq!(config.tracks[0].midi_note, None);
    assert_eq!(config.tracks[1].midi_note, Some(36));
}

#[test]
fn generates_config_from_audio_dir_in_filename_order() {
    let entries = vec![
        entry("/shows/ordered/b.mp3"),
        entry("/shows/ordered/a.wav"),
        entry("/shows/ordered/ignored.txt"),
    ];
    let config = Config::generate_from_audio_dir(
        "/shows/ordered",
        &entries,
        "/shows/ordered/show.padsound.toml",
        Some("/home"),
    )
    .expect("config should generate");

    assert_eq!(config.tracks.len(), 2);
    assert_eq!(config.tracks[0].name, "a");
    assert_eq!(config.tracks[0].key.as_deref(), Some("1"));
    assert_eq!(config.tracks[0].mode, PlaybackMode::Toggle);
    assert!(!config.tracks[0].looping);
    assert_eq!(config.tracks[1].name, "b");
    assert_eq!(config.tracks[1].key.as_deref(), Some("2"));
}

#[test]
fn generated_ids_are_sanitized_and_unique() {
    let entries = vec![entry("/shows/ids/My Track!.wav"), entry("/shows/ids/My Track?.mp3")];
    let config = Config::generate_from_audio_dir(
        "/shows/ids",
        &entries,
        "/shows/ids/show.padsound.toml",
        Some("/home"),
    )
    .expect("config should generate");

    assert_eq!(config.tracks[0].id, "my_track");
    assert_eq!(config.tracks[1].id, "my_track_2");
}

#[test]
fn generated_paths_remain_valid_when_config_is_elsewhere() {
    let entries = vec![entry("/shows/paths/audio/intro.wav")];
    let config = Config::generate_from_audio_dir(
        "/shows/paths/audio",
        &entries,
        "/shows/paths/configs/show.padsound.toml",
        Some("/home"),
    )
    .expect("config should generate");

    assert!(config.tracks[0].file.starts_with('/'));
    assert_eq!(config.tracks[0].file, "/shows/paths/audio/intro.wav");
}

#[test]
fn generated_paths_are_relative_below_the_config() {
    let entries = vec![entry("/shows/below/audio/intro.wav")];
    let config = Config::generate_from_audio_dir(
        "/shows/below/audio",
        &entries,
        "/shows/below/show.padsound.toml",
        None,
    )
    .expect("config should generate");

    assert_eq!(config.tracks[0].file, "audio/intro.wav");
    assert_eq!(config.name.as_deref(), Some("audio"));
    assert!(config.validate("/shows/below", None).is_ok());
}

#[test]
fn generation_without_audio_files_fails() {
    let entries = vec![entry("/shows/empty/notes.txt"), AudioDirEntry {
        path: "/shows/empty/sub.wav".to_string(),
        is_file: false,
    }];
    let error = Config::generate_from_audio_dir(
        "/shows/empty",
        &entries,
        "/shows/empty/show.padsound.toml",
        None,
    )
    .expect_err("no audio files");
    assert_eq!(error.message(), "no audio files found in /shows/empty");
}

#[test]
fn generation_with_too_many_files_fails() {
    let entries: Vec<AudioDirEntry> =
        (0..35).map(|i| entry(&format!("/shows/many/{i:02}.wav"))).collect();
    let error = Config::generate_from_audio_dir(
        "/shows/many",
        &entries,
        "/shows/many/show.padsound.toml",
        None,
    )
    .expect_err("too many files");
    assert_eq!(error.message(), "too many audio files: 35 found, 34 automatic keys available");
}

#[test]
fn relative_paths_need_a_current_directory() {
    let entries = vec![entry("audio/intro.wav")];
    let error = Config::generate_from_audio_dir("audio", &entries, "show.padsound.toml", None)
        .expect_err("no current directory");
    assert_eq!(error.message(), "failed to determine current directory");
    assert_eq!(
        path_for_config("audio/intro.wav", ".", Some("/home/show")).expect("absolute"),
        "audio/intro.wav"
    );
}

#[test]
fn sanitizes_and_numbers_ids() {
    assert_eq!(sanitize_track_id("  Hello,  World!! "), "hello_world");
    assert_eq!(sanitize_track_id("__Ça va__"), "a_va");
    assert_eq!(sanitize_track_id("!!!"), "");
    let mut used: Vec<String> = Vec::new();
    assert_eq!(unique_track_id("Intro", &mut used), "intro");
    assert_eq!(unique_track_id("intro", &mut used), "intro_2");
    assert_eq!(unique_track_id("INTRO", &mut used), "intro_3");
    assert_eq!(unique_track_id("???", &mut used), "track");
    assert_eq!(used.len(), 4);
}

#[test]
fn recognises_audio_extensions() {
    assert!(is_supported_audio_file("a/b/song.WAV"));
    assert!(is_supported_audio_file("song.m4a"));
    assert!(!is_supported_audio_file("notes.txt"));
    assert!(!is_supported_audio_file("noextension"));
    assert_eq!(default_generated_keys().len(), 34);
    assert_eq!(default_generated_keys()[9], '0');
}

#[test]
fn defaults_match_the_schema() {
    assert_eq!(default_schema_version(), 1);
    assert_eq!(f32::from_bits(default_volume()), 1.0);
    let config = Config::default();
    assert_eq!(config.schema_version, 1);
    assert!(config.tracks.is_empty());
    assert!(matches!(config.validate(".", None), Err(PadsoundError::NoTracks)));
}

#[test]
fn validation_reports_each_problem() {
    let mut base = track("a", "A", "a.wav");
    base.key = Some("1".to_string());

    let mut t = base.clone();
    t.volume = 1.5f32.to_bits();
    let e = show(vec![t]).validate(".", None).expect_err("volume");
    assert_eq!(e.message(), "track a has volume outside range 0.0-1.0");

    let mut t = base.clone();
    t.start_at = (-1.0f64).to_bits();
    let e = show(vec![t]).validate(".", None).expect_err("start");
    assert_eq!(e.message(), "track a has a negative start_at");

    let mut t = base.clone();
    t.key = None;
    let e = show(vec![t]).validate(".", None).expect_err("trigger");
    assert_eq!(e.message(), "track a must have at least one trigger: key or midi_note");

    let mut t = base.clone();
    t.name = "  ".to_string();
    let e = show(vec![t]).validate(".", None).expect_err("name");
    assert_eq!(e.message(), "track a has an empty name");

    let mut other = track("b", "B", "b.wav");
    other.key = Some("1".to_string());
    let e = show(vec![base.clone(), other]).validate(".", None).expect_err("key");
    assert_eq!(e.message(), "duplicate key in configuration: 1");

    let mut c = show(vec![base.clone()]);
    c.schema_version = 2;
    let e = c.validate(".", None).expect_err("schema");
    assert_eq!(e.message(), "unsupported schema_version: 2 (supported: 1)");

    let files = vec![false];
    let e = show(vec![base.clone()]).validate("/show", Some(&files)).expect_err("file");
    assert_eq!(e.message(), "audio file not found for track a: /show/a.wav");
    let files = vec![true];
    assert!(show(vec![base]).validate("/show", Some(&files)).is_ok());
}

#[test]
fn learning_a_controller_for_a_missing_track_fails() {
    let mut one = track("one", "One", "one.wav");
    one.key = Some("1".to_string());
    one.midi_volume_cc = Some(21);
    let mut config = show(vec![one]);
    let e = set_track_midi_volume_cc(&mut config, "nobody", 21).expect_err("missing");
    assert_eq!(e.message(), "track not found: nobody");
    assert_eq!(config.tracks[0].midi_volume_cc, Some(21));
}

#[test]
fn resolves_files_against_the_show_directory() {
    let t = track("a", "A", "audio/a.wav");
    assert_eq!(t.resolved_file("/show"), "/show/audio/a.wav");
    let t = track("a", "A", "/abs/a.wav");
    assert_eq!(t.resolved_file("/show"), "/abs/a.wav");
    assert_eq!(Config::base_dir("/show/show.padsound.toml"), "/show");
}

#[test]
fn learning_twice_changes_nothing_more() {
    let mut one = track("one", "One", "one.wav");
    one.key = Some("1".to_string());
    one.midi_volume_cc = Some(21);
    let mut two = track("two", "Two", "two.wav");
    two.key = Some("2".to_string());
    let mut config = show(vec![one, two]);

    assert!(set_track_midi_volume_cc(&mut config, "two", 21).is_ok());
    assert_eq!(config.tracks[0].midi_volume_cc, None);
    assert_eq!(config.tracks[1].midi_volume_cc, Some(21));
    assert!(set_track_midi_note(&mut config, "two", 40).is_ok());
    assert!(set_track_midi_note(&mut config, "two", 40).is_ok());
    assert_eq!(config.tracks[1].midi_note, Some(40));
    assert_eq!(config.tracks[0].midi_note, None);
    assert!(config.validate(".", None).is_ok());
}

#[test]
fn file_check_only_adds_missing_files() {
    let mut a = track("a", "A", "a.wav");
    a.key = Some("1".to_string());
    let mut b = track("b", "B", "/abs/b.wav");
    b.midi_note = Some(40);
    let good = show(vec![a.clone(), b.clone()]);
    assert!(good.validate("/show", None).is_ok());
    assert!(good.validate("/show", Some(&vec![true, true])).is_ok());
    let e = good.validate("/show", Some(&vec![true, false])).expect_err("missing");
    assert_eq!(e.message(), "audio file not found for track b: /abs/b.wav");

    let mut clash = b.clone();
    clash.key = Some("1".to_string());
    let bad = show(vec![a, clash]);
    let without = bad.validate("/show", None).expect_err("clash");
    let with = bad.validate("/show", Some(&vec![true, true])).expect_err("clash");
    assert_eq!(without.message(), with.message());
    assert_eq!(with.message(), "duplicate key in configuration: 1");
}

#[test]
fn sanitized_ids_have_single_inner_underscores() {
    assert_eq!(sanitize_track_id("--Take  5 -- (Live) 2024--"), "take_5_live_2024");
    assert_eq!(sanitize_track_id("a_b__c"), "a_b_c");
    assert_eq!(sanitize_track_id("Mix.Down"), "mix_down");
}

#[test]
fn sanitized_ids_join_runs_of_letters_and_digits() {
    assert_eq!(sanitize_track_id("My Track!"), "my_track");
    assert_eq!(sanitize_track_id("!!!"), "");
    assert_eq!(sanitize_track_id("a1b2 c3"), "a1b2_c3");
}
