use std::collections::HashMap;

use padsound::command::Command;
use padsound::config::{Config, MidiVolumeMode, PlaybackMode, TrackConfig};
use padsound::input::midi::{handle_message, MidiAction, MidiBindings, NoteBinding};
use padsound::state::LearnKind;

fn track(id: &str, mode: PlaybackMode, note: Option<u8>, cc: Option<u8>) -> TrackConfig {
    TrackConfig {
        id: id.to_string(),
        name: id.to_string(),
        file: format!("{id}.wav"),
        key: None,
        mode,
        looping: false,
        start_at: 0,
        stop_before_end: 0,
        fade_in: None,
        fade_out: None,
        volume: 1.0f32.to_bits(),
        midi_note: note,
        midi_volume_cc: cc,
    }
}

fn show(tracks: Vec<TrackConfig>) -> Config {
    Config { schema_version: 1, name: None, midi_volume_mode: MidiVolumeMode::Relative, tracks }
}

/// What the MIDI thread sends for a controller action: the value scaled to
/// 0.0..=1.0.
fn sent(action: MidiAction) -> Command {
    match action {
        MidiAction::Send(c) => c,
        MidiAction::ControllerVolume { track_id, value } => Command::SetVolume {
            track_id,
            volume: (value as f32 / 127.0).to_bits(),
        },
        other => panic!("not a command: {other:?}"),
    }
}

#[test]
fn note_on_sends_toggle_for_toggle_track() {
    let bindings = MidiBindings {
        note_bindings: HashMap::from([(
            36,
            NoteBinding { track_id: "intro".to_string(), mode: PlaybackMode::Toggle },
        )]),
        cc_bindings: HashMap::new(),
        volume_mode: MidiVolumeMode::Relative,
    };

    let action = handle_message(&[0x90, 36, 100], &bindings, None).expect("command");

    assert_eq!(sent(action), Command::Toggle { track_id: "intro".to_string() });
}

#[test]
fn control_change_sends_normalized_volume() {
    let bindings = MidiBindings {
        note_bindings: HashMap::new(),
        cc_bindings: HashMap::from([(21, "intro".to_string())]),
        volume_mode: MidiVolumeMode::Absolute,
    };

    let action = handle_message(&[0xB0, 21, 64], &bindings, None).expect("command");

    assert_eq!(
        sent(action),
        Command::SetVolume { track_id: "intro".to_string(), volume: (64.0f32 / 127.0).to_bits() }
    );
}

#[test]
fn bindings_reflect_current_config() {
    let mut intro = track("intro", PlaybackMode::Toggle, Some(36), None);
    intro.key = Some("1".to_string());
    let mut drone = track("drone", PlaybackMode::Hold, None, None);
    drone.key = Some("2".to_string());
    let mut config = show(vec![intro, drone]);

    let first = MidiBindings::from_config(&config);
    assert_eq!(first.note_bindings.get(&36).expect("note").track_id, "intro");

    config.tracks[0].midi_note = None;
    config.tracks[1].midi_note = Some(36);

    let second = MidiBindings::from_config(&config);
    assert_eq!(second.note_bindings.get(&36).expect("note").track_id, "drone");
}

#[test]
fn hold_tracks_follow_note_on_and_off() {
    let config = show(vec![track("drone", PlaybackMode::Hold, Some(40), Some(7))]);
    let b = MidiBindings::from_config(&config);
    assert!(!b.is_empty());
    let on = handle_message(&[0x91, 40, 90], &b, None).expect("on");
    assert_eq!(sent(on), Command::HoldStart { track_id: "drone".to_string() });
    let off = handle_message(&[0x81, 40, 0], &b, None).expect("off");
    assert_eq!(sent(off), Command::HoldEnd { track_id: "drone".to_string() });
    // A note-on with velocity 0 is a note-off.
    let zero = handle_message(&[0x90, 40, 0], &b, None).expect("off");
    assert_eq!(sent(zero), Command::HoldEnd { track_id: "drone".to_string() });
}

#[test]
fn toggle_tracks_ignore_note_off() {
    let config = show(vec![track("intro", PlaybackMode::Toggle, Some(36), None)]);
    let b = MidiBindings::from_config(&config);
    assert_eq!(handle_message(&[0x80, 36, 64], &b, None), None);
    assert_eq!(handle_message(&[0x90, 37, 64], &b, None), None);
    assert_eq!(handle_message(&[0xB0, 21, 64], &b, None), None);
}

#[test]
fn short_and_other_messages_do_nothing() {
    let config = show(vec![track("intro", PlaybackMode::Toggle, Some(36), Some(21))]);
    let b = MidiBindings::from_config(&config);
    assert_eq!(handle_message(&[0x90, 36], &b, None), None);
    assert_eq!(handle_message(&[], &b, None), None);
    assert_eq!(handle_message(&[0xE0, 36, 64], &b, None), None);
}

#[test]
fn pending_learn_takes_the_matching_message() {
    let config = show(vec![track("intro", PlaybackMode::Toggle, Some(36), Some(21))]);
    let b = MidiBindings::from_config(&config);
    assert_eq!(
        handle_message(&[0x90, 50, 64], &b, Some(LearnKind::Trigger)),
        Some(MidiAction::LearnNote(50))
    );
    assert_eq!(handle_message(&[0xB0, 22, 64], &b, Some(LearnKind::Volume)), Some(MidiAction::LearnCc(22)));
    // A request of the other kind leaves the message its usual effect.
    assert_eq!(
        handle_message(&[0x90, 36, 64], &b, Some(LearnKind::Volume)),
        Some(MidiAction::Send(Command::Toggle { track_id: "intro".to_string() }))
    );
    assert_eq!(
        handle_message(&[0xB0, 21, 127], &b, Some(LearnKind::Trigger)),
        Some(MidiAction::ControllerStep { track_id: "intro".to_string(), up: true })
    );
}

#[test]
fn later_tracks_win_shared_bindings() {
    let config = show(vec![
        track("a", PlaybackMode::Toggle, Some(36), Some(1)),
        track("b", PlaybackMode::Hold, Some(36), Some(1)),
    ]);
    let b = MidiBindings::from_config(&config);
    assert_eq!(b.note_bindings.len(), 1);
    assert_eq!(b.note_bindings.get(&36).expect("note").mode, PlaybackMode::Hold);
    assert_eq!(b.cc_bindings.get(&1).expect("cc"), "b");
    let empty = MidiBindings::from_config(&show(vec![track("a", PlaybackMode::Toggle, None, None)]));
    assert!(empty.is_empty());
}

#[test]
fn relative_knobs_step_and_absolute_knobs_set() {
    let mut config = show(vec![track("intro", PlaybackMode::Toggle, Some(36), Some(21))]);
    let relative = MidiBindings::from_config(&config);
    assert_eq!(relative.volume_mode, MidiVolumeMode::Relative);
    assert_eq!(
        handle_message(&[0xB0, 21, 65], &relative, None),
        Some(MidiAction::ControllerStep { track_id: "intro".to_string(), up: true })
    );
    assert_eq!(
        handle_message(&[0xB0, 21, 64], &relative, None),
        Some(MidiAction::ControllerStep { track_id: "intro".to_string(), up: false })
    );
    config.midi_volume_mode = MidiVolumeMode::Absolute;
    let absolute = MidiBindings::from_config(&config);
    assert_eq!(
        handle_message(&[0xB0, 21, 64], &absolute, None),
        Some(MidiAction::ControllerVolume { track_id: "intro".to_string(), value: 64 })
    );
}
