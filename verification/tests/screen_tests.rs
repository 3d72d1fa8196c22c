use padsound::audio::devices::sorted_device_names;
use padsound::command::Command;
use padsound::config::{Config, MidiVolumeMode, PlaybackMode, TrackConfig};
use padsound::input::keyboard::{
    key_command, key_label, screen_key_commands, should_quit, KeyBindings, KeyCode, KeyEvent,
    KeyEventKind,
};
use padsound::state::{LearnKind, LearnRequest};
use padsound::text::wide;
use padsound::ui::start_input::{format_centiseconds, StartInput};
use padsound::ui::tui::{
    compact_mode, learn_kind_label, learn_line_text, midi_label, mode_label, mode_line_text,
    status_line_text, table_title, track_key_command, HeldKeys, InputKeyOutcome, TuiAction,
    TuiState,
};

fn track(id: &str, key: Option<&str>, mode: PlaybackMode) -> TrackConfig {
    TrackConfig {
        id: id.to_string(),
        name: format!("{id} name"),
        file: format!("{id}.wav"),
        key: key.map(|k| k.to_string()),
        mode,
        looping: false,
        start_at: 0,
        stop_before_end: 0,
        fade_in: None,
        fade_out: None,
        volume: 1.0f32.to_bits(),
        midi_note: None,
        midi_volume_cc: None,
    }
}

fn show(tracks: Vec<TrackConfig>) -> Config {
    Config { schema_version: 1, name: None, midi_volume_mode: MidiVolumeMode::Relative, tracks }
}

fn press(code: KeyCode) -> KeyEvent {
    KeyEvent { code, kind: KeyEventKind::Press, control: false }
}

fn release(code: KeyCode) -> KeyEvent {
    KeyEvent { code, kind: KeyEventKind::Release, control: false }
}

#[test]
fn start_input_accepts_two_decimals_and_seven_bytes() {
    let mut input = StartInput::from_centiseconds("intro".to_string(), 1234);
    assert_eq!(input.display_value(), "12.34");
    input.push_digit('5');
    assert_eq!(input.text(), "5");
    input.push_decimal_separator();
    input.push_digit('2');
    input.push_digit('5');
    input.push_digit('9');
    assert_eq!(input.text(), "5.25");
    assert_eq!(input.decimal_digits(), 2);
    input.push_decimal_separator();
    assert_eq!(input.text(), "5.25");
    input.backspace();
    input.backspace();
    input.backspace();
    input.backspace();
    assert_eq!(input.display_value(), "00.00");
    input.push_decimal_separator();
    assert_eq!(input.text(), "0.");
    let mut long = StartInput::from_centiseconds("intro".to_string(), 0);
    for _ in 0..9 {
        long.push_digit('9');
    }
    assert_eq!(long.text(), "9999999");
    long.push_decimal_separator();
    assert_eq!(long.text(), "9999999");
    assert_eq!(long.track_id(), "intro");
}

#[test]
fn start_input_counts_bytes() {
    let mut input = StartInput::from_centiseconds("t".to_string(), 0);
    input.prepare_for_edit();
    assert_eq!(input.text(), "");
    input.push_digit('é');
    input.push_decimal_separator();
    input.push_digit('€');
    assert_eq!(input.decimal_digits(), 3);
    input.push_digit('1');
    assert_eq!(input.text(), "é.€");
}

#[test]
fn formats_centiseconds() {
    assert_eq!(format_centiseconds(0), "00.00");
    assert_eq!(format_centiseconds(705), "07.05");
    assert_eq!(format_centiseconds(123456), "1234.56");
}

#[test]
fn selection_moves_and_clamps() {
    let mut s = TuiState::new();
    assert!(s.handle_selection_key(&press(KeyCode::End), 20));
    assert_eq!(s.selected, 19);
    assert!(s.handle_selection_key(&press(KeyCode::PageUp), 20));
    assert_eq!(s.selected, 9);
    assert!(s.handle_selection_key(&press(KeyCode::PageUp), 20));
    assert_eq!(s.selected, 0);
    assert!(s.handle_selection_key(&press(KeyCode::Up), 20));
    assert_eq!(s.selected, 0);
    assert!(s.handle_selection_key(&press(KeyCode::PageDown), 5));
    assert_eq!(s.selected, 4);
    assert!(!s.handle_selection_key(&release(KeyCode::Down), 5));
    assert!(!s.handle_selection_key(&press(KeyCode::Down), 0));
    assert!(!s.handle_selection_key(&press(KeyCode::Enter), 5));
    s.selected = 30;
    s.clamp_selection(5);
    assert_eq!(s.selected, 4);
    s.clamp_selection(0);
    assert_eq!(s.selected, 0);
}

#[test]
fn modes_switch_and_cancel_learning() {
    let mut s = TuiState::new();
    assert!(!s.toggle_midi_mode());
    assert!(s.midi_mode);
    assert!(s.toggle_edit_mode());
    assert!(s.edit_mode && !s.midi_mode);
    assert!(!s.toggle_edit_mode());
    assert!(!s.edit_mode);
    assert!(!s.toggle_midi_mode());
    assert!(s.toggle_midi_mode());
    assert_eq!(compact_mode(&s), "playback");
}

#[test]
fn screen_keys_ask_for_actions() {
    let config = show(vec![
        track("intro", Some("1"), PlaybackMode::Toggle),
        track("drone", Some("2"), PlaybackMode::Hold),
    ]);
    let mut s = TuiState::new();
    assert!(matches!(s.handle_tui_key(&press(KeyCode::Char('x')), &config), TuiAction::Send(Command::StopAll)));
    assert!(matches!(s.handle_tui_key(&press(KeyCode::Down), &config), TuiAction::Done));
    assert_eq!(s.selected, 1);
    match s.handle_tui_key(&press(KeyCode::Enter), &config) {
        TuiAction::Send(Command::Toggle { track_id }) => assert_eq!(track_id, "drone"),
        other => panic!("unexpected {other:?}"),
    }
    match s.handle_tui_key(&press(KeyCode::Right), &config) {
        TuiAction::AdjustVolume { track_id, up } => assert_eq!((track_id.as_str(), up), ("drone", true)),
        other => panic!("unexpected {other:?}"),
    }
    assert!(matches!(s.handle_tui_key(&press(KeyCode::Char('k')), &config), TuiAction::Pass));
    assert!(matches!(s.handle_tui_key(&press(KeyCode::Char('M')), &config), TuiAction::Done));
    match s.handle_tui_key(&press(KeyCode::Char('k')), &config) {
        TuiAction::StartLearn(r) => assert_eq!((r.track_id.as_str(), r.kind), ("drone", LearnKind::Trigger)),
        other => panic!("unexpected {other:?}"),
    }
    assert!(matches!(s.handle_tui_key(&press(KeyCode::Char('n')), &config), TuiAction::CancelLearn));
    match s.handle_tui_key(&press(KeyCode::Char('r')), &config) {
        TuiAction::ToggleLoop { name, update } => {
            assert_eq!(name, "drone name");
            assert!(update.looping);
            assert_eq!(update.track_id, "drone");
        },
        other => panic!("unexpected {other:?}"),
    }
    match s.handle_tui_key(&press(KeyCode::Char('s')), &config) {
        TuiAction::OpenStartInput { track_id, start_at } => assert_eq!((track_id.as_str(), start_at), ("drone", 0)),
        other => panic!("unexpected {other:?}"),
    }
    assert!(matches!(s.handle_tui_key(&press(KeyCode::Char('f')), &config), TuiAction::Done));
    assert!(s.fullscreen);
    assert!(matches!(s.handle_tui_key(&release(KeyCode::Char('f')), &config), TuiAction::Pass));
    assert!(matches!(s.handle_tui_key(&press(KeyCode::Char('1')), &config), TuiAction::Pass));
}

#[test]
fn start_input_keys_edit_save_and_cancel() {
    let mut s = TuiState::new();
    s.open_start_input("intro".to_string(), 250);
    assert_eq!(status_line_text(&s), "Status: Type start time as 00.00, Enter saves, Esc cancels");
    assert_eq!(mode_line_text(&s), "Mode: edit start time 02.50 (digits, Backspace, Enter save, Esc cancel)");
    assert_eq!(s.handle_start_input_key(&press(KeyCode::Char('3'))), InputKeyOutcome::Done);
    assert_eq!(s.handle_start_input_key(&press(KeyCode::Char(','))), InputKeyOutcome::Done);
    assert_eq!(s.handle_start_input_key(&press(KeyCode::Char('5'))), InputKeyOutcome::Done);
    assert_eq!(s.handle_start_input_key(&press(KeyCode::Char('z'))), InputKeyOutcome::Done);
    assert_eq!(s.start_input.as_ref().expect("open").text(), "3.5");
    assert_eq!(s.handle_start_input_key(&release(KeyCode::Enter)), InputKeyOutcome::Done);
    assert_eq!(s.handle_start_input_key(&press(KeyCode::Enter)), InputKeyOutcome::Save);
    let ctrl_c = KeyEvent { code: KeyCode::Char('c'), kind: KeyEventKind::Press, control: true };
    assert_eq!(s.handle_start_input_key(&ctrl_c), InputKeyOutcome::Pass);
    s.start_time_saved("Intro", 350);
    assert!(s.start_input.is_none());
    assert_eq!(status_line_text(&s), "Status: Intro start time saved at 03.50");
    s.open_start_input("intro".to_string(), 0);
    assert_eq!(s.handle_start_input_key(&press(KeyCode::Esc)), InputKeyOutcome::Done);
    assert!(s.start_input.is_none());
    assert_eq!(status_line_text(&s), "Status: Start time edit cancelled");
    s.start_time_failed("invalid number");
    assert_eq!(s.message.as_ref().expect("message").text, "Start time update failed: invalid number");
    assert!(s.message.as_ref().expect("message").is_error);
    s.loop_updated("Intro", true);
    assert_eq!(status_line_text(&s), "Status: Intro set to repeat");
    s.loop_update_failed("disk full");
    assert_eq!(status_line_text(&s), "Status: Loop update failed: disk full");
}

#[test]
fn track_keys_toggle_and_hold() {
    let config = show(vec![
        track("intro", Some("A"), PlaybackMode::Toggle),
        track("drone", Some("space"), PlaybackMode::Hold),
    ]);
    let bindings = KeyBindings::from_config(&config);
    let mut held = HeldKeys::new();
    assert_eq!(
        track_key_command(&press(KeyCode::Char('a')), &bindings, &mut held),
        Some(Command::Toggle { track_id: "intro".to_string() })
    );
    assert_eq!(track_key_command(&release(KeyCode::Char('a')), &bindings, &mut held), None);
    assert_eq!(
        track_key_command(&press(KeyCode::Char(' ')), &bindings, &mut held),
        Some(Command::HoldStart { track_id: "drone".to_string() })
    );
    assert!(held.contains("space"));
    assert_eq!(track_key_command(&press(KeyCode::Char(' ')), &bindings, &mut held), None);
    assert_eq!(
        track_key_command(&release(KeyCode::Char(' ')), &bindings, &mut held),
        Some(Command::HoldEnd { track_id: "drone".to_string() })
    );
    assert!(!held.contains("space"));
    assert_eq!(track_key_command(&release(KeyCode::Char(' ')), &bindings, &mut held), None);
    assert_eq!(
        key_command(&release(KeyCode::Char(' ')), &bindings),
        Some(Command::HoldEnd { track_id: "drone".to_string() })
    );
    assert_eq!(key_command(&press(KeyCode::Char('z')), &bindings), None);
}

#[test]
fn held_keys_insert_and_remove() {
    let mut held = HeldKeys::new();
    assert!(held.insert("a"));
    assert!(!held.insert("a"));
    assert!(held.insert("b"));
    assert!(held.remove("a"));
    assert!(!held.remove("a"));
    assert!(held.contains("b"));
}

#[test]
fn key_labels_follow_the_show_names() {
    assert_eq!(key_label(&KeyCode::Char(' ')).as_deref(), Some("space"));
    assert_eq!(key_label(&KeyCode::Char('Q')).as_deref(), Some("q"));
    assert_eq!(key_label(&KeyCode::F(12)).as_deref(), Some("f12"));
    assert_eq!(key_label(&KeyCode::PageDown).as_deref(), Some("pagedown"));
    assert_eq!(key_label(&KeyCode::Media("PlayPause".to_string())).as_deref(), Some("playpause"));
    assert_eq!(key_label(&KeyCode::Modifier("LeftShift".to_string())).as_deref(), Some("leftshift"));
    assert_eq!(key_label(&KeyCode::Null), None);
    assert!(should_quit(&press(KeyCode::Esc)));
    assert!(should_quit(&press(KeyCode::Char('q'))));
    assert!(!should_quit(&release(KeyCode::Char('q'))));
    assert!(should_quit(&KeyEvent { code: KeyCode::Char('c'), kind: KeyEventKind::Release, control: true }));
    assert!(!should_quit(&press(KeyCode::Char('c'))));
}

#[test]
fn later_tracks_win_shared_keys() {
    let config = show(vec![
        track("a", Some("K"), PlaybackMode::Toggle),
        track("b", Some("k"), PlaybackMode::Hold),
    ]);
    let bindings = KeyBindings::from_config(&config);
    let b = bindings.get("k").expect("bound");
    assert_eq!((b.track_id.as_str(), b.mode), ("b", PlaybackMode::Hold));
    assert!(bindings.get("K").is_none());
}

#[test]
fn labels_and_titles() {
    assert_eq!(midi_label(Some(36), None), "N:36 CC:-");
    assert_eq!(midi_label(None, Some(7)), "N:- CC:7");
    assert_eq!(mode_label(PlaybackMode::Hold), "hold");
    assert_eq!(learn_kind_label(LearnKind::Volume), "volume CC");
    assert_eq!(learn_kind_label(LearnKind::Trigger), "trigger note");
    let config = show(vec![track("intro", Some("1"), PlaybackMode::Toggle)]);
    let mut s = TuiState::new();
    assert_eq!(table_title(&config, None, &s), "Tracks");
    s.fullscreen = true;
    assert_eq!(table_title(&config, None, &s), "Tracks | full screen | f = normal | mode: playback");
    s.loop_updated("Intro", false);
    let request = LearnRequest { track_id: "intro".to_string(), kind: LearnKind::Volume };
    assert_eq!(
        table_title(&config, Some(&request), &s),
        "Tracks | full screen | f = normal | mode: playback | Intro set to single | learn volume: intro name"
    );
    assert_eq!(learn_line_text(&config, Some(&request)), "MIDI learn: waiting for volume knob on intro name");
    let ghost = LearnRequest { track_id: "ghost".to_string(), kind: LearnKind::Trigger };
    assert_eq!(learn_line_text(&config, Some(&ghost)), "MIDI learn: waiting for trigger note on ghost");
    assert_eq!(learn_line_text(&config, None), "MIDI learn: idle");
    assert_eq!(mode_line_text(&TuiState::new()), "Mode: playback");
    assert_eq!(status_line_text(&TuiState::new()), "Status: ready");
}

#[test]
fn graphical_keys_send_commands() {
    let config = show(vec![
        track("a", Some("space"), PlaybackMode::Toggle),
        track("b", Some("space"), PlaybackMode::Hold),
        track("c", Some("x"), PlaybackMode::Hold),
    ]);
    assert_eq!(
        screen_key_commands(&config, "space", true, false),
        vec![
            Command::Toggle { track_id: "a".to_string() },
            Command::HoldStart { track_id: "b".to_string() },
        ]
    );
    assert_eq!(
        screen_key_commands(&config, "space", false, false),
        vec![Command::HoldEnd { track_id: "b".to_string() }]
    );
    assert!(screen_key_commands(&config, "space", true, true).is_empty());
}

#[test]
fn device_names_are_sorted_without_repeats() {
    let names = vec![
        "beta".to_string(),
        "Alpha".to_string(),
        "alpha".to_string(),
        "beta".to_string(),
        "Alpha".to_string(),
    ];
    assert_eq!(sorted_device_names(&names), vec!["Alpha", "alpha", "Alpha", "beta"]);
}

#[test]
fn wide_text_ends_with_zero() {
    assert_eq!(wide("Aé"), vec![0x41, 0xE9, 0]);
    assert_eq!(wide("𝄞"), vec![0xD834, 0xDD1E, 0]);
}

#[test]
fn holding_a_key_sends_one_start_and_one_end() {
    let config = show(vec![track("drone", Some("h"), PlaybackMode::Hold)]);
    let bindings = KeyBindings::from_config(&config);
    let mut held = HeldKeys::new();
    let repeat = KeyEvent { code: KeyCode::Char('h'), kind: KeyEventKind::Repeat, control: false };
    let events = vec![
        press(KeyCode::Char('h')),
        press(KeyCode::Char('h')),
        repeat.clone(),
        press(KeyCode::Char('h')),
        repeat,
        release(KeyCode::Char('h')),
    ];
    let sent: Vec<Command> =
        events.iter().filter_map(|e| track_key_command(e, &bindings, &mut held)).collect();
    assert_eq!(
        sent,
        vec![
            Command::HoldStart { track_id: "drone".to_string() },
            Command::HoldEnd { track_id: "drone".to_string() },
        ]
    );
    assert!(!held.contains("h"));
}

#[test]
fn start_input_edits_from_an_opened_time() {
    let mut input = StartInput::from_centiseconds("intro".to_string(), 150);
    assert_eq!(input.text(), "01.50");
    input.push_digit('3');
    input.push_decimal_separator();
    input.push_digit('2');
    input.push_digit('5');
    input.push_digit('7');
    assert_eq!(input.text(), "3.25");
}
