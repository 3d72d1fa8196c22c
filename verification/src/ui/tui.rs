//! The terminal screen: its state, and what each key does to it.

use vstd::prelude::*;
use crate::command::{Command, CommandModel};
use crate::config::{Config, PlaybackMode, TrackConfig, TrackModel, clone_text, has_track, opt_text};
use crate::input::keyboard::{
    KeyBindings, KeyCode, KeyEvent, KeyEventKind, command_model, event_binding, key_command_spec,
    key_label, key_label_spec,
};
use crate::state::{
    LearnKind, LearnRequest, LearnRequestModel, TrackConfigUpdate, first_track_index, text_model,
    track_position,
};
use crate::text::{ascii_digit, decimal, is_ascii_digit_spec, push_decimal, str_eq};
use crate::ui::start_input::{
    StartInput, StartInputModel, backspace_spec, centiseconds_text, display_spec,
    format_centiseconds, push_digit_spec, push_separator_spec,
};

verus! {

/// A status message on the screen.
#[derive(Debug, Clone)]
pub struct TuiMessage {
    pub text: String,
    pub is_error: bool,
}

/// The mathematical form of a [`TuiMessage`].
pub struct MessageModel {
    pub text: Seq<char>,
    pub is_error: bool,
}

/// What the screen shows beyond the show itself.
#[derive(Debug)]
pub struct TuiState {
    /// The selected row.
    pub selected: usize,
    /// Whether the table fills the screen.
    pub fullscreen: bool,
    /// Whether `k` and `v` start MIDI learn requests.
    pub midi_mode: bool,
    /// Whether `r` and `s` edit the selected track.
    pub edit_mode: bool,
    /// The start-time field being edited, if any.
    pub start_input: Option<StartInput>,
    pub message: Option<TuiMessage>,
}

/// The mathematical form of a [`TuiState`].
pub struct TuiModel {
    pub selected: usize,
    pub fullscreen: bool,
    pub midi_mode: bool,
    pub edit_mode: bool,
    pub start_input: Option<StartInputModel>,
    pub message: Option<MessageModel>,
}

/// An optional start-time field, in mathematical form.
pub open spec fn input_model(i: Option<StartInput>) -> Option<StartInputModel> {
    match i {
        Some(x) => Some(x@),
        None => None,
    }
}

/// An optional message, in mathematical form.
pub open spec fn message_model(m: Option<TuiMessage>) -> Option<MessageModel> {
    match m {
        Some(x) => Some(MessageModel { text: x.text@, is_error: x.is_error }),
        None => None,
    }
}

impl View for TuiState {
    type V = TuiModel;

    open spec fn view(&self) -> TuiModel {
        TuiModel {
            selected: self.selected,
            fullscreen: self.fullscreen,
            midi_mode: self.midi_mode,
            edit_mode: self.edit_mode,
            start_input: input_model(self.start_input),
            message: message_model(self.message),
        }
    }
}

/// The selection kept inside a table of `track_count` rows.
pub open spec fn clamped_selection(selected: usize, track_count: usize) -> usize {
    if track_count == 0 {
        0
    } else if selected >= track_count {
        (track_count - 1) as usize
    } else {
        selected
    }
}

/// Whether a key event is a press or a repeat.
pub open spec fn is_press_or_repeat(kind: KeyEventKind) -> bool {
    kind == KeyEventKind::Press || kind == KeyEventKind::Repeat
}

/// `a - b`, or zero.
pub open spec fn minus(a: usize, b: usize) -> usize {
    if a >= b {
        (a - b) as usize
    } else {
        0
    }
}

/// `a + b`, at most `top`.
pub open spec fn plus_at_most(a: usize, b: usize, top: usize) -> usize {
    if a + b <= top {
        (a + b) as usize
    } else {
        top
    }
}

/// The row a navigation key selects in a table of `track_count > 0` rows:
/// one up or down, ten up or down, first, last. `None` for other keys.
pub open spec fn selection_spec(selected: usize, code: KeyCode, track_count: usize) -> Option<usize> {
    let last = (track_count - 1) as usize;
    match code {
        KeyCode::Up => Some(minus(selected, 1)),
        KeyCode::Down => Some(plus_at_most(selected, 1, last)),
        KeyCode::PageUp => Some(minus(selected, 10)),
        KeyCode::PageDown => Some(plus_at_most(selected, 10, last)),
        KeyCode::Home => Some(0),
        KeyCode::End => Some(last),
        _ => None,
    }
}

/// Whether a navigation key moves the selection, and where.
pub open spec fn selection_key_spec(selected: usize, event: KeyEvent, track_count: usize) -> Option<
    usize,
> {
    if track_count == 0 || !is_press_or_repeat(event.kind) {
        None
    } else {
        selection_spec(selected, event.code, track_count)
    }
}

/// The keys for which moving the selection would overflow.
pub open spec fn selection_overflows(selected: usize, event: KeyEvent, track_count: usize) -> bool {
    &&& track_count > 0
    &&& is_press_or_repeat(event.kind)
    &&& ((event.code is Down && selected + 1 > usize::MAX) || (event.code is PageDown && selected
        + 10 > usize::MAX))
}

impl TuiState {
    /// The screen as it opens: first row, table with header, playback mode.
    pub fn new() -> (r: TuiState)
        ensures
            r@ == (TuiModel {
                selected: 0,
                fullscreen: false,
                midi_mode: false,
                edit_mode: false,
                start_input: None,
                message: None,
            }),
    {
        TuiState {
            selected: 0,
            fullscreen: false,
            midi_mode: false,
            edit_mode: false,
            start_input: None,
            message: None,
        }
    }

    /// Keeps the selection inside a table of `track_count` rows.
    pub fn clamp_selection(&mut self, track_count: usize)
        ensures
            final(self)@ == (TuiModel {
                selected: clamped_selection(old(self).selected, track_count),
                ..old(self)@
            }),
    {
        if track_count == 0 {
            self.selected = 0;
        } else if self.selected >= track_count {
            self.selected = track_count - 1;
        }
    }

    /// Moves the selection for the navigation keys (Up, Down, PageUp,
    /// PageDown, Home, End) when pressed or repeated; returns whether the
    /// key was one of them.
    pub fn handle_selection_key(&mut self, event: &KeyEvent, track_count: usize) -> (r: bool)
        requires
            !selection_overflows(old(self).selected, *event, track_count),
        ensures
            match selection_key_spec(old(self).selected, *event, track_count) {
                Some(s) => r && final(self)@ == (TuiModel { selected: s, ..old(self)@ }),
                None => !r && final(self)@ == old(self)@,
            },
    {
        if track_count == 0 || !(event.kind == KeyEventKind::Press || event.kind
            == KeyEventKind::Repeat) {
            return false;
        }
        let last = track_count - 1;
        match event.code {
            KeyCode::Up => {
                self.selected = self.selected.saturating_sub(1);
            },
            KeyCode::Down => {
                let next = self.selected + 1;
                self.selected = if next <= last {
                    next
                } else {
                    last
                };
            },
            KeyCode::PageUp => {
                self.selected = self.selected.saturating_sub(10);
            },
            KeyCode::PageDown => {
                let next = self.selected + 10;
                self.selected = if next <= last {
                    next
                } else {
                    last
                };
            },
            KeyCode::Home => {
                self.selected = 0;
            },
            KeyCode::End => {
                self.selected = last;
            },
            _ => {
                return false;
            },
        }
        true
    }

    /// Switches edit mode. Entering it leaves MIDI mode and closes the
    /// start-time field; leaving it also clears the message. Returns whether
    /// the pending MIDI learn request must be cancelled (on entering).
    pub fn toggle_edit_mode(&mut self) -> (cancel_learn: bool)
        ensures
            old(self).edit_mode ==> !cancel_learn && final(self)@ == (TuiModel {
                edit_mode: false,
                start_input: None,
                message: None,
                ..old(self)@
            }),
            !old(self).edit_mode ==> cancel_learn && final(self)@ == (TuiModel {
                edit_mode: true,
                midi_mode: false,
                start_input: None,
                ..old(self)@
            }),
    {
        if self.edit_mode {
            self.edit_mode = false;
            self.start_input = None;
            self.message = None;
            false
        } else {
            self.edit_mode = true;
            self.midi_mode = false;
            self.start_input = None;
            true
        }
    }

    /// Switches MIDI mode. Entering it leaves edit mode, closes the
    /// start-time field and clears the message. Returns whether the pending
    /// MIDI learn request must be cancelled (on leaving).
    pub fn toggle_midi_mode(&mut self) -> (cancel_learn: bool)
        ensures
            old(self).midi_mode ==> cancel_learn && final(self)@ == (TuiModel {
                midi_mode: false,
                ..old(self)@
            }),
            !old(self).midi_mode ==> !cancel_learn && final(self)@ == (TuiModel {
                midi_mode: true,
                edit_mode: false,
                start_input: None,
                message: None,
                ..old(self)@
            }),
    {
        if self.midi_mode {
            self.midi_mode = false;
            true
        } else {
            self.midi_mode = true;
            self.edit_mode = false;
            self.start_input = None;
            self.message = None;
            false
        }
    }

    fn set_message(&mut self, text: String, is_error: bool)
        ensures
            final(self)@ == (TuiModel {
                message: Some(MessageModel { text: text@, is_error }),
                ..old(self)@
            }),
    {
        self.message = Some(TuiMessage { text, is_error });
    }

    /// Closes the start-time field without saving.
    pub fn cancel_start_input(&mut self)
        ensures
            final(self)@ == (TuiModel {
                start_input: None,
                message: Some(
                    MessageModel { text: "Start time edit cancelled"@, is_error: false },
                ),
                ..old(self)@
            }),
    {
        self.start_input = None;
        self.set_message(String::from_str("Start time edit cancelled"), false);
    }

    /// Opens the start-time field of the track `track_id`, on its current
    /// start time in hundredths of a second.
    pub fn open_start_input(&mut self, track_id: String, centiseconds: u64)
        ensures
            final(self)@ == (TuiModel {
                start_input: Some(
                    StartInputModel {
                        track_id: track_id@,
                        text: centiseconds_text(centiseconds as nat),
                        pristine: true,
                    },
                ),
                message: Some(
                    MessageModel {
                        text: "Type start time as 00.00, Enter saves, Esc cancels"@,
                        is_error: false,
                    },
                ),
                ..old(self)@
            }),
    {
        self.start_input = Some(StartInput::from_centiseconds(track_id, centiseconds));
        self.set_message(String::from_str("Type start time as 00.00, Enter saves, Esc cancels"), false);
    }

    /// Closes the start-time field after the track `track_name` got the
    /// start time of `centiseconds` hundredths of a second.
    pub fn start_time_saved(&mut self, track_name: &str, centiseconds: u64)
        ensures
            final(self)@ == (TuiModel {
                start_input: None,
                message: Some(
                    MessageModel {
                        text: track_name@ + " start time saved at "@ + centiseconds_text(
                            centiseconds as nat,
                        ),
                        is_error: false,
                    },
                ),
                ..old(self)@
            }),
    {
        self.start_input = None;
        let mut text = String::from_str(track_name);
        text.append(" start time saved at ");
        let time = format_centiseconds(centiseconds);
        text.append(time.as_str());
        self.set_message(text, false);
    }

    /// Reports a start time that could not be saved; the field stays open.
    pub fn start_time_failed(&mut self, reason: &str)
        ensures
            final(self)@ == (TuiModel {
                message: Some(
                    MessageModel { text: "Start time update failed: "@ + reason@, is_error: true },
                ),
                ..old(self)@
            }),
    {
        let mut text = String::from_str("Start time update failed: ");
        text.append(reason);
        self.set_message(text, true);
    }

    /// Reports that the track `track_name` now repeats (`looping`) or plays
    /// once.
    pub fn loop_updated(&mut self, track_name: &str, looping: bool)
        ensures
            final(self)@ == (TuiModel {
                message: Some(
                    MessageModel {
                        text: track_name@ + " set to "@ + (if looping {
                            "repeat"@
                        } else {
                            "single"@
                        }),
                        is_error: false,
                    },
                ),
                ..old(self)@
            }),
    {
        let mut text = String::from_str(track_name);
        text.append(" set to ");
        if looping {
            text.append("repeat");
        } else {
            text.append("single");
        }
        self.set_message(text, false);
    }

    /// Reports a loop setting that could not be saved.
    pub fn loop_update_failed(&mut self, reason: &str)
        ensures
            final(self)@ == (TuiModel {
                message: Some(
                    MessageModel { text: "Loop update failed: "@ + reason@, is_error: true },
                ),
                ..old(self)@
            }),
    {
        let mut text = String::from_str("Loop update failed: ");
        text.append(reason);
        self.set_message(text, true);
    }
}

} // verus!

verus! {

/// What a key does while the start-time field is open.
#[derive(Debug, Clone, Copy, PartialEq, Eq, Structural)]
pub enum InputKeyOutcome {
    /// The field does not take the key; it goes on to the other handlers.
    Pass,
    /// The field took the key.
    Done,
    /// Enter: the caller saves the typed start time.
    Save,
}

/// The screen with the start-time field, if open, replaced by `f` of it.
pub open spec fn input_backspaced(m: TuiModel) -> TuiModel {
    match m.start_input {
        Some(i) => TuiModel { start_input: Some(backspace_spec(i)), ..m },
        None => m,
    }
}

/// The screen after typing the digit `d` into the start-time field.
pub open spec fn input_digit(m: TuiModel, d: char) -> TuiModel {
    match m.start_input {
        Some(i) => TuiModel { start_input: Some(push_digit_spec(i, d)), ..m },
        None => m,
    }
}

/// The screen after typing the separator into the start-time field.
pub open spec fn input_separator(m: TuiModel) -> TuiModel {
    match m.start_input {
        Some(i) => TuiModel { start_input: Some(push_separator_spec(i)), ..m },
        None => m,
    }
}

/// Whether the key is Control+C.
pub open spec fn is_control_c(event: KeyEvent) -> bool {
    &&& event.code matches KeyCode::Char(c) && c == 'c'
    &&& event.control
}

/// What a key does while the start-time field is open: Control+C passes
/// on; releases are swallowed; Escape closes the field; Enter saves;
/// Backspace, digits, `.` and `,` edit; other keys are swallowed.
pub open spec fn start_input_key_spec(m: TuiModel, event: KeyEvent) -> (TuiModel, InputKeyOutcome) {
    if is_control_c(event) {
        (m, InputKeyOutcome::Pass)
    } else if !is_press_or_repeat(event.kind) {
        (m, InputKeyOutcome::Done)
    } else {
        match event.code {
            KeyCode::Esc => (
                TuiModel {
                    start_input: None,
                    message: Some(
                        MessageModel { text: "Start time edit cancelled"@, is_error: false },
                    ),
                    ..m
                },
                InputKeyOutcome::Done,
            ),
            KeyCode::Enter => (m, InputKeyOutcome::Save),
            KeyCode::Backspace => (input_backspaced(m), InputKeyOutcome::Done),
            KeyCode::Char(c) => if is_ascii_digit_spec(c) {
                (input_digit(m, c), InputKeyOutcome::Done)
            } else if c == '.' || c == ',' {
                (input_separator(m), InputKeyOutcome::Done)
            } else {
                (m, InputKeyOutcome::Done)
            },
            _ => (m, InputKeyOutcome::Done),
        }
    }
}

/// The settings of a track as an edit of them.
pub open spec fn update_matches(u: TrackConfigUpdate, t: TrackModel) -> bool {
    &&& u.track_id@ == t.id
    &&& u.name@ == t.name
    &&& text_model(u.key) == t.key
    &&& u.mode == t.mode
    &&& u.looping == t.looping
    &&& u.start_at == t.start_at
    &&& u.stop_before_end == t.stop_before_end
    &&& u.fade_in == t.fade_in
    &&& u.fade_out == t.fade_out
    &&& u.volume == t.volume
    &&& u.midi_note == t.midi_note
    &&& u.midi_volume_cc == t.midi_volume_cc
}

/// The current settings of `track`, as an edit that changes nothing.
pub fn update_from_track(track: &TrackConfig) -> (r: TrackConfigUpdate)
    ensures
        update_matches(r, track@),
{
    let key = clone_text(&track.key);
    proof {
        assert(text_model(key) == opt_text(key));
    }
    TrackConfigUpdate {
        track_id: track.id.clone(),
        name: track.name.clone(),
        key,
        mode: track.mode,
        looping: track.looping,
        start_at: track.start_at,
        stop_before_end: track.stop_before_end,
        fade_in: track.fade_in,
        fade_out: track.fade_out,
        volume: track.volume,
        midi_note: track.midi_note,
        midi_volume_cc: track.midi_volume_cc,
    }
}

/// What a key on the screen asks of the caller.
#[derive(Debug, Clone)]
pub enum TuiAction {
    /// Not a screen key: it goes on to the track bindings.
    Pass,
    /// Handled by the screen state alone.
    Done,
    /// Send a command to the mixer.
    Send(Command),
    /// Raise (`up`) or lower the volume of the track `track_id` by one step.
    AdjustVolume { track_id: String, up: bool },
    /// Cancel the pending MIDI learn request.
    CancelLearn,
    /// Wait for a MIDI learn request.
    StartLearn(LearnRequest),
    /// Save `update`, which switches the looping of the track `name`, and
    /// report the outcome with [`TuiState::loop_updated`] or
    /// [`TuiState::loop_update_failed`].
    ToggleLoop { name: String, update: TrackConfigUpdate },
    /// Open the start-time field of the track `track_id`, whose start time
    /// is `start_at` seconds (binary64 bit pattern), with
    /// [`TuiState::open_start_input`].
    OpenStartInput { track_id: String, start_at: u64 },
}

/// The mathematical form of a [`TuiAction`]; a loop switch is described by
/// the track before the switch.
pub enum TuiActionModel {
    Pass,
    Done,
    Send(CommandModel),
    AdjustVolume { track_id: Seq<char>, up: bool },
    CancelLearn,
    StartLearn(LearnRequestModel),
    ToggleLoop { track: TrackModel },
    OpenStartInput { track_id: Seq<char>, start_at: u64 },
}

/// Whether an action is the one described.
pub open spec fn action_matches(a: TuiAction, m: TuiActionModel) -> bool {
    match (a, m) {
        (TuiAction::Pass, TuiActionModel::Pass) => true,
        (TuiAction::Done, TuiActionModel::Done) => true,
        (TuiAction::Send(c), TuiActionModel::Send(cm)) => c@ == cm,
        (
            TuiAction::AdjustVolume { track_id, up },
            TuiActionModel::AdjustVolume { track_id: id, up: u },
        ) => track_id@ == id && up == u,
        (TuiAction::CancelLearn, TuiActionModel::CancelLearn) => true,
        (TuiAction::StartLearn(r), TuiActionModel::StartLearn(rm)) => r@ == rm,
        (TuiAction::ToggleLoop { name, update }, TuiActionModel::ToggleLoop { track }) => {
            &&& name@ == track.name
            &&& update_matches(update, TrackModel { looping: !track.looping, ..track })
        },
        (
            TuiAction::OpenStartInput { track_id, start_at },
            TuiActionModel::OpenStartInput { track_id: id, start_at: s },
        ) => track_id@ == id && start_at == s,
        _ => false,
    }
}

/// Whether `code` is the character key `lower` or `upper`.
pub open spec fn is_letter_key(code: KeyCode, lower: char, upper: char) -> bool {
    code matches KeyCode::Char(c) && (c == lower || c == upper)
}

/// What a press of a screen key (not a navigation key, not `x`, not a
/// volume arrow) does.
pub open spec fn screen_press_spec(m: TuiModel, code: KeyCode, tracks: Seq<TrackModel>) -> (
    TuiModel,
    TuiActionModel,
) {
    let has = m.selected < tracks.len();
    let t = tracks[m.selected as int];
    if is_letter_key(code, 'f', 'F') {
        (TuiModel { fullscreen: !m.fullscreen, ..m }, TuiActionModel::Done)
    } else if is_letter_key(code, 'n', 'N') {
        if m.edit_mode {
            (
                TuiModel { edit_mode: false, start_input: None, message: None, ..m },
                TuiActionModel::Done,
            )
        } else {
            (
                TuiModel { edit_mode: true, midi_mode: false, start_input: None, ..m },
                TuiActionModel::CancelLearn,
            )
        }
    } else if is_letter_key(code, 'm', 'M') {
        if m.midi_mode {
            (TuiModel { midi_mode: false, ..m }, TuiActionModel::CancelLearn)
        } else {
            (
                TuiModel {
                    midi_mode: true,
                    edit_mode: false,
                    start_input: None,
                    message: None,
                    ..m
                },
                TuiActionModel::Done,
            )
        }
    } else if code is Enter {
        if has {
            (m, TuiActionModel::Send(CommandModel::Toggle { track_id: t.id }))
        } else {
            (m, TuiActionModel::Pass)
        }
    } else if is_letter_key(code, 'k', 'K') && m.midi_mode {
        if has {
            (
                m,
                TuiActionModel::StartLearn(
                    LearnRequestModel { track_id: t.id, kind: LearnKind::Trigger },
                ),
            )
        } else {
            (m, TuiActionModel::Pass)
        }
    } else if is_letter_key(code, 'v', 'V') && m.midi_mode {
        if has {
            (
                m,
                TuiActionModel::StartLearn(
                    LearnRequestModel { track_id: t.id, kind: LearnKind::Volume },
                ),
            )
        } else {
            (m, TuiActionModel::Pass)
        }
    } else if is_letter_key(code, 'r', 'R') && m.edit_mode {
        if has {
            (m, TuiActionModel::ToggleLoop { track: t })
        } else {
            (m, TuiActionModel::Done)
        }
    } else if is_letter_key(code, 's', 'S') && m.edit_mode {
        if has {
            (m, TuiActionModel::OpenStartInput { track_id: t.id, start_at: t.start_at })
        } else {
            (m, TuiActionModel::Done)
        }
    } else {
        (m, TuiActionModel::Pass)
    }
}

/// What a key does on the screen, in this order: a press of `x` stops
/// everything; navigation keys move the selection; Left and Right change
/// the selected track's volume; other presses go to
/// [`screen_press_spec`]; anything else passes on.
pub open spec fn tui_key_spec(m: TuiModel, event: KeyEvent, tracks: Seq<TrackModel>) -> (
    TuiModel,
    TuiActionModel,
) {
    if is_letter_key(event.code, 'x', 'X') && event.kind == KeyEventKind::Press {
        (m, TuiActionModel::Send(CommandModel::StopAll))
    } else if selection_key_spec(m.selected, event, tracks.len() as usize) is Some {
        (
            TuiModel {
                selected: selection_key_spec(m.selected, event, tracks.len() as usize)->0,
                ..m
            },
            TuiActionModel::Done,
        )
    } else if is_press_or_repeat(event.kind) && (event.code is Left || event.code is Right)
        && m.selected < tracks.len() {
        (
            m,
            TuiActionModel::AdjustVolume {
                track_id: tracks[m.selected as int].id,
                up: event.code is Right,
            },
        )
    } else if event.kind != KeyEventKind::Press {
        (m, TuiActionModel::Pass)
    } else {
        screen_press_spec(m, event.code, tracks)
    }
}

impl TuiState {
    /// Handles a key while the start-time field is open.
    pub fn handle_start_input_key(&mut self, event: &KeyEvent) -> (r: InputKeyOutcome)
        ensures
            (final(self)@, r) == start_input_key_spec(old(self)@, *event),
    {
        match event.code {
            KeyCode::Char(c) => {
                if c == 'c' && event.control {
                    return InputKeyOutcome::Pass;
                }
            },
            _ => {},
        }
        if !(event.kind == KeyEventKind::Press || event.kind == KeyEventKind::Repeat) {
            return InputKeyOutcome::Done;
        }
        match event.code {
            KeyCode::Esc => {
                self.cancel_start_input();
                InputKeyOutcome::Done
            },
            KeyCode::Enter => InputKeyOutcome::Save,
            KeyCode::Backspace => {
                let taken = self.start_input.take();
                match taken {
                    Some(mut input) => {
                        input.backspace();
                        self.start_input = Some(input);
                    },
                    None => {},
                }
                InputKeyOutcome::Done
            },
            KeyCode::Char(c) => {
                if ascii_digit(c) {
                    let taken = self.start_input.take();
                    match taken {
                        Some(mut input) => {
                            input.push_digit(c);
                            self.start_input = Some(input);
                        },
                        None => {},
                    }
                } else if c == '.' || c == ',' {
                    let taken = self.start_input.take();
                    match taken {
                        Some(mut input) => {
                            input.push_decimal_separator();
                            self.start_input = Some(input);
                        },
                        None => {},
                    }
                }
                InputKeyOutcome::Done
            },
            _ => InputKeyOutcome::Done,
        }
    }

    /// Handles a screen key; see [`tui_key_spec`].
    pub fn handle_tui_key(&mut self, event: &KeyEvent, config: &Config) -> (r: TuiAction)
        requires
            !selection_overflows(old(self).selected, *event, config.tracks.len()),
        ensures
            ({
                let (m, a) = tui_key_spec(old(self)@, *event, config@.tracks);
                final(self)@ == m && action_matches(r, a)
            }),
    {
        let count = config.tracks.len();
        proof {
            assert(config@.tracks.len() == count);
        }
        let is_x = match event.code {
            KeyCode::Char(c) => c == 'x' || c == 'X',
            _ => false,
        };
        if is_x && event.kind == KeyEventKind::Press {
            return TuiAction::Send(Command::StopAll);
        }
        if self.handle_selection_key(event, count) {
            return TuiAction::Done;
        }
        let press_or_repeat = event.kind == KeyEventKind::Press || event.kind
            == KeyEventKind::Repeat;
        let arrow = match event.code {
            KeyCode::Left => Some(false),
            KeyCode::Right => Some(true),
            _ => None,
        };
        if press_or_repeat && self.selected < count {
            match arrow {
                Some(up) => {
                    return TuiAction::AdjustVolume {
                        track_id: config.tracks[self.selected].id.clone(),
                        up,
                    };
                },
                None => {},
            }
        }
        if event.kind != KeyEventKind::Press {
            return TuiAction::Pass;
        }
        self.handle_screen_press(&event.code, config)
    }

    fn handle_screen_press(&mut self, code: &KeyCode, config: &Config) -> (r: TuiAction)
        ensures
            ({
                let (m, a) = screen_press_spec(old(self)@, *code, config@.tracks);
                final(self)@ == m && action_matches(r, a)
            }),
    {
        let has = self.selected < config.tracks.len();
        let letter = match code {
            KeyCode::Char(c) => Some(*c),
            _ => None,
        };
        let is = |lower: char, upper: char| -> (b: bool)
            ensures
                b == (letter matches Some(c) && (c == lower || c == upper)),
            {
                match letter {
                    Some(c) => c == lower || c == upper,
                    None => false,
                }
            };
        if is('f', 'F') {
            self.fullscreen = !self.fullscreen;
            TuiAction::Done
        } else if is('n', 'N') {
            if self.toggle_edit_mode() {
                TuiAction::CancelLearn
            } else {
                TuiAction::Done
            }
        } else if is('m', 'M') {
            if self.toggle_midi_mode() {
                TuiAction::CancelLearn
            } else {
                TuiAction::Done
            }
        } else if matches!(code, KeyCode::Enter) {
            if has {
                TuiAction::Send(Command::Toggle { track_id: config.tracks[self.selected].id.clone() })
            } else {
                TuiAction::Pass
            }
        } else if is('k', 'K') && self.midi_mode {
            if has {
                TuiAction::StartLearn(
                    LearnRequest {
                        track_id: config.tracks[self.selected].id.clone(),
                        kind: LearnKind::Trigger,
                    },
                )
            } else {
                TuiAction::Pass
            }
        } else if is('v', 'V') && self.midi_mode {
            if has {
                TuiAction::StartLearn(
                    LearnRequest {
                        track_id: config.tracks[self.selected].id.clone(),
                        kind: LearnKind::Volume,
                    },
                )
            } else {
                TuiAction::Pass
            }
        } else if is('r', 'R') && self.edit_mode {
            if has {
                let track = &config.tracks[self.selected];
                let mut update = update_from_track(track);
                update.looping = !track.looping;
                TuiAction::ToggleLoop { name: track.name.clone(), update }
            } else {
                TuiAction::Done
            }
        } else if is('s', 'S') && self.edit_mode {
            if has {
                let track = &config.tracks[self.selected];
                TuiAction::OpenStartInput { track_id: track.id.clone(), start_at: track.start_at }
            } else {
                TuiAction::Done
            }
        } else {
            TuiAction::Pass
        }
    }
}

} // verus!

verus! {

/// Whether one of the first `n` names of `v` is `k`.
pub open spec fn occurs(v: Seq<String>, n: int, k: Seq<char>) -> bool {
    exists|j: int| 0 <= j < n && (#[trigger] v[j])@ == k
}

/// The names of the hold keys currently held down.
#[derive(Debug)]
pub struct HeldKeys {
    keys: Vec<String>,
}

impl View for HeldKeys {
    type V = Set<Seq<char>>;

    closed spec fn view(&self) -> Set<Seq<char>> {
        Set::new(|k: Seq<char>| occurs(self.keys@, self.keys@.len() as int, k))
    }
}

impl HeldKeys {
    /// No key held.
    pub fn new() -> (r: HeldKeys)
        ensures
            r@ == Set::<Seq<char>>::empty(),
    {
        let r = HeldKeys { keys: Vec::new() };
        proof {
            assert(r@ =~= Set::<Seq<char>>::empty());
        }
        r
    }

    /// Whether the key named `label` is held.
    pub fn contains(&self, label: &str) -> (r: bool)
        ensures
            r == self@.contains(label@),
    {
        let mut i: usize = 0;
        while i < self.keys.len()
            invariant
                i <= self.keys.len(),
                forall|j: int| 0 <= j < i ==> (#[trigger] self.keys@[j])@ != label@,
            decreases self.keys.len() - i,
        {
            if str_eq(self.keys[i].as_str(), label) {
                proof {
                    assert(occurs(self.keys@, self.keys@.len() as int, label@));
                }
                return true;
            }
            i += 1;
        }
        false
    }

    /// Marks the key named `label` as held; returns whether it was not
    /// held before.
    pub fn insert(&mut self, label: &str) -> (r: bool)
        ensures
            r == !old(self)@.contains(label@),
            final(self)@ == old(self)@.insert(label@),
    {
        if self.contains(label) {
            proof {
                assert(self@ =~= old(self)@.insert(label@));
            }
            return false;
        }
        let ghost before = self.keys@;
        self.keys.push(String::from_str(label));
        proof {
            assert forall|k: Seq<char>|
                #![trigger occurs(self.keys@, self.keys@.len() as int, k)]
                #![trigger occurs(before, before.len() as int, k)]
                occurs(self.keys@, self.keys@.len() as int, k) == (occurs(
                    before,
                    before.len() as int,
                    k,
                ) || k == label@) by {
                if occurs(before, before.len() as int, k) {
                    let i = choose|i: int| 0 <= i < before.len() && (#[trigger] before[i])@ == k;
                    assert(self.keys@[i] == before[i]);
                }
                if k == label@ {
                    assert(self.keys@[before.len() as int]@ == k);
                }
                if occurs(self.keys@, self.keys@.len() as int, k) {
                    let i = choose|i: int|
                        0 <= i < self.keys@.len() && (#[trigger] self.keys@[i])@ == k;
                    if i < before.len() {
                        assert(before[i] == self.keys@[i]);
                    }
                }
            }
            assert(self@ =~= old(self)@.insert(label@));
        }
        true
    }

    /// Marks the key named `label` as released; returns whether it was
    /// held.
    pub fn remove(&mut self, label: &str) -> (r: bool)
        ensures
            r == old(self)@.contains(label@),
            final(self)@ == old(self)@.remove(label@),
    {
        let ghost before = self.keys@;
        let mut kept: Vec<String> = Vec::new();
        let mut found = false;
        let mut i: usize = 0;
        while i < self.keys.len()
            invariant
                i <= self.keys.len(),
                before == self.keys@,
                found == occurs(before, i as int, label@),
                forall|j: int| 0 <= j < kept@.len() ==> (#[trigger] kept@[j])@ != label@,
                forall|k: Seq<char>|
                    #![trigger occurs(kept@, kept@.len() as int, k)]
                    #![trigger occurs(before, i as int, k)]
                    k != label@ ==> (occurs(kept@, kept@.len() as int, k) <==> occurs(
                        before,
                        i as int,
                        k,
                    )),
            decreases self.keys.len() - i,
        {
            let ghost kept_before = kept@;
            if str_eq(self.keys[i].as_str(), label) {
                found = true;
                proof {
                    assert(before[i as int]@ == label@);
                    assert forall|k: Seq<char>|
                        #![trigger occurs(kept@, kept@.len() as int, k)]
                        #![trigger occurs(before, i + 1, k)]
                        k != label@ implies (occurs(kept@, kept@.len() as int, k) <==> occurs(
                            before,
                            i + 1,
                            k,
                        )) by {
                        if occurs(before, i + 1, k) {
                            let j = choose|j: int| 0 <= j < i + 1 && (#[trigger] before[j])@ == k;
                            assert(j < i);
                            assert(occurs(before, i as int, k));
                        }
                        if occurs(before, i as int, k) {
                            let j = choose|j: int| 0 <= j < i && (#[trigger] before[j])@ == k;
                            assert(occurs(before, i + 1, k));
                        }
                    }
                }
            } else {
                kept.push(self.keys[i].clone());
                proof {
                    assert forall|k: Seq<char>|
                        #![trigger occurs(kept@, kept@.len() as int, k)]
                        #![trigger occurs(before, i + 1, k)]
                        k != label@ implies (occurs(kept@, kept@.len() as int, k) <==> occurs(
                            before,
                            i + 1,
                            k,
                        )) by {
                        if occurs(kept@, kept@.len() as int, k) {
                            let j = choose|j: int| 0 <= j < kept@.len() && (#[trigger] kept@[j])@ == k;
                            if j < kept_before.len() {
                                assert(kept_before[j] == kept@[j]);
                                assert(occurs(kept_before, kept_before.len() as int, k));
                                let l = choose|l: int| 0 <= l < i && (#[trigger] before[l])@ == k;
                                assert(occurs(before, i + 1, k));
                            } else {
                                assert(before[i as int]@ == k);
                                assert(occurs(before, i + 1, k));
                            }
                        }
                        if occurs(before, i + 1, k) {
                            let j = choose|j: int| 0 <= j < i + 1 && (#[trigger] before[j])@ == k;
                            if j < i {
                                assert(occurs(before, i as int, k));
                                assert(occurs(kept_before, kept_before.len() as int, k));
                                let l = choose|l: int|
                                    0 <= l < kept_before.len() && (#[trigger] kept_before[l])@ == k;
                                assert(kept@[l] == kept_before[l]);
                            } else {
                                assert(kept@[kept_before.len() as int]@ == k);
                            }
                            assert(occurs(kept@, kept@.len() as int, k));
                        }
                    }
                    assert forall|j: int| 0 <= j < kept@.len() implies (#[trigger] kept@[j])@
                        != label@ by {
                        if j < kept_before.len() {
                            assert(kept@[j] == kept_before[j]);
                        }
                    }
                }
            }
            proof {
                if occurs(before, i + 1, label@) {
                    let j = choose|j: int| 0 <= j < i + 1 && (#[trigger] before[j])@ == label@;
                    if j < i {
                        assert(occurs(before, i as int, label@));
                    }
                }
                if found && !(before[i as int]@ == label@) {
                    let j = choose|j: int| 0 <= j < i && (#[trigger] before[j])@ == label@;
                    assert(occurs(before, i + 1, label@));
                }
                if before[i as int]@ == label@ {
                    assert(occurs(before, i + 1, label@));
                }
            }
            i += 1;
        }
        self.keys = kept;
        proof {
            assert forall|k: Seq<char>| self@.contains(k) == old(self)@.remove(label@).contains(k) by {
                if k == label@ {
                    if occurs(self.keys@, self.keys@.len() as int, k) {
                        let j = choose|j: int|
                            0 <= j < self.keys@.len() && (#[trigger] self.keys@[j])@ == k;
                        assert(kept@[j]@ != label@);
                    }
                } else {
                    assert(occurs(kept@, kept@.len() as int, k) <==> occurs(before, i as int, k));
                }
            }
            assert(self@ =~= old(self)@.remove(label@));
        }
        found
    }
}

/// What a track key does on the screen, given the keys held: a press
/// toggles a toggle track; a press of a hold key not yet held starts its
/// track and marks it held; a release of a held hold key ends its track and
/// marks it released. Returns the held keys after the event and the
/// command to send.
pub open spec fn track_key_spec(
    binding: Option<(Seq<char>, PlaybackMode)>,
    label: Seq<char>,
    kind: KeyEventKind,
    held: Set<Seq<char>>,
) -> (Set<Seq<char>>, Option<CommandModel>) {
    match binding {
        None => (held, None),
        Some((id, mode)) => match (mode, kind) {
            (PlaybackMode::Toggle, KeyEventKind::Press) => (
                held,
                Some(CommandModel::Toggle { track_id: id }),
            ),
            (PlaybackMode::Hold, KeyEventKind::Press) => if held.contains(label) {
                (held, None)
            } else {
                (held.insert(label), Some(CommandModel::HoldStart { track_id: id }))
            },
            (PlaybackMode::Hold, KeyEventKind::Release) => if held.contains(label) {
                (held.remove(label), Some(CommandModel::HoldEnd { track_id: id }))
            } else {
                (held, None)
            },
            _ => (held, None),
        },
    }
}

/// What a track key does on the screen; see [`track_key_spec`].
pub fn track_key_command(event: &KeyEvent, bindings: &KeyBindings, held: &mut HeldKeys) -> (r: Option<
    Command,
>)
    ensures
        match key_label_spec(event.code) {
            None => r is None && final(held)@ == old(held)@,
            Some(label) => {
                let (h, c) = track_key_spec(bindings.lookup(label), label, event.kind, old(held)@);
                &&& final(held)@ == h
                &&& command_model(r) == c
            },
        },
{
    let label = match key_label(&event.code) {
        Some(l) => l,
        None => {
            return None;
        },
    };
    let binding = match bindings.get(label.as_str()) {
        Some(b) => b,
        None => {
            return None;
        },
    };
    match (binding.mode, event.kind) {
        (PlaybackMode::Toggle, KeyEventKind::Press) => Some(
            Command::Toggle { track_id: binding.track_id.clone() },
        ),
        (PlaybackMode::Hold, KeyEventKind::Press) => {
            if held.insert(label.as_str()) {
                Some(Command::HoldStart { track_id: binding.track_id.clone() })
            } else {
                None
            }
        },
        (PlaybackMode::Hold, KeyEventKind::Release) => {
            if held.remove(label.as_str()) {
                Some(Command::HoldEnd { track_id: binding.track_id.clone() })
            } else {
                None
            }
        },
        _ => None,
    }
}

/// Pressing and then releasing a hold key that was not held sends its
/// start and then its end, and leaves the held keys as they were.
pub proof fn lemma_hold_press_release(
    id: Seq<char>,
    label: Seq<char>,
    held: Set<Seq<char>>,
)
    requires
        !held.contains(label),
    ensures
        ({
            let b = Some((id, PlaybackMode::Hold));
            let (h1, c1) = track_key_spec(b, label, KeyEventKind::Press, held);
            let (h2, c2) = track_key_spec(b, label, KeyEventKind::Release, h1);
            &&& c1 == Some(CommandModel::HoldStart { track_id: id })
            &&& c2 == Some(CommandModel::HoldEnd { track_id: id })
            &&& h2 == held
        }),
{
    assert(held.insert(label).remove(label) =~= held);
}

/// The held keys and the commands sent, in order, after the events `kinds`
/// on the key `label`, starting from the held keys `held`.
pub open spec fn key_events_spec(
    binding: Option<(Seq<char>, PlaybackMode)>,
    label: Seq<char>,
    kinds: Seq<KeyEventKind>,
    held: Set<Seq<char>>,
) -> (Set<Seq<char>>, Seq<CommandModel>)
    decreases kinds.len(),
{
    if kinds.len() == 0 {
        (held, Seq::empty())
    } else {
        let before = key_events_spec(binding, label, kinds.drop_last(), held);
        let (h, c) = track_key_spec(binding, label, kinds.last(), before.0);
        (
            h,
            match c {
                Some(x) => before.1.push(x),
                None => before.1,
            },
        )
    }
}

/// The number of presses among `kinds`.
pub open spec fn press_count(kinds: Seq<KeyEventKind>) -> nat
    decreases kinds.len(),
{
    if kinds.len() == 0 {
        0
    } else if kinds.last() == KeyEventKind::Press {
        press_count(kinds.drop_last()) + 1
    } else {
        press_count(kinds.drop_last())
    }
}

proof fn lemma_hold_key_down(
    id: Seq<char>,
    label: Seq<char>,
    held: Set<Seq<char>>,
    repeats: Seq<KeyEventKind>,
)
    requires
        !held.contains(label),
        forall|i: int| 0 <= i < repeats.len() ==> #[trigger] repeats[i] != KeyEventKind::Release,
    ensures
        key_events_spec(Some((id, PlaybackMode::Hold)), label, seq![KeyEventKind::Press] + repeats, held)
            == (held.insert(label), seq![CommandModel::HoldStart { track_id: id }]),
    decreases repeats.len(),
{
    let b = Some((id, PlaybackMode::Hold));
    let kinds = seq![KeyEventKind::Press] + repeats;
    if repeats.len() == 0 {
        assert(kinds =~= seq![KeyEventKind::Press]);
        assert(kinds.drop_last() =~= Seq::<KeyEventKind>::empty());
        assert(key_events_spec(b, label, kinds.drop_last(), held) == (
            held,
            Seq::<CommandModel>::empty(),
        ));
        assert(kinds.last() == KeyEventKind::Press);
        assert(Seq::<CommandModel>::empty().push(CommandModel::HoldStart { track_id: id })
            =~= seq![CommandModel::HoldStart { track_id: id }]);
    } else {
        let r = repeats.drop_last();
        assert forall|i: int| 0 <= i < r.len() implies #[trigger] r[i] != KeyEventKind::Release by {
            assert(r[i] == repeats[i]);
        }
        lemma_hold_key_down(id, label, held, r);
        assert(kinds.drop_last() =~= seq![KeyEventKind::Press] + r);
        assert(kinds.last() == repeats[repeats.len() - 1]);
        assert(held.insert(label).contains(label));
        assert(track_key_spec(b, label, kinds.last(), held.insert(label)) == (
            held.insert(label),
            None::<CommandModel>,
        ));
    }
}

/// Holding a hold key: a press, any number of repeated presses or repeats,
/// then a release, sends exactly the track's start and then its end, and
/// leaves the held keys as they were.
pub proof fn lemma_hold_key_sequence(
    id: Seq<char>,
    label: Seq<char>,
    held: Set<Seq<char>>,
    repeats: Seq<KeyEventKind>,
)
    requires
        !held.contains(label),
        forall|i: int| 0 <= i < repeats.len() ==> #[trigger] repeats[i] != KeyEventKind::Release,
    ensures
        key_events_spec(
            Some((id, PlaybackMode::Hold)),
            label,
            seq![KeyEventKind::Press] + repeats + seq![KeyEventKind::Release],
            held,
        ) == (
            held,
            seq![
                CommandModel::HoldStart { track_id: id },
                CommandModel::HoldEnd { track_id: id },
            ],
        ),
{
    let kinds = seq![KeyEventKind::Press] + repeats + seq![KeyEventKind::Release];
    lemma_hold_key_down(id, label, held, repeats);
    assert(kinds.drop_last() =~= seq![KeyEventKind::Press] + repeats);
    assert(kinds.last() == KeyEventKind::Release);
    assert(held.insert(label).remove(label) =~= held);
    assert(seq![CommandModel::HoldStart { track_id: id }].push(CommandModel::HoldEnd { track_id: id })
        =~= seq![
        CommandModel::HoldStart { track_id: id },
        CommandModel::HoldEnd { track_id: id },
    ]);
}

/// A toggle key sends one toggle of its track for each press, and nothing
/// for repeats and releases; the held keys do not change.
pub proof fn lemma_toggle_key_sequence(
    id: Seq<char>,
    label: Seq<char>,
    held: Set<Seq<char>>,
    kinds: Seq<KeyEventKind>,
)
    ensures
        key_events_spec(Some((id, PlaybackMode::Toggle)), label, kinds, held) == (
            held,
            Seq::new(press_count(kinds), |i: int| CommandModel::Toggle { track_id: id }),
        ),
    decreases kinds.len(),
{
    if kinds.len() > 0 {
        lemma_toggle_key_sequence(id, label, held, kinds.drop_last());
        let before = Seq::new(
            press_count(kinds.drop_last()),
            |i: int| CommandModel::Toggle { track_id: id },
        );
        if kinds.last() == KeyEventKind::Press {
            assert(before.push(CommandModel::Toggle { track_id: id }) =~= Seq::new(
                press_count(kinds),
                |i: int| CommandModel::Toggle { track_id: id },
            ));
        } else {
            assert(before =~= Seq::new(
                press_count(kinds),
                |i: int| CommandModel::Toggle { track_id: id },
            ));
        }
    }
}

/// A repeated press of a held hold key sends nothing: a hold track is not
/// restarted while its key stays down.
pub proof fn lemma_held_key_press_is_quiet(id: Seq<char>, label: Seq<char>, held: Set<Seq<char>>)
    requires
        held.contains(label),
    ensures
        track_key_spec(Some((id, PlaybackMode::Hold)), label, KeyEventKind::Press, held) == (
            held,
            None::<CommandModel>,
        ),
{
}

} // verus!

verus! {

/// A number, or `-` when there is none.
pub open spec fn number_or_dash(n: Option<u8>) -> Seq<char> {
    match n {
        Some(x) => decimal(x as nat),
        None => "-"@,
    }
}

/// The MIDI column of a track: `N:<note> CC:<controller>`, with `-` for
/// what is not bound.
pub open spec fn midi_label_spec(note: Option<u8>, cc: Option<u8>) -> Seq<char> {
    "N:"@ + number_or_dash(note) + " CC:"@ + number_or_dash(cc)
}

fn push_number_or_dash(s: &mut String, n: Option<u8>)
    ensures
        final(s)@ == old(s)@ + number_or_dash(n),
{
    match n {
        Some(x) => push_decimal(s, x as u128),
        None => s.append("-"),
    }
}

/// The MIDI column of a track.
pub fn midi_label(note: Option<u8>, cc: Option<u8>) -> (r: String)
    ensures
        r@ == midi_label_spec(note, cc),
{
    let mut s = String::from_str("N:");
    push_number_or_dash(&mut s, note);
    s.append(" CC:");
    push_number_or_dash(&mut s, cc);
    s
}

/// The name of the screen's mode, as the full-screen title shows it.
pub open spec fn compact_mode_spec(m: TuiModel) -> Seq<char> {
    if m.start_input is Some {
        "start input"@
    } else if m.edit_mode {
        "edit"@
    } else if m.midi_mode {
        "midi"@
    } else {
        "playback"@
    }
}

/// The name of the screen's mode.
pub fn compact_mode(state: &TuiState) -> (r: &'static str)
    ensures
        r@ == compact_mode_spec(state@),
{
    if state.start_input.is_some() {
        "start input"
    } else if state.edit_mode {
        "edit"
    } else if state.midi_mode {
        "midi"
    } else {
        "playback"
    }
}

/// The name of the track with the id `id`, or the id itself when no track
/// has it.
pub open spec fn track_name_for(tracks: Seq<TrackModel>, id: Seq<char>) -> Seq<char> {
    if has_track(tracks, id) {
        tracks[first_track_index(tracks, id)].name
    } else {
        id
    }
}

fn track_name_of(config: &Config, id: &String) -> (r: String)
    ensures
        r@ == track_name_for(config@.tracks, id@),
{
    match track_position(&config.tracks, id.as_str()) {
        Some(i) => {
            proof {
                assert(has_track(config@.tracks, id@)) by {
                    assert(config@.tracks[i as int].id == id@);
                }
            }
            config.tracks[i].name.clone()
        },
        None => id.clone(),
    }
}

/// An optional request, in mathematical form.
pub open spec fn pending_model(p: Option<&LearnRequest>) -> Option<LearnRequestModel> {
    match p {
        Some(r) => Some(r@),
        None => None,
    }
}

/// The title of the track table: `Tracks`, and in full-screen mode also
/// the mode, the message and the pending MIDI learn request, separated by
/// ` | `.
pub open spec fn table_title_spec(
    tracks: Seq<TrackModel>,
    pending: Option<LearnRequestModel>,
    m: TuiModel,
) -> Seq<char> {
    if !m.fullscreen {
        "Tracks"@
    } else {
        "Tracks | full screen | f = normal | mode: "@ + compact_mode_spec(m) + (match m.message {
            Some(msg) => " | "@ + msg.text,
            None => Seq::empty(),
        }) + (match pending {
            Some(r) => " | learn "@ + (match r.kind {
                LearnKind::Trigger => "trigger"@,
                LearnKind::Volume => "volume"@,
            }) + ": "@ + track_name_for(tracks, r.track_id),
            None => Seq::empty(),
        })
    }
}

/// The title of the track table.
pub fn table_title(config: &Config, pending: Option<&LearnRequest>, state: &TuiState) -> (r: String)
    ensures
        r@ == table_title_spec(config@.tracks, pending_model(pending), state@),
{
    if !state.fullscreen {
        return String::from_str("Tracks");
    }
    let mut s = String::from_str("Tracks | full screen | f = normal | mode: ");
    s.append(compact_mode(state));
    let ghost head = s@;
    match &state.message {
        Some(message) => {
            s.append(" | ");
            s.append(message.text.as_str());
        },
        None => {
            proof {
                assert(s@ =~= head + Seq::<char>::empty());
            }
        },
    }
    let ghost middle = s@;
    match pending {
        Some(request) => {
            s.append(" | learn ");
            match request.kind {
                LearnKind::Trigger => s.append("trigger"),
                LearnKind::Volume => s.append("volume"),
            }
            s.append(": ");
            let name = track_name_of(config, &request.track_id);
            s.append(name.as_str());
        },
        None => {
            proof {
                assert(s@ =~= middle + Seq::<char>::empty());
            }
        },
    }
    proof {
        assert(s@ =~= table_title_spec(config@.tracks, pending_model(pending), state@));
    }
    s
}

/// The MIDI learn line of the header.
pub open spec fn learn_line_spec(tracks: Seq<TrackModel>, pending: Option<LearnRequestModel>) -> Seq<
    char,
> {
    match pending {
        None => "MIDI learn: idle"@,
        Some(r) => "MIDI learn: waiting for "@ + (match r.kind {
            LearnKind::Trigger => "trigger note"@,
            LearnKind::Volume => "volume knob"@,
        }) + " on "@ + track_name_for(tracks, r.track_id),
    }
}

/// The MIDI learn line of the header.
pub fn learn_line_text(config: &Config, pending: Option<&LearnRequest>) -> (r: String)
    ensures
        r@ == learn_line_spec(config@.tracks, pending_model(pending)),
{
    match pending {
        None => String::from_str("MIDI learn: idle"),
        Some(request) => {
            let mut s = String::from_str("MIDI learn: waiting for ");
            match request.kind {
                LearnKind::Trigger => s.append("trigger note"),
                LearnKind::Volume => s.append("volume knob"),
            }
            s.append(" on ");
            let name = track_name_of(config, &request.track_id);
            s.append(name.as_str());
            s
        },
    }
}

/// The mode line of the header.
pub open spec fn mode_line_spec(m: TuiModel) -> Seq<char> {
    match m.start_input {
        Some(i) => "Mode: edit start time "@ + display_spec(i)
            + " (digits, Backspace, Enter save, Esc cancel)"@,
        None => if m.edit_mode {
            "Mode: edit"@
        } else if m.midi_mode {
            "Mode: MIDI learn"@
        } else {
            "Mode: playback"@
        },
    }
}

/// The mode line of the header.
pub fn mode_line_text(state: &TuiState) -> (r: String)
    ensures
        r@ == mode_line_spec(state@),
{
    match &state.start_input {
        Some(input) => {
            let mut s = String::from_str("Mode: edit start time ");
            let shown = input.display_value();
            s.append(shown.as_str());
            s.append(" (digits, Backspace, Enter save, Esc cancel)");
            s
        },
        None => if state.edit_mode {
            String::from_str("Mode: edit")
        } else if state.midi_mode {
            String::from_str("Mode: MIDI learn")
        } else {
            String::from_str("Mode: playback")
        },
    }
}

/// The status line of the header.
pub open spec fn status_line_spec(m: TuiModel) -> Seq<char> {
    match m.message {
        None => "Status: ready"@,
        Some(msg) => "Status: "@ + msg.text,
    }
}

/// The status line of the header.
pub fn status_line_text(state: &TuiState) -> (r: String)
    ensures
        r@ == status_line_spec(state@),
{
    match &state.message {
        None => String::from_str("Status: ready"),
        Some(message) => {
            let mut s = String::from_str("Status: ");
            s.append(message.text.as_str());
            s
        },
    }
}

/// The name of a playback mode, as the table shows it.
pub open spec fn mode_label_spec(mode: PlaybackMode) -> Seq<char> {
    match mode {
        PlaybackMode::Toggle => "toggle"@,
        PlaybackMode::Hold => "hold"@,
    }
}

/// The name of a playback mode.
pub fn mode_label(mode: PlaybackMode) -> (r: &'static str)
    ensures
        r@ == mode_label_spec(mode),
{
    match mode {
        PlaybackMode::Toggle => "toggle",
        PlaybackMode::Hold => "hold",
    }
}

/// What a learn request waits for, as the graphical screen shows it.
pub open spec fn learn_kind_label_spec(kind: LearnKind) -> Seq<char> {
    match kind {
        LearnKind::Trigger => "trigger note"@,
        LearnKind::Volume => "volume CC"@,
    }
}

/// What a learn request waits for.
pub fn learn_kind_label(kind: LearnKind) -> (r: &'static str)
    ensures
        r@ == learn_kind_label_spec(kind),
{
    match kind {
        LearnKind::Trigger => "trigger note",
        LearnKind::Volume => "volume CC",
    }
}

} // verus!

verus! {

/// Clamping puts the selection on a row of any non-empty table, and
/// leaves a selection that is already on a row where it is.
pub proof fn lemma_clamped_selection_in_table(selected: usize, track_count: usize)
    ensures
        track_count > 0 ==> clamped_selection(selected, track_count) < track_count,
        selected < track_count ==> clamped_selection(selected, track_count) == selected,
{
}

/// Navigation keys keep a selection that is on a row on a row.
pub proof fn lemma_selection_stays_in_table(selected: usize, event: KeyEvent, track_count: usize)
    requires
        selected < track_count,
    ensures
        selection_key_spec(selected, event, track_count) matches Some(s) ==> s < track_count,
{
}

/// The volume arrows. A press or repeat of Left lowers, and of Right raises,
/// the volume of the selected track by one step; with no track selected, or
/// on a release, they pass on. Neither changes the screen state.
pub proof fn lemma_volume_arrows(m: TuiModel, kind: KeyEventKind, control: bool, tracks: Seq<TrackModel>)
    requires
        tracks.len() <= usize::MAX,
    ensures
        ({
            let left = KeyEvent { code: KeyCode::Left, kind, control };
            let right = KeyEvent { code: KeyCode::Right, kind, control };
            &&& (kind == KeyEventKind::Press || kind == KeyEventKind::Repeat) && m.selected
                < tracks.len() ==> tui_key_spec(m, left, tracks) == (
                m,
                TuiActionModel::AdjustVolume { track_id: tracks[m.selected as int].id, up: false },
            ) && tui_key_spec(m, right, tracks) == (
                m,
                TuiActionModel::AdjustVolume { track_id: tracks[m.selected as int].id, up: true },
            )
            &&& (kind == KeyEventKind::Release || m.selected >= tracks.len()) ==> tui_key_spec(
                m,
                left,
                tracks,
            ) == (m, TuiActionModel::Pass) && tui_key_spec(m, right, tracks) == (
                m,
                TuiActionModel::Pass,
            )
        }),
{
}

/// A key event of kind `kind` on `code`.
pub open spec fn key_event(code: KeyCode, kind: KeyEventKind, control: bool) -> KeyEvent {
    KeyEvent { code, kind, control }
}

/// The navigation keys, pressed or repeated, on a table whose selected row
/// exists: Up and Down move one row, Page Up and Page Down ten rows, never
/// past the first or last row; Home selects the first row and End the last.
/// Nothing else on the screen changes.
pub proof fn lemma_navigation_keys(
    m: TuiModel,
    kind: KeyEventKind,
    control: bool,
    tracks: Seq<TrackModel>,
)
    requires
        tracks.len() <= usize::MAX,
        m.selected < tracks.len(),
        kind == KeyEventKind::Press || kind == KeyEventKind::Repeat,
    ensures
        ({
            let n = tracks.len();
            let s = m.selected;
            let moved = |to: int| (TuiModel { selected: to as usize, ..m }, TuiActionModel::Done);
            &&& tui_key_spec(m, key_event(KeyCode::Up, kind, control), tracks) == moved(
                if s == 0 {
                    0
                } else {
                    s - 1
                },
            )
            &&& tui_key_spec(m, key_event(KeyCode::Down, kind, control), tracks) == moved(
                if s + 1 < n {
                    s + 1
                } else {
                    n - 1
                },
            )
            &&& tui_key_spec(m, key_event(KeyCode::PageUp, kind, control), tracks) == moved(
                if s >= 10 {
                    s - 10
                } else {
                    0
                },
            )
            &&& tui_key_spec(m, key_event(KeyCode::PageDown, kind, control), tracks) == moved(
                if s + 10 < n {
                    s + 10
                } else {
                    n - 1
                },
            )
            &&& tui_key_spec(m, key_event(KeyCode::Home, kind, control), tracks) == moved(0)
            &&& tui_key_spec(m, key_event(KeyCode::End, kind, control), tracks) == moved(n - 1)
        }),
{
}

/// The screen's other keys, pressed. `x` stops everything. Enter toggles
/// the selected track. `f` switches full screen. `n` enters edit mode
/// (leaving MIDI mode, cancelling a pending learn request) or leaves it
/// (dropping the start-time field and the message). `m` enters MIDI mode
/// (leaving edit mode, dropping the start-time field and the message) or
/// leaves it (cancelling a pending learn request). In MIDI mode, `k` and
/// `v` learn the selected track's trigger note and volume controller. In
/// edit mode, `r` switches the selected track's looping and `s` opens its
/// start-time field. Upper-case letters do the same.
pub proof fn lemma_screen_key_presses(m: TuiModel, control: bool, tracks: Seq<TrackModel>)
    requires
        tracks.len() <= usize::MAX,
    ensures
        ({
            let has = m.selected < tracks.len();
            let t = tracks[m.selected as int];
            let press = |c: char| tui_key_spec(m, key_event(KeyCode::Char(c), KeyEventKind::Press, control), tracks);
            &&& press('x') == (m, TuiActionModel::Send(CommandModel::StopAll))
            &&& press('X') == (m, TuiActionModel::Send(CommandModel::StopAll))
            &&& has ==> tui_key_spec(m, key_event(KeyCode::Enter, KeyEventKind::Press, control), tracks)
                == (m, TuiActionModel::Send(CommandModel::Toggle { track_id: t.id }))
            &&& press('f') == (TuiModel { fullscreen: !m.fullscreen, ..m }, TuiActionModel::Done)
            &&& press('F') == press('f')
            &&& m.edit_mode ==> press('n') == (
                TuiModel { edit_mode: false, start_input: None, message: None, ..m },
                TuiActionModel::Done,
            )
            &&& !m.edit_mode ==> press('n') == (
                TuiModel { edit_mode: true, midi_mode: false, start_input: None, ..m },
                TuiActionModel::CancelLearn,
            )
            &&& press('N') == press('n')
            &&& m.midi_mode ==> press('m') == (
                TuiModel { midi_mode: false, ..m },
                TuiActionModel::CancelLearn,
            )
            &&& !m.midi_mode ==> press('m') == (
                TuiModel { midi_mode: true, edit_mode: false, start_input: None, message: None, ..m },
                TuiActionModel::Done,
            )
            &&& press('M') == press('m')
            &&& m.midi_mode && has ==> press('k') == (
                m,
                TuiActionModel::StartLearn(
                    LearnRequestModel { track_id: t.id, kind: LearnKind::Trigger },
                ),
            ) && press('K') == press('k')
            &&& m.midi_mode && has ==> press('v') == (
                m,
                TuiActionModel::StartLearn(
                    LearnRequestModel { track_id: t.id, kind: LearnKind::Volume },
                ),
            ) && press('V') == press('v')
            &&& m.edit_mode && has ==> press('r') == (m, TuiActionModel::ToggleLoop { track: t })
                && press('R') == press('r')
            &&& m.edit_mode && has ==> press('s') == (
                m,
                TuiActionModel::OpenStartInput { track_id: t.id, start_at: t.start_at },
            ) && press('S') == press('s')
        }),
{
}

/// The keys of the open start-time field, pressed. Escape closes it with a
/// message, Enter asks to save it, Control+C passes on, and a release does
/// nothing. A digit clears the text the field opened with, then is appended
/// while the text has fewer than seven bytes and fewer than two decimals; a
/// `,` does what a `.` does. Only the field changes.
pub proof fn lemma_start_input_keys(
    m: TuiModel,
    input: StartInputModel,
    code: KeyCode,
    d: char,
    control: bool,
)
    requires
        m.start_input == Some(input),
        is_ascii_digit_spec(d),
    ensures
        ({
            let press = |c: KeyCode| start_input_key_spec(m, key_event(c, KeyEventKind::Press, control));
            let text = if input.pristine {
                Seq::<char>::empty()
            } else {
                input.text
            };
            let typed = start_input_key_spec(m, key_event(KeyCode::Char(d), KeyEventKind::Press, false));
            &&& press(KeyCode::Esc) == (
                TuiModel {
                    start_input: None,
                    message: Some(
                        MessageModel { text: "Start time edit cancelled"@, is_error: false },
                    ),
                    ..m
                },
                InputKeyOutcome::Done,
            )
            &&& press(KeyCode::Enter) == (m, InputKeyOutcome::Save)
            &&& start_input_key_spec(m, key_event(KeyCode::Char('c'), KeyEventKind::Press, true)) == (
                m,
                InputKeyOutcome::Pass,
            )
            &&& start_input_key_spec(m, key_event(code, KeyEventKind::Release, false)) == (
                m,
                InputKeyOutcome::Done,
            )
            &&& typed.1 == InputKeyOutcome::Done
            &&& typed.0.start_input matches Some(after) && after.track_id == input.track_id
                && !after.pristine && after.text == if crate::ui::start_input::utf8_len(text) < 7
                && crate::ui::start_input::decimals_spec(text) < 2 {
                text.push(d)
            } else {
                text
            }
            &&& typed.0 == TuiModel { start_input: typed.0.start_input, ..m }
            &&& press(KeyCode::Char(',')) == press(KeyCode::Char('.'))
        }),
{
}

} // verus!
