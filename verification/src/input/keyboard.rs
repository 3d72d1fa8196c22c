//! Keyboard input: key names, the keys a show binds, and what a key event
//! asks for.

use vstd::prelude::*;
use crate::command::{Command, CommandModel};
use crate::config::{Config, PlaybackMode, TrackModel};
use crate::text::{
    char_lowercase, decimal, lowercase_char, lowercase_str, push_decimal, str_eq, str_lowercase,
    string_from_chars,
};

verus! {

/// A key, as the terminal reports it.
#[derive(Debug, Clone)]
pub enum KeyCode {
    Backspace,
    Enter,
    Left,
    Right,
    Up,
    Down,
    Home,
    End,
    PageUp,
    PageDown,
    Tab,
    BackTab,
    Delete,
    Insert,
    /// A function key, by number.
    F(u8),
    Char(char),
    Null,
    Esc,
    CapsLock,
    ScrollLock,
    NumLock,
    PrintScreen,
    Pause,
    Menu,
    KeypadBegin,
    /// A media key, by its name (such as `PlayPause`).
    Media(String),
    /// A modifier key pressed on its own, by its name (such as `LeftShift`).
    Modifier(String),
}

/// Whether a key went down, repeats, or went up.
#[derive(Debug, Clone, Copy, PartialEq, Eq, Structural)]
pub enum KeyEventKind {
    Press,
    Repeat,
    Release,
}

/// A key event: the key, what happened to it, and whether Control was held.
#[derive(Debug, Clone)]
pub struct KeyEvent {
    pub code: KeyCode,
    pub kind: KeyEventKind,
    pub control: bool,
}

/// The name under which a show binds a key; `None` for the null key.
pub open spec fn key_label_spec(code: KeyCode) -> Option<Seq<char>> {
    match code {
        KeyCode::Char(c) => if c == ' ' {
            Some("space"@)
        } else {
            Some(char_lowercase(c))
        },
        KeyCode::Null => None,
        KeyCode::Enter => Some("enter"@),
        KeyCode::Tab => Some("tab"@),
        KeyCode::BackTab => Some("backtab"@),
        KeyCode::Backspace => Some("backspace"@),
        KeyCode::CapsLock => Some("capslock"@),
        KeyCode::ScrollLock => Some("scrolllock"@),
        KeyCode::NumLock => Some("numlock"@),
        KeyCode::PrintScreen => Some("printscreen"@),
        KeyCode::Pause => Some("pause"@),
        KeyCode::Menu => Some("menu"@),
        KeyCode::KeypadBegin => Some("keypadbegin"@),
        KeyCode::Media(name) => Some(str_lowercase(name@)),
        KeyCode::Modifier(name) => Some(str_lowercase(name@)),
        KeyCode::Delete => Some("delete"@),
        KeyCode::Insert => Some("insert"@),
        KeyCode::Home => Some("home"@),
        KeyCode::End => Some("end"@),
        KeyCode::PageUp => Some("pageup"@),
        KeyCode::PageDown => Some("pagedown"@),
        KeyCode::Left => Some("left"@),
        KeyCode::Right => Some("right"@),
        KeyCode::Up => Some("up"@),
        KeyCode::Down => Some("down"@),
        KeyCode::F(n) => Some(seq!['f'] + decimal(n as nat)),
        KeyCode::Esc => Some("esc"@),
    }
}

/// An optional text, in mathematical form.
pub open spec fn label_model(o: Option<String>) -> Option<Seq<char>> {
    match o {
        Some(s) => Some(s@),
        None => None,
    }
}

/// The name under which a show binds the key `code`: characters in lower
/// case, the space bar as `space`, function keys as `f1`, `f2`, ...
pub fn key_label(code: &KeyCode) -> (r: Option<String>)
    ensures
        label_model(r) == key_label_spec(*code),
{
    match code {
        KeyCode::Char(c) => if *c == ' ' {
            Some(String::from_str("space"))
        } else {
            Some(string_from_chars(&lowercase_char(*c)))
        },
        KeyCode::Null => None,
        KeyCode::Enter => Some(String::from_str("enter")),
        KeyCode::Tab => Some(String::from_str("tab")),
        KeyCode::BackTab => Some(String::from_str("backtab")),
        KeyCode::Backspace => Some(String::from_str("backspace")),
        KeyCode::CapsLock => Some(String::from_str("capslock")),
        KeyCode::ScrollLock => Some(String::from_str("scrolllock")),
        KeyCode::NumLock => Some(String::from_str("numlock")),
        KeyCode::PrintScreen => Some(String::from_str("printscreen")),
        KeyCode::Pause => Some(String::from_str("pause")),
        KeyCode::Menu => Some(String::from_str("menu")),
        KeyCode::KeypadBegin => Some(String::from_str("keypadbegin")),
        KeyCode::Media(name) => Some(lowercase_str(name.as_str())),
        KeyCode::Modifier(name) => Some(lowercase_str(name.as_str())),
        KeyCode::Delete => Some(String::from_str("delete")),
        KeyCode::Insert => Some(String::from_str("insert")),
        KeyCode::Home => Some(String::from_str("home")),
        KeyCode::End => Some(String::from_str("end")),
        KeyCode::PageUp => Some(String::from_str("pageup")),
        KeyCode::PageDown => Some(String::from_str("pagedown")),
        KeyCode::Left => Some(String::from_str("left")),
        KeyCode::Right => Some(String::from_str("right")),
        KeyCode::Up => Some(String::from_str("up")),
        KeyCode::Down => Some(String::from_str("down")),
        KeyCode::F(n) => {
            let mut s = String::from_str("f");
            proof {
                reveal_strlit("f");
                assert(s@ =~= seq!['f']);
            }
            push_decimal(&mut s, *n as u128);
            Some(s)
        },
        KeyCode::Esc => Some(String::from_str("esc")),
    }
}

/// Whether a key event ends the program: Escape, Control+C, or a press of
/// `q`.
pub open spec fn should_quit_spec(event: KeyEvent) -> bool {
    ||| event.code is Esc
    ||| (event.code matches KeyCode::Char(c) && c == 'c' && event.control)
    ||| (event.code matches KeyCode::Char(c) && c == 'q' && event.kind == KeyEventKind::Press)
}

/// Whether `event` ends the program.
pub fn should_quit(event: &KeyEvent) -> (r: bool)
    ensures
        r == should_quit_spec(*event),
{
    match event.code {
        KeyCode::Esc => true,
        KeyCode::Char(c) => (c == 'c' && event.control) || (c == 'q' && event.kind
            == KeyEventKind::Press),
        _ => false,
    }
}

/// The track a key triggers, and how.
#[derive(Debug, Clone)]
pub struct KeyBinding {
    pub track_id: String,
    pub mode: PlaybackMode,
}

/// The keys a show binds, by lower-case key name, in track order.
#[derive(Debug, Clone)]
pub struct KeyBindings {
    entries: Vec<(String, KeyBinding)>,
}

/// The track bound to `label` among `entries`: the last entry with that
/// name.
pub open spec fn entry_for(entries: Seq<(String, KeyBinding)>, label: Seq<char>) -> Option<
    (Seq<char>, PlaybackMode),
>
    decreases entries.len(),
{
    if entries.len() == 0 {
        None
    } else if entries.last().0@ == label {
        Some((entries.last().1.track_id@, entries.last().1.mode))
    } else {
        entry_for(entries.drop_last(), label)
    }
}

/// The track a show binds to the key named `label`: the last track whose
/// key, in lower case, is `label`.
pub open spec fn binding_for(tracks: Seq<TrackModel>, label: Seq<char>) -> Option<
    (Seq<char>, PlaybackMode),
>
    decreases tracks.len(),
{
    if tracks.len() == 0 {
        None
    } else if tracks.last().key matches Some(k) && str_lowercase(k) == label {
        Some((tracks.last().id, tracks.last().mode))
    } else {
        binding_for(tracks.drop_last(), label)
    }
}

impl KeyBindings {
    /// The binding of the key named `label`.
    pub closed spec fn lookup(&self, label: Seq<char>) -> Option<(Seq<char>, PlaybackMode)> {
        entry_for(self.entries@, label)
    }

    /// The key bindings of a show.
    pub fn from_config(config: &Config) -> (r: KeyBindings)
        ensures
            forall|label: Seq<char>| #[trigger] r.lookup(label) == binding_for(config@.tracks, label),
    {
        let mut entries: Vec<(String, KeyBinding)> = Vec::new();
        let mut i: usize = 0;
        while i < config.tracks.len()
            invariant
                i <= config.tracks.len(),
                config@.tracks.len() == config.tracks.len(),
                forall|label: Seq<char>|
                    #[trigger] entry_for(entries@, label) == binding_for(
                        config@.tracks.take(i as int),
                        label,
                    ),
            decreases config.tracks.len() - i,
        {
            let track = &config.tracks[i];
            let ghost done = config@.tracks.take(i as int);
            let ghost next = config@.tracks.take(i + 1);
            let ghost before = entries@;
            proof {
                assert(next.drop_last() =~= done);
                assert(next.last() == track@);
            }
            match &track.key {
                Some(key) => {
                    let name = lowercase_str(key.as_str());
                    let e = (name, KeyBinding { track_id: track.id.clone(), mode: track.mode });
                    entries.push(e);
                    proof {
                        assert(entries@.drop_last() =~= before);
                        assert forall|label: Seq<char>|
                            #[trigger] entry_for(entries@, label) == binding_for(next, label) by {
                            assert(entry_for(before, label) == binding_for(done, label));
                        }
                    }
                },
                None => {
                    proof {
                        assert forall|label: Seq<char>|
                            #[trigger] entry_for(entries@, label) == binding_for(next, label) by {
                            assert(entry_for(before, label) == binding_for(done, label));
                        }
                    }
                },
            }
            i = i + 1;
        }
        proof {
            assert(config@.tracks.take(i as int) =~= config@.tracks);
        }
        KeyBindings { entries }
    }

    /// The binding of the key named `label`, if any.
    pub fn get(&self, label: &str) -> (r: Option<&KeyBinding>)
        ensures
            match r {
                Some(b) => self.lookup(label@) == Some((b.track_id@, b.mode)),
                None => self.lookup(label@) is None,
            },
    {
        let mut j: usize = self.entries.len();
        proof {
            assert(self.entries@.take(j as int) =~= self.entries@);
        }
        while j > 0
            invariant
                j <= self.entries.len(),
                entry_for(self.entries@, label@) == entry_for(self.entries@.take(j as int), label@),
            decreases j,
        {
            proof {
                assert(self.entries@.take(j as int).drop_last() =~= self.entries@.take(j - 1));
            }
            if str_eq(self.entries[j - 1].0.as_str(), label) {
                return Some(&self.entries[j - 1].1);
            }
            j -= 1;
        }
        None
    }
}

/// The command a key event sends in a plain key loop: a press toggles a
/// toggle track or starts a hold track, a release ends a hold.
pub open spec fn key_command_spec(
    binding: Option<(Seq<char>, PlaybackMode)>,
    kind: KeyEventKind,
) -> Option<CommandModel> {
    match binding {
        None => None,
        Some((id, mode)) => match (mode, kind) {
            (PlaybackMode::Toggle, KeyEventKind::Press) => Some(CommandModel::Toggle { track_id: id }),
            (PlaybackMode::Hold, KeyEventKind::Press) => Some(CommandModel::HoldStart { track_id: id }),
            (PlaybackMode::Hold, KeyEventKind::Release) => Some(CommandModel::HoldEnd { track_id: id }),
            _ => None,
        },
    }
}

/// An optional command, in mathematical form.
pub open spec fn command_model(c: Option<Command>) -> Option<CommandModel> {
    match c {
        Some(x) => Some(x@),
        None => None,
    }
}

/// The binding of a key event's key, if it has a name and is bound.
pub open spec fn event_binding(bindings: KeyBindings, event: KeyEvent) -> Option<
    (Seq<char>, PlaybackMode),
> {
    match key_label_spec(event.code) {
        Some(label) => bindings.lookup(label),
        None => None,
    }
}

/// The command a key event sends in the plain key loop, which ends first
/// when [`should_quit`] holds.
pub fn key_command(event: &KeyEvent, bindings: &KeyBindings) -> (r: Option<Command>)
    ensures
        command_model(r) == key_command_spec(event_binding(*bindings, *event), event.kind),
{
    let label = match key_label(&event.code) {
        Some(l) => l,
        None => {
            return None;
        },
    };
    let binding = match bindings.get(label.as_str()) {
        Some(b) => b,
        None => {
            return None;
        },
    };
    match (binding.mode, event.kind) {
        (PlaybackMode::Toggle, KeyEventKind::Press) => Some(
            Command::Toggle { track_id: binding.track_id.clone() },
        ),
        (PlaybackMode::Hold, KeyEventKind::Press) => Some(
            Command::HoldStart { track_id: binding.track_id.clone() },
        ),
        (PlaybackMode::Hold, KeyEventKind::Release) => Some(
            Command::HoldEnd { track_id: binding.track_id.clone() },
        ),
        _ => None,
    }
}

} // verus!

verus! {

/// What a key event on the graphical screen sends to one track whose key is
/// the event's key: a first press toggles a toggle track or starts a hold
/// track, a release ends a hold track.
pub open spec fn screen_key_command(t: TrackModel, pressed: bool, repeat: bool) -> Option<
    CommandModel,
> {
    match t.mode {
        PlaybackMode::Toggle => if pressed && !repeat {
            Some(CommandModel::Toggle { track_id: t.id })
        } else {
            None
        },
        PlaybackMode::Hold => if pressed && !repeat {
            Some(CommandModel::HoldStart { track_id: t.id })
        } else if !pressed {
            Some(CommandModel::HoldEnd { track_id: t.id })
        } else {
            None
        },
    }
}

/// The commands a key event on the graphical screen sends, in track order:
/// one for each track whose key is exactly `label`.
pub open spec fn screen_key_commands_spec(
    tracks: Seq<TrackModel>,
    label: Seq<char>,
    pressed: bool,
    repeat: bool,
) -> Seq<CommandModel>
    decreases tracks.len(),
{
    if tracks.len() == 0 {
        Seq::empty()
    } else {
        let rest = screen_key_commands_spec(tracks.drop_last(), label, pressed, repeat);
        let t = tracks.last();
        if t.key == Some(label) {
            match screen_key_command(t, pressed, repeat) {
                Some(c) => rest.push(c),
                None => rest,
            }
        } else {
            rest
        }
    }
}

/// The commands a key event on the graphical screen sends: `label` is the
/// key's name, `pressed` whether it went down, `repeat` whether it repeats.
pub fn screen_key_commands(config: &Config, label: &str, pressed: bool, repeat: bool) -> (r: Vec<
    Command,
>)
    ensures
        r@.map_values(|c: Command| c@) == screen_key_commands_spec(
            config@.tracks,
            label@,
            pressed,
            repeat,
        ),
{
    let mut out: Vec<Command> = Vec::new();
    let mut i: usize = 0;
    while i < config.tracks.len()
        invariant
            i <= config.tracks.len(),
            config@.tracks.len() == config.tracks.len(),
            out@.map_values(|c: Command| c@) == screen_key_commands_spec(
                config@.tracks.take(i as int),
                label@,
                pressed,
                repeat,
            ),
        decreases config.tracks.len() - i,
    {
        let track = &config.tracks[i];
        let ghost next = config@.tracks.take(i + 1);
        proof {
            assert(next.drop_last() =~= config@.tracks.take(i as int));
            assert(next.last() == track@);
        }
        let ghost before = out@.map_values(|c: Command| c@);
        let matches_key = match &track.key {
            Some(k) => str_eq(k.as_str(), label),
            None => false,
        };
        if matches_key {
            let command = match track.mode {
                PlaybackMode::Toggle => if pressed && !repeat {
                    Some(Command::Toggle { track_id: track.id.clone() })
                } else {
                    None
                },
                PlaybackMode::Hold => if pressed && !repeat {
                    Some(Command::HoldStart { track_id: track.id.clone() })
                } else if !pressed {
                    Some(Command::HoldEnd { track_id: track.id.clone() })
                } else {
                    None
                },
            };
            match command {
                Some(c) => {
                    out.push(c);
                    proof {
                        assert(out@.map_values(|c: Command| c@) =~= before.push(c@));
                    }
                },
                None => {},
            }
        }
        i += 1;
    }
    proof {
        assert(config@.tracks.take(i as int) =~= config@.tracks);
    }
    out
}

/// Track `j` is bound to the key named `label`: its key, in lower case, is
/// `label`.
pub open spec fn keyed_by(t: TrackModel, label: Seq<char>) -> bool {
    t.key is Some && str_lowercase(t.key->0) == label
}

/// The key named `label` is bound exactly when some track's key, in lower
/// case, is `label`; it is then bound to the last such track, with that
/// track's playback mode.
pub proof fn lemma_key_binding(tracks: Seq<TrackModel>, label: Seq<char>)
    ensures
        binding_for(tracks, label) is None <==> forall|j: int|
            0 <= j < tracks.len() ==> !keyed_by(#[trigger] tracks[j], label),
        binding_for(tracks, label) is Some ==> exists|j: int|
            0 <= j < tracks.len() && keyed_by(#[trigger] tracks[j], label) && binding_for(
                tracks,
                label,
            ) == Some((tracks[j].id, tracks[j].mode)) && forall|q: int|
                j < q < tracks.len() ==> !keyed_by(#[trigger] tracks[q], label),
    decreases tracks.len(),
{
    if tracks.len() > 0 {
        let p = tracks.drop_last();
        lemma_key_binding(p, label);
        let n = tracks.len() - 1;
        if keyed_by(tracks[n], label) {
            assert(tracks.last() == tracks[n]);
        } else {
            assert forall|j: int| 0 <= j < p.len() implies p[j] == tracks[j] by {}
            if binding_for(p, label) is Some {
                let j = choose|j: int|
                    0 <= j < p.len() && keyed_by(#[trigger] p[j], label) && binding_for(p, label)
                        == Some((p[j].id, p[j].mode)) && forall|q: int|
                        j < q < p.len() ==> !keyed_by(#[trigger] p[q], label);
                assert(tracks[j] == p[j]);
                assert forall|q: int| j < q < tracks.len() implies !keyed_by(#[trigger] tracks[q], label) by {
                    if q < p.len() {
                        assert(tracks[q] == p[q]);
                    }
                }
            } else {
                assert forall|j: int| 0 <= j < tracks.len() implies !keyed_by(#[trigger] tracks[j], label) by {
                    if j < p.len() {
                        assert(tracks[j] == p[j]);
                    }
                }
            }
        }
    }
}

/// What a bound key sends in the plain key loop: a toggle key toggles its
/// track on each press; a hold key starts its track on a press and ends it
/// on a release; repeats send nothing.
pub proof fn lemma_key_commands(id: Seq<char>)
    ensures
        key_command_spec(Some((id, PlaybackMode::Toggle)), KeyEventKind::Press) == Some(
            CommandModel::Toggle { track_id: id },
        ),
        key_command_spec(Some((id, PlaybackMode::Toggle)), KeyEventKind::Release) is None,
        key_command_spec(Some((id, PlaybackMode::Toggle)), KeyEventKind::Repeat) is None,
        key_command_spec(Some((id, PlaybackMode::Hold)), KeyEventKind::Press) == Some(
            CommandModel::HoldStart { track_id: id },
        ),
        key_command_spec(Some((id, PlaybackMode::Hold)), KeyEventKind::Release) == Some(
            CommandModel::HoldEnd { track_id: id },
        ),
        key_command_spec(Some((id, PlaybackMode::Hold)), KeyEventKind::Repeat) is None,
{
}

} // verus!
