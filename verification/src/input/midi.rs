//! MIDI input: the bindings a show defines, and what each incoming message
//! asks for.

use std::collections::HashMap;
use vstd::prelude::*;
use crate::command::{Command, CommandModel};
use crate::config::{Config, MidiVolumeMode, PlaybackMode, TrackModel, has_track, learn_cc_spec, learn_note_spec};
use crate::state::LearnKind;

verus! {

broadcast use vstd::std_specs::hash::group_hash_axioms;

/// The track a note triggers, and how.
#[derive(Debug, Clone)]
pub struct NoteBinding {
    pub track_id: String,
    pub mode: PlaybackMode,
}

/// The notes and controllers a show listens to.
#[derive(Debug, Clone)]
pub struct MidiBindings {
    pub note_bindings: HashMap<u8, NoteBinding>,
    pub cc_bindings: HashMap<u8, String>,
    /// How the bound controllers are read.
    pub volume_mode: MidiVolumeMode,
}

/// The mathematical form of a [`NoteBinding`].
pub struct NoteTarget {
    pub track_id: Seq<char>,
    pub mode: PlaybackMode,
}

/// The mathematical form of [`MidiBindings`].
pub struct MidiBindingsModel {
    pub notes: Map<u8, NoteTarget>,
    pub ccs: Map<u8, Seq<char>>,
    pub volume_mode: MidiVolumeMode,
}

/// Note bindings, with the track ids as characters.
pub open spec fn note_targets(m: Map<u8, NoteBinding>) -> Map<u8, NoteTarget> {
    Map::new(
        |k: u8| m.contains_key(k),
        |k: u8| NoteTarget { track_id: m[k].track_id@, mode: m[k].mode },
    )
}

/// Controller bindings, with the track ids as characters.
pub open spec fn cc_targets(m: Map<u8, String>) -> Map<u8, Seq<char>> {
    Map::new(|k: u8| m.contains_key(k), |k: u8| m[k]@)
}

impl View for MidiBindings {
    type V = MidiBindingsModel;

    open spec fn view(&self) -> MidiBindingsModel {
        MidiBindingsModel {
            notes: note_targets(self.note_bindings@),
            ccs: cc_targets(self.cc_bindings@),
            volume_mode: self.volume_mode,
        }
    }
}

/// The note bindings of a list of tracks: where two tracks share a note,
/// the later one has it.
pub open spec fn note_map(tracks: Seq<TrackModel>) -> Map<u8, NoteTarget>
    decreases tracks.len(),
{
    if tracks.len() == 0 {
        Map::empty()
    } else {
        let t = tracks.last();
        let rest = note_map(tracks.drop_last());
        match t.midi_note {
            Some(n) => rest.insert(n, NoteTarget { track_id: t.id, mode: t.mode }),
            None => rest,
        }
    }
}

/// The volume controller bindings of a list of tracks: where two tracks
/// share a controller, the later one has it.
pub open spec fn cc_map(tracks: Seq<TrackModel>) -> Map<u8, Seq<char>>
    decreases tracks.len(),
{
    if tracks.len() == 0 {
        Map::empty()
    } else {
        let t = tracks.last();
        let rest = cc_map(tracks.drop_last());
        match t.midi_volume_cc {
            Some(c) => rest.insert(c, t.id),
            None => rest,
        }
    }
}

impl MidiBindings {
    /// The bindings of a show.
    pub fn from_config(config: &Config) -> (r: MidiBindings)
        ensures
            r@.notes == note_map(config@.tracks),
            r@.ccs == cc_map(config@.tracks),
            r@.volume_mode == config@.midi_volume_mode,
    {
        let mut note_bindings: HashMap<u8, NoteBinding> = HashMap::new();
        let mut cc_bindings: HashMap<u8, String> = HashMap::new();
        proof {
            assert(note_targets(note_bindings@) =~= note_map(config@.tracks.take(0)));
            assert(cc_targets(cc_bindings@) =~= cc_map(config@.tracks.take(0)));
        }
        let mut i: usize = 0;
        while i < config.tracks.len()
            invariant
                i <= config.tracks.len(),
                config@.tracks.len() == config.tracks.len(),
                note_targets(note_bindings@) == note_map(config@.tracks.take(i as int)),
                cc_targets(cc_bindings@) == cc_map(config@.tracks.take(i as int)),
            decreases config.tracks.len() - i,
        {
            let track = &config.tracks[i];
            let ghost done = config@.tracks.take(i as int);
            let ghost next = config@.tracks.take(i + 1);
            proof {
                assert(next.drop_last() =~= done);
                assert(next.last() == track@);
            }
            match track.midi_note {
                Some(note) => {
                    let ghost before = note_bindings@;
                    note_bindings.insert(note, NoteBinding { track_id: track.id.clone(), mode: track.mode });
                    proof {
                        assert(note_targets(note_bindings@) =~= note_targets(before).insert(
                            note,
                            NoteTarget { track_id: track.id@, mode: track.mode },
                        ));
                    }
                },
                None => {},
            }
            match track.midi_volume_cc {
                Some(cc) => {
                    let ghost before = cc_bindings@;
                    cc_bindings.insert(cc, track.id.clone());
                    proof {
                        assert(cc_targets(cc_bindings@) =~= cc_targets(before).insert(cc, track.id@));
                    }
                },
                None => {},
            }
            i = i + 1;
        }
        proof {
            assert(config@.tracks.take(i as int) =~= config@.tracks);
        }
        MidiBindings { note_bindings, cc_bindings, volume_mode: config.midi_volume_mode }
    }

    /// Whether the show binds no note and no controller.
    pub fn is_empty(&self) -> (r: bool)
        ensures
            r == (self@.notes.dom().is_empty() && self@.ccs.dom().is_empty()),
    {
        proof {
            assert(self@.notes.dom() =~= self.note_bindings@.dom());
            assert(self@.ccs.dom() =~= self.cc_bindings@.dom());
        }
        self.note_bindings.is_empty() && self.cc_bindings.is_empty()
    }
}

/// What an incoming MIDI message asks for.
#[derive(Debug, Clone, PartialEq)]
pub enum MidiAction {
    /// Send a command to the mixer.
    Send(Command),
    /// Set a track's volume from a controller value: 0 is silence, 127 full
    /// scale, linearly in between.
    ControllerVolume { track_id: String, value: u8 },
    /// Move a track's volume one step up (`up`) or down from where it is:
    /// a knob in relative mode.
    ControllerStep { track_id: String, up: bool },
    /// The note completes a pending trigger learn request.
    LearnNote(u8),
    /// The controller completes a pending volume learn request.
    LearnCc(u8),
}

/// The mathematical form of a [`MidiAction`].
pub enum MidiActionModel {
    Send(CommandModel),
    ControllerVolume { track_id: Seq<char>, value: u8 },
    ControllerStep { track_id: Seq<char>, up: bool },
    LearnNote(u8),
    LearnCc(u8),
}

impl View for MidiAction {
    type V = MidiActionModel;

    open spec fn view(&self) -> MidiActionModel {
        match self {
            MidiAction::Send(c) => MidiActionModel::Send(c@),
            MidiAction::ControllerStep { track_id, up } => MidiActionModel::ControllerStep {
                track_id: track_id@,
                up: *up,
            },
            MidiAction::ControllerVolume { track_id, value } => MidiActionModel::ControllerVolume {
                track_id: track_id@,
                value: *value,
            },
            MidiAction::LearnNote(n) => MidiActionModel::LearnNote(*n),
            MidiAction::LearnCc(c) => MidiActionModel::LearnCc(*c),
        }
    }
}

/// An optional action, in mathematical form.
pub open spec fn action_model(a: Option<MidiAction>) -> Option<MidiActionModel> {
    match a {
        Some(x) => Some(x@),
        None => None,
    }
}

/// What a note-on asks for: toggle or start the bound track.
pub open spec fn note_on_spec(b: MidiBindingsModel, note: u8) -> Option<MidiActionModel> {
    if b.notes.contains_key(note) {
        let t = b.notes[note];
        Some(
            MidiActionModel::Send(
                match t.mode {
                    PlaybackMode::Toggle => CommandModel::Toggle { track_id: t.track_id },
                    PlaybackMode::Hold => CommandModel::HoldStart { track_id: t.track_id },
                },
            ),
        )
    } else {
        None
    }
}

/// What a note-off asks for: the end of a hold, for a track played in hold mode.
pub open spec fn note_off_spec(b: MidiBindingsModel, note: u8) -> Option<MidiActionModel> {
    if b.notes.contains_key(note) && b.notes[note].mode == PlaybackMode::Hold {
        Some(MidiActionModel::Send(CommandModel::HoldEnd { track_id: b.notes[note].track_id }))
    } else {
        None
    }
}

/// What a control change asks for: the volume of the bound track. An
/// absolute knob sets it from the value (0 silence, 127 full scale); a
/// relative knob moves it one step up for values above 64 and one step
/// down for 64 and below.
pub open spec fn control_change_spec(b: MidiBindingsModel, controller: u8, value: u8) -> Option<
    MidiActionModel,
> {
    if b.ccs.contains_key(controller) {
        match b.volume_mode {
            MidiVolumeMode::Absolute => Some(
                MidiActionModel::ControllerVolume { track_id: b.ccs[controller], value },
            ),
            MidiVolumeMode::Relative => Some(
                MidiActionModel::ControllerStep { track_id: b.ccs[controller], up: value > 64 },
            ),
        }
    } else {
        None
    }
}

/// What a message asks for, given the bindings and the kind of the pending
/// learn request, if any. Messages shorter than three bytes, and messages
/// other than note-off (status `0x8n`), note-on (`0x9n`, where velocity 0
/// means note-off) and control change (`0xBn`) ask for nothing.
pub open spec fn message_spec(msg: Seq<u8>, b: MidiBindingsModel, pending: Option<LearnKind>) -> Option<
    MidiActionModel,
> {
    if msg.len() < 3 {
        None
    } else {
        let status = msg[0] & 0xF0u8;
        let data_1 = msg[1];
        let data_2 = msg[2];
        if status == 0x80u8 {
            note_off_spec(b, data_1)
        } else if status == 0x90u8 && data_2 == 0 {
            note_off_spec(b, data_1)
        } else if status == 0x90u8 {
            if pending == Some(LearnKind::Trigger) {
                Some(MidiActionModel::LearnNote(data_1))
            } else {
                note_on_spec(b, data_1)
            }
        } else if status == 0xB0u8 {
            if pending == Some(LearnKind::Volume) {
                Some(MidiActionModel::LearnCc(data_1))
            } else {
                control_change_spec(b, data_1, data_2)
            }
        } else {
            None
        }
    }
}

fn handle_note_on(note: u8, note_bindings: &HashMap<u8, NoteBinding>) -> (r: Option<MidiAction>)
    ensures
        action_model(r) == note_on_spec(
            MidiBindingsModel {
                notes: note_targets(note_bindings@),
                ccs: Map::empty(),
                volume_mode: MidiVolumeMode::Relative,
            },
            note,
        ),
{
    match note_bindings.get(&note) {
        Some(binding) => {
            let track_id = binding.track_id.clone();
            let command = match binding.mode {
                PlaybackMode::Toggle => Command::Toggle { track_id },
                PlaybackMode::Hold => Command::HoldStart { track_id },
            };
            Some(MidiAction::Send(command))
        },
        None => None,
    }
}

fn handle_note_off(note: u8, note_bindings: &HashMap<u8, NoteBinding>) -> (r: Option<MidiAction>)
    ensures
        action_model(r) == note_off_spec(
            MidiBindingsModel {
                notes: note_targets(note_bindings@),
                ccs: Map::empty(),
                volume_mode: MidiVolumeMode::Relative,
            },
            note,
        ),
{
    match note_bindings.get(&note) {
        Some(binding) => {
            if binding.mode == PlaybackMode::Hold {
                Some(MidiAction::Send(Command::HoldEnd { track_id: binding.track_id.clone() }))
            } else {
                None
            }
        },
        None => None,
    }
}

fn handle_control_change(
    controller: u8,
    value: u8,
    cc_bindings: &HashMap<u8, String>,
    volume_mode: MidiVolumeMode,
) -> (r:
    Option<MidiAction>)
    ensures
        action_model(r) == control_change_spec(
            MidiBindingsModel { notes: Map::empty(), ccs: cc_targets(cc_bindings@), volume_mode },
            controller,
            value,
        ),
{
    match cc_bindings.get(&controller) {
        Some(track_id) => match volume_mode {
            MidiVolumeMode::Absolute => Some(
                MidiAction::ControllerVolume { track_id: track_id.clone(), value },
            ),
            MidiVolumeMode::Relative => Some(
                MidiAction::ControllerStep { track_id: track_id.clone(), up: value > 64 },
            ),
        },
        None => None,
    }
}

/// What an incoming message asks for. `pending` is the kind of the pending
/// learn request, if any: a note-on completes a trigger request and a
/// control change a volume request, in place of their usual effect.
pub fn handle_message(message: &[u8], bindings: &MidiBindings, pending: Option<LearnKind>) -> (r:
    Option<MidiAction>)
    ensures
        action_model(r) == message_spec(message@, bindings@, pending),
{
    if message.len() < 3 {
        return None;
    }
    let status: u8 = message[0] & 0xF0;
    let data_1: u8 = message[1];
    let data_2: u8 = message[2];
    if status == 0x80 {
        handle_note_off(data_1, &bindings.note_bindings)
    } else if status == 0x90 && data_2 == 0 {
        handle_note_off(data_1, &bindings.note_bindings)
    } else if status == 0x90 {
        if pending == Some(LearnKind::Trigger) {
            Some(MidiAction::LearnNote(data_1))
        } else {
            handle_note_on(data_1, &bindings.note_bindings)
        }
    } else if status == 0xB0 {
        if pending == Some(LearnKind::Volume) {
            Some(MidiAction::LearnCc(data_1))
        } else {
            handle_control_change(data_1, data_2, &bindings.cc_bindings, bindings.volume_mode)
        }
    } else {
        None
    }
}

} // verus!

verus! {

proof fn lemma_note_map_owner(ts: Seq<TrackModel>, note: u8, id: Seq<char>)
    requires
        forall|i: int| 0 <= i < ts.len() && (#[trigger] ts[i]).midi_note == Some(note) ==> ts[i].id == id,
        exists|i: int| 0 <= i < ts.len() && (#[trigger] ts[i]).midi_note == Some(note),
    ensures
        note_map(ts).contains_key(note),
        note_map(ts)[note].track_id == id,
    decreases ts.len(),
{
    let rest = ts.drop_last();
    if ts.last().midi_note != Some(note) {
        let w = choose|i: int| 0 <= i < ts.len() && (#[trigger] ts[i]).midi_note == Some(note);
        assert(w < ts.len() - 1);
        assert(rest[w] == ts[w]);
        assert forall|i: int| 0 <= i < rest.len() && (#[trigger] rest[i]).midi_note == Some(note)
            implies rest[i].id == id by {
            assert(rest[i] == ts[i]);
        }
        lemma_note_map_owner(rest, note, id);
    }
}

proof fn lemma_cc_map_owner(ts: Seq<TrackModel>, cc: u8, id: Seq<char>)
    requires
        forall|i: int|
            0 <= i < ts.len() && (#[trigger] ts[i]).midi_volume_cc == Some(cc) ==> ts[i].id == id,
        exists|i: int| 0 <= i < ts.len() && (#[trigger] ts[i]).midi_volume_cc == Some(cc),
    ensures
        cc_map(ts).contains_key(cc),
        cc_map(ts)[cc] == id,
    decreases ts.len(),
{
    let rest = ts.drop_last();
    if ts.last().midi_volume_cc != Some(cc) {
        let w = choose|i: int| 0 <= i < ts.len() && (#[trigger] ts[i]).midi_volume_cc == Some(cc);
        assert(w < ts.len() - 1);
        assert(rest[w] == ts[w]);
        assert forall|i: int|
            0 <= i < rest.len() && (#[trigger] rest[i]).midi_volume_cc == Some(cc) implies rest[i].id
            == id by {
            assert(rest[i] == ts[i]);
        }
        lemma_cc_map_owner(rest, cc, id);
    }
}

/// After the track `id` learns the note `note`, the bindings of the show
/// send that note to the track `id`.
pub proof fn lemma_learned_note_is_bound(tracks: Seq<TrackModel>, id: Seq<char>, note: u8)
    requires
        has_track(tracks, id),
    ensures
        note_map(learn_note_spec(tracks, id, note)).contains_key(note),
        note_map(learn_note_spec(tracks, id, note))[note].track_id == id,
{
    let ts = learn_note_spec(tracks, id, note);
    let w = choose|j: int| 0 <= j < tracks.len() && (#[trigger] tracks[j]).id == id;
    assert(ts[w].midi_note == Some(note));
    lemma_note_map_owner(ts, note, id);
}

/// After the track `id` learns the volume controller `cc`, the bindings of
/// the show send that controller to the track `id`.
pub proof fn lemma_learned_cc_is_bound(tracks: Seq<TrackModel>, id: Seq<char>, cc: u8)
    requires
        has_track(tracks, id),
    ensures
        cc_map(learn_cc_spec(tracks, id, cc)).contains_key(cc),
        cc_map(learn_cc_spec(tracks, id, cc))[cc] == id,
{
    let ts = learn_cc_spec(tracks, id, cc);
    let w = choose|j: int| 0 <= j < tracks.len() && (#[trigger] tracks[j]).id == id;
    assert(ts[w].midi_volume_cc == Some(cc));
    lemma_cc_map_owner(ts, cc, id);
}

/// MIDI messages on any channel `ch`. A note-on with a non-zero velocity
/// toggles the track bound to the note, or starts it when it plays in hold
/// mode; a note-off, or a note-on with velocity zero, ends a hold track and
/// does nothing to a toggle track. A control change on a bound controller
/// sets the track's volume from the value with an absolute knob, and moves
/// it one step, up exactly for values above 64, with a relative knob.
/// Unbound notes and controllers do nothing. While a trigger learn is
/// pending, a note-on is learned instead; while a volume learn is pending,
/// a control change is.
pub proof fn lemma_midi_messages(
    b: MidiBindingsModel,
    ch: u8,
    data: u8,
    value: u8,
    pending: Option<LearnKind>,
)
    requires
        ch < 16,
    ensures
        ({
            let on = message_spec(seq![(0x90 + ch) as u8, data, value], b, pending);
            let off = message_spec(seq![(0x80 + ch) as u8, data, value], b, pending);
            let silent_on = message_spec(seq![(0x90 + ch) as u8, data, 0u8], b, pending);
            let cc = message_spec(seq![(0xB0 + ch) as u8, data, value], b, pending);
            &&& value > 0 && pending == Some(LearnKind::Trigger) ==> on == Some(
                MidiActionModel::LearnNote(data),
            )
            &&& value > 0 && pending != Some(LearnKind::Trigger) ==> {
                &&& !b.notes.contains_key(data) ==> on is None
                &&& b.notes.contains_key(data) && b.notes[data].mode == PlaybackMode::Toggle ==> on
                    == Some(
                    MidiActionModel::Send(CommandModel::Toggle { track_id: b.notes[data].track_id }),
                )
                &&& b.notes.contains_key(data) && b.notes[data].mode == PlaybackMode::Hold ==> on
                    == Some(
                    MidiActionModel::Send(CommandModel::HoldStart { track_id: b.notes[data].track_id }),
                )
            }
            &&& off == silent_on
            &&& b.notes.contains_key(data) && b.notes[data].mode == PlaybackMode::Hold ==> off == Some(
                MidiActionModel::Send(CommandModel::HoldEnd { track_id: b.notes[data].track_id }),
            )
            &&& !(b.notes.contains_key(data) && b.notes[data].mode == PlaybackMode::Hold) ==> off is None
            &&& pending == Some(LearnKind::Volume) ==> cc == Some(MidiActionModel::LearnCc(data))
            &&& pending != Some(LearnKind::Volume) ==> {
                &&& !b.ccs.contains_key(data) ==> cc is None
                &&& b.ccs.contains_key(data) && b.volume_mode == MidiVolumeMode::Absolute ==> cc
                    == Some(MidiActionModel::ControllerVolume { track_id: b.ccs[data], value })
                &&& b.ccs.contains_key(data) && b.volume_mode == MidiVolumeMode::Relative ==> cc
                    == Some(MidiActionModel::ControllerStep { track_id: b.ccs[data], up: value >= 65 })
            }
        }),
{
    assert(((0x90 + ch) as u8) & 0xF0u8 == 0x90u8) by (bit_vector)
        requires
            ch < 16,
    ;
    assert(((0x80 + ch) as u8) & 0xF0u8 == 0x80u8) by (bit_vector)
        requires
            ch < 16,
    ;
    assert(((0xB0 + ch) as u8) & 0xF0u8 == 0xB0u8) by (bit_vector)
        requires
            ch < 16,
    ;
}

} // verus!
