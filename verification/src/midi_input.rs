//! Messages from a MIDI keyboard or controller: which ones count, and what
//! notes and controller moves do to a running recording and to MIDI learn.
use vstd::prelude::*;
use crate::automation::RecordedAutomationPoint;
use crate::model::{AutomationTarget, DawApp, PianoRollNote, RecordingBuffers, TIME_LIMIT};

verus! {

broadcast use vstd::std_specs::hash::group_hash_axioms;

/// Shortest recorded note, in ticks (0.05 beat).
pub const MIN_NOTE_TICKS: i64 = 50;

/// A MIDI message as the recorder sees it.
#[derive(Clone, Copy, Debug, PartialEq, Eq, Structural)]
pub enum MidiMessage {
    /// Too short, on another channel, or of another kind.
    Ignored,
    NoteOn { channel: u8, note: u8, velocity: u8 },
    NoteOff { channel: u8, note: u8, velocity: u8 },
    Control { channel: u8, controller: u8, value: u8 },
}

/// What a raw message means for a device listening on `channel_filter`
/// (1 to 16, or 0 for every channel): a note-on with velocity 0 is a
/// note-off; only note and controller messages of three bytes or more count.
pub open spec fn parsed_midi(message: Seq<u8>, channel_filter: u8) -> MidiMessage {
    if message.len() < 3 {
        MidiMessage::Ignored
    } else {
        let status = message[0] & 0xF0u8;
        let channel = message[0] & 0x0Fu8;
        if channel_filter > 0 && channel + 1 != channel_filter {
            MidiMessage::Ignored
        } else if status == 0x90 && message[2] > 0 {
            MidiMessage::NoteOn { channel, note: message[1], velocity: message[2] }
        } else if status == 0x80 || (status == 0x90 && message[2] == 0) {
            MidiMessage::NoteOff { channel, note: message[1], velocity: message[2] }
        } else if status == 0xB0 {
            MidiMessage::Control { channel, controller: message[1], value: message[2] }
        } else {
            MidiMessage::Ignored
        }
    }
}

/// The held notes all started within the timeline, not before 0.
pub open spec fn held_notes_ok(m: Map<u8, (i64, u8)>) -> bool {
    forall|n: u8| m.contains_key(n) ==> 0 <= (#[trigger] m[n]).0 <= TIME_LIMIT
}

/// Whether the recorder takes MIDI notes.
pub open spec fn records_midi(rec: RecordingBuffers) -> bool {
    rec.active && rec.record_midi
}

/// The note recorded when `note`, held since `start` with `start_velocity`,
/// is released at `beat` with `velocity`: at least `MIN_NOTE_TICKS` long,
/// with the velocity it was struck with (the release velocity when that
/// was 0).
pub open spec fn released_note(note: u8, start: i64, start_velocity: u8, beat: i64, velocity: u8) -> PianoRollNote {
    PianoRollNote {
        start,
        length: if beat - start >= MIN_NOTE_TICKS {
            (beat - start) as i64
        } else {
            MIN_NOTE_TICKS
        },
        note,
        velocity: if start_velocity > 0 {
            start_velocity
        } else {
            velocity
        },
    }
}

/// What a controller message led to.
#[derive(Clone, Copy, Debug, PartialEq, Eq, Structural)]
pub enum ControlOutcome {
    /// MIDI learn bound the controller to parameter `param_id` of `track`;
    /// the message goes no further.
    Learned { track: usize, param_id: u32 },
    /// The message goes on to the selected track's instrument.
    Forward,
}

impl DawApp {
    /// What `message` means for a device listening on `channel_filter` (see
    /// `parsed_midi`).
    pub fn parse_midi_message(message: &[u8], channel_filter: u8) -> (r: MidiMessage)
        ensures
            r == parsed_midi(message@, channel_filter),
    {
        if message.len() < 3 {
            return MidiMessage::Ignored;
        }
        let first = message[0];
        let status = first & 0xF0u8;
        let channel = first & 0x0Fu8;
        assert(channel <= 15) by (bit_vector)
            requires
                channel == first & 0x0Fu8,
        ;
        if channel_filter > 0 && channel + 1 != channel_filter {
            return MidiMessage::Ignored;
        }
        let note = message[1];
        let velocity = message[2];
        if status == 0x90 && velocity > 0 {
            MidiMessage::NoteOn { channel, note, velocity }
        } else if status == 0x80 || (status == 0x90 && velocity == 0) {
            MidiMessage::NoteOff { channel, note, velocity }
        } else if status == 0xB0 {
            MidiMessage::Control { channel, controller: note, value: velocity }
        } else {
            MidiMessage::Ignored
        }
    }

    /// A key struck at `beat`: while MIDI is recorded, the note is held from
    /// `beat` with its velocity (replacing an earlier hold of the same key).
    pub fn record_midi_note_on(rec: &mut RecordingBuffers, note: u8, velocity: u8, beat: i64)
        requires
            0 <= beat <= TIME_LIMIT,
            held_notes_ok(old(rec).midi_active@),
        ensures
            held_notes_ok(final(rec).midi_active@),
            final(rec).midi_active@ == if records_midi(*old(rec)) {
                old(rec).midi_active@.insert(note, (beat, velocity))
            } else {
                old(rec).midi_active@
            },
            final(rec).midi_notes@ == old(rec).midi_notes@,
            final(rec).automation_points@ == old(rec).automation_points@,
            final(rec).active == old(rec).active,
            final(rec).record_midi == old(rec).record_midi,
            final(rec).record_automation == old(rec).record_automation,
    {
        if rec.active && rec.record_midi {
            rec.midi_active.insert(note, (beat, velocity));
        }
    }

    /// A key released at `beat`: while MIDI is recorded, the note held on
    /// it is recorded (see `released_note`) and no longer held.
    pub fn record_midi_note_off(rec: &mut RecordingBuffers, note: u8, velocity: u8, beat: i64)
        requires
            0 <= beat <= TIME_LIMIT,
            held_notes_ok(old(rec).midi_active@),
        ensures
            held_notes_ok(final(rec).midi_active@),
            records_midi(*old(rec)) && old(rec).midi_active@.contains_key(note) ==> {
                let (start, start_velocity) = old(rec).midi_active@[note];
                &&& final(rec).midi_active@ == old(rec).midi_active@.remove(note)
                &&& final(rec).midi_notes@ == old(rec).midi_notes@.push(
                    released_note(note, start, start_velocity, beat, velocity),
                )
            },
            !(records_midi(*old(rec)) && old(rec).midi_active@.contains_key(note)) ==> {
                &&& final(rec).midi_active@ == old(rec).midi_active@
                &&& final(rec).midi_notes@ == old(rec).midi_notes@
            },
            final(rec).automation_points@ == old(rec).automation_points@,
            final(rec).active == old(rec).active,
            final(rec).record_midi == old(rec).record_midi,
            final(rec).record_automation == old(rec).record_automation,
    {
        if rec.active && rec.record_midi {
            if let Some((start, start_velocity)) = rec.midi_active.remove(&note) {
                let length = if beat - start >= MIN_NOTE_TICKS {
                    beat - start
                } else {
                    MIN_NOTE_TICKS
                };
                let v = if start_velocity > 0 {
                    start_velocity
                } else {
                    velocity
                };
                rec.midi_notes.push(PianoRollNote { start, length, note, velocity: v });
            }
        }
    }

    /// A controller moved: when MIDI learn waits on the selected track
    /// (`selected`), the controller is bound to the parameter it waits for
    /// and learning ends; otherwise the message goes on, and while
    /// automation is recorded a controller bound to parameter
    /// `learned_param` of the selected track records `value` (an `f32` bit
    /// pattern) for it at `beat`.
    pub fn midi_control(
        rec: &mut RecordingBuffers,
        learn: &mut Option<(usize, u32)>,
        selected: usize,
        learned_param: Option<u32>,
        beat: i64,
        value: u32,
    ) -> (r: ControlOutcome)
        ensures
            match *old(learn) {
                Some((t, p)) if t == selected => {
                    &&& r == ControlOutcome::Learned { track: t, param_id: p }
                    &&& final(learn).is_none()
                    &&& final(rec).automation_points@ == old(rec).automation_points@
                },
                _ => {
                    &&& r == ControlOutcome::Forward
                    &&& *final(learn) == *old(learn)
                    &&& final(rec).automation_points@ == match learned_param {
                        Some(p) if old(rec).active && old(rec).record_automation => old(rec).automation_points@.push(
                            RecordedAutomationPoint { param_id: p, target: AutomationTarget::Instrument, tick: beat, value },
                        ),
                        _ => old(rec).automation_points@,
                    }
                },
            },
            final(rec).midi_active@ == old(rec).midi_active@,
            final(rec).midi_notes@ == old(rec).midi_notes@,
            final(rec).active == old(rec).active,
            final(rec).record_midi == old(rec).record_midi,
            final(rec).record_automation == old(rec).record_automation,
    {
        if let Some((t, p)) = *learn {
            if t == selected {
                *learn = None;
                return ControlOutcome::Learned { track: t, param_id: p };
            }
        }
        if let Some(p) = learned_param {
            if rec.active && rec.record_automation {
                rec.automation_points.push(
                    RecordedAutomationPoint { param_id: p, target: AutomationTarget::Instrument, tick: beat, value },
                );
            }
        }
        ControlOutcome::Forward
    }
}

} // verus!
