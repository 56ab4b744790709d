//! Stopping and pausing playback, restarting audio, connecting the MIDI
//! inputs, and the clean-up before another project is opened: what each
//! does to the session, the audio engine doing the rest.
use vstd::prelude::*;
use crate::launch::{PerformanceRuntimeClip, RuntimeView};
use crate::model::{DawApp, time_ok};
use crate::recording::actives_ok;
use crate::session::{first_usable, input_devices};
use crate::session_recording::EndedRecording;
use crate::text::{concat, decimal, decimal_string, owned};

verus! {

/// Every slot of the performance view is empty.
pub open spec fn all_empty(slots: Seq<Option<RuntimeView>>) -> bool {
    forall|i: int| 0 <= i < slots.len() ==> #[trigger] slots[i] is None
}

/// `parts` joined with `sep` between them.
pub open spec fn joined(parts: Seq<Seq<char>>, sep: Seq<char>) -> Seq<char>
    decreases parts.len(),
{
    if parts.len() == 0 {
        Seq::empty()
    } else if parts.len() == 1 {
        parts[0]
    } else {
        joined(parts.drop_last(), sep) + sep + parts.last()
    }
}

/// The failures among the connection outcomes, each "<device> (<error>)".
pub open spec fn connect_failures(outcomes: Seq<(Seq<char>, Option<Seq<char>>)>) -> Seq<Seq<char>>
    decreases outcomes.len(),
{
    if outcomes.len() == 0 {
        Seq::empty()
    } else {
        let before = connect_failures(outcomes.drop_last());
        match outcomes.last().1 {
            Some(e) => before.push(outcomes.last().0 + " ("@ + e + ")"@),
            None => before,
        }
    }
}

/// How many of the connections succeeded.
pub open spec fn connected_count(outcomes: Seq<(Seq<char>, Option<Seq<char>>)>) -> nat
    decreases outcomes.len(),
{
    if outcomes.len() == 0 {
        0
    } else {
        connected_count(outcomes.drop_last()) + if outcomes.last().1 is None {
            1nat
        } else {
            0nat
        }
    }
}

/// The values of the connection outcomes.
pub open spec fn outcomes_view(outcomes: Seq<(String, Option<String>)>) -> Seq<(Seq<char>, Option<Seq<char>>)> {
    outcomes.map_values(|o: (String, Option<String>)| (o.0@, o.1.deep_view()))
}

/// Empties every slot of the performance view.
fn clear_slots(slots: &mut Vec<Option<PerformanceRuntimeClip>>)
    ensures
        final(slots)@.len() == old(slots)@.len(),
        all_empty(final(slots).deep_view()),
{
    let mut i: usize = 0;
    while i < slots.len()
        invariant
            i <= slots@.len() == old(slots)@.len(),
            forall|k: int| 0 <= k < i ==> #[trigger] slots@[k] is None,
        decreases slots@.len() - i,
    {
        slots.set(i, None);
        i = i + 1;
    }
    assert forall|k: int| 0 <= k < slots@.len() implies #[trigger] slots.deep_view()[k] is None by {
        assert(slots@[k] is None);
    }
}

impl DawApp {
    /// Stops playback: the audio engine is off, the arrangement no longer
    /// plays and every performance slot is emptied. Returns whether the
    /// engine is to send MIDI stop to the instruments and rewind the
    /// transport (`reset_transport`).
    pub fn stop_audio_and_midi_internal(&mut self, slots: &mut Vec<Option<PerformanceRuntimeClip>>, reset_transport: bool) -> (rewind: bool)
        ensures
            rewind == reset_transport,
            !final(self).audio_running,
            !final(self).arrangement_playback,
            final(slots)@.len() == old(slots)@.len(),
            all_empty(final(slots).deep_view()),
            final(self).tracks.deep_view() == old(self).tracks.deep_view(),
            final(self).status == old(self).status,
            final(self).is_recording == old(self).is_recording,
    {
        self.audio_running = false;
        self.arrangement_playback = false;
        clear_slots(slots);
        reset_transport
    }

    /// Stops playback and rewinds (see `stop_audio_and_midi_internal`).
    pub fn stop_audio_and_midi(&mut self, slots: &mut Vec<Option<PerformanceRuntimeClip>>)
        ensures
            !final(self).audio_running,
            !final(self).arrangement_playback,
            final(slots)@.len() == old(slots)@.len(),
            all_empty(final(slots).deep_view()),
            final(self).tracks.deep_view() == old(self).tracks.deep_view(),
            final(self).status == old(self).status,
            final(self).is_recording == old(self).is_recording,
    {
        self.stop_audio_and_midi_internal(slots, true);
    }

    /// Pauses playback without rewinding; nothing happens when it is not
    /// running. Returns whether it was paused.
    pub fn pause_audio_and_midi(&mut self, slots: &mut Vec<Option<PerformanceRuntimeClip>>) -> (paused: bool)
        ensures
            paused == old(self).audio_running,
            paused ==> !final(self).audio_running && !final(self).arrangement_playback && all_empty(
                final(slots).deep_view(),
            ),
            !paused ==> final(self).arrangement_playback == old(self).arrangement_playback && final(slots)@ == old(
                slots,
            )@,
            !final(self).audio_running,
            final(slots)@.len() == old(slots)@.len(),
            final(self).tracks.deep_view() == old(self).tracks.deep_view(),
    {
        if !self.audio_running {
            return false;
        }
        self.audio_running = false;
        self.arrangement_playback = false;
        clear_slots(slots);
        true
    }

    /// Restarting audio after a plug-in change: when playback runs it is
    /// stopped (and the result says the engine is to be started again);
    /// otherwise nothing happens.
    pub fn reinit_audio_if_running(&mut self, slots: &mut Vec<Option<PerformanceRuntimeClip>>) -> (restart: bool)
        ensures
            restart == old(self).audio_running,
            !final(self).audio_running,
            restart ==> all_empty(final(slots).deep_view()) && !final(self).arrangement_playback,
            !restart ==> final(slots)@ == old(slots)@,
            final(self).tracks.deep_view() == old(self).tracks.deep_view(),
    {
        if !self.audio_running {
            return false;
        }
        self.stop_audio_and_midi(slots);
        true
    }

    /// Reports how restarting the audio engine went.
    pub fn finish_audio_restart(&mut self, result: Result<(), String>)
        ensures
            match result {
                Ok(()) => final(self).status@ == "Audio restarted for new VST3"@,
                Err(e) => final(self).status@ == "Audio restart failed: "@ + e@,
            },
    {
        match result {
            Ok(()) => {
                self.status = owned("Audio restarted for new VST3");
            },
            Err(e) => {
                self.status = concat("Audio restart failed: ", e.as_str());
            },
        }
    }

    /// Before another project is opened: a running recording is stopped at
    /// `end_beat` (what it recorded is returned, see `end_recording`), and
    /// running playback is stopped.
    pub fn prepare_for_project_change(&mut self, slots: &mut Vec<Option<PerformanceRuntimeClip>>, end_beat: i64) -> (r:
        Option<EndedRecording>)
        requires
            actives_ok(old(self).recording.performance_active@),
            time_ok(end_beat),
        ensures
            r is Some == old(self).is_recording,
            !final(self).is_recording,
            !final(self).audio_running,
            old(self).audio_running ==> all_empty(final(slots).deep_view()),
            !old(self).audio_running ==> final(slots)@ == old(slots)@,
            final(self).tracks.deep_view() == old(self).tracks.deep_view(),
    {
        let ended = if self.is_recording {
            self.end_recording(end_beat)
        } else {
            None
        };
        if self.audio_running {
            self.stop_audio_and_midi(slots);
        }
        ended
    }

    /// Takes in the outcome of connecting each MIDI input device (see
    /// `active_midi_input_devices`): its label and the error when it failed.
    /// Refused when there are no devices, or when none connected (with the
    /// failures joined by "; "). Otherwise the first usable device becomes
    /// the legacy input, and when some failed, the status lists them.
    pub fn reconnect_midi_inputs(&mut self, outcomes: &Vec<(String, Option<String>)>) -> (r: Result<(), String>)
        requires
            outcomes@.len() == input_devices(old(self).settings.midi_devices.deep_view(), old(self).settings.midi_input@).len(),
        ensures
            ({
                let ov = outcomes_view(outcomes@);
                let failures = connect_failures(ov);
                let n = connected_count(ov);
                if ov.len() == 0 {
                    r matches Err(e) && e@ == "No MIDI input devices configured"@ && final(self).settings.midi_input@
                        == old(self).settings.midi_input@ && final(self).status@ == old(self).status@
                } else if n == 0 {
                    r matches Err(e) && e@ == joined(failures, "; "@) && final(self).settings.midi_input@ == old(
                        self,
                    ).settings.midi_input@ && final(self).status@ == old(self).status@
                } else {
                    &&& r is Ok
                    &&& final(self).settings.midi_input@ == match first_usable(old(self).settings.midi_devices.deep_view()) {
                        Some(d) => d.input_port,
                        None => old(self).settings.midi_input@,
                    }
                    &&& final(self).status@ == if failures.len() > 0 {
                        "Connected "@ + decimal(n) + " MIDI input(s); skipped "@ + joined(failures, ", "@)
                    } else {
                        old(self).status@
                    }
                }
            }),
            final(self).settings.midi_devices.deep_view() == old(self).settings.midi_devices.deep_view(),
            final(self).tracks.deep_view() == old(self).tracks.deep_view(),
    {
        if outcomes.len() == 0 {
            return Err(owned("No MIDI input devices configured"));
        }
        let ghost ov = outcomes_view(outcomes@);
        let mut failures: Vec<String> = Vec::new();
        let mut connected: usize = 0;
        let mut k: usize = 0;
        while k < outcomes.len()
            invariant
                k <= outcomes@.len(),
                ov == outcomes_view(outcomes@),
                failures.deep_view() == connect_failures(ov.take(k as int)),
                connected as nat == connected_count(ov.take(k as int)),
                connected <= k,
            decreases outcomes@.len() - k,
        {
            assert(ov.take(k + 1).drop_last() == ov.take(k as int));
            assert(ov.take(k + 1).last() == ov[k as int]);
            let (label, err) = &outcomes[k];
            match err {
                Some(e) => {
                    let a = concat(label.as_str(), " (");
                    let b = concat(a.as_str(), e.as_str());
                    let text = concat(b.as_str(), ")");
                    let ghost before = failures.deep_view();
                    failures.push(text);
                    assert(failures.deep_view() =~= before.push(label@ + " ("@ + e@ + ")"@));
                },
                None => {
                    connected = connected + 1;
                },
            }
            k = k + 1;
        }
        assert(ov.take(outcomes@.len() as int) == ov);
        if connected == 0 {
            return Err(Self::join_texts(&failures, "; "));
        }
        if let Some(i) = Self::first_usable_device(&self.settings.midi_devices) {
            self.settings.midi_input = self.settings.midi_devices[i].input_port.clone();
        }
        if failures.len() > 0 {
            let count = decimal_string(connected as u64);
            let a = concat("Connected ", count.as_str());
            let b = concat(a.as_str(), " MIDI input(s); skipped ");
            let list = Self::join_texts(&failures, ", ");
            self.status = concat(b.as_str(), list.as_str());
        }
        Ok(())
    }

    /// `parts` joined with `sep` between them (see `joined`).
    fn join_texts(parts: &Vec<String>, sep: &str) -> (r: String)
        ensures
            r@ == joined(parts.deep_view(), sep@),
    {
        let ghost pv = parts.deep_view();
        let mut out = String::new();
        let mut k: usize = 0;
        while k < parts.len()
            invariant
                k <= parts@.len(),
                pv == parts.deep_view(),
                out@ == joined(pv.take(k as int), sep@),
            decreases parts@.len() - k,
        {
            assert(pv.take(k + 1).drop_last() == pv.take(k as int));
            assert(pv[k as int] == parts@[k as int]@);
            if k == 0 {
                out = parts[k].clone();
            } else {
                let with_sep = concat(out.as_str(), sep);
                out = concat(with_sep.as_str(), parts[k].as_str());
            }
            k = k + 1;
        }
        assert(pv.take(parts@.len() as int) == pv);
        out
    }
}

} // verus!
