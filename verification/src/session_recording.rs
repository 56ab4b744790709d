//! Starting and stopping a recording: which track records, arming the
//! recorder, and closing the performance takes still running when it stops.
use vstd::prelude::*;
use crate::automation::RecordedAutomationPoint;
use crate::model::{ActivePerformanceTake, DawApp, PianoRollNote, RecordedPerformanceTake, RecordingBuffers, time_ok};
use crate::recording::{actives_ok, take_finalized};
use crate::text::owned;

verus! {

broadcast use vstd::std_specs::hash::group_hash_axioms;

/// What a recording about to start needs: the track it records onto, and
/// whether the audio engine has to be started first.
#[derive(Clone, Copy, Debug, PartialEq, Eq, Structural)]
pub struct RecordingPlan {
    pub track_index: usize,
    pub start_audio: bool,
}

/// The track a recording goes onto: the selected one (the first when none
/// is), at most the last track.
pub open spec fn record_track(selected: Option<usize>, n_tracks: int) -> usize {
    let s = match selected {
        Some(i) => i as int,
        None => 0,
    };
    let last = if n_tracks > 0 { n_tracks - 1 } else { 0 };
    (if s < last { s } else { last }) as usize
}

/// The running takes and finished takes after the running takes of the
/// tracks in `order` were ended at `end_beat`, one after the other.
pub open spec fn takes_closed(
    active: Map<usize, ActivePerformanceTake>,
    takes: Seq<RecordedPerformanceTake>,
    order: Seq<usize>,
    end_beat: int,
) -> (Map<usize, ActivePerformanceTake>, Seq<RecordedPerformanceTake>)
    decreases order.len(),
{
    if order.len() == 0 {
        (active, takes)
    } else {
        let (a, t) = takes_closed(active, takes, order.drop_last(), end_beat);
        take_finalized(a, t, order.last(), end_beat)
    }
}

/// What a stopped recording leaves to be written into the project: the
/// track it recorded onto, what it recorded, and the finished performance
/// takes.
pub struct EndedRecording {
    pub track_index: usize,
    pub record_audio: bool,
    pub record_midi: bool,
    pub record_automation: bool,
    pub record_performance: bool,
    pub performance_takes: Vec<RecordedPerformanceTake>,
    pub midi_notes: Vec<PianoRollNote>,
    pub automation_points: Vec<RecordedAutomationPoint>,
}

impl DawApp {
    /// Whether and how a recording can start: nothing to do while one runs;
    /// refused while rendering (`rendering`); otherwise the track it records
    /// onto (see `record_track`) and whether the audio engine must be started.
    pub fn begin_recording(&self, rendering: bool) -> (r: Result<Option<RecordingPlan>, String>)
        ensures
            self.is_recording ==> r == Ok::<Option<RecordingPlan>, String>(None),
            !self.is_recording && rendering ==> (r matches Err(e) && e@ == "Cannot record while rendering"@),
            !self.is_recording && !rendering ==> r == Ok::<Option<RecordingPlan>, String>(
                Some(
                    RecordingPlan {
                        track_index: record_track(self.selected_track, self.tracks@.len() as int),
                        start_audio: !self.audio_running,
                    },
                ),
            ),
    {
        if self.is_recording {
            return Ok(None);
        }
        if rendering {
            return Err(owned("Cannot record while rendering"));
        }
        let s = match self.selected_track {
            Some(i) => i,
            None => 0,
        };
        let n = self.tracks.len();
        let last = if n > 0 {
            n - 1
        } else {
            0
        };
        let track_index = if s < last {
            s
        } else {
            last
        };
        Ok(Some(RecordingPlan { track_index, start_audio: !self.audio_running }))
    }

    /// Arms the recorder for a take on `track_index` starting at `start_beat`
    /// with what the next recording takes; `started_audio` says whether the
    /// audio engine was started for it. Returns whether the audio input must
    /// be opened before the recording counts as running.
    pub fn arm_recorder(&mut self, track_index: usize, start_beat: i64, started_audio: bool) -> (open_input: bool)
        ensures
            open_input == old(self).record_audio,
            final(self).recording.active,
            final(self).recording.track_index == track_index,
            final(self).recording.start_beat == start_beat,
            final(self).recording.record_audio == old(self).record_audio,
            final(self).recording.record_midi == old(self).record_midi,
            final(self).recording.record_automation == old(self).record_automation,
            final(self).recording.record_performance == old(self).record_performance,
            final(self).recording.performance_active@.len() == 0,
            final(self).recording.performance_takes@.len() == 0,
            final(self).recording.midi_active@.dom().len() == 0,
            final(self).recording.midi_notes@.len() == 0,
            final(self).recording.automation_points@.len() == 0,
            final(self).record_started_audio == started_audio,
            final(self).is_recording == old(self).is_recording,
            final(self).tracks.deep_view() == old(self).tracks.deep_view(),
    {
        self.record_started_audio = started_audio;
        self.recording.active = true;
        self.recording.track_index = track_index;
        self.recording.start_beat = start_beat;
        self.recording.record_audio = self.record_audio;
        self.recording.record_midi = self.record_midi;
        self.recording.record_automation = self.record_automation;
        self.recording.record_performance = self.record_performance;
        self.recording.performance_active.clear();
        self.recording.performance_takes = Vec::new();
        self.recording.midi_active.clear();
        self.recording.midi_notes = Vec::new();
        self.recording.automation_points = Vec::new();
        self.record_audio
    }

    /// Marks the armed recording as running.
    pub fn mark_recording_started(&mut self)
        ensures
            final(self).is_recording,
            final(self).status@ == "Recording..."@,
            final(self).tracks.deep_view() == old(self).tracks.deep_view(),
    {
        self.is_recording = true;
        self.status = owned("Recording...");
    }

    /// The running performance takes, ended at `end_beat` in the order of
    /// the recorder's running-take map (see `takes_closed`).
    fn close_running_takes(rec: &mut RecordingBuffers, end_beat: i64)
        requires
            actives_ok(old(rec).performance_active@),
            time_ok(end_beat),
        ensures
            exists|order: Seq<usize>|
                #![trigger takes_closed(old(rec).performance_active@, old(rec).performance_takes@, order, end_beat as int)]
                {
                    &&& order.to_set() == old(rec).performance_active@.dom()
                    &&& order.no_duplicates()
                    &&& (final(rec).performance_active@, final(rec).performance_takes@) == takes_closed(
                        old(rec).performance_active@,
                        old(rec).performance_takes@,
                        order,
                        end_beat as int,
                    )
                },
            final(rec).active == old(rec).active,
            final(rec).track_index == old(rec).track_index,
            final(rec).record_performance == old(rec).record_performance,
            final(rec).record_audio == old(rec).record_audio,
            final(rec).record_midi == old(rec).record_midi,
            final(rec).record_automation == old(rec).record_automation,
            final(rec).midi_notes@ == old(rec).midi_notes@,
            final(rec).automation_points@ == old(rec).automation_points@,
            final(rec).midi_active@ == old(rec).midi_active@,
    {
        let ghost a0 = rec.performance_active@;
        let ghost t0 = rec.performance_takes@;
        let mut keys: Vec<usize> = Vec::new();
        for k in it: rec.performance_active.keys()
            invariant
                it.seq().unref().to_set() == a0.dom(),
                it.seq().no_duplicates(),
                a0 == rec.performance_active@,
                keys@ == it.seq().unref().take(it.index() as int),
                keys@.no_duplicates(),
                it.index() == it.seq().len() ==> keys@.to_set() == a0.dom(),
        {
            keys.push(*k);
            assert(it.seq().unref().take(it.index() + 1) =~= it.seq().unref().take(it.index() as int).push(*k));
            assert(it.index() + 1 == it.seq().len() ==> it.seq().unref().take(it.index() + 1) =~= it.seq().unref());
        }
        let ghost order = keys@;
        assert(order.to_set() == a0.dom());
        assert(order.no_duplicates());
        let mut i: usize = 0;
        while i < keys.len()
            invariant
                i <= keys@.len(),
                order == keys@,
                time_ok(end_beat),
                actives_ok(rec.performance_active@),
                (rec.performance_active@, rec.performance_takes@) == takes_closed(a0, t0, order.take(i as int), end_beat as int),
                rec.active == old(rec).active,
                rec.track_index == old(rec).track_index,
                rec.record_performance == old(rec).record_performance,
                rec.record_audio == old(rec).record_audio,
                rec.record_midi == old(rec).record_midi,
                rec.record_automation == old(rec).record_automation,
                rec.midi_notes@ == old(rec).midi_notes@,
                rec.automation_points@ == old(rec).automation_points@,
                rec.midi_active@ == old(rec).midi_active@,
            decreases keys@.len() - i,
        {
            assert(order.take(i + 1).drop_last() == order.take(i as int));
            Self::finalize_performance_take_locked(rec, keys[i], end_beat);
            i = i + 1;
        }
        assert(order.take(keys@.len() as int) == order);
    }

    /// Stops the running recording, the takes still running ending at
    /// `end_beat` (see `close_running_takes`): the recorder is disarmed and
    /// what it recorded is handed back, its finished takes taken out of it.
    /// Nothing happens when no recording runs.
    pub fn end_recording(&mut self, end_beat: i64) -> (r: Option<EndedRecording>)
        requires
            actives_ok(old(self).recording.performance_active@),
            time_ok(end_beat),
        ensures
            !old(self).is_recording ==> r.is_none() && *final(self) == *old(self),
            old(self).is_recording ==> ({
                &&& !final(self).is_recording
                &&& !final(self).recording.active
                &&& final(self).recording.performance_takes@.len() == 0
                &&& final(self).recording.midi_notes@.len() == 0
                &&& final(self).recording.automation_points@.len() == 0
                &&& r matches Some(e) && {
                    &&& e.track_index == old(self).recording.track_index
                    &&& e.record_audio == old(self).recording.record_audio
                    &&& e.record_midi == old(self).recording.record_midi
                    &&& e.record_automation == old(self).recording.record_automation
                    &&& e.record_performance == old(self).recording.record_performance
                    &&& e.midi_notes@ == old(self).recording.midi_notes@
                    &&& e.automation_points@ == old(self).recording.automation_points@
                    &&& exists|order: Seq<usize>|
                        #![trigger takes_closed(old(self).recording.performance_active@, old(self).recording.performance_takes@, order, end_beat as int)]
                        {
                            &&& order.to_set() == old(self).recording.performance_active@.dom()
                            &&& order.no_duplicates()
                            &&& takes_closed(
                                old(self).recording.performance_active@,
                                old(self).recording.performance_takes@,
                                order,
                                end_beat as int,
                            ) == (final(self).recording.performance_active@, e.performance_takes@)
                        }
                }
            }),
            final(self).tracks.deep_view() == old(self).tracks.deep_view(),
            final(self).audio_running == old(self).audio_running,
    {
        if !self.is_recording {
            return None;
        }
        self.is_recording = false;
        self.recording.active = false;
        Self::close_running_takes(&mut self.recording, end_beat);
        let mut takes: Vec<RecordedPerformanceTake> = Vec::new();
        std::mem::swap(&mut takes, &mut self.recording.performance_takes);
        let mut notes: Vec<PianoRollNote> = Vec::new();
        std::mem::swap(&mut notes, &mut self.recording.midi_notes);
        let mut points: Vec<RecordedAutomationPoint> = Vec::new();
        std::mem::swap(&mut points, &mut self.recording.automation_points);
        Some(
            EndedRecording {
                track_index: self.recording.track_index,
                record_audio: self.recording.record_audio,
                record_midi: self.recording.record_midi,
                record_automation: self.recording.record_automation,
                record_performance: self.recording.record_performance,
                performance_takes: takes,
                midi_notes: notes,
                automation_points: points,
            },
        )
    }

    /// The record button: stops a running recording, or says a new one is
    /// to be started (the result). A failure of either is reported in the
    /// status (see `recording_failed`).
    pub fn toggle_recording(&self) -> (start: bool)
        ensures
            start == !self.is_recording,
    {
        !self.is_recording
    }

    /// Reports a failed start (`starting`) or stop of a recording.
    pub fn recording_failed(&mut self, starting: bool, err: &str)
        ensures
            final(self).status@ == (if starting {
                "Record failed: "@
            } else {
                "Stop recording failed: "@
            }) + err@,
            final(self).tracks.deep_view() == old(self).tracks.deep_view(),
    {
        self.status = if starting {
            crate::text::concat("Record failed: ", err)
        } else {
            crate::text::concat("Stop recording failed: ", err)
        };
    }

    /// Reports a recording that stopped and was written into the project.
    pub fn mark_recording_stopped(&mut self)
        ensures
            final(self).status@ == "Recording stopped"@,
            final(self).tracks.deep_view() == old(self).tracks.deep_view(),
    {
        self.status = owned("Recording stopped");
    }
}

} // verus!
