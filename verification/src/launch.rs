//! Launching and stopping clips in the performance view: the slot of each
//! track that holds the clip it is playing.
use vstd::prelude::*;
use crate::model::{Clip, ClipView, DawApp, PerformanceClipSettings, PerformanceTriggerMode};
use crate::session::quantized_launch;
use crate::tracks::find_clip;

verus! {

/// A clip playing on a track of the performance view.
pub struct PerformanceRuntimeClip {
    pub track_index: usize,
    /// The sample position it was launched at.
    pub launch_samples: u64,
    pub clip: Clip,
    pub loop_enabled: bool,
    pub trigger_mode: PerformanceTriggerMode,
    /// The audio file the clip plays, found on disk, for an audio clip.
    pub resolved_audio_path: Option<String>,
}

/// The value of a playing clip.
pub struct RuntimeView {
    pub track_index: usize,
    pub launch_samples: u64,
    pub clip: ClipView,
    pub loop_enabled: bool,
    pub trigger_mode: PerformanceTriggerMode,
    pub resolved_audio_path: Option<Seq<char>>,
}

impl DeepView for PerformanceRuntimeClip {
    type V = RuntimeView;

    open spec fn deep_view(&self) -> RuntimeView {
        RuntimeView {
            track_index: self.track_index,
            launch_samples: self.launch_samples,
            clip: self.clip.deep_view(),
            loop_enabled: self.loop_enabled,
            trigger_mode: self.trigger_mode,
            resolved_audio_path: self.resolved_audio_path.deep_view(),
        }
    }
}

/// What a launch did to the track's slot.
#[derive(Clone, Copy, Debug, PartialEq, Eq, Structural)]
pub enum LaunchOutcome {
    /// The clip now plays on the track.
    Launched,
    /// A toggle clip that was already playing was stopped; the track's
    /// sounding notes are to be silenced.
    Stopped,
}

/// The slots after they were grown to one per track.
pub open spec fn grown_slots(slots: Seq<Option<RuntimeView>>, n_tracks: int) -> Seq<Option<RuntimeView>> {
    if slots.len() < n_tracks {
        slots + Seq::new((n_tracks - slots.len()) as nat, |i: int| None::<RuntimeView>)
    } else {
        slots
    }
}

/// Whether a clip launched with `settings` loops.
pub open spec fn loops_with(settings: PerformanceClipSettings) -> bool {
    settings.loop_enabled || settings.trigger_mode == PerformanceTriggerMode::Loop
}

/// Whether launching clip `clip_id` on slot `slot` stops it instead: a toggle
/// clip launched again while it plays.
pub open spec fn toggles_off(slot: Option<RuntimeView>, clip_id: usize, settings: PerformanceClipSettings) -> bool {
    settings.trigger_mode == PerformanceTriggerMode::Toggle && slot.is_some() && slot.unwrap().clip.id == clip_id
}

impl DawApp {
    /// Launches clip `clip_id` on track `track_index` at sample position
    /// `launch_samples`. The slots are first grown to one per track. A toggle
    /// clip that already plays on the track is stopped instead; otherwise the
    /// track's slot takes the clip, looping when its settings say so, with
    /// `resolved_audio_path` as the file it plays. An unknown clip is refused
    /// and leaves the slots as they were.
    pub fn launch_performance_clip_at(
        &self,
        slots: &mut Vec<Option<PerformanceRuntimeClip>>,
        track_index: usize,
        clip_id: usize,
        settings: PerformanceClipSettings,
        launch_samples: u64,
        resolved_audio_path: Option<String>,
    ) -> (r: Result<LaunchOutcome, String>)
        requires
            track_index < old(slots)@.len() || track_index < self.tracks@.len(),
        ensures
            find_clip(self.tracks.deep_view(), clip_id) is None ==> {
                &&& r == Err::<LaunchOutcome, String>(r->Err_0)
                &&& r->Err_0@ == "Performance clip not found"@
                &&& final(slots).deep_view() == old(slots).deep_view()
            },
            find_clip(self.tracks.deep_view(), clip_id) matches Some((t, c)) ==> {
                let grown = grown_slots(old(slots).deep_view(), self.tracks@.len() as int);
                if toggles_off(grown[track_index as int], clip_id, settings) {
                    &&& r == Ok::<LaunchOutcome, String>(LaunchOutcome::Stopped)
                    &&& final(slots).deep_view() == grown.update(track_index as int, None)
                } else {
                    &&& r == Ok::<LaunchOutcome, String>(LaunchOutcome::Launched)
                    &&& final(slots).deep_view() == grown.update(
                        track_index as int,
                        Some(
                            RuntimeView {
                                track_index,
                                launch_samples,
                                clip: self.tracks.deep_view()[t].clips[c],
                                loop_enabled: loops_with(settings),
                                trigger_mode: settings.trigger_mode,
                                resolved_audio_path: resolved_audio_path.deep_view(),
                            },
                        ),
                    )
                }
            },
    {
        let (t, c) = match self.find_clip_indices_by_id(clip_id) {
            Some(found) => found,
            None => {
                return Err("Performance clip not found".to_string());
            },
        };
        let clip = self.tracks[t].clips[c].copied();
        assert(clip.deep_view() == self.tracks.deep_view()[t as int].clips[c as int]);
        let ghost before = slots.deep_view();
        let n = self.tracks.len();
        while slots.len() < n
            invariant
                n == self.tracks@.len(),
                before.len() <= slots.len() <= if before.len() < n { n as int } else { before.len() as int },
                slots.deep_view() == grown_slots(before, n as int).take(slots.len() as int),
            decreases n - slots.len(),
        {
            let ghost prev = slots.deep_view();
            slots.push(None);
            assert(slots.deep_view() =~= prev.push(None));
            assert(grown_slots(before, n as int).take(slots.len() as int) =~= prev.push(None));
        }
        assert(slots.deep_view() =~= grown_slots(before, n as int));
        let same_active = match &slots[track_index] {
            Some(active) => active.clip.id == clip_id,
            None => false,
        };
        if settings.trigger_mode == PerformanceTriggerMode::Toggle && same_active {
            slots.set(track_index, None);
            assert(slots.deep_view() =~= grown_slots(before, n as int).update(track_index as int, None));
            return Ok(LaunchOutcome::Stopped);
        }
        let loop_enabled = settings.loop_enabled || settings.trigger_mode == PerformanceTriggerMode::Loop;
        let entry = PerformanceRuntimeClip {
            track_index,
            launch_samples,
            clip,
            loop_enabled,
            trigger_mode: settings.trigger_mode,
            resolved_audio_path,
        };
        let ghost ev = entry.deep_view();
        slots.set(track_index, Some(entry));
        assert(slots.deep_view() =~= grown_slots(before, n as int).update(track_index as int, Some(ev)));
        Ok(LaunchOutcome::Launched)
    }

    /// Launches a clip at the next launch point: `current_samples` moved up
    /// to the grid of `quantum_samples` (see `launch_performance_clip_at`).
    pub fn launch_performance_clip(
        &self,
        slots: &mut Vec<Option<PerformanceRuntimeClip>>,
        track_index: usize,
        clip_id: usize,
        settings: PerformanceClipSettings,
        current_samples: u64,
        quantum_samples: u64,
        resolved_audio_path: Option<String>,
    ) -> (r: Result<LaunchOutcome, String>)
        requires
            track_index < old(slots)@.len() || track_index < self.tracks@.len(),
            quantized_launch(current_samples, quantum_samples) <= u64::MAX,
        ensures
            find_clip(self.tracks.deep_view(), clip_id) is None ==> {
                &&& r is Err
                &&& final(slots).deep_view() == old(slots).deep_view()
            },
            find_clip(self.tracks.deep_view(), clip_id) matches Some((t, c)) ==> {
                let grown = grown_slots(old(slots).deep_view(), self.tracks@.len() as int);
                if toggles_off(grown[track_index as int], clip_id, settings) {
                    &&& r == Ok::<LaunchOutcome, String>(LaunchOutcome::Stopped)
                    &&& final(slots).deep_view() == grown.update(track_index as int, None)
                } else {
                    &&& r == Ok::<LaunchOutcome, String>(LaunchOutcome::Launched)
                    &&& final(slots).deep_view()[track_index as int] matches Some(v) && v.launch_samples
                        == quantized_launch(current_samples, quantum_samples) && v.clip
                        == self.tracks.deep_view()[t].clips[c]
                }
            },
    {
        let at = self.performance_launch_samples(current_samples, quantum_samples);
        self.launch_performance_clip_at(slots, track_index, clip_id, settings, at, resolved_audio_path)
    }

    /// Stops whatever plays on track `track_index`; its sounding notes are
    /// then to be silenced.
    pub fn stop_performance_track(&self, slots: &mut Vec<Option<PerformanceRuntimeClip>>, track_index: usize)
        ensures
            track_index < old(slots)@.len() ==> final(slots).deep_view() == old(slots).deep_view().update(
                track_index as int,
                None,
            ),
            track_index >= old(slots)@.len() ==> final(slots).deep_view() == old(slots).deep_view(),
    {
        if track_index < slots.len() {
            let ghost before = slots.deep_view();
            slots.set(track_index, None);
            assert(slots.deep_view() =~= before.update(track_index as int, None));
        }
    }
}

} // verus!
