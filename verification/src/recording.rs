//! Recording of performance takes and turning them into clips.
use vstd::prelude::*;
use crate::model::{
    ActivePerformanceTake, Clip, ClipView, DawApp, PerformanceClipSettings, PerformanceTriggerMode, PianoRollNote, RecordedPerformanceTake, RecordingBuffers, TIME_LIMIT, copy_opt_string, time_ok,
};
use crate::text::{concat, decimal, decimal_string, is_blank, owned, trimmed};
use crate::tracks::{clip_ids_below_max, find_clip, is_next_clip_id};
use crate::model::{TrackView, tracks_wf};

verus! {

broadcast use vstd::std_specs::hash::group_hash_axioms;

/// Shortest length, in ticks, a recorded take may have (0.05 beat).
pub const MIN_TAKE_TICKS: i64 = 50;

/// Shortest length, in ticks, of a clip made from a take (0.25 beat).
pub const MIN_CLIP_TICKS: i64 = 250;

/// A take whose times let the clip made from it stay within the timeline.
pub open spec fn take_fits(start_beat: int, end_beat: int) -> bool {
    &&& 0 <= start_beat <= TIME_LIMIT / 2
    &&& -TIME_LIMIT <= end_beat
    &&& end_beat - start_beat <= TIME_LIMIT / 2
}

pub open spec fn max_int(a: int, b: int) -> int {
    if a >= b { a } else { b }
}

pub open spec fn min_int(a: int, b: int) -> int {
    if a <= b { a } else { b }
}

/// Note `n` of the source clip, moved by `delta` (not before 0) and cut to
/// the span `[cs, ce)`; `None` when nothing of it is left.
pub open spec fn recorded_note(n: PianoRollNote, delta: int, cs: int, ce: int) -> Option<PianoRollNote> {
    let shifted = max_int(n.start + delta, 0);
    let s = max_int(shifted, cs);
    let e = min_int(shifted + n.length, ce);
    if e - s <= 0 {
        None
    } else {
        Some(PianoRollNote { start: s as i64, length: (e - s) as i64, ..n })
    }
}

/// The notes of `notes` that survive `recorded_note`, in order.
pub open spec fn recorded_notes(notes: Seq<PianoRollNote>, delta: int, cs: int, ce: int) -> Seq<PianoRollNote>
    decreases notes.len(),
{
    if notes.len() == 0 {
        Seq::empty()
    } else {
        let r = recorded_notes(notes.drop_last(), delta, cs, ce);
        match recorded_note(notes.last(), delta, cs, ce) {
            Some(x) => r.push(x),
            None => r,
        }
    }
}

/// Length of the clip made from a take of `source` from `start_beat` to
/// `end_beat`: the take's length (at least `MIN_TAKE_TICKS`), no longer than
/// the source unless the take loops, and at least `MIN_CLIP_TICKS`.
pub open spec fn recorded_length(source: ClipView, start_beat: int, end_beat: int, loop_enabled: bool) -> int {
    let requested = max_int(end_beat - start_beat, MIN_TAKE_TICKS as int);
    let source_len = max_int(source.length as int, MIN_CLIP_TICKS as int);
    if loop_enabled {
        max_int(requested, MIN_CLIP_TICKS as int)
    } else {
        max_int(min_int(requested, source_len), MIN_CLIP_TICKS as int)
    }
}

/// The clip a take of `source` becomes: a copy placed on `track_index` at the
/// take's start (not before 0) with the recorded length, id `clip_id`, no
/// link, named after the source ("Performance" when that name is blank). A
/// MIDI clip's notes move with it and are cut to the new span; the source
/// length it loops over is kept only for a looping take.
pub open spec fn recorded_clip(
    source: ClipView,
    track_index: usize,
    start_beat: int,
    end_beat: int,
    loop_enabled: bool,
    clip_id: usize,
) -> ClipView {
    let start = max_int(start_beat, 0);
    let length = recorded_length(source, start_beat, end_beat, loop_enabled);
    let source_len = max_int(source.length as int, MIN_CLIP_TICKS as int);
    let name = if trimmed(source.name).len() == 0 { "Performance"@ } else { source.name };
    let placed = ClipView {
        id: clip_id,
        track: track_index,
        start: start as i64,
        length: length as i64,
        link_id: None,
        name,
        ..source
    };
    if source.is_midi {
        ClipView {
            midi_notes: recorded_notes(source.midi_notes, start - source.start, start, start + length),
            midi_source: if loop_enabled {
                Some(
                    match source.midi_source {
                        Some(m) => m,
                        None => source_len as i64,
                    },
                )
            } else {
                None
            },
            ..placed
        }
    } else {
        ClipView {
            audio_source: if loop_enabled {
                Some(
                    match source.audio_source {
                        Some(a) => a,
                        None => source_len as i64,
                    },
                )
            } else {
                None
            },
            ..placed
        }
    }
}

/// Notes that come out of `recorded_notes` lie within `[cs, ce)`.
proof fn lemma_recorded_notes_within(notes: Seq<PianoRollNote>, delta: int, cs: int, ce: int)
    requires
        0 <= cs <= ce <= TIME_LIMIT,
    ensures
        forall|i: int| 0 <= i < recorded_notes(notes, delta, cs, ce).len() ==> {
            let n = #[trigger] recorded_notes(notes, delta, cs, ce)[i];
            cs <= n.start && n.start < n.start + n.length <= ce
        },
    decreases notes.len(),
{
    if notes.len() > 0 {
        lemma_recorded_notes_within(notes.drop_last(), delta, cs, ce);
        let r = recorded_notes(notes.drop_last(), delta, cs, ce);
        match recorded_note(notes.last(), delta, cs, ce) {
            Some(x) => {
                assert(recorded_notes(notes, delta, cs, ce) == r.push(x));
                assert(cs <= x.start && x.start < x.start + x.length <= ce);
            },
            None => {},
        }
    }
}

/// What turning a list of takes into clips has done so far.
pub struct TakesOutcome {
    pub tracks: Seq<TrackView>,
    pub next_id: usize,
    pub added: nat,
    pub last: Option<usize>,
    pub added_audio: bool,
    pub changed: Set<usize>,
}

/// The outcome of turning the first `k` takes into clips, starting from
/// `tracks` with the next free id `next_id`: each take whose source clip is
/// found (the first clip with that id) and whose track exists adds the
/// recorded clip, with the next id, at the end of that track.
pub open spec fn apply_takes(tracks: Seq<TrackView>, takes: Seq<RecordedPerformanceTake>, next_id: usize, k: int) -> TakesOutcome
    decreases k,
{
    if k <= 0 {
        TakesOutcome { tracks, next_id, added: 0, last: None, added_audio: false, changed: Set::empty() }
    } else {
        let o = apply_takes(tracks, takes, next_id, k - 1);
        let take = takes[k - 1];
        match find_clip(o.tracks, take.source_clip_id) {
            None => o,
            Some((st, sc)) => {
                let ti = take.track_index as int;
                if ti < o.tracks.len() {
                    let new_clip = recorded_clip(o.tracks[st].clips[sc], take.track_index, take.start_beat as int,
                        take.end_beat as int, take.loop_enabled, o.next_id);
                    TakesOutcome {
                        tracks: o.tracks.update(ti, TrackView { clips: o.tracks[ti].clips.push(new_clip), ..o.tracks[ti] }),
                        next_id: if o.next_id < usize::MAX { (o.next_id + 1) as usize } else { usize::MAX },
                        added: o.added + 1,
                        last: Some(o.next_id),
                        added_audio: o.added_audio || !new_clip.is_midi,
                        changed: o.changed.insert(take.track_index),
                    }
                } else {
                    o
                }
            },
        }
    }
}

/// Every running take started within the timeline.
pub open spec fn actives_ok(m: Map<usize, ActivePerformanceTake>) -> bool {
    forall|t: usize| m.contains_key(t) ==> time_ok(#[trigger] m[t].start_beat)
}

/// The recorder's running takes and finished takes after the take running on
/// `track_index` (if any) ends at `end_beat`: it is no longer running and,
/// unless it was a one-shot, is added to the finished takes, lasting at least
/// `MIN_TAKE_TICKS`.
pub open spec fn take_finalized(
    active: Map<usize, ActivePerformanceTake>,
    takes: Seq<RecordedPerformanceTake>,
    track_index: usize,
    end_beat: int,
) -> (Map<usize, ActivePerformanceTake>, Seq<RecordedPerformanceTake>) {
    if !active.contains_key(track_index) {
        (active, takes)
    } else {
        let a = active[track_index];
        let final_end = max_int(end_beat, a.start_beat + MIN_TAKE_TICKS);
        (
            active.remove(track_index),
            if a.trigger_mode == PerformanceTriggerMode::OneShot {
                takes
            } else {
                takes.push(
                    RecordedPerformanceTake {
                        track_index,
                        source_clip_id: a.source_clip_id,
                        start_beat: a.start_beat,
                        end_beat: final_end as i64,
                        loop_enabled: a.loop_enabled,
                    },
                )
            },
        )
    }
}

/// The recorder's running and finished takes after clip `clip_id` of length
/// `source_length` is launched on `track_index` at `now` with `settings`: a
/// one-shot ends the running take and records the whole clip at once; a
/// toggle ends the running take and, unless that take was of the same clip,
/// starts a new one; a gate or loop ends the running take and starts a new one
/// (a loop launch always loops).
pub open spec fn take_triggered(
    active: Map<usize, ActivePerformanceTake>,
    takes: Seq<RecordedPerformanceTake>,
    track_index: usize,
    clip_id: usize,
    now: int,
    source_length: int,
    settings: PerformanceClipSettings,
) -> (Map<usize, ActivePerformanceTake>, Seq<RecordedPerformanceTake>) {
    let same_active = active.contains_key(track_index) && active[track_index].source_clip_id == clip_id;
    let (a2, t2) = take_finalized(active, takes, track_index, now);
    match settings.trigger_mode {
        PerformanceTriggerMode::OneShot => (
            a2,
            t2.push(
                RecordedPerformanceTake {
                    track_index,
                    source_clip_id: clip_id,
                    start_beat: now as i64,
                    end_beat: (now + source_length) as i64,
                    loop_enabled: false,
                },
            ),
        ),
        PerformanceTriggerMode::Toggle => if same_active {
            (a2, t2)
        } else {
            (
                a2.insert(
                    track_index,
                    ActivePerformanceTake {
                        source_clip_id: clip_id,
                        start_beat: now as i64,
                        trigger_mode: settings.trigger_mode,
                        loop_enabled: settings.loop_enabled,
                    },
                ),
                t2,
            )
        },
        _ => (
            a2.insert(
                track_index,
                ActivePerformanceTake {
                    source_clip_id: clip_id,
                    start_beat: now as i64,
                    trigger_mode: settings.trigger_mode,
                    loop_enabled: settings.loop_enabled || settings.trigger_mode == PerformanceTriggerMode::Loop,
                },
            ),
            t2,
        ),
    }
}

impl DawApp {
    /// The clip that a performance take of `source` on track `track_index`
    /// from `start_beat` to `end_beat` becomes (see `recorded_clip`).
    pub fn make_recorded_performance_clip(
        &self,
        source: &Clip,
        track_index: usize,
        start_beat: i64,
        end_beat: i64,
        loop_enabled: bool,
        clip_id: usize,
    ) -> (r: Option<Clip>)
        requires
            source.wf(),
            take_fits(start_beat as int, end_beat as int),
        ensures
            r matches Some(c) && c@ == recorded_clip(source@, track_index, start_beat as int, end_beat as int,
                loop_enabled, clip_id) && c.wf(),
    {
        let span = end_beat - start_beat;
        let requested = if span >= MIN_TAKE_TICKS { span } else { MIN_TAKE_TICKS };
        let source_len = if source.length >= MIN_CLIP_TICKS { source.length } else { MIN_CLIP_TICKS };
        let target_len = if loop_enabled {
            if requested >= MIN_CLIP_TICKS { requested } else { MIN_CLIP_TICKS }
        } else {
            let shorter = if requested <= source_len { requested } else { source_len };
            if shorter >= MIN_CLIP_TICKS { shorter } else { MIN_CLIP_TICKS }
        };
        let start = if start_beat > 0 { start_beat } else { 0 };
        let name = if is_blank(source.name.as_str()) { owned("Performance") } else { source.name.clone() };
        let mut midi_notes: Vec<PianoRollNote> = Vec::new();
        let mut midi_source = source.midi_source;
        let mut audio_source = source.audio_source;
        if source.is_midi {
            let delta = start - source.start;
            let clip_end = start + target_len;
            let mut i: usize = 0;
            while i < source.midi_notes.len()
                invariant
                    i <= source.midi_notes@.len(),
                    source.wf(),
                    0 <= start <= TIME_LIMIT / 2,
                    0 < target_len <= TIME_LIMIT / 2,
                    delta == start - source.start,
                    clip_end == start + target_len,
                    midi_notes@ == recorded_notes(source.midi_notes@.take(i as int), delta as int, start as int,
                        clip_end as int),
                decreases source.midi_notes@.len() - i,
            {
                let note = source.midi_notes[i];
                assert(source@.midi_notes[i as int] == note);
                assert(note.wf());
                let moved = note.start + delta;
                let shifted = if moved > 0 { moved } else { 0 };
                let note_start = if shifted > start { shifted } else { start };
                let raw_end = shifted + note.length;
                let note_end = if raw_end < clip_end { raw_end } else { clip_end };
                if note_end - note_start > 0 {
                    midi_notes.push(PianoRollNote { start: note_start, length: note_end - note_start, ..note });
                }
                assert(source.midi_notes@.take(i + 1).drop_last() == source.midi_notes@.take(i as int));
                i = i + 1;
            }
            assert(source.midi_notes@.take(source.midi_notes@.len() as int) == source.midi_notes@);
            midi_source = if loop_enabled {
                match source.midi_source {
                    Some(m) => Some(m),
                    None => Some(source_len),
                }
            } else {
                None
            };
            proof {
                lemma_recorded_notes_within(source.midi_notes@, delta as int, start as int, clip_end as int);
            }
        } else {
            midi_notes = crate::model::copy_vec(&source.midi_notes);
            audio_source = if loop_enabled {
                match source.audio_source {
                    Some(a) => Some(a),
                    None => Some(source_len),
                }
            } else {
                None
            };
        }
        let clip = Clip {
            id: clip_id,
            track: track_index,
            start,
            length: target_len,
            is_midi: source.is_midi,
            midi_notes,
            midi_source,
            link_id: None,
            name,
            audio_path: copy_opt_string(&source.audio_path),
            audio_source,
        };
        proof {
            assert forall|i: int| 0 <= i < clip.midi_notes@.len() implies #[trigger] clip.midi_notes@[i].wf() by {
                if !source.is_midi {
                    assert(source@.midi_notes[i] == clip.midi_notes@[i]);
                }
            }
        }
        Some(clip)
    }

    /// Turns recorded performance takes into clips: each take whose source
    /// clip still exists becomes a copy of it (see `recorded_clip`) at the end
    /// of the take's track, the copies taking consecutive ids from the next
    /// free one. When any clip was added, the last one becomes the selected
    /// clip, the project is marked changed, and the status reports the count.
    /// Returns the tracks that changed, and whether an audio clip was added.
    pub fn finalize_performance_recording(&mut self, takes: Vec<RecordedPerformanceTake>) -> (r: (Vec<usize>, bool))
        requires
            old(self).wf(),
            clip_ids_below_max(old(self).tracks@),
            forall|k: int| 0 <= k < takes@.len() ==> take_fits(#[trigger] takes@[k].start_beat as int, takes@[k].end_beat as int),
        ensures
            final(self).wf(),
            exists|id: usize| is_next_clip_id(old(self).tracks@, id as int) && {
                let o = apply_takes(old(self).tracks.deep_view(), takes@, id, takes@.len() as int);
                &&& final(self).tracks.deep_view() == o.tracks
                &&& r.0@.to_set() == o.changed
                &&& r.0@.no_duplicates()
                &&& r.1 == o.added_audio
                &&& if o.added == 0 {
                    *final(self) == *old(self)
                } else {
                    &&& final(self).selected_clip == o.last
                    &&& final(self).performance_selected_clip == o.last
                    &&& final(self).dirty
                    &&& final(self).status@ == "Performance recorded: "@ + decimal(o.added) + " clips"@
                }
            },
    {
        let first_id = self.next_clip_id();
        let mut next_clip_id = first_id;
        let mut changed: Vec<usize> = Vec::new();
        let mut added_audio_clip = false;
        let mut last_clip_id: Option<usize> = None;
        let mut added_count: usize = 0;
        let mut k: usize = 0;
        while k < takes.len()
            invariant
                k <= takes@.len(),
                tracks_wf(self.tracks@),
                forall|j: int| 0 <= j < takes@.len() ==> take_fits(#[trigger] takes@[j].start_beat as int, takes@[j].end_beat as int),
                ({
                    let o = apply_takes(old(self).tracks.deep_view(), takes@, first_id, k as int);
                    &&& self.tracks.deep_view() == o.tracks
                    &&& next_clip_id == o.next_id
                    &&& added_count as nat == o.added
                    &&& last_clip_id == o.last
                    &&& added_audio_clip == o.added_audio
                    &&& changed@.to_set() == o.changed
                    &&& changed@.no_duplicates()
                }),
                added_count <= k,
                added_count == 0 ==> *self == *old(self),
                self.selected_clip == old(self).selected_clip,
                self.performance_selected_clip == old(self).performance_selected_clip,
                self.dirty == old(self).dirty,
                self.status == old(self).status,
            decreases takes@.len() - k,
        {
            let take = takes[k];
            let ghost o = apply_takes(old(self).tracks.deep_view(), takes@, first_id, k as int);
            assert(take_fits(take.start_beat as int, take.end_beat as int));
            match self.find_clip_indices_by_id(take.source_clip_id) {
                None => {},
                Some((st, sc)) => {
                    let ti = take.track_index;
                    if ti < self.tracks.len() {
                        assert(self.tracks@[st as int].wf());
                        assert(self.tracks@[st as int]@.clips[sc as int] == self.tracks@[st as int].clips@[sc as int]@);
                        assert(self.tracks@[st as int]@.clips[sc as int].wf());
                        let made = self.make_recorded_performance_clip(
                            &self.tracks[st].clips[sc],
                            ti,
                            take.start_beat,
                            take.end_beat,
                            take.loop_enabled,
                            next_clip_id,
                        );
                        let new_clip = match made {
                            Some(c) => c,
                            None => {
                                assert(false);
                                return (changed, added_audio_clip);
                            },
                        };
                        if !new_clip.is_midi {
                            added_audio_clip = true;
                        }
                        let ghost before = self.tracks.deep_view();
                        let ghost before_tracks = self.tracks@;
                        let ghost new_view = new_clip@;
                        assert(new_clip.wf());
                        self.tracks[ti].clips.push(new_clip);
                        proof {
                            let after = self.tracks.deep_view();
                            assert(after[ti as int].clips =~= before[ti as int].clips.push(new_view));
                            assert(after =~= before.update(ti as int, TrackView { clips: before[ti as int].clips.push(new_view), ..before[ti as int] }));
                            assert forall|j: int| 0 <= j < self.tracks@.len() implies #[trigger] self.tracks@[j].wf() by {
                                if j == ti {
                                    assert(after[j] == self.tracks@[j]@);
                                    assert(before[j] == before_tracks[j]@);
                                    assert(before_tracks[j].wf());
                                    assert(new_view.wf());
                                    assert(after[j].clips == before[j].clips.push(new_view));
                                    assert forall|c: int| 0 <= c < after[j].clips.len() implies #[trigger] after[j].clips[c].wf() by {
                                        if c < before[j].clips.len() {
                                            assert(after[j].clips[c] == before[j].clips[c]);
                                        }
                                    }
                                } else {
                                    assert(after[j] == before[j]);
                                    assert(after[j] == self.tracks@[j]@);
                                }
                            }
                        }
                        let ghost old_changed = changed@;
                        let mut seen = false;
                        let mut q: usize = 0;
                        while q < changed.len()
                            invariant
                                q <= changed@.len(),
                                seen <==> exists|p: int| 0 <= p < q && changed@[p] == ti,
                            decreases changed@.len() - q,
                        {
                            if changed[q] == ti {
                                seen = true;
                            }
                            q = q + 1;
                        }
                        if !seen {
                            changed.push(ti);
                        }
                        proof {
                            assert forall|x: usize| #[trigger] changed@.to_set().contains(x) <==> o.changed.insert(ti).contains(x) by {
                                if seen {
                                    assert(changed@ == old_changed);
                                    if x == ti {
                                        let p = choose|p: int| 0 <= p < old_changed.len() && old_changed[p] == ti;
                                        assert(old_changed.contains(ti));
                                    }
                                } else {
                                    assert(changed@ == old_changed.push(ti));
                                    if changed@.contains(x) && x != ti {
                                        let p = choose|p: int| 0 <= p < changed@.len() && changed@[p] == x;
                                        assert(old_changed[p] == x);
                                    }
                                    if old_changed.contains(x) {
                                        let p = choose|p: int| 0 <= p < old_changed.len() && old_changed[p] == x;
                                        assert(changed@[p] == x);
                                    }
                                    if x == ti {
                                        assert(changed@[old_changed.len() as int] == ti);
                                    }
                                }
                            }
                            assert(changed@.to_set() =~= o.changed.insert(ti));
                        }
                        last_clip_id = Some(next_clip_id);
                        next_clip_id = next_clip_id.saturating_add(1);
                        added_count = added_count + 1;
                    }
                },
            }
            k = k + 1;
        }
        if added_count == 0 {
            return (changed, added_audio_clip);
        }
        self.selected_clip = last_clip_id;
        self.performance_selected_clip = last_clip_id;
        self.dirty = true;
        let count = decimal_string(added_count as u64);
        let head = concat("Performance recorded: ", count.as_str());
        self.status = concat(head.as_str(), " clips");
        (changed, added_audio_clip)
    }

    /// Ends the take running on `track_index` at `end_beat` (see
    /// `take_finalized`).
    pub fn finalize_performance_take_locked(rec: &mut RecordingBuffers, track_index: usize, end_beat: i64)
        requires
            actives_ok(old(rec).performance_active@),
            time_ok(end_beat),
        ensures
            (final(rec).performance_active@, final(rec).performance_takes@) == take_finalized(
                old(rec).performance_active@, old(rec).performance_takes@, track_index, end_beat as int),
            actives_ok(final(rec).performance_active@),
            final(rec).active == old(rec).active,
            final(rec).track_index == old(rec).track_index,
            final(rec).record_performance == old(rec).record_performance,
            final(rec).record_audio == old(rec).record_audio,
            final(rec).record_midi == old(rec).record_midi,
            final(rec).record_automation == old(rec).record_automation,
            final(rec).start_beat == old(rec).start_beat,
            final(rec).midi_notes@ == old(rec).midi_notes@,
            final(rec).automation_points@ == old(rec).automation_points@,
            final(rec).midi_active@ == old(rec).midi_active@,
    {
        let active = match rec.performance_active.remove(&track_index) {
            Some(a) => a,
            None => {
                return;
            },
        };
        assert(time_ok(active.start_beat));
        let min_end = active.start_beat + MIN_TAKE_TICKS;
        let final_end = if end_beat >= min_end { end_beat } else { min_end };
        match active.trigger_mode {
            PerformanceTriggerMode::OneShot => {},
            _ => {
                rec.performance_takes.push(
                    RecordedPerformanceTake {
                        track_index,
                        source_clip_id: active.source_clip_id,
                        start_beat: active.start_beat,
                        end_beat: final_end,
                        loop_enabled: active.loop_enabled,
                    },
                );
            },
        }
    }

    /// While recording a performance, notes that clip `clip_id` was launched
    /// on `track_index` at `launch_beat` (not before 0) with `settings` (see
    /// `take_triggered`). The clip's length is that of the first clip with the
    /// id (at least `MIN_CLIP_TICKS`), or `MIN_CLIP_TICKS` when there is none.
    pub fn record_performance_clip_trigger(
        &mut self,
        track_index: usize,
        clip_id: usize,
        launch_beat: i64,
        settings: PerformanceClipSettings,
    )
        requires
            old(self).wf(),
            actives_ok(old(self).recording.performance_active@),
            time_ok(launch_beat),
        ensures
            actives_ok(final(self).recording.performance_active@),
            final(self).tracks == old(self).tracks,
            final(self).recording.active == old(self).recording.active,
            final(self).recording.record_performance == old(self).recording.record_performance,
            if old(self).is_recording && old(self).recording.active && old(self).recording.record_performance {
                let now = max_int(launch_beat as int, 0);
                let source_length = match find_clip(old(self).tracks.deep_view(), clip_id) {
                    Some((t, c)) => max_int(old(self).tracks.deep_view()[t].clips[c].length as int, MIN_CLIP_TICKS as int),
                    None => MIN_CLIP_TICKS as int,
                };
                (final(self).recording.performance_active@, final(self).recording.performance_takes@)
                    == take_triggered(old(self).recording.performance_active@,
                        old(self).recording.performance_takes@, track_index, clip_id, now, source_length, settings)
            } else {
                final(self).recording.performance_active@ == old(self).recording.performance_active@
                && final(self).recording.performance_takes@ == old(self).recording.performance_takes@
            },
    {
        if !self.is_recording {
            return;
        }
        let now = if launch_beat > 0 { launch_beat } else { 0 };
        let source_length = match self.find_clip_indices_by_id(clip_id) {
            Some((t, c)) => {
                let len = self.tracks[t].clips[c].length;
                assert(self.tracks.deep_view()[t as int].clips[c as int] == self.tracks@[t as int].clips@[c as int]@);
                assert(self.tracks@[t as int].wf());
                assert(self.tracks@[t as int]@.clips[c as int].wf());
                if len >= MIN_CLIP_TICKS { len } else { MIN_CLIP_TICKS }
            },
            None => MIN_CLIP_TICKS,
        };
        if !self.recording.active || !self.recording.record_performance {
            return;
        }
        let same_active = match self.recording.performance_active.get(&track_index) {
            Some(a) => a.source_clip_id == clip_id,
            None => false,
        };
        match settings.trigger_mode {
            PerformanceTriggerMode::OneShot => {
                Self::finalize_performance_take_locked(&mut self.recording, track_index, now);
                self.recording.performance_takes.push(
                    RecordedPerformanceTake {
                        track_index,
                        source_clip_id: clip_id,
                        start_beat: now,
                        end_beat: now + source_length,
                        loop_enabled: false,
                    },
                );
            },
            PerformanceTriggerMode::Toggle => {
                if same_active {
                    Self::finalize_performance_take_locked(&mut self.recording, track_index, now);
                } else {
                    Self::finalize_performance_take_locked(&mut self.recording, track_index, now);
                    self.recording.performance_active.insert(
                        track_index,
                        ActivePerformanceTake {
                            source_clip_id: clip_id,
                            start_beat: now,
                            trigger_mode: settings.trigger_mode,
                            loop_enabled: settings.loop_enabled,
                        },
                    );
                }
            },
            PerformanceTriggerMode::Gate | PerformanceTriggerMode::Loop => {
                Self::finalize_performance_take_locked(&mut self.recording, track_index, now);
                let looped = match settings.trigger_mode {
                    PerformanceTriggerMode::Loop => true,
                    _ => settings.loop_enabled,
                };
                self.recording.performance_active.insert(
                    track_index,
                    ActivePerformanceTake {
                        source_clip_id: clip_id,
                        start_beat: now,
                        trigger_mode: settings.trigger_mode,
                        loop_enabled: looped,
                    },
                );
            },
        }
    }

    /// While recording a performance, ends the take running on `track_index`
    /// at `now` (not before 0).
    pub fn record_performance_track_stop(&mut self, track_index: usize, now: i64)
        requires
            actives_ok(old(self).recording.performance_active@),
            time_ok(now),
        ensures
            actives_ok(final(self).recording.performance_active@),
            final(self).tracks == old(self).tracks,
            if old(self).is_recording && old(self).recording.active && old(self).recording.record_performance {
                (final(self).recording.performance_active@, final(self).recording.performance_takes@)
                    == take_finalized(old(self).recording.performance_active@,
                        old(self).recording.performance_takes@, track_index, max_int(now as int, 0))
            } else {
                final(self).recording.performance_active@ == old(self).recording.performance_active@
                && final(self).recording.performance_takes@ == old(self).recording.performance_takes@
            },
    {
        if !self.is_recording {
            return;
        }
        let now = if now > 0 { now } else { 0 };
        if !self.recording.active || !self.recording.record_performance {
            return;
        }
        Self::finalize_performance_take_locked(&mut self.recording, track_index, now);
    }
}

/// Where a MIDI recording started at `start` ends: the latest end of its
/// notes, and at least `MIN_CLIP_TICKS` after `start`.
pub open spec fn recording_end(notes: Seq<PianoRollNote>, start: int) -> int
    decreases notes.len(),
{
    if notes.len() == 0 {
        start + MIN_CLIP_TICKS
    } else {
        max_int(recording_end(notes.drop_last(), start), notes.last().start + notes.last().length)
    }
}

/// The clip a MIDI recording becomes: "MIDI Rec" at `start` on
/// `track_index`, with the recorded notes, as long as the recording (which
/// is also the length it loops over).
pub open spec fn midi_recording_clip(id: usize, track_index: usize, start: i64, notes: Seq<PianoRollNote>) -> ClipView {
    let length = (recording_end(notes, start as int) - start) as i64;
    ClipView {
        id,
        track: track_index,
        start,
        length,
        is_midi: true,
        midi_notes: notes,
        midi_source: Some(length),
        link_id: None,
        name: "MIDI Rec"@,
        audio_path: None,
        audio_source: None,
    }
}

/// The clip an audio recording saved as `audio/<file_name>` becomes:
/// "Recording" at `start` on `track_index`, `length` long (at least
/// `MIN_CLIP_TICKS`), which is also the length of its audio.
pub open spec fn audio_recording_clip(id: usize, track_index: usize, start: i64, length: i64, file_name: Seq<char>) -> ClipView {
    let len = max_int(length as int, MIN_CLIP_TICKS as int) as i64;
    ClipView {
        id,
        track: track_index,
        start,
        length: len,
        is_midi: false,
        midi_notes: Seq::empty(),
        midi_source: None,
        link_id: None,
        name: "Recording"@,
        audio_path: Some("audio/"@ + file_name),
        audio_source: Some(len),
    }
}

/// Tracks `tracks` with clip `c` added at the end of track `t`.
pub open spec fn with_clip_added(tracks: Seq<TrackView>, t: int, c: ClipView) -> Seq<TrackView> {
    tracks.update(t, TrackView { clips: tracks[t].clips.push(c), ..tracks[t] })
}

impl DawApp {
    /// Adds `clip` at the end of track `t`.
    pub(crate) fn push_clip(&mut self, t: usize, clip: Clip)
        requires
            t < old(self).tracks@.len(),
            clip.wf(),
        ensures
            final(self).tracks.deep_view() == with_clip_added(old(self).tracks.deep_view(), t as int, clip@),
            final(self).tracks@.len() == old(self).tracks@.len(),
            old(self).wf() ==> final(self).wf(),
            final(self).selected_track == old(self).selected_track,
            final(self).selected_clip == old(self).selected_clip,
            final(self).status == old(self).status,
            final(self).dirty == old(self).dirty,
    {
        let ghost before = self.tracks.deep_view();
        let ghost clip_view = clip@;
        self.tracks[t].clips.push(clip);
        proof {
            assert(self.tracks@[t as int].clips.deep_view() =~= before[t as int].clips.push(clip_view));
            assert forall|j: int| 0 <= j < before.len() && j != t implies self.tracks.deep_view()[j] == before[j] by {
                assert(self.tracks@[j] == old(self).tracks@[j]);
            }
            assert(self.tracks.deep_view() =~= with_clip_added(before, t as int, clip_view));
            if old(self).wf() {
                assert forall|j: int| 0 <= j < self.tracks@.len() implies #[trigger] self.tracks@[j].wf() by {
                    if j != t {
                        assert(self.tracks@[j] == old(self).tracks@[j]);
                    } else {
                        assert(old(self).tracks@[j].wf());
                        assert forall|c: int| 0 <= c < self.tracks@[j]@.clips.len() implies #[trigger] self.tracks@[j]@.clips[c].wf() by {
                            if c < before[j].clips.len() {
                                assert(self.tracks@[j]@.clips[c] == old(self).tracks@[j]@.clips[c]);
                            }
                        }
                    }
                }
            }
        }
    }

    /// Turns a finished MIDI recording into a clip on track `track_index`
    /// (see `midi_recording_clip`), with the next free clip id. Nothing
    /// happens for a track that does not exist.
    pub fn finalize_midi_recording(&mut self, track_index: usize, start_beat: i64, notes: Vec<PianoRollNote>)
        requires
            old(self).wf(),
            clip_ids_below_max(old(self).tracks@),
            time_ok(start_beat),
            crate::model::notes_wf(notes@),
            forall|i: int| 0 <= i < notes@.len() ==> #[trigger] notes@[i].start + notes@[i].length - start_beat
                <= TIME_LIMIT,
        ensures
            final(self).wf(),
            track_index < old(self).tracks@.len() ==> exists|id: usize| is_next_clip_id(old(self).tracks@, id as int)
                && final(self).tracks.deep_view() == with_clip_added(
                old(self).tracks.deep_view(),
                track_index as int,
                midi_recording_clip(id, track_index, start_beat, notes@),
            ),
            track_index >= old(self).tracks@.len() ==> final(self).tracks.deep_view() == old(self).tracks.deep_view(),
    {
        let clip_id = self.next_clip_id();
        if track_index >= self.tracks.len() {
            return;
        }
        let mut max_end = start_beat + MIN_CLIP_TICKS;
        let mut i: usize = 0;
        while i < notes.len()
            invariant
                i <= notes@.len(),
                time_ok(start_beat),
                crate::model::notes_wf(notes@),
                max_end as int == recording_end(notes@.take(i as int), start_beat as int),
                start_beat + MIN_CLIP_TICKS <= max_end,
                max_end - start_beat <= TIME_LIMIT,
                forall|k: int| 0 <= k < notes@.len() ==> #[trigger] notes@[k].start + notes@[k].length - start_beat
                    <= TIME_LIMIT,
            decreases notes@.len() - i,
        {
            assert(notes@.take(i + 1).drop_last() == notes@.take(i as int));
            assert(notes@[i as int].wf());
            let end = notes[i].start + notes[i].length;
            if end > max_end {
                max_end = end;
            }
            i = i + 1;
        }
        assert(notes@.take(notes@.len() as int) == notes@);
        let length = max_end - start_beat;
        let clip = Clip {
            id: clip_id,
            track: track_index,
            start: start_beat,
            length,
            is_midi: true,
            midi_notes: notes,
            midi_source: Some(length),
            link_id: None,
            name: owned("MIDI Rec"),
            audio_path: None,
            audio_source: None,
        };
        assert(clip@ == midi_recording_clip(clip_id, track_index, start_beat, notes@));
        self.push_clip(track_index, clip);
    }

    /// Places a finished audio recording, saved as `audio/<file_name>` and
    /// `length` long, as a clip on track `track_index` (see
    /// `audio_recording_clip`) with the next free clip id, and selects the
    /// track and the clip.
    pub fn finalize_audio_recording(&mut self, track_index: usize, start_beat: i64, length: i64, file_name: &str)
        requires
            old(self).wf(),
            clip_ids_below_max(old(self).tracks@),
            time_ok(start_beat),
            time_ok(length),
        ensures
            final(self).wf(),
            exists|id: usize| {
                &&& is_next_clip_id(old(self).tracks@, id as int)
                &&& final(self).selected_clip == Some(id)
                &&& track_index < old(self).tracks@.len() ==> final(self).tracks.deep_view() == with_clip_added(
                    old(self).tracks.deep_view(),
                    track_index as int,
                    audio_recording_clip(id, track_index, start_beat, length, file_name@),
                )
            },
            track_index >= old(self).tracks@.len() ==> final(self).tracks.deep_view() == old(self).tracks.deep_view(),
            final(self).selected_track == Some(track_index),
    {
        let clip_id = self.next_clip_id();
        if track_index < self.tracks.len() {
            let len = if length >= MIN_CLIP_TICKS { length } else { MIN_CLIP_TICKS };
            let clip = Clip {
                id: clip_id,
                track: track_index,
                start: start_beat,
                length: len,
                is_midi: false,
                midi_notes: Vec::new(),
                midi_source: None,
                link_id: None,
                name: owned("Recording"),
                audio_path: Some(concat("audio/", file_name)),
                audio_source: Some(len),
            };
            assert(clip.midi_notes@ =~= Seq::<PianoRollNote>::empty());
            assert(clip@ == audio_recording_clip(clip_id, track_index, start_beat, length, file_name@));
            self.push_clip(track_index, clip);
        }
        self.selected_track = Some(track_index);
        self.selected_clip = Some(clip_id);
    }
}

} // verus!
