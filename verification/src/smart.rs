//! Smart performance setup: each clip that starts a section of the
//! arrangement gets launch settings for the performance view, looping where
//! the section repeats, otherwise flowing into the clip of the next section.
use std::collections::HashMap;
use vstd::prelude::*;
use crate::model::{ClipView, DawApp, PerformanceClipSettings, PerformanceTriggerMode, TIME_LIMIT, TrackView, time_ok};
use crate::performance::{PerformanceSectionAnalysis, SNAP_TICKS, settings_of, tracks_follow_links};
use crate::recording::MIN_CLIP_TICKS;
use crate::tracks::find_clip;

verus! {

broadcast use vstd::std_specs::hash::group_hash_axioms;

/// Clip `c` belongs to the section starting at `start`: it starts there
/// (within `SNAP_TICKS`), or it is already playing just after that point.
pub open spec fn at_section_start(c: ClipView, start: i64) -> bool {
    ||| -SNAP_TICKS <= c.start - start <= SNAP_TICKS
    ||| (c.start < start + SNAP_TICKS && c.start + c.length > start + SNAP_TICKS)
}

/// The position of the first clip of `clips` that belongs to the section
/// starting at `start`.
pub open spec fn first_at_start(clips: Seq<ClipView>, start: i64) -> Option<int>
    decreases clips.len(),
{
    if clips.len() == 0 {
        None
    } else {
        match first_at_start(clips.drop_last(), start) {
            Some(i) => Some(i),
            None => if at_section_start(clips.last(), start) {
                Some(clips.len() - 1)
            } else {
                None
            },
        }
    }
}

/// The id of the clip of track `t` that belongs to the section starting at
/// `start`, if any.
pub open spec fn section_clip(tracks: Seq<TrackView>, t: int, start: i64) -> Option<usize> {
    if 0 <= t < tracks.len() {
        match first_at_start(tracks[t].clips, start) {
            Some(c) => Some(tracks[t].clips[c].id),
            None => None,
        }
    } else {
        None
    }
}

/// Where the smart setup stands: the tracks, the launch settings, and how
/// many clips (and of them, looping clips) were configured.
pub struct SmartState {
    pub tracks: Seq<TrackView>,
    pub settings: Map<usize, PerformanceClipSettings>,
    pub configured: usize,
    pub loops: usize,
}

/// `n + 1`, saturating.
pub open spec fn inc(n: usize) -> usize {
    if n == usize::MAX {
        n
    } else {
        (n + 1) as usize
    }
}

/// Settings that loop the clip.
pub open spec fn looped(s: PerformanceClipSettings) -> PerformanceClipSettings {
    PerformanceClipSettings {
        trigger_mode: PerformanceTriggerMode::Loop,
        loop_enabled: true,
        auto_follow: false,
        ..s
    }
}

/// The repeat length a MIDI clip of length `length` loops with when its
/// notes repeat every `unit` ticks: the unit, at most the clip, at least
/// `MIN_CLIP_TICKS`.
pub open spec fn loop_source(unit: i64, length: i64) -> i64 {
    let m = if unit < length { unit } else { length };
    if m < MIN_CLIP_TICKS { MIN_CLIP_TICKS } else { m }
}

/// `tracks` with the MIDI loop length of the clip at (`t`, `c`) set to `src`.
pub open spec fn with_midi_source(tracks: Seq<TrackView>, t: int, c: int, src: i64) -> Seq<TrackView> {
    tracks.update(
        t,
        TrackView {
            clips: tracks[t].clips.update(c, ClipView { midi_source: Some(src), ..tracks[t].clips[c] }),
            ..tracks[t]
        },
    )
}

/// The state after the clip of track `t` at the start of section `k` was
/// set up. `repeats` gives, for MIDI clips whose notes repeat, the repeat
/// length found in ticks.
pub open spec fn smart_step(
    st: SmartState,
    sections: Seq<PerformanceSectionAnalysis>,
    k: int,
    t: int,
    repeats: Map<usize, i64>,
) -> SmartState {
    let section = sections[k];
    match section_clip(st.tracks, t, section.start) {
        None => st,
        Some(id) => match find_clip(st.tracks, id) {
            None => st,
            Some((ct, ci)) => {
                let clip = st.tracks[ct].clips[ci];
                if !(-SNAP_TICKS <= clip.start - section.start <= SNAP_TICKS) {
                    st
                } else {
                    let s0 = settings_of(st.settings, id);
                    let covers = clip.length + SNAP_TICKS >= section.length;
                    let midi_loop = section.loop_unit is Some && clip.is_midi && covers && repeats.contains_key(id);
                    let audio_loop = section.loop_unit is Some && !(clip.is_midi && covers) && covers && (match clip.audio_source {
                        Some(b) => b > 0 && b + SNAP_TICKS < clip.length,
                        None => false,
                    });
                    let tracks2 = if midi_loop {
                        with_midi_source(st.tracks, ct, ci, loop_source(repeats[id], clip.length))
                    } else {
                        st.tracks
                    };
                    let is_loop = midi_loop || audio_loop;
                    let s2 = if is_loop {
                        looped(s0)
                    } else {
                        let next = if sections.len() - k > 1 {
                            section_clip(tracks2, t, sections[k + 1].start)
                        } else {
                            None
                        };
                        PerformanceClipSettings {
                            trigger_mode: PerformanceTriggerMode::OneShot,
                            loop_enabled: false,
                            next_clip_id: next,
                            auto_follow: next is Some,
                        }
                    };
                    SmartState {
                        tracks: tracks2,
                        settings: st.settings.insert(id, s2),
                        configured: inc(st.configured),
                        loops: if is_loop {
                            inc(st.loops)
                        } else {
                            st.loops
                        },
                    }
                }
            },
        },
    }
}

/// The state after the first `t` tracks were set up for section `k`.
pub open spec fn smart_tracks(
    st: SmartState,
    sections: Seq<PerformanceSectionAnalysis>,
    k: int,
    t: int,
    repeats: Map<usize, i64>,
) -> SmartState
    decreases t,
{
    if t <= 0 {
        st
    } else {
        smart_step(smart_tracks(st, sections, k, t - 1, repeats), sections, k, t - 1, repeats)
    }
}

/// The state after the first `k` sections were set up on `n` tracks.
pub open spec fn smart_sections(
    st: SmartState,
    sections: Seq<PerformanceSectionAnalysis>,
    k: int,
    n: int,
    repeats: Map<usize, i64>,
) -> SmartState
    decreases k,
{
    if k <= 0 {
        st
    } else {
        smart_tracks(smart_sections(st, sections, k - 1, n, repeats), sections, k - 1, n, repeats)
    }
}

/// What building the performance view from the arrangement did.
#[derive(Clone, Copy, Debug, PartialEq, Eq, Structural)]
pub struct AutoPerformanceBuildSummary {
    pub sections: usize,
    pub slices_created: usize,
    pub configured_clips: usize,
    pub loop_clips: usize,
}

/// All track positions `0..n`.
pub open spec fn all_tracks(n: int) -> Seq<usize> {
    Seq::new(n as nat, |i: int| i as usize)
}

/// Shortest slice interval, in ticks (a quarter beat).
pub const MIN_SLICE_TICKS: i64 = 250;

/// The slice interval used for a requested interval: at least `MIN_SLICE_TICKS`.
pub open spec fn slice_interval(interval: i64) -> int {
    if interval < MIN_SLICE_TICKS { MIN_SLICE_TICKS as int } else { interval as int }
}

/// Where a clip starting at `start` with length `length` is cut on a grid
/// of `iv` ticks: at every grid line after its (non-negative) start that
/// lies more than `SNAP_TICKS` before its end.
pub open spec fn slice_points(start: i64, length: i64, iv: int) -> Seq<i64> {
    let s = if start < 0 { 0 } else { start as int };
    let e0 = start + length;
    let e = if e0 > s + 1 { e0 } else { s + 1 };
    let first = (s / iv + 1) * iv;
    let n: int = if first < e - SNAP_TICKS { (e - SNAP_TICKS - first + iv - 1) / (iv as int) } else { 0 };
    Seq::new(n as nat, |j: int| (first + j * iv) as i64)
}

/// The cut positions of a clip, as integers: one grid step apart after the
/// first grid line past the clip's start, all more than `SNAP_TICKS` before
/// its end.
pub proof fn law_slice_points_inside(start: i64, length: i64, iv: int)
    requires
        iv >= 1,
    ensures
        ({
            let s = if start < 0 { 0 } else { start as int };
            let e0 = start + length;
            let e = if e0 > s + 1 { e0 } else { s + 1 };
            let first = (s / iv + 1) * iv;
            let n: int = if first < e - SNAP_TICKS { (e - SNAP_TICKS - first + iv - 1) / iv } else { 0 };
            &&& s < first <= s + iv
            &&& forall|j: int| 0 <= j < n ==> #[trigger] (first + j * iv) < e - SNAP_TICKS
            &&& first + n * iv >= e - SNAP_TICKS
        }),
{
    let s = if start < 0 { 0 } else { start as int };
    let e0 = start + length;
    let e = if e0 > s + 1 { e0 } else { s + 1 };
    let q = s / iv;
    assert(q * iv <= s < q * iv + iv) by (nonlinear_arith)
        requires
            s >= 0,
            iv >= 1,
            q == s / iv,
    ;
    let first = (s / iv + 1) * iv;
    assert(first == q * iv + iv) by (nonlinear_arith)
        requires
            q == s / iv,
            first == (s / iv + 1) * iv,
    ;
    let n: int = if first < e - SNAP_TICKS { (e - SNAP_TICKS - first + iv - 1) / iv } else { 0 };
    if first < e - SNAP_TICKS {
        let d = e - SNAP_TICKS - first;
        assert(n * iv >= d && (n - 1) * iv < d) by (nonlinear_arith)
            requires
                d >= 1,
                iv >= 1,
                n == (d + iv - 1) / iv,
        ;
        assert forall|j: int| 0 <= j < n implies #[trigger] (first + j * iv) < e - SNAP_TICKS by {
            assert(j * iv <= (n - 1) * iv) by (nonlinear_arith)
                requires
                    0 <= j <= n - 1,
                    iv >= 1,
            ;
        }
    }
}

/// The cuts planned on track `t` for its first `k` clips: each clip (found
/// by its id on this track) with its cut positions.
pub open spec fn slice_plan_track(tracks: Seq<TrackView>, t: int, iv: int, k: int) -> Seq<(usize, Seq<i64>)>
    decreases k,
{
    if k <= 0 {
        Seq::empty()
    } else {
        let prev = slice_plan_track(tracks, t, iv, k - 1);
        let id = tracks[t].clips[k - 1].id;
        match find_clip(tracks, id) {
            Some((ft, fc)) => if ft == t {
                prev.push((id, slice_points(tracks[t].clips[fc].start, tracks[t].clips[fc].length, iv)))
            } else {
                prev
            },
            None => prev,
        }
    }
}

/// The cuts planned on the first `n` tracks.
pub open spec fn slice_plan(tracks: Seq<TrackView>, iv: int, n: int) -> Seq<(usize, Seq<i64>)>
    decreases n,
{
    if n <= 0 {
        Seq::empty()
    } else {
        slice_plan(tracks, iv, n - 1) + slice_plan_track(tracks, n - 1, iv, tracks[n - 1].clips.len() as int)
    }
}

/// Setting a clip's MIDI loop length keeps tracks well formed when the
/// length is within bounds.
proof fn lemma_midi_source_wf(tracks: Seq<TrackView>, t: int, c: int, src: i64)
    requires
        0 <= t < tracks.len(),
        0 <= c < tracks[t].clips.len(),
        time_ok(src),
        forall|i: int| 0 <= i < tracks.len() ==> #[trigger] tracks[i].wf(),
    ensures
        forall|i: int| 0 <= i < tracks.len() ==> #[trigger] with_midi_source(tracks, t, c, src)[i].wf(),
        with_midi_source(tracks, t, c, src).len() == tracks.len(),
        forall|i: int| 0 <= i < tracks.len() ==> #[trigger] with_midi_source(tracks, t, c, src)[i].clips.len() == tracks[i].clips.len(),
{
    let r = with_midi_source(tracks, t, c, src);
    assert forall|i: int| 0 <= i < tracks.len() implies #[trigger] r[i].wf() by {
        if i == t {
            assert(tracks[t].wf());
            assert forall|j: int| 0 <= j < r[i].clips.len() implies #[trigger] r[i].clips[j].wf() by {
                assert(tracks[t].clips[j].wf());
            }
        }
    }
}

impl DawApp {
    /// The position of the first clip of `track` belonging to the section
    /// starting at `start`.
    fn first_clip_at_start(clips: &Vec<crate::model::Clip>, start: i64) -> (r: Option<usize>)
        requires
            crate::model::clips_wf(clips.deep_view()),
        ensures
            match r {
                Some(c) => first_at_start(clips.deep_view(), start) == Some(c as int) && c < clips@.len(),
                None => first_at_start(clips.deep_view(), start) is None,
            },
    {
        let ghost cv = clips.deep_view();
        let mut i: usize = 0;
        while i < clips.len()
            invariant
                i <= clips.len(),
                cv == clips.deep_view(),
                crate::model::clips_wf(cv),
                first_at_start(cv.take(i as int), start) is None,
            decreases clips.len() - i,
        {
            assert(cv.take(i + 1).drop_last() == cv.take(i as int));
            assert(cv[i as int] == clips@[i as int]@);
            assert(cv[i as int].wf());
            let cs = clips[i].start as i128;
            let cl = clips[i].length as i128;
            let s = start as i128;
            let near = (-50 <= cs - s && cs - s <= 50) || (cs < s + 50 && cs + cl > s + 50);
            if near {
                proof {
                    assert(first_at_start(cv.take(i + 1), start) == Some(i as int));
                    Self::lemma_first_at_start_prefix(cv, i + 1, start);
                }
                return Some(i);
            }
            i = i + 1;
        }
        assert(cv.take(clips.len() as int) == cv);
        None
    }

    proof fn lemma_first_at_start_prefix(clips: Seq<ClipView>, k: int, start: i64)
        requires
            0 <= k <= clips.len(),
            first_at_start(clips.take(k), start) is Some,
        ensures
            first_at_start(clips, start) == first_at_start(clips.take(k), start),
        decreases clips.len() - k,
    {
        if k < clips.len() {
            assert(clips.take(k + 1).drop_last() == clips.take(k));
            Self::lemma_first_at_start_prefix(clips, k + 1, start);
        } else {
            assert(clips.take(k) == clips);
        }
    }

    /// The id of the clip of track `track_index` that belongs to the section
    /// starting at `start` (see `section_clip`).
    pub fn find_track_clip_at_section_start(&self, track_index: usize, start: i64) -> (r: Option<usize>)
        requires
            self.wf(),
        ensures
            r == section_clip(self.tracks.deep_view(), track_index as int, start),
    {
        if track_index >= self.tracks.len() {
            return None;
        }
        assert(self.tracks@[track_index as int].wf());
        assert(self.tracks.deep_view()[track_index as int] == self.tracks@[track_index as int]@);
        match Self::first_clip_at_start(&self.tracks[track_index].clips, start) {
            Some(c) => Some(self.tracks[track_index].clips[c].id),
            None => None,
        }
    }

    /// Sets up the performance view from the arrangement's sections (see
    /// `smart_step`): `repeats` gives the repeat length, in ticks, found in
    /// each MIDI clip whose notes repeat. Returns how many clips were
    /// configured and how many of them loop; when any were, the tracks' note
    /// lists and routes are to be rebuilt.
    pub fn apply_smart_performance_sections(
        &mut self,
        sections: &Vec<PerformanceSectionAnalysis>,
        repeats: &HashMap<usize, i64>,
    ) -> (r: (usize, usize))
        requires
            old(self).wf(),
        ensures
            ({
                let st = smart_sections(
                    SmartState {
                        tracks: old(self).tracks.deep_view(),
                        settings: old(self).performance_clip_settings@,
                        configured: 0,
                        loops: 0,
                    },
                    sections@,
                    sections@.len() as int,
                    old(self).tracks@.len() as int,
                    repeats@,
                );
                &&& final(self).tracks.deep_view() == st.tracks
                &&& final(self).performance_clip_settings@ == st.settings
                &&& r == (st.configured, st.loops)
            }),
            final(self).wf(),
    {
        let n = self.tracks.len();
        let ghost st0 = SmartState {
            tracks: self.tracks.deep_view(),
            settings: self.performance_clip_settings@,
            configured: 0,
            loops: 0,
        };
        let mut configured: usize = 0;
        let mut loops: usize = 0;
        let mut k: usize = 0;
        while k < sections.len()
            invariant
                k <= sections@.len(),
                n == self.tracks@.len(),
                self.wf(),
                ({
                    let st = smart_sections(st0, sections@, k as int, n as int, repeats@);
                    &&& self.tracks.deep_view() == st.tracks
                    &&& self.performance_clip_settings@ == st.settings
                    &&& configured == st.configured
                    &&& loops == st.loops
                }),
            decreases sections@.len() - k,
        {
            let section = sections[k];
            let mut t: usize = 0;
            while t < n
                invariant
                    k < sections@.len(),
                    section == sections@[k as int],
                    t <= n == self.tracks@.len(),
                    self.wf(),
                    ({
                        let st = smart_tracks(
                            smart_sections(st0, sections@, k as int, n as int, repeats@),
                            sections@,
                            k as int,
                            t as int,
                            repeats@,
                        );
                        &&& self.tracks.deep_view() == st.tracks
                        &&& self.performance_clip_settings@ == st.settings
                        &&& configured == st.configured
                        &&& loops == st.loops
                    }),
                decreases n - t,
            {
                let ghost st = SmartState {
                    tracks: self.tracks.deep_view(),
                    settings: self.performance_clip_settings@,
                    configured,
                    loops,
                };
                self.smart_setup_clip(sections, k, t, repeats, &mut configured, &mut loops);
                proof {
                    assert(self.tracks.deep_view() == smart_step(st, sections@, k as int, t as int, repeats@).tracks);
                }
                t = t + 1;
            }
            k = k + 1;
        }
        (configured, loops)
    }

    /// Sets up the clip of track `t` at the start of section `k` (see `smart_step`).
    fn smart_setup_clip(
        &mut self,
        sections: &Vec<PerformanceSectionAnalysis>,
        k: usize,
        t: usize,
        repeats: &HashMap<usize, i64>,
        configured: &mut usize,
        loops: &mut usize,
    )
        requires
            old(self).wf(),
            k < sections@.len(),
            t < old(self).tracks@.len(),
        ensures
            final(self).wf(),
            final(self).tracks@.len() == old(self).tracks@.len(),
            ({
                let st = smart_step(
                    SmartState {
                        tracks: old(self).tracks.deep_view(),
                        settings: old(self).performance_clip_settings@,
                        configured: *old(configured),
                        loops: *old(loops),
                    },
                    sections@,
                    k as int,
                    t as int,
                    repeats@,
                );
                &&& final(self).tracks.deep_view() == st.tracks
                &&& final(self).performance_clip_settings@ == st.settings
                &&& *final(configured) == st.configured
                &&& *final(loops) == st.loops
            }),
    {
        let section = sections[k];
        let id = match self.find_track_clip_at_section_start(t, section.start) {
            Some(id) => id,
            None => {
                return;
            },
        };
        let (ct, ci) = match self.find_clip_indices_by_id(id) {
            Some(found) => found,
            None => {
                return;
            },
        };
        let ghost tv = self.tracks.deep_view();
        assert(tv[ct as int] == self.tracks@[ct as int]@);
        assert(tv[ct as int].clips[ci as int] == self.tracks@[ct as int].clips@[ci as int]@);
        assert(self.tracks@[ct as int].wf());
        assert(self.tracks@[ct as int].clips@[ci as int]@.wf());
        let clip_start = self.tracks[ct].clips[ci].start;
        let clip_length = self.tracks[ct].clips[ci].length;
        let clip_is_midi = self.tracks[ct].clips[ci].is_midi;
        let clip_audio_source = self.tracks[ct].clips[ci].audio_source;
        let d = (clip_start as i128) - (section.start as i128);
        if !(-50 <= d && d <= 50) {
            return;
        }
        let s0 = self.settings_for(id);
        let covers = (clip_length as i128) + 50 >= (section.length as i128);
        let mut is_loop = false;
        let mut midi_loop = false;
        if section.loop_unit.is_some() {
            if clip_is_midi && covers {
                if let Some(unit) = repeats.get(&id) {
                    let m = if *unit < clip_length {
                        *unit
                    } else {
                        clip_length
                    };
                    let src = if m < MIN_CLIP_TICKS {
                        MIN_CLIP_TICKS
                    } else {
                        m
                    };
                    assert(src == loop_source(repeats@[id], clip_length));
                    proof {
                        assert forall|i: int| 0 <= i < tv.len() implies #[trigger] tv[i].wf() by {
                            assert(tv[i] == self.tracks@[i]@);
                            assert(self.tracks@[i].wf());
                        }
                        lemma_midi_source_wf(tv, ct as int, ci as int, src);
                    }
                    let ghost before = self.tracks.deep_view();
                    self.tracks[ct].clips[ci].midi_source = Some(src);
                    proof {
                        assert(self.tracks.deep_view() =~= with_midi_source(before, ct as int, ci as int, src)) by {
                            assert(self.tracks@[ct as int].clips.deep_view() =~= before[ct as int].clips.update(
                                ci as int,
                                ClipView { midi_source: Some(src), ..before[ct as int].clips[ci as int] },
                            ));
                        }
                        assert forall|i: int| 0 <= i < self.tracks@.len() implies #[trigger] self.tracks@[i].wf() by {
                            assert(self.tracks.deep_view()[i] == self.tracks@[i]@);
                            assert(with_midi_source(before, ct as int, ci as int, src)[i].wf());
                        }
                    }
                    midi_loop = true;
                    is_loop = true;
                }
            } else if covers {
                if let Some(b) = clip_audio_source {
                    if b > 0 && (b as i128) + 50 < (clip_length as i128) {
                        is_loop = true;
                    }
                }
            }
        }
        let s2 = if is_loop {
            PerformanceClipSettings {
                trigger_mode: PerformanceTriggerMode::Loop,
                loop_enabled: true,
                auto_follow: false,
                next_clip_id: s0.next_clip_id,
            }
        } else {
            let next = if sections.len() - k > 1 {
                self.find_track_clip_at_section_start(t, sections[k + 1].start)
            } else {
                None
            };
            PerformanceClipSettings {
                trigger_mode: PerformanceTriggerMode::OneShot,
                loop_enabled: false,
                next_clip_id: next,
                auto_follow: next.is_some(),
            }
        };
        self.performance_clip_settings.insert(id, s2);
        *configured = if *configured == usize::MAX {
            usize::MAX
        } else {
            *configured + 1
        };
        if is_loop {
            *loops = if *loops == usize::MAX {
                usize::MAX
            } else {
                *loops + 1
            };
        }
    }
    /// Builds the performance view from the arrangement's `sections`, once
    /// the tracks were cut at the section starts (`slices_created` cuts):
    /// follow links are rebuilt on every track, then the clips starting
    /// sections are set up (see `apply_smart_performance_sections`). Nothing
    /// is done without sections or tracks.
    pub fn auto_build_performance_from_arrangement(
        &mut self,
        sections: &Vec<PerformanceSectionAnalysis>,
        slices_created: usize,
        repeats: &HashMap<usize, i64>,
    ) -> (r: AutoPerformanceBuildSummary)
        requires
            old(self).wf(),
        ensures
            (sections@.len() == 0 || old(self).tracks@.len() == 0) ==> {
                &&& r == AutoPerformanceBuildSummary { sections: 0, slices_created: 0, configured_clips: 0, loop_clips: 0 }
                &&& *final(self) == *old(self)
            },
            (sections@.len() > 0 && old(self).tracks@.len() > 0) ==> ({
                let linked = tracks_follow_links(
                    old(self).performance_clip_settings@,
                    old(self).tracks@,
                    all_tracks(old(self).tracks@.len() as int),
                    old(self).tracks@.len() as int,
                );
                let st = smart_sections(
                    SmartState { tracks: old(self).tracks.deep_view(), settings: linked, configured: 0, loops: 0 },
                    sections@,
                    sections@.len() as int,
                    old(self).tracks@.len() as int,
                    repeats@,
                );
                &&& final(self).tracks.deep_view() == st.tracks
                &&& final(self).performance_clip_settings@ == st.settings
                &&& r == AutoPerformanceBuildSummary {
                    sections: sections@.len() as usize,
                    slices_created,
                    configured_clips: st.configured,
                    loop_clips: st.loops,
                }
            }),
            final(self).wf(),
    {
        if sections.len() == 0 || self.tracks.len() == 0 {
            return AutoPerformanceBuildSummary { sections: 0, slices_created: 0, configured_clips: 0, loop_clips: 0 };
        }
        let mut all: Vec<usize> = Vec::new();
        let mut i: usize = 0;
        while i < self.tracks.len()
            invariant
                i <= self.tracks@.len(),
                all@ == all_tracks(self.tracks@.len() as int).take(i as int),
            decreases self.tracks@.len() - i,
        {
            all.push(i);
            assert(all_tracks(self.tracks@.len() as int).take(i + 1) =~= all_tracks(self.tracks@.len() as int).take(
                i as int,
            ).push(i));
            i = i + 1;
        }
        assert(all_tracks(self.tracks@.len() as int).take(self.tracks@.len() as int) =~= all_tracks(
            self.tracks@.len() as int,
        ));
        self.update_performance_flow_links_for_tracks(all.as_slice());
        let (configured, loops) = self.apply_smart_performance_sections(sections, repeats);
        AutoPerformanceBuildSummary {
            sections: sections.len(),
            slices_created,
            configured_clips: configured,
            loop_clips: loops,
        }
    }
    /// The cut positions of a clip starting at `start` with length `length`
    /// on a grid of `iv` ticks (see `slice_points`).
    fn clip_slice_points(start: i64, length: i64, iv: i64) -> (r: Vec<i64>)
        requires
            time_ok(start),
            time_ok(length),
            MIN_SLICE_TICKS <= iv <= TIME_LIMIT,
        ensures
            r@ == slice_points(start, length, iv as int),
    {
        let s: i64 = if start < 0 { 0 } else { start };
        let e0 = start + length;
        let e: i64 = if e0 > s + 1 { e0 } else { s + 1 };
        let q = s / iv;
        proof {
            assert(0 <= q <= s && q * iv <= s && s < q * iv + iv) by (nonlinear_arith)
                requires
                    s >= 0,
                    iv >= 1,
                    q == s / iv,
            ;
        }
        let first = q * iv + iv;
        assert(first == (s / iv + 1) * iv) by (nonlinear_arith)
            requires
                q == s / iv,
                first == q * iv + iv,
        ;
        let ghost n: int = if first < e - SNAP_TICKS { (e - SNAP_TICKS - first + iv - 1) / (iv as int) } else { 0 };
        let mut r: Vec<i64> = Vec::new();
        let mut split = first;
        let mut j: u64 = 0;
        while split < e - 50
            invariant
                first == (s / iv + 1) * iv,
                first <= s + iv,
                first > s,
                MIN_SLICE_TICKS <= iv <= TIME_LIMIT,
                -TIME_LIMIT <= e <= 2 * TIME_LIMIT + 1,
                split == first + j * iv,
                split <= 3 * TIME_LIMIT + iv,
                j <= n,
                n == (if first < e - SNAP_TICKS { (e - SNAP_TICKS - first + iv - 1) / (iv as int) } else { 0int }),
                r@ == Seq::new(j as nat, |q: int| (first + q * iv) as i64),
            decreases n - j,
        {
            proof {
                assert(j < n) by (nonlinear_arith)
                    requires
                        first + j * iv < e - 50,
                        iv >= 1,
                        n == (e - 50 - first + iv - 1) / (iv as int),
                        j >= 0,
                ;
            }
            let ghost prev = r@;
            r.push(split);
            assert(r@ =~= Seq::new((j + 1) as nat, |q: int| (first + q * iv) as i64));
            assert(split + iv == first + (j + 1) * iv) by (nonlinear_arith)
                requires
                    split == first + j * iv,
            ;
            split = split + iv;
            j = j + 1;
        }
        proof {
            if first < e - SNAP_TICKS {
                assert(j >= n) by (nonlinear_arith)
                    requires
                        first + j * iv >= e - 50,
                        iv >= 1,
                        n == (e - 50 - first + iv - 1) / (iv as int),
                        j >= 0,
                ;
            }
        }
        r
    }

    /// The cuts that slicing the arrangement into performance clips on a
    /// grid of `interval` ticks (at least `MIN_SLICE_TICKS`) makes: for every
    /// track and every clip on it, found by its id on that track, the
    /// positions to cut it at, in order (see `slice_plan`). Afterwards the
    /// follow links of all tracks are to be rebuilt.
    pub fn auto_slice_playlist_to_performance(&self, interval: i64) -> (r: Vec<(usize, Vec<i64>)>)
        requires
            self.wf(),
            interval <= TIME_LIMIT,
        ensures
            r.deep_view() == slice_plan(self.tracks.deep_view(), slice_interval(interval), self.tracks@.len() as int),
    {
        let iv: i64 = if interval < MIN_SLICE_TICKS { MIN_SLICE_TICKS } else { interval };
        let ghost tv = self.tracks.deep_view();
        let mut plan: Vec<(usize, Vec<i64>)> = Vec::new();
        let mut t: usize = 0;
        while t < self.tracks.len()
            invariant
                t <= self.tracks@.len(),
                tv == self.tracks.deep_view(),
                self.wf(),
                iv as int == slice_interval(interval),
                MIN_SLICE_TICKS <= iv <= TIME_LIMIT,
                plan.deep_view() == slice_plan(tv, iv as int, t as int),
            decreases self.tracks@.len() - t,
        {
            let ghost before_track = plan.deep_view();
            let mut c: usize = 0;
            assert(tv[t as int] == self.tracks@[t as int]@);
            while c < self.tracks[t].clips.len()
                invariant
                    t < self.tracks@.len(),
                    c <= self.tracks@[t as int].clips@.len(),
                    tv == self.tracks.deep_view(),
                    tv[t as int] == self.tracks@[t as int]@,
                    self.wf(),
                    MIN_SLICE_TICKS <= iv <= TIME_LIMIT,
                    plan.deep_view() == before_track + slice_plan_track(tv, t as int, iv as int, c as int),
                decreases self.tracks@[t as int].clips@.len() - c,
            {
                let id = self.tracks[t].clips[c].id;
                assert(tv[t as int].clips[c as int] == self.tracks@[t as int].clips@[c as int]@);
                match self.find_clip_indices_by_id(id) {
                    Some((ft, fc)) => {
                        if ft == t {
                            assert(self.tracks@[t as int].wf());
                            assert(tv[t as int].clips[fc as int] == self.tracks@[t as int].clips@[fc as int]@);
                            assert(tv[t as int].clips[fc as int].wf());
                            let pts = Self::clip_slice_points(
                                self.tracks[t].clips[fc].start,
                                self.tracks[t].clips[fc].length,
                                iv,
                            );
                            let ghost prev = plan.deep_view();
                            assert(pts.deep_view() =~= pts@);
                            plan.push((id, pts));
                            assert(plan.deep_view() =~= prev.push(
                                (id, slice_points(tv[t as int].clips[fc as int].start, tv[t as int].clips[fc as int].length, iv as int)),
                            ));
                        }
                    },
                    None => {},
                }
                c = c + 1;
            }
            assert(before_track + slice_plan_track(tv, t as int, iv as int, tv[t as int].clips.len() as int)
                == slice_plan(tv, iv as int, t + 1));
            t = t + 1;
        }
        plan
    }
}

/// A section without a loop unit never makes a clip loop: setting up the
/// clip of a track at its start leaves the tracks and the loop count as they
/// were, and the clip, if it is set up at all, becomes a one-shot linked to
/// the clip at the next section's start on the same track (auto-following
/// exactly when there is one).
pub proof fn law_unlooped_section_one_shot(
    st: SmartState,
    sections: Seq<PerformanceSectionAnalysis>,
    k: int,
    t: int,
    repeats: Map<usize, i64>,
)
    requires
        0 <= k < sections.len(),
        sections[k].loop_unit is None,
    ensures
        ({
            let r = smart_step(st, sections, k, t, repeats);
            let next = if k + 1 < sections.len() {
                section_clip(st.tracks, t, sections[k + 1].start)
            } else {
                None
            };
            &&& r.tracks == st.tracks
            &&& r.loops == st.loops
            &&& r.settings == st.settings || (section_clip(st.tracks, t, sections[k].start) matches Some(id)
                && r.settings == st.settings.insert(
                id,
                PerformanceClipSettings {
                    trigger_mode: PerformanceTriggerMode::OneShot,
                    loop_enabled: false,
                    next_clip_id: next,
                    auto_follow: next is Some,
                },
            ))
        }),
{
}

/// Setting up the clip of track `t` at the start of section `k` either
/// leaves everything as it was, or configures that clip (and counts it) in
/// one of two ways: as a one-shot linked to the clip at the next section's
/// start on the same track, auto-following exactly when there is one, with
/// the tracks and the loop count unchanged; or, only in a section with a
/// loop unit, as a looping clip that does not auto-follow, counted as a
/// loop.
pub proof fn law_section_setup_shapes(
    st: SmartState,
    sections: Seq<PerformanceSectionAnalysis>,
    k: int,
    t: int,
    repeats: Map<usize, i64>,
)
    requires
        0 <= k < sections.len(),
    ensures
        ({
            let r = smart_step(st, sections, k, t, repeats);
            let next = if k + 1 < sections.len() {
                section_clip(st.tracks, t, sections[k + 1].start)
            } else {
                None
            };
            ||| r == st
            ||| section_clip(st.tracks, t, sections[k].start) matches Some(id) && r.configured == inc(st.configured) && {
                ||| r.tracks == st.tracks && r.loops == st.loops && r.settings == st.settings.insert(
                    id,
                    PerformanceClipSettings {
                        trigger_mode: PerformanceTriggerMode::OneShot,
                        loop_enabled: false,
                        next_clip_id: next,
                        auto_follow: next is Some,
                    },
                )
                ||| sections[k].loop_unit is Some && r.loops == inc(st.loops) && r.settings == st.settings.insert(
                    id,
                    PerformanceClipSettings {
                        trigger_mode: PerformanceTriggerMode::Loop,
                        loop_enabled: true,
                        auto_follow: false,
                        next_clip_id: settings_of(st.settings, id).next_clip_id,
                    },
                )
            }
        }),
{
}
} // verus!
