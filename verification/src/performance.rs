//! The performance view: sections of the arrangement, clip launch order and
//! follow links, and recording of performance takes.
use vstd::prelude::*;
use crate::model::{ClipView, DawApp, PerformanceClipSettings, PianoRollNote, TIME_LIMIT, Track, TrackView, copy_vec, default_settings, time_ok, tracks_wf};
use crate::tracks::find_clip;

verus! {

broadcast use vstd::std_specs::hash::group_hash_axioms;

/// How close two positions must be, in ticks, to count as the same (0.05 beat).
pub const SNAP_TICKS: i64 = 50;

/// Clip `a` comes before clip `b` when ordered by start, ties broken by their
/// position in the track.
pub open spec fn starts_before(clips: Seq<ClipView>, a: int, b: int) -> bool {
    clips[a].start < clips[b].start || (clips[a].start == clips[b].start && a < b)
}

/// `o` lists the positions of all clips of `clips`, ordered by start and,
/// for equal starts, by position (the order a stable sort by start gives).
pub open spec fn is_start_order(clips: Seq<ClipView>, o: Seq<int>) -> bool {
    &&& o.len() == clips.len()
    &&& forall|i: int| 0 <= i < o.len() ==> 0 <= #[trigger] o[i] < clips.len()
    &&& forall|k: int| 0 <= k < clips.len() ==> #[trigger] o.contains(k)
    &&& forall|i: int, j: int| 0 <= i < j < o.len() ==> starts_before(clips, #[trigger] o[i], #[trigger] o[j])
}

/// The clips of a track in launch order: by start, ties by position.
pub open spec fn start_order(clips: Seq<ClipView>) -> Seq<int> {
    choose|o: Seq<int>| is_start_order(clips, o)
}

proof fn lemma_start_order_prefix(clips: Seq<ClipView>, o1: Seq<int>, o2: Seq<int>, i: int)
    requires
        is_start_order(clips, o1),
        is_start_order(clips, o2),
        0 <= i < o1.len(),
    ensures
        forall|k: int| 0 <= k <= i ==> o1[k] == o2[k],
    decreases i,
{
    if i > 0 {
        lemma_start_order_prefix(clips, o1, o2, i - 1);
    }
    let a = o1[i];
    let b = o2[i];
    if a != b {
        if starts_before(clips, a, b) {
            assert(o2.contains(a));
            let j = choose|j: int| 0 <= j < o2.len() && #[trigger] o2[j] == a;
            if j < i {
                assert(o1[j] == a);
                assert(starts_before(clips, o1[j], o1[i]));
            } else {
                assert(starts_before(clips, o2[i], o2[j]));
            }
        } else {
            assert(starts_before(clips, b, a));
            assert(o1.contains(b));
            let j = choose|j: int| 0 <= j < o1.len() && #[trigger] o1[j] == b;
            if j < i {
                assert(o2[j] == b);
                assert(starts_before(clips, o2[j], o2[i]));
            } else {
                assert(starts_before(clips, o1[i], o1[j]));
            }
        }
    }
}

/// There is exactly one start order of a list of clips.
pub proof fn lemma_start_order_unique(clips: Seq<ClipView>, o1: Seq<int>, o2: Seq<int>)
    requires
        is_start_order(clips, o1),
        is_start_order(clips, o2),
    ensures
        o1 == o2,
{
    if o1.len() > 0 {
        lemma_start_order_prefix(clips, o1, o2, o1.len() - 1);
    }
    assert(o1 =~= o2);
}

/// The settings stored for clip `id`, or the defaults when there are none.
pub open spec fn settings_of(m: Map<usize, PerformanceClipSettings>, id: usize) -> PerformanceClipSettings {
    if m.contains_key(id) {
        m[id]
    } else {
        default_settings()
    }
}

/// Clip `b` starts where clip `a` ends, within `SNAP_TICKS`.
pub open spec fn follows_directly(a: ClipView, b: ClipView) -> bool {
    -SNAP_TICKS <= a.start + a.length - b.start <= SNAP_TICKS
}

/// `m` after the follow link of the `k`-th clip of order `o` has been set:
/// to the next clip, with auto-follow on, when that clip starts where it
/// ends; otherwise cleared, with auto-follow off.
pub open spec fn with_follow_link(
    m: Map<usize, PerformanceClipSettings>,
    clips: Seq<ClipView>,
    o: Seq<int>,
    k: int,
) -> Map<usize, PerformanceClipSettings> {
    let cur = clips[o[k]];
    let next = clips[o[k + 1]];
    let s = settings_of(m, cur.id);
    if follows_directly(cur, next) {
        m.insert(cur.id, PerformanceClipSettings { auto_follow: true, next_clip_id: Some(next.id), ..s })
    } else {
        m.insert(cur.id, PerformanceClipSettings { auto_follow: false, next_clip_id: None, ..s })
    }
}

/// `m` after the follow links of the first `k` clips of order `o` have been set.
pub open spec fn follow_links_upto(
    m: Map<usize, PerformanceClipSettings>,
    clips: Seq<ClipView>,
    o: Seq<int>,
    k: int,
) -> Map<usize, PerformanceClipSettings>
    decreases k,
{
    if k <= 0 {
        m
    } else {
        with_follow_link(follow_links_upto(m, clips, o, k - 1), clips, o, k - 1)
    }
}

/// `m` after the follow links of one track have been rebuilt: each clip, in
/// start order, is linked to the next one when they touch, and the last clip
/// has no next clip.
pub open spec fn track_follow_links(m: Map<usize, PerformanceClipSettings>, clips: Seq<ClipView>) -> Map<
    usize,
    PerformanceClipSettings,
> {
    let o = start_order(clips);
    if clips.len() == 0 {
        m
    } else {
        let linked = follow_links_upto(m, clips, o, clips.len() - 1);
        let last = clips[o[clips.len() - 1]];
        linked.insert(last.id, PerformanceClipSettings { next_clip_id: None, ..settings_of(linked, last.id) })
    }
}

/// `m` after the follow links of the first `t` tracks that `selected` names
/// have been rebuilt.
pub open spec fn tracks_follow_links(
    m: Map<usize, PerformanceClipSettings>,
    tracks: Seq<Track>,
    selected: Seq<usize>,
    t: int,
) -> Map<usize, PerformanceClipSettings>
    decreases t,
{
    if t <= 0 {
        m
    } else {
        let before = tracks_follow_links(m, tracks, selected, t - 1);
        if selected.contains((t - 1) as usize) {
            track_follow_links(before, tracks[t - 1]@.clips)
        } else {
            before
        }
    }
}

/// Ticks in one bar (four beats).
pub const BAR_TICKS: i64 = 4000;

/// Most bars an arrangement analysis handles.
pub const MAX_BARS: usize = 1_000_000_000;

/// A section of the arrangement found by the analysis: where it starts, how
/// long it is, and the length of the loop it repeats (if it repeats one).
#[derive(Clone, Copy, Debug, PartialEq, Eq, Structural)]
pub struct PerformanceSectionAnalysis {
    pub start: i64,
    pub length: i64,
    pub loop_unit: Option<i64>,
}

/// The analysis's inputs for each bar `b`: `runs[b]` is the repeated run that
/// starts at bar `b` as (unit bars, run bars), if any, and `changes[b]` is the
/// number of bar-to-bar changes among the eight bars from `b`.
pub open spec fn section_inputs_ok(runs: Seq<Option<(usize, usize)>>, changes: Seq<usize>) -> bool {
    &&& runs.len() == changes.len() <= MAX_BARS
    &&& forall|b: int| 0 <= b < runs.len() ==> match #[trigger] runs[b] {
        Some((unit, run)) => 1 <= unit <= MAX_BARS,
        None => true,
    }
}

/// Bars of the section starting at bar `start` and its loop unit in bars.
pub open spec fn section_at(runs: Seq<Option<(usize, usize)>>, changes: Seq<usize>, start: int) -> (int, Option<int>) {
    let remaining = runs.len() - start;
    match runs[start] {
        Some((unit, run)) => {
            let capped = if run < 16 { run as int } else { 16 };
            let picked = if capped >= unit * 2 {
                capped - capped % (unit as int)
            } else if run < remaining {
                run as int
            } else {
                remaining
            };
            let floor = if unit < remaining { unit as int } else { remaining };
            (if picked >= floor { picked } else { floor }, Some(unit as int))
        },
        None => {
            let bars = if remaining >= 8 && changes[start] <= 3 {
                8
            } else if remaining >= 4 {
                4
            } else {
                remaining
            };
            (bars, None)
        },
    }
}

/// The sections of the arrangement from bar `start` on.
pub open spec fn sections_from(runs: Seq<Option<(usize, usize)>>, changes: Seq<usize>, start: int) -> Seq<
    PerformanceSectionAnalysis,
>
    decreases runs.len() - start,
{
    if start < 0 || start >= runs.len() {
        Seq::empty()
    } else {
        let (bars, unit) = section_at(runs, changes, start);
        let step = if bars >= 1 { bars } else { 1 };
        let section = PerformanceSectionAnalysis {
            start: (start * BAR_TICKS) as i64,
            length: (bars * BAR_TICKS) as i64,
            loop_unit: match unit {
                Some(u) => Some((u * BAR_TICKS) as i64),
                None => None,
            },
        };
        if start + step < runs.len() {
            seq![section] + sections_from(runs, changes, start + step)
        } else {
            seq![section]
        }
    }
}

/// Sections cut from bar `start`: each starts where the previous one ends,
/// all have a positive length, and the last ends at or after the final bar.
pub proof fn law_sections_tile(runs: Seq<Option<(usize, usize)>>, changes: Seq<usize>, start: int)
    requires
        section_inputs_ok(runs, changes),
        0 <= start,
    ensures
        ({
            let s = sections_from(runs, changes, start);
            &&& (s.len() == 0 <==> start >= runs.len())
            &&& s.len() > 0 ==> s[0].start == start * BAR_TICKS
            &&& forall|k: int| 0 <= k < s.len() ==> #[trigger] s[k].length >= BAR_TICKS
            &&& forall|k: int| 0 <= k < s.len() - 1 ==> #[trigger] s[k].start + s[k].length == s[k + 1].start
            &&& s.len() > 0 ==> s[s.len() - 1].start + s[s.len() - 1].length >= runs.len() * BAR_TICKS
        }),
    decreases runs.len() - start,
{
    if start < runs.len() {
        let (bars, unit) = section_at(runs, changes, start);
        lemma_section_bounds(runs, changes, start);
        let step = if bars >= 1 { bars } else { 1 };
        if start + step < runs.len() {
            law_sections_tile(runs, changes, start + step);
        }
        let rest = if start + step < runs.len() {
            sections_from(runs, changes, start + step)
        } else {
            Seq::empty()
        };
        let s = sections_from(runs, changes, start);
        assert(s == seq![s[0]] + rest);
        assert forall|k: int| 0 <= k < s.len() - 1 implies #[trigger] s[k].start + s[k].length == s[k + 1].start by {
            if k > 0 {
                assert(s[k] == rest[k - 1] && s[k + 1] == rest[k]);
            } else if rest.len() > 0 {
                assert(s[1] == rest[0]);
            }
        }
        assert forall|k: int| 0 <= k < s.len() implies #[trigger] s[k].length >= BAR_TICKS by {
            if k > 0 {
                assert(s[k] == rest[k - 1]);
            }
        }
    }
}

/// The section at `start` spans at least one bar and at most the larger of
/// 16 bars and the bars left.
proof fn lemma_section_bounds(runs: Seq<Option<(usize, usize)>>, changes: Seq<usize>, start: int)
    requires
        section_inputs_ok(runs, changes),
        0 <= start < runs.len(),
    ensures
        1 <= section_at(runs, changes, start).0,
        section_at(runs, changes, start).0 <= 16 || section_at(runs, changes, start).0 <= runs.len() - start,
        match section_at(runs, changes, start).1 {
            Some(u) => 1 <= u <= MAX_BARS,
            None => true,
        },
{
    match runs[start] {
        Some((unit, run)) => {
            let capped = if run < 16 { run as int } else { 16 };
            if capped >= unit * 2 {
                assert(capped % (unit as int) >= 0);
                assert(capped % (unit as int) < unit);
            }
        },
        None => {},
    }
}

impl DawApp {
    /// The positions of the clips of `track`, ordered by start with ties kept
    /// in track order.
    pub fn clip_start_order(track: &Track) -> (o: Vec<usize>)
        ensures
            is_start_order(track@.clips, o@.map_values(|x: usize| x as int)),
            o@.map_values(|x: usize| x as int) == start_order(track@.clips),
    {
        let ghost clips = track@.clips;
        let n = track.clips.len();
        let mut o: Vec<usize> = Vec::new();
        let mut m: usize = 0;
        while m < n
            invariant
                m <= n == clips.len() == track.clips@.len(),
                clips == track@.clips,
                o@.len() == m,
                forall|i: int| 0 <= i < o@.len() ==> 0 <= #[trigger] o@[i] < m,
                forall|k: usize| 0 <= k < m ==> #[trigger] o@.contains(k),
                forall|i: int, j: int| 0 <= i < j < o@.len() ==> starts_before(clips, #[trigger] o@[i] as int, #[trigger] o@[j] as int),
            decreases n - m,
        {
            let start = track.clips[m].start;
            assert(clips[m as int].start == start);
            let mut p: usize = 0;
            while p < o.len() && track.clips[o[p]].start <= start
                invariant
                    p <= o@.len() == m < n,
                    n == clips.len() == track.clips@.len(),
                    clips == track@.clips,
                    start == clips[m as int].start,
                    forall|i: int| 0 <= i < o@.len() ==> 0 <= #[trigger] o@[i] < m,
                    forall|i: int| 0 <= i < p ==> clips[#[trigger] o@[i] as int].start <= start,
                decreases o@.len() - p,
            {
                p = p + 1;
            }
            let ghost before_insert = o@;
            o.insert(p, m);
            proof {
                assert forall|i: int, j: int| 0 <= i < j < o@.len() implies starts_before(clips, #[trigger] o@[i] as int, #[trigger] o@[j] as int) by {
                    if i < p && j < p {
                        assert(o@[i] == before_insert[i] && o@[j] == before_insert[j]);
                    } else if i < p && j == p {
                        assert(clips[before_insert[i] as int].start <= start);
                    } else if i < p {
                        assert(o@[i] == before_insert[i] && o@[j] == before_insert[j - 1]);
                    } else if i == p {
                        assert(o@[j] == before_insert[j - 1]);
                        if p < before_insert.len() {
                            assert(clips[before_insert[p as int] as int].start > start);
                            if j - 1 > p {
                                assert(starts_before(clips, before_insert[p as int] as int, before_insert[j - 1] as int));
                            }
                        }
                    } else {
                        assert(o@[i] == before_insert[i - 1] && o@[j] == before_insert[j - 1]);
                    }
                }
                assert forall|k: usize| 0 <= k < m + 1 implies #[trigger] o@.contains(k) by {
                    if k == m {
                        assert(o@[p as int] == k);
                    } else {
                        assert(before_insert.contains(k));
                        let i = choose|i: int| 0 <= i < before_insert.len() && #[trigger] before_insert[i] == k;
                        if i < p {
                            assert(o@[i] == k);
                        } else {
                            assert(o@[i + 1] == k);
                        }
                    }
                }
            }
            m = m + 1;
        }
        proof {
            let oi = o@.map_values(|x: usize| x as int);
            assert forall|k: int| 0 <= k < clips.len() implies #[trigger] oi.contains(k) by {
                assert(o@.contains(k as usize));
                let i = choose|i: int| 0 <= i < o@.len() && #[trigger] o@[i] == k as usize;
                assert(oi[i] == k);
            }
            assert(is_start_order(clips, oi));
            lemma_start_order_unique(clips, oi, start_order(clips));
        }
        o
    }

    /// The settings stored for clip `id`, or the defaults.
    pub(crate) fn settings_for(&self, id: usize) -> (r: PerformanceClipSettings)
        ensures
            r == settings_of(self.performance_clip_settings@, id),
    {
        match self.performance_clip_settings.get(&id) {
            Some(s) => *s,
            None => PerformanceClipSettings::fresh(),
        }
    }

    /// Rebuilds the follow links of one track's clips.
    fn update_track_follow_links(&mut self, t: usize)
        requires
            t < old(self).tracks@.len(),
            old(self).tracks@[t as int].wf(),
        ensures
            final(self).performance_clip_settings@ == track_follow_links(
                old(self).performance_clip_settings@,
                old(self).tracks@[t as int]@.clips,
            ),
            final(self).tracks == old(self).tracks,
    {
        let o = Self::clip_start_order(&self.tracks[t]);
        let ghost clips = self.tracks@[t as int]@.clips;
        let ghost oi = o@.map_values(|x: usize| x as int);
        let n = o.len();
        if n == 0 {
            return;
        }
        let mut k: usize = 0;
        while k + 1 < n
            invariant
                k < n == o@.len() == clips.len(),
                t < self.tracks@.len(),
                clips == self.tracks@[t as int]@.clips,
                self.tracks == old(self).tracks,
                oi == o@.map_values(|x: usize| x as int),
                oi == start_order(clips),
                is_start_order(clips, oi),
                clips == old(self).tracks@[t as int]@.clips,
                old(self).tracks@[t as int].wf(),
                self.performance_clip_settings@ == follow_links_upto(
                    old(self).performance_clip_settings@, clips, oi, k as int),
            decreases n - k,
        {
            assert(oi[k as int] == o@[k as int] as int && oi[k + 1] == o@[k + 1] as int);
            assert(0 <= oi[k + 1] < clips.len() && 0 <= oi[k as int] < clips.len());
            assert(clips.len() == self.tracks@[t as int].clips@.len());
            let cur = &self.tracks[t].clips[o[k]];
            let next = &self.tracks[t].clips[o[k + 1]];
            assert(clips[oi[k as int]] == cur@);
            assert(clips[oi[k + 1]] == next@);
            assert(cur@.wf() && next@.wf()) by {
                assert(old(self).tracks@[t as int]@.wf());
            }
            let cur_id = cur.id;
            let connected = {
                let gap = cur.start + cur.length - next.start;
                -SNAP_TICKS <= gap && gap <= SNAP_TICKS
            };
            let next_id = next.id;
            let mut settings = self.settings_for(cur_id);
            if connected {
                settings.auto_follow = true;
                settings.next_clip_id = Some(next_id);
            } else {
                settings.auto_follow = false;
                settings.next_clip_id = None;
            }
            self.performance_clip_settings.insert(cur_id, settings);
            k = k + 1;
        }
        let last_id = self.tracks[t].clips[o[n - 1]].id;
        assert(clips[oi[n - 1]].id == last_id);
        let mut settings = self.settings_for(last_id);
        settings.next_clip_id = None;
        self.performance_clip_settings.insert(last_id, settings);
    }

    /// Rebuilds the follow links of the tracks listed in `track_indices`: on
    /// each such track, the clips in start order are linked to the next clip
    /// (auto-follow on) where one starts where the previous ends, and unlinked
    /// (auto-follow off) elsewhere; the last clip keeps its auto-follow flag
    /// but loses its next clip.
    pub fn update_performance_flow_links_for_tracks(&mut self, track_indices: &[usize])
        requires
            old(self).wf(),
        ensures
            final(self).performance_clip_settings@ == tracks_follow_links(
                old(self).performance_clip_settings@,
                old(self).tracks@,
                track_indices@,
                old(self).tracks@.len() as int,
            ),
            final(self).tracks == old(self).tracks,
    {
        let mut t: usize = 0;
        while t < self.tracks.len()
            invariant
                t <= self.tracks@.len(),
                self.tracks == old(self).tracks,
                tracks_wf(old(self).tracks@),
                self.performance_clip_settings@ == tracks_follow_links(
                    old(self).performance_clip_settings@, old(self).tracks@, track_indices@, t as int),
            decreases self.tracks@.len() - t,
        {
            let mut selected = false;
            let mut i: usize = 0;
            while i < track_indices.len()
                invariant
                    i <= track_indices@.len(),
                    selected <==> exists|j: int| 0 <= j < i && track_indices@[j] == t,
                decreases track_indices@.len() - i,
            {
                if track_indices[i] == t {
                    selected = true;
                }
                i = i + 1;
            }
            assert(selected == track_indices@.contains(t));
            if selected {
                assert(old(self).tracks@[t as int].wf());
                self.update_track_follow_links(t);
            }
            t = t + 1;
        }
    }

    /// Cuts the arrangement into performance sections, bar by bar from the
    /// first: where a repeated run starts, a section of whole repeat units
    /// (at most 16 bars when the run holds two units or more; otherwise the
    /// run), never shorter than one unit, that loops that unit; elsewhere 8
    /// bars when at least 8 are left and they change at most 3 times, else 4
    /// bars, else what is left. `bar_runs[b]` is the repeated run found at bar
    /// `b` as (unit bars, run bars), and `bar_changes[b]` the number of changes
    /// among the 8 bars from `b`.
    pub fn analyze_performance_sections(
        bar_runs: &Vec<Option<(usize, usize)>>,
        bar_changes: &Vec<usize>,
    ) -> (sections: Vec<PerformanceSectionAnalysis>)
        requires
            section_inputs_ok(bar_runs@, bar_changes@),
        ensures
            sections@ == sections_from(bar_runs@, bar_changes@, 0),
    {
        let n = bar_runs.len();
        let mut sections: Vec<PerformanceSectionAnalysis> = Vec::new();
        let mut start_bar: usize = 0;
        while start_bar < n
            invariant
                n == bar_runs@.len(),
                section_inputs_ok(bar_runs@, bar_changes@),
                sections@ + sections_from(bar_runs@, bar_changes@, start_bar as int)
                    == sections_from(bar_runs@, bar_changes@, 0),
            decreases n - start_bar,
        {
            let remaining = n - start_bar;
            proof {
                lemma_section_bounds(bar_runs@, bar_changes@, start_bar as int);
            }
            let ghost (spec_bars, spec_unit) = section_at(bar_runs@, bar_changes@, start_bar as int);
            let (bars, unit): (usize, Option<usize>) = match bar_runs[start_bar] {
                Some((unit_bars, run_bars)) => {
                    let capped_bars = if run_bars < 16 { run_bars } else { 16 };
                    let picked = if capped_bars >= unit_bars * 2 {
                        capped_bars - (capped_bars % unit_bars)
                    } else if run_bars < remaining {
                        run_bars
                    } else {
                        remaining
                    };
                    let floor = if unit_bars < remaining { unit_bars } else { remaining };
                    (if picked >= floor { picked } else { floor }, Some(unit_bars))
                },
                None => {
                    let bars = if remaining >= 8 && bar_changes[start_bar] <= 3 {
                        8
                    } else if remaining >= 4 {
                        4
                    } else {
                        remaining
                    };
                    (bars, None)
                },
            };
            assert(bars == spec_bars);
            let section = PerformanceSectionAnalysis {
                start: (start_bar as i64) * BAR_TICKS,
                length: (bars as i64) * BAR_TICKS,
                loop_unit: match unit {
                    Some(u) => Some((u as i64) * BAR_TICKS),
                    None => None,
                },
            };
            let ghost rest = if start_bar + bars < n {
                sections_from(bar_runs@, bar_changes@, start_bar + bars)
            } else {
                Seq::empty()
            };
            assert(sections_from(bar_runs@, bar_changes@, start_bar as int) == seq![section] + rest);
            sections.push(section);
            assert(sections@ + rest == sections_from(bar_runs@, bar_changes@, 0));
            if start_bar + bars >= n {
                return sections;
            }
            start_bar = start_bar + bars;
        }
        sections
    }
}

/// `notes` moved by `delta`, none before 0.
pub open spec fn shifted_notes(notes: Seq<PianoRollNote>, delta: i64) -> Seq<PianoRollNote> {
    notes.map_values(
        |n: PianoRollNote|
            PianoRollNote {
                start: if n.start + delta > 0 {
                    (n.start + delta) as i64
                } else {
                    0
                },
                ..n
            },
    )
}

/// The tracks with the notes of clip `c` of track `t` moved by `delta`.
pub open spec fn with_notes_shifted(tracks: Seq<TrackView>, t: int, c: int, delta: i64) -> Seq<TrackView> {
    let clip = tracks[t].clips[c];
    tracks.update(
        t,
        TrackView {
            clips: tracks[t].clips.update(c, ClipView { midi_notes: shifted_notes(clip.midi_notes, delta), ..clip }),
            ..tracks[t]
        },
    )
}

impl DawApp {
    /// Moves the notes of the first clip with id `clip_id` by `delta`, none
    /// before 0; nothing happens when `delta` is 0 or there is no such clip.
    pub fn shift_clip_notes_by_delta(&mut self, clip_id: usize, delta: i64)
        requires
            old(self).wf(),
            time_ok(delta),
            match find_clip(old(self).tracks.deep_view(), clip_id) {
                Some((t, c)) => forall|n: int| 0 <= n < old(self).tracks.deep_view()[t].clips[c].midi_notes.len()
                    ==> #[trigger] old(self).tracks.deep_view()[t].clips[c].midi_notes[n].start + delta <= TIME_LIMIT,
                None => true,
            },
        ensures
            final(self).wf(),
            final(self).tracks.deep_view() == match find_clip(old(self).tracks.deep_view(), clip_id) {
                Some((t, c)) if delta != 0 => with_notes_shifted(old(self).tracks.deep_view(), t, c, delta),
                _ => old(self).tracks.deep_view(),
            },
    {
        if delta == 0 {
            return;
        }
        let (t, c) = match self.find_clip_indices_by_id(clip_id) {
            Some(found) => found,
            None => {
                return;
            },
        };
        let ghost before = self.tracks.deep_view();
        let ghost old_tracks = self.tracks@;
        let mut notes = copy_vec(&self.tracks[t].clips[c].midi_notes);
        let ghost orig = notes@;
        assert(orig == before[t as int].clips[c as int].midi_notes);
        assert(old_tracks[t as int].wf());
        assert(old_tracks[t as int]@.clips[c as int].wf());
        let mut i: usize = 0;
        while i < notes.len()
            invariant
                i <= notes@.len() == orig.len(),
                time_ok(delta),
                crate::model::notes_wf(orig),
                forall|n: int| 0 <= n < orig.len() ==> #[trigger] orig[n].start + delta <= TIME_LIMIT,
                forall|n: int| 0 <= n < notes@.len() ==> #[trigger] notes@[n] == if n < i {
                    shifted_notes(orig, delta)[n]
                } else {
                    orig[n]
                },
            decreases notes@.len() - i,
        {
            let n = notes[i];
            assert(orig[i as int].wf());
            let moved = n.start + delta;
            let start = if moved > 0 { moved } else { 0 };
            notes.set(i, PianoRollNote { start, ..n });
            i = i + 1;
        }
        assert(notes@ =~= shifted_notes(orig, delta));
        self.tracks[t].clips[c].midi_notes = notes;
        proof {
            let after = self.tracks.deep_view();
            let expected = with_notes_shifted(before, t as int, c as int, delta);
            assert(after[t as int].clips =~= expected[t as int].clips) by {
                assert forall|k: int| 0 <= k < after[t as int].clips.len() implies after[t as int].clips[k] == expected[t as int].clips[k] by {
                    if k != c {
                        assert(self.tracks@[t as int].clips@[k] == old_tracks[t as int].clips@[k]);
                    }
                }
            }
            assert forall|j: int| 0 <= j < before.len() && j != t implies after[j] == before[j] by {
                assert(self.tracks@[j] == old_tracks[j]);
            }
            assert(after =~= expected);
            assert forall|k: int| 0 <= k < shifted_notes(orig, delta).len() implies #[trigger] shifted_notes(orig, delta)[k].wf() by {
                assert(orig[k].wf());
            }
            assert forall|j: int| 0 <= j < self.tracks@.len() implies #[trigger] self.tracks@[j].wf() by {
                if j != t {
                    assert(self.tracks@[j] == old_tracks[j]);
                } else {
                    assert(old_tracks[j].wf());
                    assert forall|k: int| 0 <= k < self.tracks@[j]@.clips.len() implies #[trigger] self.tracks@[j]@.clips[k].wf() by {
                        if k != c {
                            assert(self.tracks@[j]@.clips[k] == old_tracks[j]@.clips[k]);
                        }
                    }
                }
            }
        }
    }
}

} // verus!
