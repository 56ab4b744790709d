//! What the offline renderer is given for each track.
use vstd::prelude::*;
use crate::model::{
    AutomationLane, Clip, ClipView, DawApp, LaneView, PianoRollNote, Track, TrackView, TreeSynthState, TreeSynthView,
    copy_clips, copy_lanes, copy_opt_bytes, copy_opt_string, time_ok, tracks_wf,
};
use crate::recording::{max_int, min_int, MIN_CLIP_TICKS};
use crate::project::sanitized_folder_name;
use crate::safe_path::escape_message;
use crate::paths::{has_suffix, is_path_punct};
use crate::text::{concat, decimal, decimal_string, has_prefix};

verus! {

/// The mix settings of a rendered track.
#[derive(Clone, Copy, Debug, PartialEq, Eq, Structural)]
pub struct TrackMixState {
    pub muted: bool,
    pub solo: bool,
    /// Mix level, as an `f32` bit pattern.
    pub level: u32,
    /// Whether the track sounds in the render.
    pub active: bool,
}

/// A track as the renderer sees it.
pub struct RenderTrack {
    pub index: usize,
    pub mix: TrackMixState,
    pub treesynth_enabled: bool,
    pub treesynth_state: Option<TreeSynthState>,
    /// The plug-in to load: its CLAP id, else its path.
    pub host_id: Option<String>,
    pub host_state: Option<Vec<u8>>,
    pub clips: Vec<Clip>,
    pub automation: Vec<AutomationLane>,
    pub output_pair: Option<usize>,
}

/// The value of a rendered track.
pub struct RenderTrackView {
    pub index: usize,
    pub mix: TrackMixState,
    pub treesynth_enabled: bool,
    pub treesynth_state: Option<TreeSynthView>,
    pub host_id: Option<Seq<char>>,
    pub host_state: Option<Seq<u8>>,
    pub clips: Seq<ClipView>,
    pub automation: Seq<LaneView>,
    pub output_pair: Option<usize>,
}

impl DeepView for RenderTrack {
    type V = RenderTrackView;

    open spec fn deep_view(&self) -> RenderTrackView {
        RenderTrackView {
            index: self.index,
            mix: self.mix,
            treesynth_enabled: self.treesynth_enabled,
            treesynth_state: self.treesynth_state.deep_view(),
            host_id: self.host_id.deep_view(),
            host_state: self.host_state.deep_view(),
            clips: self.clips.deep_view(),
            automation: self.automation.deep_view(),
            output_pair: self.output_pair,
        }
    }
}

/// Whether a track sounds in a render: unmuted and, when any track is
/// soloed, soloed itself; `force_active` overrides both.
pub open spec fn render_active(muted: bool, solo: bool, has_solo: bool, force_active: Option<bool>) -> bool {
    match force_active {
        Some(f) => f,
        None => !muted && (!has_solo || solo),
    }
}

/// The rendered form of track `t` at position `index`.
pub open spec fn render_model(index: usize, t: crate::model::TrackView, has_solo: bool, force_active: Option<bool>) -> RenderTrackView {
    RenderTrackView {
        index,
        mix: TrackMixState {
            muted: t.muted,
            solo: t.solo,
            level: t.level,
            active: render_active(t.muted, t.solo, has_solo, force_active),
        },
        treesynth_enabled: t.treesynth is Some,
        treesynth_state: t.treesynth,
        host_id: if t.instrument_clap_id is Some {
            t.instrument_clap_id
        } else {
            t.instrument_path
        },
        host_state: t.plugin_state_component,
        clips: t.clips,
        automation: t.automation_lanes,
        output_pair: None,
    }
}

impl DawApp {
    /// The rendered form of `track` (see `render_model`).
    pub fn render_track_model(track_index: usize, track: &Track, has_solo: bool, force_active: Option<bool>) -> (r:
        RenderTrack)
        ensures
            r.deep_view() == render_model(track_index, track@, has_solo, force_active),
    {
        let mut active = !track.muted && (!has_solo || track.solo);
        if let Some(f) = force_active {
            active = f;
        }
        let host_id = match &track.instrument_clap_id {
            Some(id) => Some(id.clone()),
            None => copy_opt_string(&track.instrument_path),
        };
        RenderTrack {
            index: track_index,
            mix: TrackMixState { muted: track.muted, solo: track.solo, level: track.level, active },
            treesynth_enabled: track.treesynth.is_some(),
            treesynth_state: match &track.treesynth {
                Some(t) => Some(t.copied()),
                None => None,
            },
            host_id,
            host_state: copy_opt_bytes(&track.plugin_state_component),
            clips: copy_clips(&track.clips),
            automation: copy_lanes(&track.automation_lanes),
            output_pair: None,
        }
    }
}

/// The latest end of `clips`, and 0 when none ends later.
pub open spec fn clips_end(clips: Seq<ClipView>) -> int
    decreases clips.len(),
{
    if clips.len() == 0 {
        0
    } else {
        max_int(clips_end(clips.drop_last()), clips.last().start + clips.last().length)
    }
}

/// The latest end of `notes`, and 0 when none ends later.
pub open spec fn notes_end(notes: Seq<PianoRollNote>) -> int
    decreases notes.len(),
{
    if notes.len() == 0 {
        0
    } else {
        max_int(notes_end(notes.drop_last()), notes.last().start + notes.last().length)
    }
}

/// Where the project ends: the latest end of any clip or track note, and 0
/// when none ends later.
pub open spec fn project_end(tracks: Seq<TrackView>) -> int
    decreases tracks.len(),
{
    if tracks.len() == 0 {
        0
    } else {
        max_int(project_end(tracks.drop_last()), max_int(clips_end(tracks.last().clips), notes_end(tracks.last().midi_notes)))
    }
}

/// The latest end of any clip of `tracks`, and 0 when none ends later.
pub open spec fn all_clips_end(tracks: Seq<TrackView>) -> int
    decreases tracks.len(),
{
    if tracks.len() == 0 {
        0
    } else {
        max_int(all_clips_end(tracks.drop_last()), clips_end(tracks.last().clips))
    }
}

/// The smaller of two optional values.
pub open spec fn opt_min(a: Option<int>, b: Option<int>) -> Option<int> {
    match (a, b) {
        (Some(x), Some(y)) => Some(if x <= y { x } else { y }),
        (Some(x), None) => Some(x),
        (None, y) => y,
    }
}

/// The earliest start of `clips`, if there are any.
pub open spec fn clips_first_start(clips: Seq<ClipView>) -> Option<int>
    decreases clips.len(),
{
    if clips.len() == 0 {
        None
    } else {
        opt_min(clips_first_start(clips.drop_last()), Some(clips.last().start as int))
    }
}

/// The earliest start of any clip of `tracks`, if there is a clip.
pub open spec fn all_clips_first_start(tracks: Seq<TrackView>) -> Option<int>
    decreases tracks.len(),
{
    if tracks.len() == 0 {
        None
    } else {
        opt_min(all_clips_first_start(tracks.drop_last()), clips_first_start(tracks.last().clips))
    }
}

/// The span the clips of `tracks` cover: from the earliest start (not
/// before 0) to the latest end, at least `MIN_CLIP_TICKS` after the earliest
/// start; nothing when there are no clips.
pub open spec fn clip_range(tracks: Seq<TrackView>) -> Option<(int, int)> {
    match all_clips_first_start(tracks) {
        None => None,
        Some(first) => Some((max_int(first, 0), max_int(all_clips_end(tracks), first + MIN_CLIP_TICKS))),
    }
}

/// Whether track `t` can sound between `lo` and `hi` (at least one tick
/// after `lo`): it has automation, an instrument, effects or a built-in
/// instrument, or a note or an audio clip overlaps the span.
pub open spec fn audio_in_range(t: TrackView, lo: int, hi: int) -> bool {
    let end = max_int(hi, lo + 1);
    ||| t.automation_lanes.len() > 0
    ||| t.instrument_path is Some
    ||| t.effect_paths.len() > 0
    ||| t.treesynth is Some
    ||| t.drum_machine is Some
    ||| exists|i: int| 0 <= i < t.midi_notes.len() && #[trigger] t.midi_notes[i].start < end && t.midi_notes[i].start
        + t.midi_notes[i].length > lo
    ||| exists|i: int| 0 <= i < t.clips.len() && !(#[trigger] t.clips[i]).is_midi && t.clips[i].start < end
        && t.clips[i].start + t.clips[i].length > lo
}

impl DawApp {
    /// Where the project ends (see `project_end`).
    pub fn project_end_beats(&self) -> (r: i64)
        requires
            self.wf(),
        ensures
            r == project_end(self.tracks.deep_view()),
            0 <= r <= 2 * crate::model::TIME_LIMIT,
    {
        let ghost tv = self.tracks.deep_view();
        let mut m: i64 = 0;
        let mut t: usize = 0;
        while t < self.tracks.len()
            invariant
                t <= self.tracks@.len() == tv.len(),
                tv == self.tracks.deep_view(),
                tracks_wf(self.tracks@),
                m == project_end(tv.take(t as int)),
                0 <= m <= 2 * crate::model::TIME_LIMIT,
            decreases self.tracks@.len() - t,
        {
            let track = &self.tracks[t];
            assert(tv[t as int] == track@);
            assert(track.wf());
            let ghost p = m as int;
            let mut c: usize = 0;
            while c < track.clips.len()
                invariant
                    c <= track@.clips.len(),
                    track.wf(),
                    m == max_int(p, clips_end(track@.clips.take(c as int))),
                    0 <= p,
                    0 <= m <= 2 * crate::model::TIME_LIMIT,
                decreases track@.clips.len() - c,
            {
                assert(track@.clips.take(c + 1).drop_last() == track@.clips.take(c as int));
                assert(track@.clips[c as int].wf());
                assert(track@.clips[c as int] == track.clips@[c as int]@);
                let end = track.clips[c].start + track.clips[c].length;
                if end > m {
                    m = end;
                }
                c = c + 1;
            }
            assert(track@.clips.take(c as int) == track@.clips);
            let ghost q = m as int;
            let mut n: usize = 0;
            while n < track.midi_notes.len()
                invariant
                    n <= track@.midi_notes.len(),
                    track.wf(),
                    m == max_int(q, notes_end(track@.midi_notes.take(n as int))),
                    0 <= q,
                    0 <= m <= 2 * crate::model::TIME_LIMIT,
                decreases track@.midi_notes.len() - n,
            {
                assert(track@.midi_notes.take(n + 1).drop_last() == track@.midi_notes.take(n as int));
                assert(track@.midi_notes[n as int].wf());
                let end = track.midi_notes[n].start + track.midi_notes[n].length;
                if end > m {
                    m = end;
                }
                n = n + 1;
            }
            assert(track@.midi_notes.take(n as int) == track@.midi_notes);
            assert(tv.take(t + 1).drop_last() == tv.take(t as int));
            t = t + 1;
        }
        assert(tv.take(self.tracks@.len() as int) == tv);
        m
    }

    /// The span the project's clips cover (see `clip_range`).
    pub fn project_clip_range(&self) -> (r: Option<(i64, i64)>)
        requires
            self.wf(),
        ensures
            match r {
                Some((lo, hi)) => clip_range(self.tracks.deep_view()) == Some((lo as int, hi as int)),
                None => clip_range(self.tracks.deep_view()) is None,
            },
    {
        let ghost tv = self.tracks.deep_view();
        let mut first: Option<i64> = None;
        let mut last_end: i64 = 0;
        let mut t: usize = 0;
        while t < self.tracks.len()
            invariant
                t <= self.tracks@.len() == tv.len(),
                tv == self.tracks.deep_view(),
                tracks_wf(self.tracks@),
                match first {
                    Some(f) => all_clips_first_start(tv.take(t as int)) == Some(f as int) && time_ok(f),
                    None => all_clips_first_start(tv.take(t as int)) is None,
                },
                last_end == all_clips_end(tv.take(t as int)),
                0 <= last_end <= 2 * crate::model::TIME_LIMIT,
            decreases self.tracks@.len() - t,
        {
            let track = &self.tracks[t];
            assert(tv[t as int] == track@);
            assert(track.wf());
            let ghost pf = match first {
                Some(f) => Some(f as int),
                None => None::<int>,
            };
            let ghost pe = last_end as int;
            let mut c: usize = 0;
            while c < track.clips.len()
                invariant
                    c <= track@.clips.len(),
                    track.wf(),
                    match first {
                        Some(f) => opt_min(pf, clips_first_start(track@.clips.take(c as int))) == Some(f as int)
                            && time_ok(f),
                        None => opt_min(pf, clips_first_start(track@.clips.take(c as int))) is None,
                    },
                    last_end == max_int(pe, clips_end(track@.clips.take(c as int))),
                    0 <= pe,
                    0 <= last_end <= 2 * crate::model::TIME_LIMIT,
                decreases track@.clips.len() - c,
            {
                assert(track@.clips.take(c + 1).drop_last() == track@.clips.take(c as int));
                assert(track@.clips[c as int].wf());
                assert(track@.clips[c as int] == track.clips@[c as int]@);
                let start = track.clips[c].start;
                first = match first {
                    Some(f) => Some(if f <= start { f } else { start }),
                    None => Some(start),
                };
                let end = start + track.clips[c].length;
                if end > last_end {
                    last_end = end;
                }
                c = c + 1;
            }
            assert(track@.clips.take(c as int) == track@.clips);
            assert(tv.take(t + 1).drop_last() == tv.take(t as int));
            t = t + 1;
        }
        assert(tv.take(self.tracks@.len() as int) == tv);
        match first {
            None => None,
            Some(f) => {
                let lo = if f > 0 { f } else { 0 };
                let min_end = f + MIN_CLIP_TICKS;
                let hi = if last_end >= min_end { last_end } else { min_end };
                Some((lo, hi))
            },
        }
    }

    /// Whether `track` can sound between `range_start` and `range_end` (see
    /// `audio_in_range`).
    pub fn track_has_audio_in_range(track: &Track, range_start: i64, range_end: i64) -> (r: bool)
        requires
            track.wf(),
            range_start < i64::MAX,
        ensures
            r == audio_in_range(track@, range_start as int, range_end as int),
    {
        let end = if range_end >= range_start + 1 { range_end } else { range_start + 1 };
        if track.automation_lanes.len() > 0 || track.instrument_path.is_some() || track.effect_paths.len() > 0
            || track.treesynth.is_some() || track.drum_machine.is_some() {
            return true;
        }
        let mut n: usize = 0;
        while n < track.midi_notes.len()
            invariant
                n <= track@.midi_notes.len(),
                track.wf(),
                end == max_int(range_end as int, range_start + 1),
                range_start < i64::MAX,
                forall|i: int| 0 <= i < n ==> !(#[trigger] track@.midi_notes[i].start < end && track@.midi_notes[i].start
                    + track@.midi_notes[i].length > range_start),
            decreases track@.midi_notes.len() - n,
        {
            assert(track@.midi_notes[n as int].wf());
            let note = track.midi_notes[n];
            if note.start < end && note.start + note.length > range_start {
                return true;
            }
            n = n + 1;
        }
        let mut c: usize = 0;
        while c < track.clips.len()
            invariant
                c <= track@.clips.len(),
                track.wf(),
                end == max_int(range_end as int, range_start + 1),
                range_start < i64::MAX,
                forall|i: int| 0 <= i < c ==> !(!(#[trigger] track@.clips[i]).is_midi && track@.clips[i].start < end
                    && track@.clips[i].start + track@.clips[i].length > range_start),
            decreases track@.clips.len() - c,
        {
            assert(track@.clips[c as int].wf());
            assert(track@.clips[c as int] == track.clips@[c as int]@);
            let clip = &track.clips[c];
            if !clip.is_midi && clip.start < end && clip.start + clip.length > range_start {
                return true;
            }
            c = c + 1;
        }
        false
    }
}

/// What the offline renderer renders into one file: the span, the sample
/// rate, stereo output, every track, and the comment written into the file.
/// The engine adds its own settings (tempo, sample format, master
/// compressor) when it takes the plan.
pub struct RenderPlan {
    pub start: i64,
    pub end: i64,
    pub sample_rate: u32,
    pub channels: u16,
    pub tracks: Vec<RenderTrack>,
    pub license_comment: Option<String>,
}

/// The value of a `RenderPlan`.
pub struct RenderPlanView {
    pub start: i64,
    pub end: i64,
    pub sample_rate: u32,
    pub channels: u16,
    pub tracks: Seq<RenderTrackView>,
    pub license_comment: Option<Seq<char>>,
}

impl DeepView for RenderPlan {
    type V = RenderPlanView;

    open spec fn deep_view(&self) -> RenderPlanView {
        RenderPlanView {
            start: self.start,
            end: self.end,
            sample_rate: self.sample_rate,
            channels: self.channels,
            tracks: self.tracks.deep_view(),
            license_comment: self.license_comment.deep_view(),
        }
    }
}

/// Whether track `i` is forced on or off in a plan: for a stem of track
/// `s`, only that track sounds, and only when it is not muted; a master plan
/// forces nothing.
pub open spec fn stem_force(stem: Option<usize>, i: int, t: TrackView) -> Option<bool> {
    match stem {
        Some(s) => Some(i == s && !t.muted),
        None => None,
    }
}

/// The plan for the span `start..end` (not before 0, and at least
/// `MIN_CLIP_TICKS` long): the master mix, or the stem of one track.
pub open spec fn render_plan(
    tracks: Seq<TrackView>,
    sample_rate: u32,
    start: i64,
    end: i64,
    has_solo: bool,
    license_comment: Option<Seq<char>>,
    stem: Option<usize>,
) -> RenderPlanView {
    RenderPlanView {
        start: max_int(start as int, 0) as i64,
        end: max_int(end as int, start + MIN_CLIP_TICKS) as i64,
        sample_rate,
        channels: 2,
        tracks: Seq::new(tracks.len(), |i: int| render_model(i as usize, tracks[i], has_solo, stem_force(stem, i, tracks[i]))),
        license_comment,
    }
}

impl DawApp {
    /// The plan for the master mix or, with `stem`, one track's stem (see
    /// `render_plan`).
    fn build_render_plan(
        &self,
        stem: Option<usize>,
        sample_rate: u32,
        start: i64,
        end: i64,
        has_solo: bool,
        license_comment: Option<String>,
    ) -> (r: RenderPlan)
        requires
            start <= i64::MAX - MIN_CLIP_TICKS,
        ensures
            r.deep_view() == render_plan(self.tracks.deep_view(), sample_rate, start, end, has_solo,
                license_comment.deep_view(), stem),
    {
        let ghost tv = self.tracks.deep_view();
        let mut tracks: Vec<RenderTrack> = Vec::new();
        let mut i: usize = 0;
        while i < self.tracks.len()
            invariant
                i <= self.tracks@.len() == tv.len(),
                tv == self.tracks.deep_view(),
                tracks.deep_view() == Seq::new(i as nat, |k: int| render_model(k as usize, tv[k], has_solo, stem_force(stem, k, tv[k]))),
            decreases self.tracks@.len() - i,
        {
            let track = &self.tracks[i];
            assert(tv[i as int] == track@);
            let force = match stem {
                Some(s) => Some(i == s && !track.muted),
                None => None,
            };
            let model = Self::render_track_model(i, track, has_solo, force);
            assert(force == stem_force(stem, i as int, tv[i as int]));
            let ghost before = tracks.deep_view();
            let ghost before_v = tracks@;
            let ghost mg = model;
            let ghost mv = model.deep_view();
            tracks.push(model);
            assert(tracks@ == before_v.push(mg));
            assert(before.len() == before_v.len());
            assert forall|k: int| 0 <= k < i + 1 implies #[trigger] tracks.deep_view()[k] == render_model(
                k as usize,
                tv[k],
                has_solo,
                stem_force(stem, k, tv[k]),
            ) by {
                assert(tracks.deep_view()[k] == tracks@[k].deep_view());
                if k < i {
                    assert(before[k] == before_v[k].deep_view());
                }
            }
            assert(tracks.deep_view() =~= Seq::new((i + 1) as nat, |k: int| render_model(k as usize, tv[k], has_solo, stem_force(stem, k, tv[k]))));
            i = i + 1;
        }
        RenderPlan {
            start: if start > 0 { start } else { 0 },
            end: if end >= start + MIN_CLIP_TICKS { end } else { start + MIN_CLIP_TICKS },
            sample_rate,
            channels: 2,
            tracks,
            license_comment,
        }
    }

    /// The plan for the master mix of `start..end` (see `render_plan`).
    pub fn build_master_render_plan(
        &self,
        sample_rate: u32,
        start: i64,
        end: i64,
        has_solo: bool,
        license_comment: Option<String>,
    ) -> (r: RenderPlan)
        requires
            start <= i64::MAX - MIN_CLIP_TICKS,
        ensures
            r.deep_view() == render_plan(self.tracks.deep_view(), sample_rate, start, end, has_solo,
                license_comment.deep_view(), None),
    {
        self.build_render_plan(None, sample_rate, start, end, has_solo, license_comment)
    }

    /// The plan for the stem of track `stem_index` over `start..end`: only
    /// that track sounds, unless it is muted (see `render_plan`).
    pub fn build_stem_render_plan(
        &self,
        stem_index: usize,
        sample_rate: u32,
        start: i64,
        end: i64,
        has_solo: bool,
        license_comment: Option<String>,
    ) -> (r: RenderPlan)
        requires
            start <= i64::MAX - MIN_CLIP_TICKS,
        ensures
            r.deep_view() == render_plan(self.tracks.deep_view(), sample_rate, start, end, has_solo,
                license_comment.deep_view(), Some(stem_index)),
    {
        self.build_render_plan(Some(stem_index), sample_rate, start, end, has_solo, license_comment)
    }
}

/// The file formats a render can write.
#[derive(Clone, Copy, Debug, PartialEq, Eq, Structural)]
pub enum RenderFormat {
    Wav,
    Ogg,
    Flac,
}

/// The file extension of a format.
pub open spec fn format_ext(f: RenderFormat) -> Seq<char> {
    match f {
        RenderFormat::Wav => "wav"@,
        RenderFormat::Ogg => "ogg"@,
        RenderFormat::Flac => "flac"@,
    }
}

/// The span to render: from the range's start (not before 0) to its end;
/// when the range is empty, to the end of the project (at least
/// `MIN_CLIP_TICKS` on); with a release tail of `tail` ticks, that much
/// past the end (itself at least `MIN_CLIP_TICKS` on).
pub open spec fn render_span(project_end: int, range_start: i64, range_end: i64, tail: Option<i64>) -> (int, int) {
    let start = max_int(range_start as int, 0);
    let end0 = max_int(range_end as int, 0);
    let end1 = if end0 <= start {
        max_int(max_int(project_end, 0), start + MIN_CLIP_TICKS)
    } else {
        end0
    };
    let end = match tail {
        Some(t) => max_int(end1, start + MIN_CLIP_TICKS) + t,
        None => end1,
    };
    (start, end)
}

/// `n` in decimal, at least two digits.
pub open spec fn two_digits(n: nat) -> Seq<char> {
    if n < 10 {
        "0"@ + decimal(n)
    } else {
        decimal(n)
    }
}

/// How many stereo output pairs of a track are rendered as stems: as many
/// as its mixer has or its instrument produces (`channels`, at least 2,
/// two per pair), at least one and at most eight.
pub open spec fn stem_pairs(mix_pairs: usize, channels: u32) -> int {
    let runtime = max_int(channels as int, 2) / 2;
    min_int(max_int(max_int(mix_pairs as int, runtime), 1), 8)
}

/// The file name of the stem of track `index` (`safe` being its name made
/// safe for files): "<base> - <nn>_<safe>.<ext>", with "_Out<a>-<b>" before
/// the extension for output pair `p` of a track with several pairs.
pub open spec fn stem_file_name(base: Seq<char>, index: nat, safe: Seq<char>, pair: Option<nat>, ext: Seq<char>) -> Seq<char> {
    let head = base + " - "@ + two_digits(index + 1) + "_"@ + safe;
    match pair {
        Some(p) => head + "_Out"@ + decimal(2 * p + 1) + "-"@ + decimal(2 * p + 2) + "."@ + ext,
        None => head + "."@ + ext,
    }
}

/// `plan` with track `i` rendering only its output pair `p`.
pub open spec fn with_output_pair(plan: RenderPlanView, i: int, p: nat) -> RenderPlanView {
    RenderPlanView { tracks: plan.tracks.update(i, RenderTrackView { output_pair: Some(p as usize), ..plan.tracks[i] }), ..plan }
}

/// The stem files of track `i`: one per output pair when it has several.
pub open spec fn track_stems(
    tracks: Seq<TrackView>,
    i: int,
    base: Seq<char>,
    ext: Seq<char>,
    pairs: int,
    plan: RenderPlanView,
) -> Seq<(Seq<char>, RenderPlanView)> {
    let safe = sanitized_folder_name(tracks[i].name);
    if pairs > 1 {
        Seq::new(pairs as nat, |p: int| (stem_file_name(base, i as nat, safe, Some(p as nat), ext), with_output_pair(plan, i, p as nat)))
    } else {
        seq![(stem_file_name(base, i as nat, safe, None, ext), plan)]
    }
}

/// Whether any track is soloed.
pub open spec fn any_solo(tracks: Seq<TrackView>) -> bool {
    exists|i: int| 0 <= i < tracks.len() && #[trigger] tracks[i].solo
}

/// The stem files of the first `k` tracks: those that can sound in the span.
pub open spec fn stems_upto(
    tracks: Seq<TrackView>,
    k: int,
    base: Seq<char>,
    ext: Seq<char>,
    output_pairs: Seq<(usize, u32)>,
    sample_rate: u32,
    start: i64,
    end: i64,
    comment: Option<Seq<char>>,
) -> Seq<(Seq<char>, RenderPlanView)>
    decreases k,
{
    if k <= 0 {
        Seq::empty()
    } else {
        let before = stems_upto(tracks, k - 1, base, ext, output_pairs, sample_rate, start, end, comment);
        let i = k - 1;
        if audio_in_range(tracks[i], start as int, end as int) {
            let plan = render_plan(tracks, sample_rate, start, end, any_solo(tracks), comment, Some(i as usize));
            before + track_stems(tracks, i, base, ext, stem_pairs(output_pairs[i].0, output_pairs[i].1), plan)
        } else {
            before
        }
    }
}

/// The files a render writes, by name, with their plans: the master mix
/// "<base>.<ext>", then, when `split`, the stems of the tracks that can
/// sound in the span.
pub open spec fn render_files(
    tracks: Seq<TrackView>,
    base: Seq<char>,
    format: RenderFormat,
    split: bool,
    output_pairs: Seq<(usize, u32)>,
    sample_rate: u32,
    start: i64,
    end: i64,
    comment: Option<Seq<char>>,
) -> Seq<(Seq<char>, RenderPlanView)> {
    let ext = format_ext(format);
    let master = (base + "."@ + ext, render_plan(tracks, sample_rate, start, end, any_solo(tracks), comment, None));
    seq![master] + if split {
        stems_upto(tracks, tracks.len() as int, base, ext, output_pairs, sample_rate, start, end, comment)
    } else {
        Seq::empty()
    }
}

/// The values of a list of named plans.
pub open spec fn files_view(files: Seq<(String, RenderPlan)>) -> Seq<(Seq<char>, RenderPlanView)> {
    files.map_values(|f: (String, RenderPlan)| (f.0@, f.1.deep_view()))
}

/// The text of a format's extension.
fn ext_text(format: RenderFormat) -> (r: &'static str)
    ensures
        r@ == format_ext(format),
{
    match format {
        RenderFormat::Wav => "wav",
        RenderFormat::Ogg => "ogg",
        RenderFormat::Flac => "flac",
    }
}

/// `n` in decimal, at least two digits.
pub(crate) fn two_digit_text(n: u64) -> (r: String)
    ensures
        r@ == two_digits(n as nat),
{
    let d = decimal_string(n);
    if n < 10 {
        concat("0", d.as_str())
    } else {
        d
    }
}

impl DawApp {
    /// Whether any track is soloed.
    pub fn has_solo_track(&self) -> (r: bool)
        ensures
            r == any_solo(self.tracks.deep_view()),
    {
        let mut i: usize = 0;
        while i < self.tracks.len()
            invariant
                i <= self.tracks@.len(),
                forall|k: int| 0 <= k < i ==> !self.tracks.deep_view()[k].solo,
            decreases self.tracks@.len() - i,
        {
            assert(self.tracks.deep_view()[i as int] == self.tracks@[i as int]@);
            if self.tracks[i].solo {
                assert(self.tracks.deep_view()[i as int].solo);
                return true;
            }
            i = i + 1;
        }
        false
    }

    /// The span to render (see `render_span`); `tail` is the release tail in
    /// ticks, when the render keeps one.
    pub fn render_range(&self, range_start: i64, range_end: i64, tail: Option<i64>) -> (r: (i64, i64))
        requires
            self.wf(),
            time_ok(range_start),
            time_ok(range_end),
            tail matches Some(t) ==> 0 <= t <= crate::model::TIME_LIMIT,
        ensures
            (r.0 as int, r.1 as int) == render_span(project_end(self.tracks.deep_view()), range_start, range_end, tail),
            0 <= r.0 <= crate::model::TIME_LIMIT,
            r.1 <= 4 * crate::model::TIME_LIMIT,
    {
        let project = self.project_end_beats();
        let start = if range_start > 0 { range_start } else { 0 };
        let mut end = if range_end > 0 { range_end } else { 0 };
        if end <= start {
            let p = if project > 0 { project } else { 0 };
            end = if p >= start + MIN_CLIP_TICKS { p } else { start + MIN_CLIP_TICKS };
        }
        if let Some(t) = tail {
            let floor = start + MIN_CLIP_TICKS;
            let e = if end >= floor { end } else { floor };
            end = e + t;
        }
        (start, end)
    }

    /// The stem files of track `i` (see `track_stems`).
    fn track_stem_files(
        &self,
        i: usize,
        base: &str,
        format: RenderFormat,
        pairs: usize,
        sample_rate: u32,
        start: i64,
        end: i64,
        has_solo: bool,
        comment: &Option<String>,
    ) -> (r: Vec<(String, RenderPlan)>)
        requires
            i < self.tracks@.len(),
            1 <= pairs <= 8,
            start <= i64::MAX - MIN_CLIP_TICKS,
        ensures
            files_view(r@) == track_stems(
                self.tracks.deep_view(),
                i as int,
                base@,
                format_ext(format),
                pairs as int,
                render_plan(self.tracks.deep_view(), sample_rate, start, end, has_solo, comment.deep_view(), Some(i)),
            ),
    {
        let ghost tv = self.tracks.deep_view();
        let ghost plan_v = render_plan(tv, sample_rate, start, end, has_solo, comment.deep_view(), Some(i));
        let ext = ext_text(format);
        let safe = Self::sanitize_folder_name(self.tracks[i].name.as_str());
        assert(tv[i as int].name == self.tracks@[i as int].name@);
        let n_tracks = self.tracks.len();
        assert(i < usize::MAX);
        let number = two_digit_text((i + 1) as u64);
        let a = concat(base, " - ");
        let b = concat(a.as_str(), number.as_str());
        let c = concat(b.as_str(), "_");
        let head = concat(c.as_str(), safe.as_str());
        let mut files: Vec<(String, RenderPlan)> = Vec::new();
        if pairs > 1 {
            let mut p: usize = 0;
            while p < pairs
                invariant
                    p <= pairs <= 8,
                    i < self.tracks@.len(),
                    tv == self.tracks.deep_view(),
                    start <= i64::MAX - MIN_CLIP_TICKS,
                    plan_v == render_plan(tv, sample_rate, start, end, has_solo, comment.deep_view(), Some(i)),
                    head@ == base@ + " - "@ + two_digits((i + 1) as nat) + "_"@ + sanitized_folder_name(tv[i as int].name),
                    ext@ == format_ext(format),
                    files_view(files@) == Seq::new(p as nat, |q: int| (stem_file_name(base@, i as nat,
                        sanitized_folder_name(tv[i as int].name), Some(q as nat), format_ext(format)),
                        with_output_pair(plan_v, i as int, q as nat))),
                decreases pairs - p,
            {
                let mut plan = self.build_stem_render_plan(i, sample_rate, start, end, has_solo, comment.clone());
                let ghost pv = plan.deep_view();
                assert(pv == plan_v);
                assert(pv.tracks.len() == tv.len());
                assert(plan.tracks@.len() == pv.tracks.len());
                assert(plan.tracks@[i as int].deep_view() == pv.tracks[i as int]);
                plan.tracks[i].output_pair = Some(p);
                proof {
                    assert forall|k: int| 0 <= k < plan.tracks@.len() implies plan.tracks.deep_view()[k]
                        == with_output_pair(plan_v, i as int, p as nat).tracks[k] by {
                        if k != i {
                            assert(plan.tracks.deep_view()[k] == pv.tracks[k]);
                        }
                    }
                    assert(plan.tracks.deep_view() =~= with_output_pair(plan_v, i as int, p as nat).tracks);
                    assert(plan.deep_view() == with_output_pair(plan_v, i as int, p as nat));
                }
                let o1 = decimal_string((2 * p + 1) as u64);
                let o2 = decimal_string((2 * p + 2) as u64);
                let n1 = concat(head.as_str(), "_Out");
                let n2 = concat(n1.as_str(), o1.as_str());
                let n3 = concat(n2.as_str(), "-");
                let n4 = concat(n3.as_str(), o2.as_str());
                let n5 = concat(n4.as_str(), ".");
                let name = concat(n5.as_str(), ext);
                let ghost before = files@;
                assert(files_view(before).len() == p);
                let ghost entry = (name@, plan.deep_view());
                files.push((name, plan));
                proof {
                    assert(files@ == before.push(files@[p as int]));
                    assert(files_view(files@) =~= files_view(before).push(entry));
                    assert(entry == (stem_file_name(base@, i as nat, sanitized_folder_name(tv[i as int].name), Some(p as nat),
                        format_ext(format)), with_output_pair(plan_v, i as int, p as nat)));
                    assert(files_view(files@) =~= Seq::new((p + 1) as nat, |q: int| (stem_file_name(base@, i as nat,
                        sanitized_folder_name(tv[i as int].name), Some(q as nat), format_ext(format)),
                        with_output_pair(plan_v, i as int, q as nat))));
                }
                p = p + 1;
            }
        } else {
            let plan = self.build_stem_render_plan(i, sample_rate, start, end, has_solo, comment.clone());
            let n1 = concat(head.as_str(), ".");
            let name = concat(n1.as_str(), ext);
            files.push((name, plan));
            assert(files_view(files@) =~= seq![(stem_file_name(base@, i as nat, sanitized_folder_name(tv[i as int].name), None,
                format_ext(format)), plan_v)]);
        }
        files
    }
}

/// The tracks with every built-in synth or drum machine named as the
/// track's instrument.
pub open spec fn native_instruments(tracks: Seq<TrackView>) -> Seq<TrackView> {
    Seq::new(
        tracks.len(),
        |i: int|
            TrackView {
                instrument_path: if tracks[i].drum_machine is Some {
                    Some("native:drummachine"@)
                } else if tracks[i].treesynth is Some {
                    Some("native:treesynth"@)
                } else {
                    tracks[i].instrument_path
                },
                ..tracks[i]
            },
    )
}

impl DawApp {
    /// The files a render writes, by name, with their plans (see
    /// `render_files`); the base name comes from the project's metadata.
    pub fn plan_render_files(
        &self,
        format: RenderFormat,
        split: bool,
        output_pairs: &Vec<(usize, u32)>,
        sample_rate: u32,
        start: i64,
        end: i64,
        comment: Option<String>,
    ) -> (r: Vec<(String, RenderPlan)>)
        requires
            self.wf(),
            output_pairs@.len() == self.tracks@.len(),
            start <= i64::MAX - MIN_CLIP_TICKS,
        ensures
            files_view(r@) == render_files(
                self.tracks.deep_view(),
                crate::project::render_base(self.metadata_artist@, self.metadata_title@, self.project_name@),
                format,
                split,
                output_pairs@,
                sample_rate,
                start,
                end,
                comment.deep_view(),
            ),
    {
        let ghost tv = self.tracks.deep_view();
        let base = self.render_base_name();
        let has_solo = self.has_solo_track();
        let ext = ext_text(format);
        let n1 = concat(base.as_str(), ".");
        let master_name = concat(n1.as_str(), ext);
        let master = self.build_master_render_plan(sample_rate, start, end, has_solo, comment.clone());
        let mut files: Vec<(String, RenderPlan)> = Vec::new();
        files.push((master_name, master));
        let ghost head = files_view(files@);
        assert(head =~= seq![(base@ + "."@ + format_ext(format), render_plan(tv, sample_rate, start, end, any_solo(tv),
            comment.deep_view(), None))]);
        if split {
            let mut i: usize = 0;
            while i < self.tracks.len()
                invariant
                    i <= self.tracks@.len() == tv.len() == output_pairs@.len(),
                    tv == self.tracks.deep_view(),
                    tracks_wf(self.tracks@),
                    start <= i64::MAX - MIN_CLIP_TICKS,
                    has_solo == any_solo(tv),
                    files_view(files@) == head + stems_upto(tv, i as int, base@, format_ext(format), output_pairs@,
                        sample_rate, start, end, comment.deep_view()),
                decreases self.tracks@.len() - i,
            {
                assert(tv[i as int] == self.tracks@[i as int]@);
                assert(self.tracks@[i as int].wf());
                if Self::track_has_audio_in_range(&self.tracks[i], start, end) {
                    let (mix_pairs, channels) = output_pairs[i];
                    let runtime = (if channels >= 2 { channels } else { 2 }) / 2;
                    let wide = if (mix_pairs as u64) >= (runtime as u64) { mix_pairs as u64 } else { runtime as u64 };
                    let at_least_one = if wide >= 1 { wide } else { 1 };
                    let pairs: usize = if at_least_one <= 8 { at_least_one as usize } else { 8 };
                    assert(pairs as int == stem_pairs(output_pairs@[i as int].0, output_pairs@[i as int].1));
                    let mut stems = self.track_stem_files(i, base.as_str(), format, pairs, sample_rate, start, end, has_solo, &comment);
                    let ghost before = files@;
                    let ghost stems_v = files_view(stems@);
                    files.append(&mut stems);
                    assert(files_view(files@) =~= files_view(before) + stems_v);
                }
                i = i + 1;
            }
        }
        proof {
            if !split {
                assert(files_view(files@) =~= head + Seq::<(Seq<char>, RenderPlanView)>::empty());
            }
        }
        files
    }

    /// Joins each file name to the render folder `folder`, refusing names
    /// that would leave it (see `safe_join_within_base`); the first refusal
    /// is returned.
    pub fn render_output_paths(folder: &str, files: Vec<(String, RenderPlan)>) -> (r: Result<
        Vec<(String, RenderPlan)>,
        String,
    >)
        ensures
            r matches Ok(v) ==> v@.len() == files@.len() && forall|k: int| 0 <= k < v@.len() ==> {
                &&& (#[trigger] v@[k]).1.deep_view() == files@[k].1.deep_view()
                &&& !crate::paths::double_backslash_start(folder@) && (forall|i: int| 0 <= i < files@[k].0@.len()
                    ==> !is_path_punct(#[trigger] files@[k].0@[i])) ==> has_prefix(v@[k].0@, folder@) && has_suffix(
                    v@[k].0@,
                    files@[k].0@,
                )
            },
            r matches Err(e) ==> e@ == "Base path is empty"@ || e@ == "Candidate path is empty"@ || e@
                == escape_message(),
            folder@.len() == 0 && files@.len() > 0 ==> (r matches Err(e) && e@ == "Base path is empty"@),
    {
        let ghost fv = files@;
        let n = files.len();
        let mut files = files;
        let mut out: Vec<(String, RenderPlan)> = Vec::new();
        let mut k: usize = 0;
        assert(fv.skip(0) =~= fv);
        while files.len() > 0
            invariant
                k <= fv.len() == n,
                files@ == fv.skip(k as int),
                out@.len() == k,
                folder@.len() == 0 ==> k == 0,
                forall|j: int| 0 <= j < k ==> {
                    &&& (#[trigger] out@[j]).1.deep_view() == fv[j].1.deep_view()
                    &&& !crate::paths::double_backslash_start(folder@) && (forall|i: int| 0 <= i < fv[j].0@.len()
                        ==> !is_path_punct(#[trigger] fv[j].0@[i])) ==> has_prefix(out@[j].0@, folder@) && has_suffix(
                        out@[j].0@,
                        fv[j].0@,
                    )
                },
            decreases files@.len(),
        {
            assert(fv.skip(k as int).len() > 0);
            let (name, plan) = files.remove(0);
            assert(fv[k as int] == (name, plan));
            assert(files@ =~= fv.skip(k + 1));
            match Self::safe_join_within_base(folder, name.as_str()) {
                Ok(path) => {
                    out.push((path, plan));
                },
                Err(e) => {
                    return Err(e);
                },
            }
            k = k + 1;
        }
        assert(k == fv.len());
        Ok(out)
    }

    /// Whether a render may start: when playback is running the status says
    /// it is paused for the render (the caller stops it); nothing starts
    /// while a render is already running (`job_running`).
    pub fn begin_render(&mut self, job_running: bool) -> (start: bool)
        ensures
            start == !job_running,
            old(self).audio_running ==> final(self).status@ == "Playback paused for render stability"@,
            !old(self).audio_running ==> final(self).status@ == old(self).status@,
            final(self).tracks == old(self).tracks,
    {
        if self.audio_running {
            self.status = crate::text::owned("Playback paused for render stability");
        }
        !job_running
    }

    /// Names each built-in synth or drum machine as its track's instrument
    /// for the renderer (see `native_instruments`).
    pub fn use_native_instrument_paths(&mut self)
        ensures
            final(self).tracks.deep_view() == native_instruments(old(self).tracks.deep_view()),
            final(self).wf() == old(self).wf(),
    {
        let ghost tv = self.tracks.deep_view();
        let mut i: usize = 0;
        while i < self.tracks.len()
            invariant
                i <= self.tracks@.len() == tv.len(),
                tv == old(self).tracks.deep_view(),
                forall|k: int| 0 <= k < tv.len() ==> (#[trigger] self.tracks@[k]).wf() == old(self).tracks@[k].wf(),
                forall|k: int| 0 <= k < tv.len() ==> #[trigger] self.tracks.deep_view()[k] == if k < i {
                    native_instruments(tv)[k]
                } else {
                    tv[k]
                },
            decreases self.tracks@.len() - i,
        {
            let ghost before = self.tracks@;
            let ghost before_dv = self.tracks.deep_view();
            assert(self.tracks.deep_view()[i as int] == before[i as int].deep_view());
            assert(before[i as int]@ == tv[i as int]);
            if self.tracks[i].treesynth.is_some() {
                self.tracks[i].instrument_path = Some(crate::text::owned("native:treesynth"));
            }
            if self.tracks[i].drum_machine.is_some() {
                self.tracks[i].instrument_path = Some(crate::text::owned("native:drummachine"));
            }
            proof {
                assert(self.tracks@[i as int]@ =~= native_instruments(tv)[i as int]);
                assert(self.tracks@[i as int].wf() == before[i as int].wf());
                assert forall|k: int| 0 <= k < tv.len() && k != i implies self.tracks@[k] == before[k] by {}
                assert forall|k: int| 0 <= k < tv.len() implies #[trigger] self.tracks.deep_view()[k] == if k < i + 1 {
                    native_instruments(tv)[k]
                } else {
                    tv[k]
                } by {
                    assert(self.tracks.deep_view()[k] == self.tracks@[k].deep_view());
                    if k != i {
                        assert(self.tracks@[k] == before[k]);
                        assert(before_dv[k] == before[k].deep_view());
                    }
                }
            }
            i = i + 1;
        }
        assert(self.tracks.deep_view() =~= native_instruments(tv));
        proof {
            if old(self).wf() {
                assert forall|k: int| 0 <= k < self.tracks@.len() implies #[trigger] self.tracks@[k].wf() by {
                    assert(old(self).tracks@[k].wf());
                }
            }
            if self.wf() {
                assert forall|k: int| 0 <= k < old(self).tracks@.len() implies #[trigger] old(self).tracks@[k].wf() by {
                    assert(self.tracks@[k].wf());
                }
            }
        }
    }

    /// The files a render of `range_start..range_end` (with a release tail
    /// of `tail` ticks, when kept) writes into the folder `folder`, each
    /// with its plan: the master mix and, when `split`, the stems (see
    /// `render_files` and `render_span`); names that would leave the folder
    /// are refused. The license comment goes into every file.
    pub fn render_with_options(
        &self,
        folder: &str,
        format: RenderFormat,
        split: bool,
        output_pairs: &Vec<(usize, u32)>,
        sample_rate: u32,
        range_start: i64,
        range_end: i64,
        tail: Option<i64>,
    ) -> (r: Result<Vec<(String, RenderPlan)>, String>)
        requires
            self.wf(),
            output_pairs@.len() == self.tracks@.len(),
            time_ok(range_start),
            time_ok(range_end),
            tail matches Some(t) ==> 0 <= t <= crate::model::TIME_LIMIT,
        ensures
            ({
                let span = render_span(project_end(self.tracks.deep_view()), range_start, range_end, tail);
                let files = render_files(
                    self.tracks.deep_view(),
                    crate::project::render_base(self.metadata_artist@, self.metadata_title@, self.project_name@),
                    format,
                    split,
                    output_pairs@,
                    sample_rate,
                    span.0 as i64,
                    span.1 as i64,
                    crate::project::license_comment(self.license_status@, self.settings.registered_to@),
                );
                r matches Ok(v) ==> v@.len() == files.len() && forall|k: int| 0 <= k < v@.len() ==> {
                    &&& (#[trigger] v@[k]).1.deep_view() == files[k].1
                    &&& !crate::paths::double_backslash_start(folder@) && (forall|i: int| 0 <= i < files[k].0.len()
                        ==> !is_path_punct(#[trigger] files[k].0[i])) ==> has_prefix(v@[k].0@, folder@) && has_suffix(
                        v@[k].0@,
                        files[k].0,
                    )
                }
            }),
            r matches Err(e) ==> e@ == "Base path is empty"@ || e@ == "Candidate path is empty"@ || e@
                == escape_message(),
            folder@.len() == 0 ==> (r matches Err(e) && e@ == "Base path is empty"@),
    {
        let comment = self.render_license_comment();
        let (start, end) = self.render_range(range_start, range_end, tail);
        let files = self.plan_render_files(format, split, output_pairs, sample_rate, start, end, comment);
        let ghost fv = files@;
        assert(files_view(fv).len() > 0);
        let r = Self::render_output_paths(folder, files);
        proof {
            if r is Ok {
                let v = r->Ok_0;
                assert forall|k: int| 0 <= k < v@.len() && !crate::paths::double_backslash_start(folder@) && (forall|i: int|
                    0 <= i < files_view(fv)[k].0.len() ==> !is_path_punct(#[trigger] files_view(fv)[k].0[i])) implies has_prefix(
                    v@[k].0@,
                    folder@,
                ) by {
                    assert(files_view(fv)[k].0 == fv[k].0@);
                    assert forall|i: int| 0 <= i < fv[k].0@.len() implies !is_path_punct(#[trigger] fv[k].0@[i]) by {
                        assert(files_view(fv)[k].0[i] == fv[k].0@[i]);
                    }
                }
            }
        }
        r
    }
}

/// Who sounds in a master render: an unmuted soloed track always does; a
/// muted track never does; with no track soloed every unmuted track does;
/// with some track soloed an unsoloed track does not.
pub proof fn law_master_mix_solo(
    tracks: Seq<TrackView>,
    sample_rate: u32,
    start: i64,
    end: i64,
    has_solo: bool,
    license_comment: Option<Seq<char>>,
    i: int,
)
    requires
        0 <= i < tracks.len(),
    ensures
        ({
            let active = render_plan(tracks, sample_rate, start, end, has_solo, license_comment, None).tracks[i].mix.active;
            &&& !tracks[i].muted && tracks[i].solo ==> active
            &&& tracks[i].muted ==> !active
            &&& !has_solo && !tracks[i].muted ==> active
            &&& has_solo && !tracks[i].solo ==> !active
        }),
{
}

/// Who sounds in the stem render of track `stem`: only that track, and it
/// exactly when it is unmuted, whatever any track's solo says.
pub proof fn law_stem_mix(
    tracks: Seq<TrackView>,
    sample_rate: u32,
    start: i64,
    end: i64,
    has_solo: bool,
    license_comment: Option<Seq<char>>,
    stem: usize,
    i: int,
)
    requires
        0 <= i < tracks.len(),
    ensures
        ({
            let active = render_plan(tracks, sample_rate, start, end, has_solo, license_comment, Some(stem)).tracks[i].mix.active;
            &&& i != stem ==> !active
            &&& i == stem ==> (active <==> !tracks[i].muted)
        }),
{
}
} // verus!
