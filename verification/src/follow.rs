//! Auto-follow in the performance view: when a clip has played to its end,
//! the clip it links to takes over, following links until a clip still
//! plays, loops, or the chain ends.
use std::collections::HashMap;
use std::collections::HashSet;
use vstd::prelude::*;
use crate::launch::{LaunchOutcome, PerformanceRuntimeClip, RuntimeView, grown_slots, toggles_off};
use crate::model::{DawApp, PerformanceClipSettings, TrackView};
use crate::performance::settings_of;
use crate::launch::loops_with;
use crate::tracks::find_clip;

verus! {

broadcast use vstd::std_specs::hash::group_hash_axioms;

/// Number of clips on all tracks.
pub open spec fn total_clips(tracks: Seq<TrackView>) -> nat
    decreases tracks.len(),
{
    if tracks.len() == 0 {
        0
    } else {
        total_clips(tracks.drop_last()) + tracks.last().clips.len()
    }
}

/// The ids of the clips on all tracks.
pub open spec fn id_set(tracks: Seq<TrackView>) -> Set<usize> {
    Set::new(|id: usize| exists|t: int, c: int| 0 <= t < tracks.len() && 0 <= c < tracks[t].clips.len() && #[trigger] tracks[t].clips[c].id == id)
}

/// There are no more distinct clip ids than clips.
pub proof fn lemma_id_set_bound(tracks: Seq<TrackView>)
    ensures
        id_set(tracks).finite(),
        id_set(tracks).len() <= total_clips(tracks),
    decreases tracks.len(),
{
    broadcast use vstd::seq_lib::seq_to_set_is_finite;
    if tracks.len() == 0 {
        assert(id_set(tracks) =~= Set::<usize>::empty());
    } else {
        let prev = tracks.drop_last();
        lemma_id_set_bound(prev);
        let ids = tracks.last().clips.map_values(|c: crate::model::ClipView| c.id);
        ids.lemma_cardinality_of_set();
        assert(id_set(tracks) =~= id_set(prev).union(ids.to_set())) by {
            assert forall|id: usize| #[trigger] id_set(tracks).contains(id) implies id_set(prev).union(ids.to_set()).contains(id) by {
                let (t, c) = choose|t: int, c: int| 0 <= t < tracks.len() && 0 <= c < tracks[t].clips.len() && #[trigger] tracks[t].clips[c].id == id;
                if t < tracks.len() - 1 {
                    assert(prev[t].clips[c].id == id);
                } else {
                    assert(ids[c] == id);
                }
            }
            assert forall|id: usize| #[trigger] id_set(prev).union(ids.to_set()).contains(id) implies id_set(tracks).contains(id) by {
                if id_set(prev).contains(id) {
                    let (t, c) = choose|t: int, c: int| 0 <= t < prev.len() && 0 <= c < prev[t].clips.len() && #[trigger] prev[t].clips[c].id == id;
                    assert(tracks[t].clips[c].id == id);
                } else {
                    assert(ids.contains(id));
                    let c = choose|c: int| 0 <= c < ids.len() && ids[c] == id;
                    assert(tracks[tracks.len() - 1].clips[c].id == id);
                }
            }
        }
        vstd::set_lib::lemma_len_union(id_set(prev), ids.to_set());
    }
}

/// A found clip's id is one of the project's ids.
proof fn lemma_found_in_id_set(tracks: Seq<TrackView>, id: usize)
    requires
        find_clip(tracks, id) is Some,
    ensures
        id_set(tracks).contains(id),
{
    let (t, c) = choose|t: int, c: int| crate::tracks::first_clip_at(tracks, id, t, c);
    assert(tracks[t].clips[c].id == id);
}

/// Where a follow chain stands: the track and clip playing, where the clip
/// was launched, and whether it loops.
pub struct FollowState {
    pub track_index: usize,
    pub clip_id: usize,
    pub launch_samples: u64,
    pub loop_enabled: bool,
}

/// The length in samples of clip `id`, as listed in `lengths` (0 when not listed).
pub open spec fn clip_samples(lengths: Map<usize, u64>, id: usize) -> u64 {
    if lengths.contains_key(id) {
        lengths[id]
    } else {
        0
    }
}

/// `a + b`, saturating at `u64::MAX`.
pub open spec fn sat_add(a: u64, b: u64) -> u64 {
    if a + b > u64::MAX {
        u64::MAX
    } else {
        (a + b) as u64
    }
}

/// Where the clip of `st` stops playing.
pub open spec fn end_of(st: FollowState, lengths: Map<usize, u64>) -> u64 {
    sat_add(st.launch_samples, clip_samples(lengths, st.clip_id))
}

/// The follow chain from `st` (whose settings are `s`) at sample position
/// `current`: while the clip has played to its end and auto-follows, its
/// next clip takes over, launched where the previous one ended. The chain
/// stops (no target) at a clip without auto-follow or next clip, at a next
/// clip that is not in the project, and at a clip seen before. The target
/// is where the chain stops once a clip still plays or loops, if it moved
/// at all; `fuel` bounds the number of steps.
pub open spec fn follow_from(
    tracks: Seq<TrackView>,
    m: Map<usize, PerformanceClipSettings>,
    lengths: Map<usize, u64>,
    current: u64,
    st: FollowState,
    s: PerformanceClipSettings,
    visited: Set<usize>,
    traversed: bool,
    fuel: nat,
) -> Option<(usize, usize, PerformanceClipSettings, u64)>
    decreases fuel,
{
    if st.loop_enabled || current < end_of(st, lengths) {
        if traversed {
            Some((st.track_index, st.clip_id, s, st.launch_samples))
        } else {
            None
        }
    } else if !s.auto_follow {
        None
    } else {
        match s.next_clip_id {
            None => None,
            Some(next) => if visited.contains(next) {
                None
            } else {
                match find_clip(tracks, next) {
                    None => None,
                    Some((t, c)) => if fuel == 0 {
                        None
                    } else {
                        let ns = settings_of(m, next);
                        follow_from(
                            tracks,
                            m,
                            lengths,
                            current,
                            FollowState {
                                track_index: t as usize,
                                clip_id: next,
                                launch_samples: end_of(st, lengths),
                                loop_enabled: loops_with(ns),
                            },
                            ns,
                            visited.insert(next),
                            true,
                            (fuel - 1) as nat,
                        )
                    },
                }
            },
        }
    }
}

/// The clip that should be playing instead of `rt` at sample position
/// `current`, with its track, settings and launch position (see `follow_from`).
pub open spec fn follow_target(
    tracks: Seq<TrackView>,
    m: Map<usize, PerformanceClipSettings>,
    lengths: Map<usize, u64>,
    rt: RuntimeView,
    current: u64,
) -> Option<(usize, usize, PerformanceClipSettings, u64)> {
    follow_from(
        tracks,
        m,
        lengths,
        current,
        FollowState {
            track_index: rt.track_index,
            clip_id: rt.clip.id,
            launch_samples: rt.launch_samples,
            loop_enabled: rt.loop_enabled,
        },
        settings_of(m, rt.clip.id),
        Set::empty(),
        false,
        total_clips(tracks) + 1,
    )
}

/// The follow state of a playing clip.
pub open spec fn state_of(rt: RuntimeView) -> FollowState {
    FollowState {
        track_index: rt.track_index,
        clip_id: rt.clip.id,
        launch_samples: rt.launch_samples,
        loop_enabled: rt.loop_enabled,
    }
}

/// What auto-follow does with the clips playing in `slots`, slot by slot:
/// the clips to launch (the follow target of each slot that has one), and
/// the (track, clip) pairs to stop: a clip whose follow target plays on
/// another track, and a clip without target that has played to its end
/// without looping.
pub open spec fn follow_plan(
    tracks: Seq<TrackView>,
    m: Map<usize, PerformanceClipSettings>,
    lengths: Map<usize, u64>,
    slots: Seq<Option<RuntimeView>>,
    current: u64,
) -> (Seq<(usize, usize, PerformanceClipSettings, u64)>, Seq<(usize, usize)>)
    decreases slots.len(),
{
    if slots.len() == 0 {
        (Seq::empty(), Seq::empty())
    } else {
        let (launches, clears) = follow_plan(tracks, m, lengths, slots.drop_last(), current);
        match slots.last() {
            None => (launches, clears),
            Some(rt) => match follow_target(tracks, m, lengths, rt, current) {
                Some(target) => (
                    launches.push(target),
                    if rt.track_index != target.0 {
                        clears.push((rt.track_index, rt.clip.id))
                    } else {
                        clears
                    },
                ),
                None => if !rt.loop_enabled && current >= end_of(state_of(rt), lengths) {
                    (launches, clears.push((rt.track_index, rt.clip.id)))
                } else {
                    (launches, clears)
                },
            },
        }
    }
}

/// The file a launched clip plays, as listed in `paths`.
pub open spec fn path_of(paths: Map<usize, String>, id: usize) -> Option<Seq<char>> {
    if paths.contains_key(id) {
        Some(paths[id]@)
    } else {
        None
    }
}

/// The slots after clip `id` was launched on track `ti` with `settings` at
/// `launch` (as `launch_performance_clip_at` does).
pub open spec fn launched(
    slots: Seq<Option<RuntimeView>>,
    tracks: Seq<TrackView>,
    ti: usize,
    id: usize,
    settings: PerformanceClipSettings,
    launch: u64,
    path: Option<Seq<char>>,
) -> Seq<Option<RuntimeView>> {
    match find_clip(tracks, id) {
        None => slots,
        Some((t, c)) => {
            let grown = grown_slots(slots, tracks.len() as int);
            if toggles_off(grown[ti as int], id, settings) {
                grown.update(ti as int, None)
            } else {
                grown.update(
                    ti as int,
                    Some(
                        RuntimeView {
                            track_index: ti,
                            launch_samples: launch,
                            clip: tracks[t].clips[c],
                            loop_enabled: loops_with(settings),
                            trigger_mode: settings.trigger_mode,
                            resolved_audio_path: path,
                        },
                    ),
                )
            }
        },
    }
}

/// The slots after the first `k` launches of `launches`.
pub open spec fn launched_all(
    slots: Seq<Option<RuntimeView>>,
    tracks: Seq<TrackView>,
    launches: Seq<(usize, usize, PerformanceClipSettings, u64)>,
    paths: Map<usize, String>,
    k: int,
) -> Seq<Option<RuntimeView>>
    decreases k,
{
    if k <= 0 {
        slots
    } else {
        let l = launches[k - 1];
        launched(launched_all(slots, tracks, launches, paths, k - 1), tracks, l.0, l.1, l.2, l.3, path_of(paths, l.1))
    }
}

/// The slots after the first `k` stops of `clears`: a slot is emptied when
/// it still plays the clip to stop.
pub open spec fn cleared_all(slots: Seq<Option<RuntimeView>>, clears: Seq<(usize, usize)>, k: int) -> Seq<Option<RuntimeView>>
    decreases k,
{
    if k <= 0 {
        slots
    } else {
        let s = cleared_all(slots, clears, k - 1);
        let (ti, id) = clears[k - 1];
        if ti < s.len() && s[ti as int] is Some && s[ti as int]->Some_0.clip.id == id {
            s.update(ti as int, None)
        } else {
            s
        }
    }
}

/// The length of clip `id` in samples as listed (0 when not listed).
fn length_of(lengths: &HashMap<usize, u64>, id: usize) -> (r: u64)
    ensures
        r == clip_samples(lengths@, id),
{
    match lengths.get(&id) {
        Some(n) => *n,
        None => 0,
    }
}

/// `a + b`, saturating.
fn saturating(a: u64, b: u64) -> (r: u64)
    ensures
        r == sat_add(a, b),
{
    if a > u64::MAX - b {
        u64::MAX
    } else {
        a + b
    }
}

impl DawApp {
    /// The clip that should be playing instead of `runtime` at sample
    /// position `current`, given each clip's length in samples (see
    /// `follow_target`).
    pub fn next_performance_follow_target(
        &self,
        runtime: &PerformanceRuntimeClip,
        current: u64,
        lengths: &HashMap<usize, u64>,
    ) -> (r: Option<(usize, usize, PerformanceClipSettings, u64)>)
        ensures
            r == follow_target(
                self.tracks.deep_view(),
                self.performance_clip_settings@,
                lengths@,
                runtime.deep_view(),
                current,
            ),
    {
        let ghost tracks = self.tracks.deep_view();
        let ghost m = self.performance_clip_settings@;
        let ghost total = total_clips(tracks);
        proof {
            lemma_id_set_bound(tracks);
        }
        let mut st_track = runtime.track_index;
        let mut st_clip = runtime.clip.id;
        let mut st_launch = runtime.launch_samples;
        let mut st_loop = runtime.loop_enabled;
        let mut settings = self.settings_for(runtime.clip.id);
        let mut visited: HashSet<usize> = HashSet::new();
        let mut traversed = false;
        let ghost mut fuel: nat = total + 1;
        loop
            invariant
                tracks == self.tracks.deep_view(),
                m == self.performance_clip_settings@,
                total == total_clips(tracks),
                id_set(tracks).finite(),
                id_set(tracks).len() <= total,
                visited@.subset_of(id_set(tracks)),
                visited@.finite(),
                fuel + visited@.len() == total + 1,
                follow_target(tracks, m, lengths@, runtime.deep_view(), current) == follow_from(
                    tracks,
                    m,
                    lengths@,
                    current,
                    FollowState {
                        track_index: st_track,
                        clip_id: st_clip,
                        launch_samples: st_launch,
                        loop_enabled: st_loop,
                    },
                    settings,
                    visited@,
                    traversed,
                    fuel,
                ),
            decreases fuel,
        {
            let ghost st = FollowState {
                track_index: st_track,
                clip_id: st_clip,
                launch_samples: st_launch,
                loop_enabled: st_loop,
            };
            let end = saturating(st_launch, length_of(lengths, st_clip));
            assert(end == end_of(st, lengths@));
            if st_loop || current < end {
                if traversed {
                    return Some((st_track, st_clip, settings, st_launch));
                } else {
                    return None;
                }
            }
            if !settings.auto_follow {
                return None;
            }
            let next = match settings.next_clip_id {
                Some(n) => n,
                None => {
                    return None;
                },
            };
            if visited.contains(&next) {
                return None;
            }
            let (t, c) = match self.find_clip_indices_by_id(next) {
                Some(found) => found,
                None => {
                    return None;
                },
            };
            proof {
                lemma_found_in_id_set(tracks, next);
                vstd::set_lib::lemma_len_subset(visited@.insert(next), id_set(tracks));
            }
            let ghost old_visited = visited@;
            visited.insert(next);
            assert(visited@ == old_visited.insert(next));
            assert(fuel > 0);
            let ns = self.settings_for(next);
            st_track = t;
            st_clip = next;
            st_launch = end;
            st_loop = ns.loop_enabled || ns.trigger_mode == crate::model::PerformanceTriggerMode::Loop;
            settings = ns;
            traversed = true;
            proof {
                fuel = (fuel - 1) as nat;
            }
        }
    }
    /// Lets clips that have played to their end hand over to the clips they
    /// follow into (see `follow_plan`): the targets are launched, in slot
    /// order, then the clips to stop are stopped. `lengths` gives each clip's
    /// length in samples and `audio_paths` the file each audio clip plays.
    /// Nothing happens while the audio engine is stopped. Returns the tracks
    /// whose sounding notes are to be silenced (a toggle clip launched again).
    pub fn update_performance_auto_follow(
        &self,
        slots: &mut Vec<Option<PerformanceRuntimeClip>>,
        current: u64,
        lengths: &HashMap<usize, u64>,
        audio_paths: &HashMap<usize, String>,
    ) -> (silenced: Vec<usize>)
        ensures
            !self.audio_running ==> final(slots).deep_view() == old(slots).deep_view(),
            self.audio_running ==> ({
                let (launches, clears) = follow_plan(
                    self.tracks.deep_view(),
                    self.performance_clip_settings@,
                    lengths@,
                    old(slots).deep_view(),
                    current,
                );
                final(slots).deep_view() == cleared_all(
                    launched_all(old(slots).deep_view(), self.tracks.deep_view(), launches, audio_paths@, launches.len() as int),
                    clears,
                    clears.len() as int,
                )
            }),
    {
        if !self.audio_running {
            return Vec::new();
        }
        let ghost tracks = self.tracks.deep_view();
        let ghost m = self.performance_clip_settings@;
        let ghost snapshot = slots.deep_view();
        let mut launches: Vec<(usize, usize, PerformanceClipSettings, u64)> = Vec::new();
        let mut clears: Vec<(usize, usize)> = Vec::new();
        let mut i: usize = 0;
        while i < slots.len()
            invariant
                i <= slots@.len(),
                snapshot == slots.deep_view(),
                tracks == self.tracks.deep_view(),
                m == self.performance_clip_settings@,
                (launches@, clears@) == follow_plan(tracks, m, lengths@, snapshot.take(i as int), current),
                forall|k: int| 0 <= k < launches@.len() ==> (#[trigger] launches@[k]).0 < tracks.len(),
            decreases slots@.len() - i,
        {
            assert(snapshot.take(i + 1).drop_last() == snapshot.take(i as int));
            assert(snapshot.take(i + 1).last() == snapshot[i as int]);
            if let Some(rt) = &slots[i] {
                assert(snapshot[i as int] == Some(rt.deep_view()));
                let target = self.next_performance_follow_target(rt, current, lengths);
                match target {
                    Some(tg) => {
                        proof {
                            Self::lemma_follow_target_track(tracks, m, lengths@, rt.deep_view(), current);
                        }
                        if rt.track_index != tg.0 {
                            clears.push((rt.track_index, rt.clip.id));
                        }
                        launches.push(tg);
                    },
                    None => {
                        let end = saturating(rt.launch_samples, length_of(lengths, rt.clip.id));
                        if !rt.loop_enabled && current >= end {
                            clears.push((rt.track_index, rt.clip.id));
                        }
                    },
                }
            }
            i = i + 1;
        }
        assert(snapshot.take(slots@.len() as int) == snapshot);
        let ghost plan_launches = launches@;
        let ghost plan_clears = clears@;
        let ghost paths = audio_paths@;
        let mut silenced: Vec<usize> = Vec::new();
        let mut k: usize = 0;
        while k < launches.len()
            invariant
                k <= launches@.len(),
                launches@ == plan_launches,
                tracks == self.tracks.deep_view(),
                paths == audio_paths@,
                forall|j: int| 0 <= j < launches@.len() ==> (#[trigger] launches@[j]).0 < tracks.len(),
                slots.deep_view() == launched_all(snapshot, tracks, plan_launches, paths, k as int),
            decreases launches@.len() - k,
        {
            let (ti, id, settings, at) = launches[k];
            let path = match audio_paths.get(&id) {
                Some(p) => Some(p.clone()),
                None => None,
            };
            assert(path.deep_view() == path_of(paths, id));
            let outcome = self.launch_performance_clip_at(slots, ti, id, settings, at, path);
            if let Ok(LaunchOutcome::Stopped) = outcome {
                silenced.push(ti);
            }
            k = k + 1;
        }
        let mut q: usize = 0;
        while q < clears.len()
            invariant
                q <= clears@.len(),
                clears@ == plan_clears,
                slots.deep_view() == cleared_all(
                    launched_all(snapshot, tracks, plan_launches, paths, plan_launches.len() as int),
                    plan_clears,
                    q as int,
                ),
            decreases clears@.len() - q,
        {
            let (ti, id) = clears[q];
            let clear = ti < slots.len() && match &slots[ti] {
                Some(active) => active.clip.id == id,
                None => false,
            };
            if clear {
                let ghost before = slots.deep_view();
                slots.set(ti, None);
                assert(slots.deep_view() =~= before.update(ti as int, None));
            }
            q = q + 1;
        }
        silenced
    }

    /// A follow target plays on a track of the project.
    proof fn lemma_follow_target_track(
        tracks: Seq<TrackView>,
        m: Map<usize, PerformanceClipSettings>,
        lengths: Map<usize, u64>,
        rt: RuntimeView,
        current: u64,
    )
        requires
            follow_target(tracks, m, lengths, rt, current) is Some,
        ensures
            follow_target(tracks, m, lengths, rt, current)->Some_0.0 < tracks.len(),
    {
        Self::lemma_follow_from_track(
            tracks,
            m,
            lengths,
            current,
            state_of(rt),
            settings_of(m, rt.clip.id),
            Set::empty(),
            false,
            total_clips(tracks) + 1,
        );
    }

    /// Once the chain has moved, its track is a track of the project.
    proof fn lemma_follow_from_track(
        tracks: Seq<TrackView>,
        m: Map<usize, PerformanceClipSettings>,
        lengths: Map<usize, u64>,
        current: u64,
        st: FollowState,
        s: PerformanceClipSettings,
        visited: Set<usize>,
        traversed: bool,
        fuel: nat,
    )
        requires
            traversed ==> st.track_index < tracks.len(),
            follow_from(tracks, m, lengths, current, st, s, visited, traversed, fuel) is Some,
        ensures
            follow_from(tracks, m, lengths, current, st, s, visited, traversed, fuel)->Some_0.0 < tracks.len(),
        decreases fuel,
    {
        if !(st.loop_enabled || current < end_of(st, lengths)) && s.auto_follow {
            if let Some(next) = s.next_clip_id {
                if !visited.contains(next) {
                    if let Some((t, c)) = find_clip(tracks, next) {
                        if fuel > 0 {
                            let (t1, c1) = choose|t1: int, c1: int| crate::tracks::first_clip_at(tracks, next, t1, c1);
                            assert(0 <= t < tracks.len());
                            let ns = settings_of(m, next);
                            Self::lemma_follow_from_track(
                                tracks,
                                m,
                                lengths,
                                current,
                                FollowState {
                                    track_index: t as usize,
                                    clip_id: next,
                                    launch_samples: end_of(st, lengths),
                                    loop_enabled: loops_with(ns),
                                },
                                ns,
                                visited.insert(next),
                                true,
                                (fuel - 1) as nat,
                            );
                        }
                    }
                }
            }
        }
    }
}

/// Auto-follow into a clip whose trigger mode is `Loop`: once a clip that
/// does not loop has played to its end and auto-follows into such a clip,
/// at every later sample position the follow target is that clip, on its
/// track, with its settings, launched where the previous clip ended; the
/// chain never stops at it as finished.
pub proof fn law_follow_into_loop_mode_clip(
    tracks: Seq<TrackView>,
    m: Map<usize, PerformanceClipSettings>,
    lengths: Map<usize, u64>,
    rt: RuntimeView,
    current: u64,
    next: usize,
)
    requires
        !rt.loop_enabled,
        current >= end_of(state_of(rt), lengths),
        settings_of(m, rt.clip.id).auto_follow,
        settings_of(m, rt.clip.id).next_clip_id == Some(next),
        find_clip(tracks, next) is Some,
        settings_of(m, next).trigger_mode == crate::model::PerformanceTriggerMode::Loop,
    ensures
        follow_target(tracks, m, lengths, rt, current) == match find_clip(tracks, next) {
            Some((t, _)) => Some((t as usize, next, settings_of(m, next), end_of(state_of(rt), lengths))),
            None => None,
        },
{
    reveal_with_fuel(follow_from, 2);
    let s = settings_of(m, rt.clip.id);
    let st = state_of(rt);
    let ns = settings_of(m, next);
    assert(!Set::<usize>::empty().contains(next));
    assert(loops_with(ns));
}

/// One step of a follow chain, anywhere along it: a clip that does not
/// loop, has played to its end and auto-follows into a clip not seen before
/// whose trigger mode is `Loop` hands over to that clip, launched where it
/// ended, and the chain stops there for good.
pub proof fn law_follow_step_into_loop_mode(
    tracks: Seq<TrackView>,
    m: Map<usize, PerformanceClipSettings>,
    lengths: Map<usize, u64>,
    current: u64,
    st: FollowState,
    s: PerformanceClipSettings,
    visited: Set<usize>,
    traversed: bool,
    fuel: nat,
    next: usize,
)
    requires
        fuel > 0,
        !st.loop_enabled,
        current >= end_of(st, lengths),
        s.auto_follow,
        s.next_clip_id == Some(next),
        !visited.contains(next),
        find_clip(tracks, next) is Some,
        settings_of(m, next).trigger_mode == crate::model::PerformanceTriggerMode::Loop,
    ensures
        follow_from(tracks, m, lengths, current, st, s, visited, traversed, fuel) == match find_clip(tracks, next) {
            Some((t, _)) => Some((t as usize, next, settings_of(m, next), end_of(st, lengths))),
            None => None,
        },
{
    reveal_with_fuel(follow_from, 2);
    assert(loops_with(settings_of(m, next)));
}

/// A clip that loops is never replaced by auto-follow.
pub proof fn law_looping_clip_not_followed(
    tracks: Seq<TrackView>,
    m: Map<usize, PerformanceClipSettings>,
    lengths: Map<usize, u64>,
    rt: RuntimeView,
    current: u64,
)
    requires
        rt.loop_enabled,
    ensures
        follow_target(tracks, m, lengths, rt, current) is None,
{
}

/// What a follow chain from `st` lands on is a clip of the project, on the
/// track that holds it, with its own settings, launched no later than
/// `current`.
proof fn lemma_follow_from_target(
    tracks: Seq<TrackView>,
    m: Map<usize, PerformanceClipSettings>,
    lengths: Map<usize, u64>,
    current: u64,
    st: FollowState,
    s: PerformanceClipSettings,
    visited: Set<usize>,
    traversed: bool,
    fuel: nat,
)
    requires
        traversed ==> st.launch_samples <= current && s == settings_of(m, st.clip_id) && (find_clip(tracks, st.clip_id) matches Some(
            (t, _),
        ) && st.track_index == t as usize),
    ensures
        follow_from(tracks, m, lengths, current, st, s, visited, traversed, fuel) matches Some(x) ==> {
            &&& x.3 <= current
            &&& x.2 == settings_of(m, x.1)
            &&& find_clip(tracks, x.1) matches Some((t, _)) && x.0 == t as usize
        },
    decreases fuel,
{
    if !(st.loop_enabled || current < end_of(st, lengths)) && s.auto_follow && s.next_clip_id is Some {
        let next = s.next_clip_id->0;
        if !visited.contains(next) && find_clip(tracks, next) is Some && fuel > 0 {
            let (t, c) = find_clip(tracks, next)->0;
            lemma_find_clip_index(tracks, next);
            let ns = settings_of(m, next);
            let nst = FollowState {
                track_index: t as usize,
                clip_id: next,
                launch_samples: end_of(st, lengths),
                loop_enabled: loops_with(ns),
            };
            lemma_follow_from_target(tracks, m, lengths, current, nst, ns, visited.insert(next), true, (fuel - 1) as nat);
        }
    }
}

/// A found clip lies on a track of the project.
proof fn lemma_find_clip_index(tracks: Seq<TrackView>, id: usize)
    requires
        find_clip(tracks, id) is Some,
    ensures
        find_clip(tracks, id) matches Some((t, _)) && 0 <= t < tracks.len(),
{
    let (t, c) = choose|t: int, c: int| crate::tracks::first_clip_at(tracks, id, t, c);
}

/// The follow target of a playing clip is a clip of the project, reported
/// on the track that holds it, with its own launch settings, and
/// launched no later than the current sample position.
pub proof fn law_follow_target_is_a_started_clip(
    tracks: Seq<TrackView>,
    m: Map<usize, PerformanceClipSettings>,
    lengths: Map<usize, u64>,
    rt: RuntimeView,
    current: u64,
)
    ensures
        follow_target(tracks, m, lengths, rt, current) matches Some(x) ==> {
            &&& x.3 <= current
            &&& x.2 == settings_of(m, x.1)
            &&& find_clip(tracks, x.1) matches Some((t, _)) && x.0 == t as usize
        },
{
    lemma_follow_from_target(
        tracks,
        m,
        lengths,
        current,
        state_of(rt),
        settings_of(m, rt.clip.id),
        Set::empty(),
        false,
        total_clips(tracks) + 1,
    );
}
} // verus!
