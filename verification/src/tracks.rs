//! Adding, removing, copying, renaming and reordering tracks, and finding clips.
use std::collections::HashSet;
use vstd::prelude::*;
use crate::model::{Clip, ClipView, DawApp, Track, TrackView, new_track_view, tracks_wf};
use crate::text::{concat, decimal, decimal_string, owned};

verus! {

broadcast use vstd::std_specs::hash::group_hash_axioms;

/// Where the track that stood at `index` ends up after the track at `from`
/// has been moved to position `to` (the tracks in between shift to close the gap).
pub open spec fn remapped_index(index: int, from: int, to: int) -> int {
    if from == to {
        index
    } else if index == from {
        to
    } else if from < to && from < index <= to {
        index - 1
    } else if to < from && to <= index < from {
        index + 1
    } else {
        index
    }
}

/// Moving a track from `from` to `to` and then from `to` back to `from` returns
/// every track index to where it started.
pub proof fn law_move_back_restores_index(i: int, from: int, to: int)
    ensures
        remapped_index(remapped_index(i, from, to), to, from) == i,
{
}

/// Moving a track within `n` tracks sends the indices `0..n` one-to-one onto
/// `0..n`: no two tracks end up at the same position and none leaves the range.
pub proof fn law_move_is_permutation(n: int, from: int, to: int, i: int, j: int)
    requires
        0 <= from < n,
        0 <= to < n,
        0 <= i < n,
        0 <= j < n,
    ensures
        0 <= remapped_index(i, from, to) < n,
        i != j ==> remapped_index(i, from, to) != remapped_index(j, from, to),
{
}

/// `s` with the item at `from` taken out and put back in at `to`.
pub open spec fn moved<A>(s: Seq<A>, from: int, to: int) -> Seq<A> {
    s.remove(from).insert(to, s[from])
}

/// The value of track `t` with every clip's track index set to `index`.
pub open spec fn with_clip_track(t: TrackView, index: usize) -> TrackView {
    TrackView {
        clips: Seq::new(t.clips.len(), |k: int| ClipView { track: index, ..t.clips[k] }),
        ..t
    }
}

/// Clip `c` of track `t` has the id `id`.
pub open spec fn clip_at(tracks: Seq<Track>, t: int, c: int, id: usize) -> bool {
    0 <= t < tracks.len() && 0 <= c < tracks[t].clips@.len() && tracks[t].clips@[c].id == id
}

/// Some clip of track `t` has the id `id`.
pub open spec fn track_has_clip(tracks: Seq<Track>, t: int, id: usize) -> bool {
    exists|c: int| clip_at(tracks, t, c, id)
}

/// `r` is one more than the largest clip id of `tracks`, or 1 when there are
/// no clips.
pub open spec fn is_next_clip_id(tracks: Seq<Track>, r: int) -> bool {
    &&& forall|t: int, c: int| 0 <= t < tracks.len() && 0 <= c < tracks[t].clips@.len()
        ==> #[trigger] tracks[t].clips@[c].id < r
    &&& (r == 1 || exists|t: int, c: int| #[trigger] clip_at(tracks, t, c, (r - 1) as usize))
}

/// The value of a duplicate of track `t`: " Copy" appended to the name, every
/// clip given the id `id` and the track index `index`.
pub open spec fn duplicate_view(t: TrackView, id: usize, index: usize) -> TrackView {
    TrackView {
        name: t.name + " Copy"@,
        clips: Seq::new(t.clips.len(), |k: int| ClipView { id: id, track: index, ..t.clips[k] }),
        ..t
    }
}

/// The value of a clone of track `t`: " Clone" appended to the name, no clips.
pub open spec fn clone_view(t: TrackView) -> TrackView {
    TrackView { name: t.name + " Clone"@, clips: Seq::empty(), ..t }
}

/// `(t, c)` is the first clip with id `id` when scanning the tracks in order
/// and each track's clips in order.
pub open spec fn first_clip_at(tracks: Seq<TrackView>, id: usize, t: int, c: int) -> bool {
    &&& 0 <= t < tracks.len()
    &&& 0 <= c < tracks[t].clips.len()
    &&& tracks[t].clips[c].id == id
    &&& forall|t2: int, c2: int| 0 <= t2 < t && 0 <= c2 < tracks[t2].clips.len() ==> #[trigger] tracks[t2].clips[c2].id != id
    &&& forall|c2: int| 0 <= c2 < c ==> #[trigger] tracks[t].clips[c2].id != id
}

/// Track and position of the first clip with id `id`, if there is one.
pub open spec fn find_clip(tracks: Seq<TrackView>, id: usize) -> Option<(int, int)> {
    if exists|t: int, c: int| first_clip_at(tracks, id, t, c) {
        Some(choose|t: int, c: int| first_clip_at(tracks, id, t, c))
    } else {
        None
    }
}

/// There is at most one first clip with a given id.
pub proof fn lemma_first_clip_unique(tracks: Seq<TrackView>, id: usize, t1: int, c1: int, t2: int, c2: int)
    requires
        first_clip_at(tracks, id, t1, c1),
        first_clip_at(tracks, id, t2, c2),
    ensures
        t1 == t2 && c1 == c2,
{
    if t1 < t2 {
        assert(tracks[t1].clips[c1].id == id);
    } else if t2 < t1 {
        assert(tracks[t2].clips[c2].id == id);
    } else if c1 < c2 {
        assert(tracks[t1].clips[c1].id == id);
    } else if c2 < c1 {
        assert(tracks[t2].clips[c2].id == id);
    }
}

/// No clip of the project has the largest id a `usize` can hold.
pub open spec fn clip_ids_below_max(tracks: Seq<Track>) -> bool {
    forall|t: int, c: int| 0 <= t < tracks.len() && 0 <= c < tracks[t].clips@.len()
        ==> #[trigger] tracks[t].clips@[c].id < usize::MAX
}

impl DawApp {
    /// Index of a track after moving the track at `from` to `to`.
    pub fn remap_track_index(index: usize, from: usize, to: usize) -> (r: usize)
        ensures
            r == remapped_index(index as int, from as int, to as int),
    {
        if from == to {
            return index;
        }
        if index == from {
            return to;
        }
        if from < to {
            if index > from && index <= to {
                return index - 1;
            }
        } else if index >= to && index < from {
            return index + 1;
        }
        index
    }

    /// Position of the first clip in `clips` with id `clip_id`.
    fn clip_position(clips: &Vec<Clip>, clip_id: usize) -> (r: Option<usize>)
        ensures
            match r {
                Some(c) => c < clips@.len() && clips@[c as int].id == clip_id
                    && forall|k: int| 0 <= k < c ==> clips@[k].id != clip_id,
                None => forall|k: int| 0 <= k < clips@.len() ==> clips@[k].id != clip_id,
            },
    {
        let mut k: usize = 0;
        while k < clips.len()
            invariant
                k <= clips.len(),
                forall|j: int| 0 <= j < k ==> clips@[j].id != clip_id,
            decreases clips.len() - k,
        {
            if clips[k].id == clip_id {
                return Some(k);
            }
            k = k + 1;
        }
        None
    }

    /// Track and position of the first clip with id `clip_id`, scanning the
    /// tracks in order.
    pub fn find_clip_indices_by_id(&self, clip_id: usize) -> (r: Option<(usize, usize)>)
        ensures
            match r {
                Some((t, c)) => clip_at(self.tracks@, t as int, c as int, clip_id)
                    && (forall|t2: int| 0 <= t2 < t ==> !track_has_clip(self.tracks@, t2, clip_id))
                    && (forall|c2: int| 0 <= c2 < c ==> self.tracks@[t as int].clips@[c2].id != clip_id),
                None => forall|t: int| 0 <= t < self.tracks@.len() ==> !track_has_clip(self.tracks@, t, clip_id),
            },
            match r {
                Some((t, c)) => find_clip(self.tracks.deep_view(), clip_id) == Some((t as int, c as int)),
                None => find_clip(self.tracks.deep_view(), clip_id) is None,
            },
    {
        let mut t: usize = 0;
        while t < self.tracks.len()
            invariant
                t <= self.tracks.len(),
                forall|t2: int| 0 <= t2 < t ==> !track_has_clip(self.tracks@, t2, clip_id),
            decreases self.tracks.len() - t,
        {
            match Self::clip_position(&self.tracks[t].clips, clip_id) {
                Some(c) => {
                    proof {
                        let v = self.tracks.deep_view();
                        assert forall|t2: int, c2: int| 0 <= t2 < t && 0 <= c2 < v[t2].clips.len() implies #[trigger] v[t2].clips[c2].id != clip_id by {
                            assert(v[t2] == self.tracks@[t2]@);
                            assert(v[t2].clips[c2] == self.tracks@[t2].clips@[c2]@);
                            assert(!track_has_clip(self.tracks@, t2, clip_id));
                            if self.tracks@[t2].clips@[c2].id == clip_id {
                                assert(clip_at(self.tracks@, t2, c2, clip_id));
                            }
                        }
                        assert forall|c2: int| 0 <= c2 < c implies #[trigger] v[t as int].clips[c2].id != clip_id by {
                            assert(v[t as int].clips[c2] == self.tracks@[t as int].clips@[c2]@);
                        }
                        assert(v[t as int].clips[c as int] == self.tracks@[t as int].clips@[c as int]@);
                        assert(first_clip_at(v, clip_id, t as int, c as int));
                        let (t1, c1) = choose|t1: int, c1: int| first_clip_at(v, clip_id, t1, c1);
                        lemma_first_clip_unique(v, clip_id, t1, c1, t as int, c as int);
                    }
                    return Some((t, c));
                },
                None => {
                    assert(!track_has_clip(self.tracks@, t as int, clip_id));
                },
            }
            t = t + 1;
        }
        proof {
            let v = self.tracks.deep_view();
            if exists|t1: int, c1: int| first_clip_at(v, clip_id, t1, c1) {
                let (t1, c1) = choose|t1: int, c1: int| first_clip_at(v, clip_id, t1, c1);
                assert(v[t1].clips[c1] == self.tracks@[t1].clips@[c1]@);
                assert(clip_at(self.tracks@, t1, c1, clip_id));
                assert(track_has_clip(self.tracks@, t1, clip_id));
            }
        }
        None
    }

    /// One more than the largest clip id of the project (1 when there are no
    /// clips).
    pub fn next_clip_id(&self) -> (r: usize)
        requires
            clip_ids_below_max(self.tracks@),
        ensures
            is_next_clip_id(self.tracks@, r as int),
    {
        let mut max: usize = 0;
        let mut t: usize = 0;
        while t < self.tracks.len()
            invariant
                t <= self.tracks.len(),
                clip_ids_below_max(self.tracks@),
                forall|t2: int, c: int| 0 <= t2 < t && 0 <= c < self.tracks@[t2].clips@.len()
                    ==> #[trigger] self.tracks@[t2].clips@[c].id <= max,
                max < usize::MAX,
                max == 0 || exists|t2: int, c: int| #[trigger] clip_at(self.tracks@, t2, c, max),
            decreases self.tracks.len() - t,
        {
            let clips = &self.tracks[t].clips;
            let mut k: usize = 0;
            while k < clips.len()
                invariant
                    k <= clips.len(),
                    t < self.tracks.len(),
                    *clips == self.tracks@[t as int].clips,
                    clip_ids_below_max(self.tracks@),
                    forall|t2: int, c: int| 0 <= t2 < t && 0 <= c < self.tracks@[t2].clips@.len()
                        ==> #[trigger] self.tracks@[t2].clips@[c].id <= max,
                    forall|c: int| 0 <= c < k ==> #[trigger] clips@[c].id <= max,
                    max < usize::MAX,
                    max == 0 || exists|t2: int, c: int| #[trigger] clip_at(self.tracks@, t2, c, max),
                decreases clips.len() - k,
            {
                assert(self.tracks@[t as int].clips@[k as int].id < usize::MAX);
                if clips[k].id > max {
                    max = clips[k].id;
                    assert(clip_at(self.tracks@, t as int, k as int, max));
                }
                k = k + 1;
            }
            t = t + 1;
        }
        proof {
            if max != 0 {
                let (t2, c2) = choose|t2: int, c2: int| #[trigger] clip_at(self.tracks@, t2, c2, max);
                assert(clip_at(self.tracks@, t2, c2, ((max + 1) - 1) as usize));
            }
        }
        max + 1
    }

    /// Sets the track index of every clip of `track` to `index`.
    fn set_clip_tracks(track: &mut Track, index: usize)
        ensures
            final(track)@ == with_clip_track(old(track)@, index),
            final(track).wf() == old(track).wf(),
    {
        let ghost old_track = *track;
        let mut k: usize = 0;
        while k < track.clips.len()
            invariant
                k <= track.clips@.len() == old_track.clips@.len(),
                track@ == (TrackView { clips: track@.clips, ..old_track@ }),
                forall|j: int| 0 <= j < track.clips@.len() ==> (#[trigger] track.clips@[j])@ == (if j < k {
                    ClipView { track: index, ..old_track.clips@[j]@ }
                } else {
                    old_track.clips@[j]@
                }),
            decreases track.clips@.len() - k,
        {
            track.clips[k].track = index;
            k = k + 1;
        }
        assert(track@.clips =~= with_clip_track(old_track@, index).clips);
        proof {
            Self::lemma_with_clip_track_wf(old_track@, index);
        }
    }

    proof fn lemma_with_clip_track_wf(t: TrackView, index: usize)
        ensures
            with_clip_track(t, index).wf() == t.wf(),
    {
        let u = with_clip_track(t, index);
        if t.wf() {
            assert forall|j: int| 0 <= j < u.clips.len() implies #[trigger] u.clips[j].wf() by {
                assert(t.clips[j].wf());
            }
        }
        if u.wf() {
            assert forall|j: int| 0 <= j < t.clips.len() implies #[trigger] t.clips[j].wf() by {
                assert(u.clips[j].wf());
            }
        }
    }

    /// Moves the track at `from` to position `to`, keeping every index that
    /// refers to a track (selection, automation focus, expanded automation
    /// rows, MIDI-learn target, recording target) pointing at the same track.
    /// Nothing changes when `from == to` or either index is out of range.
    pub fn move_track_order(&mut self, from: usize, to: usize)
        ensures
            ({
                let n = old(self).tracks@.len();
                if from == to || from >= n || to >= n {
                    final(self).tracks@ == old(self).tracks@
                    && final(self).selected_track == old(self).selected_track
                    && final(self).automation_active == old(self).automation_active
                    && final(self).automation_rows_expanded@ == old(self).automation_rows_expanded@
                    && final(self).midi_learn == old(self).midi_learn
                    && final(self).recording.track_index == old(self).recording.track_index
                } else {
                    &&& final(self).tracks@.len() == n
                    &&& forall|i: int| 0 <= i < n ==> (#[trigger] final(self).tracks@[remapped_index(i, from as int, to as int)])@
                        == with_clip_track(old(self).tracks@[i]@, remapped_index(i, from as int, to as int) as usize)
                    &&& final(self).selected_track == match old(self).selected_track {
                        Some(s) => Some(remapped_index(s as int, from as int, to as int) as usize),
                        None => None,
                    }
                    &&& final(self).automation_active == match old(self).automation_active {
                        Some((t, lane)) => Some((remapped_index(t as int, from as int, to as int) as usize, lane)),
                        None => None,
                    }
                    &&& forall|j: usize| final(self).automation_rows_expanded@.contains(j) <==>
                        exists|i: usize| old(self).automation_rows_expanded@.contains(i)
                            && j == remapped_index(i as int, from as int, to as int)
                    &&& final(self).midi_learn == match old(self).midi_learn {
                        Some((t, param)) => Some((remapped_index(t as int, from as int, to as int) as usize, param)),
                        None => None,
                    }
                    &&& final(self).recording.track_index == if old(self).recording.track_index == usize::MAX {
                        usize::MAX
                    } else {
                        remapped_index(old(self).recording.track_index as int, from as int, to as int) as usize
                    }
                }
            }),
            from == to || from >= old(self).tracks@.len() || to >= old(self).tracks@.len() ==> *final(self) == *old(self),
            tracks_wf(old(self).tracks@) ==> tracks_wf(final(self).tracks@),
    {
        let n = self.tracks.len();
        if from == to || from >= n || to >= n {
            return;
        }
        let ghost old_tracks = self.tracks@;
        let track = self.tracks.remove(from);
        self.tracks.insert(to, track);
        assert(self.tracks@ == moved(old_tracks, from as int, to as int));
        let ghost mid = self.tracks@;
        let mut i: usize = 0;
        while i < n
            invariant
                i <= n == self.tracks@.len() == mid.len(),
                forall|j: int| 0 <= j < n ==> (#[trigger] self.tracks@[j])@ == (if j < i {
                    with_clip_track(mid[j]@, j as usize)
                } else {
                    mid[j]@
                }),
                forall|j: int| 0 <= j < n ==> (#[trigger] self.tracks@[j]).wf() == mid[j].wf(),
                self.automation_rows_expanded == old(self).automation_rows_expanded,
                self.selected_track == old(self).selected_track,
                self.automation_active == old(self).automation_active,
                self.midi_learn == old(self).midi_learn,
                self.recording.track_index == old(self).recording.track_index,
            decreases n - i,
        {
            Self::set_clip_tracks(&mut self.tracks[i], i);
            i = i + 1;
        }
        proof {
            assert forall|k: int| 0 <= k < n implies (#[trigger] self.tracks@[remapped_index(k, from as int, to as int)])@
                == with_clip_track(old_tracks[k]@, remapped_index(k, from as int, to as int) as usize) by {
                let j = remapped_index(k, from as int, to as int);
                assert(0 <= j < n);
                assert(mid[j] == old_tracks[k]);
            }
            if tracks_wf(old_tracks) {
                assert forall|j: int| 0 <= j < n implies #[trigger] self.tracks@[j].wf() by {
                    assert(mid[j].wf());
                }
            }
        }
        if let Some(selected) = self.selected_track {
            self.selected_track = Some(Self::remap_track_index(selected, from, to));
        }
        if let Some((track_index, lane_index)) = self.automation_active {
            let new_index = Self::remap_track_index(track_index, from, to);
            self.automation_active = Some((new_index, lane_index));
        }
        let mut remapped: HashSet<usize> = HashSet::new();
        for index in it: self.automation_rows_expanded.iter()
            invariant
                it.seq().unref().to_set() == self.automation_rows_expanded@,
                self.automation_rows_expanded@ == old(self).automation_rows_expanded@,
                forall|j: usize| remapped@.contains(j) <==> exists|k: int| 0 <= k < it.index()
                    && j == remapped_index(it.seq().unref()[k] as int, from as int, to as int),
                it.index() == it.seq().len() ==> forall|j: usize| remapped@.contains(j) <==>
                    exists|i: usize| self.automation_rows_expanded@.contains(i)
                        && j == remapped_index(i as int, from as int, to as int),
        {
            remapped.insert(Self::remap_track_index(*index, from, to));
        }
        self.automation_rows_expanded = remapped;
        if let Some((track_index, param_id)) = self.midi_learn {
            let new_index = Self::remap_track_index(track_index, from, to);
            self.midi_learn = Some((new_index, param_id));
        }
        if self.recording.track_index != usize::MAX {
            self.recording.track_index = Self::remap_track_index(self.recording.track_index, from, to);
        }
    }

    /// Appends an empty track named "Track <n>" (n = the new track count),
    /// with the parameter names of the default instrument
    /// (`default_params`), and selects it.
    pub fn add_track(&mut self, default_params: &Vec<String>)
        requires
            old(self).tracks@.len() < usize::MAX,
        ensures
            ({
                let n = old(self).tracks@.len();
                &&& final(self).tracks@.len() == n + 1
                &&& final(self).tracks@.subrange(0, n as int) == old(self).tracks@
                &&& final(self).tracks@[n as int]@ == (TrackView {
                    params: default_params.deep_view(),
                    ..new_track_view("Track "@ + decimal((n + 1) as nat))
                })
                &&& final(self).selected_track == Some(n as usize)
            }),
            final(self).dirty,
            final(self).status@ == "Track added"@,
            tracks_wf(old(self).tracks@) ==> tracks_wf(final(self).tracks@),
    {
        let index = self.tracks.len() + 1;
        let number = decimal_string(index as u64);
        let name = concat("Track ", number.as_str());
        self.tracks.push(Track::with_params(name, default_params));
        assert(self.tracks@.subrange(0, index - 1) == old(self).tracks@);
        self.selected_track = Some(self.tracks.len() - 1);
        self.dirty = true;
        self.status = owned("Track added");
    }

    /// Removes the selected track, keeping at least one track, and selects
    /// the track before it (or the first).
    pub fn remove_selected_track(&mut self)
        requires
            old(self).tracks@.len() > 1 ==> match old(self).selected_track {
                Some(i) => i < old(self).tracks@.len(),
                None => true,
            },
        ensures
            match old(self).selected_track {
                None => final(self).tracks@ == old(self).tracks@
                    && final(self).selected_track == old(self).selected_track
                    && final(self).status == old(self).status
                    && final(self).dirty == old(self).dirty,
                Some(i) => if old(self).tracks@.len() > 1 {
                    &&& final(self).tracks@ == old(self).tracks@.remove(i as int)
                    &&& final(self).selected_track == Some(
                        if i == 0 { 0usize } else if i - 1 <= old(self).tracks@.len() - 2 {
                            (i - 1) as usize
                        } else {
                            (old(self).tracks@.len() - 2) as usize
                        })
                    &&& final(self).dirty
                    &&& final(self).status@ == "Track removed"@
                } else {
                    &&& final(self).tracks@ == old(self).tracks@
                    &&& final(self).selected_track == old(self).selected_track
                    &&& final(self).dirty == old(self).dirty
                    &&& final(self).status@ == "At least one track required"@
                },
            },
            old(self).selected_track is None ==> *final(self) == *old(self),
            *final(self) == (DawApp {
                tracks: final(self).tracks,
                selected_track: final(self).selected_track,
                dirty: final(self).dirty,
                status: final(self).status,
                ..*old(self)
            }),
            tracks_wf(old(self).tracks@) ==> tracks_wf(final(self).tracks@),
    {
        if let Some(index) = self.selected_track {
            if self.tracks.len() > 1 {
                self.tracks.remove(index);
                let before = if index == 0 { 0 } else { index - 1 };
                let last = self.tracks.len() - 1;
                let next = if before <= last { before } else { last };
                self.selected_track = Some(next);
                self.dirty = true;
                self.status = owned("Track removed");
            } else {
                self.status = owned("At least one track required");
            }
        }
    }

    /// Inserts after the selected track a copy of it named "<name> Copy"
    /// whose clips all take the next free clip id, and selects the copy.
    pub fn duplicate_selected_track(&mut self)
        requires
            clip_ids_below_max(old(self).tracks@),
        ensures
            match old(self).selected_track {
                Some(i) if i < old(self).tracks@.len() => {
                    &&& final(self).tracks@ == old(self).tracks@.insert(i + 1, final(self).tracks@[i + 1])
                    &&& exists|id: usize| is_next_clip_id(old(self).tracks@, id as int)
                        && final(self).tracks@[i + 1]@ == duplicate_view(old(self).tracks@[i as int]@, id, (i + 1) as usize)
                    &&& final(self).selected_track == Some((i + 1) as usize)
                    &&& final(self).dirty
                    &&& final(self).status@ == "Track duplicated"@
                },
                _ => final(self).tracks@ == old(self).tracks@
                    && final(self).selected_track == old(self).selected_track
                    && final(self).status == old(self).status
                    && final(self).dirty == old(self).dirty,
            },
            tracks_wf(old(self).tracks@) ==> tracks_wf(final(self).tracks@),
    {
        if let Some(index) = self.selected_track {
            if index < self.tracks.len() {
                let mut dup = self.tracks[index].copied();
                let new_index = index + 1;
                dup.name = concat(self.tracks[index].name.as_str(), " Copy");
                let id = self.next_clip_id();
                let ghost before = dup;
                let mut k: usize = 0;
                while k < dup.clips.len()
                    invariant
                        k <= dup.clips@.len() == before.clips@.len(),
                        dup@ == (TrackView { clips: dup@.clips, ..before@ }),
                        forall|j: int| 0 <= j < dup.clips@.len() ==> (#[trigger] dup.clips@[j])@ == (if j < k {
                            ClipView { id: id, track: new_index, ..before.clips@[j]@ }
                        } else {
                            before.clips@[j]@
                        }),
                        forall|j: int| 0 <= j < dup.clips@.len() ==> (#[trigger] dup.clips@[j]).wf() == before.clips@[j].wf(),
                    decreases dup.clips@.len() - k,
                {
                    dup.clips[k].id = id;
                    dup.clips[k].track = new_index;
                    k = k + 1;
                }
                assert(dup@.clips =~= duplicate_view(old(self).tracks@[index as int]@, id, new_index).clips);
                proof {
                    if tracks_wf(old(self).tracks@) {
                        assert(old(self).tracks@[index as int].wf());
                        assert forall|j: int| 0 <= j < dup.clips@.len() implies #[trigger] dup.clips@[j].wf() by {
                            assert(before@.clips[j] == before.clips@[j]@);
                            assert(before@.wf());
                        }
                        assert(dup@.wf());
                    }
                }
                self.tracks.insert(new_index, dup);
                self.selected_track = Some(new_index);
                self.dirty = true;
                self.status = owned("Track duplicated");
            }
        }
    }

    /// Inserts after the selected track a clip-less copy of it named
    /// "<name> Clone", and selects it.
    pub fn clone_selected_track(&mut self)
        ensures
            match old(self).selected_track {
                Some(i) if i < old(self).tracks@.len() => {
                    &&& final(self).tracks@ == old(self).tracks@.insert(i + 1, final(self).tracks@[i + 1])
                    &&& final(self).tracks@[i + 1]@ == clone_view(old(self).tracks@[i as int]@)
                    &&& final(self).selected_track == Some((i + 1) as usize)
                    &&& final(self).dirty
                    &&& final(self).status@ == "Track cloned"@
                },
                _ => final(self).tracks@ == old(self).tracks@
                    && final(self).selected_track == old(self).selected_track
                    && final(self).status == old(self).status
                    && final(self).dirty == old(self).dirty,
            },
            tracks_wf(old(self).tracks@) ==> tracks_wf(final(self).tracks@),
    {
        if let Some(index) = self.selected_track {
            if index < self.tracks.len() {
                let mut clone = self.tracks[index].copied();
                clone.clips = Vec::new();
                assert(clone.clips.deep_view() =~= Seq::<ClipView>::empty());
                clone.name = concat(self.tracks[index].name.as_str(), " Clone");
                assert(clone@ == clone_view(old(self).tracks@[index as int]@));
                proof {
                    if tracks_wf(old(self).tracks@) {
                        assert(old(self).tracks@[index as int].wf());
                        assert(clone@.wf());
                    }
                }
                self.tracks.insert(index + 1, clone);
                self.selected_track = Some(index + 1);
                self.dirty = true;
                self.status = owned("Track cloned");
            }
        }
    }
}

} // verus!
