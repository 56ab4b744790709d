//! Editing the notes of the selected MIDI clip in the piano roll: placing a
//! note, deleting one, and duplicating the selected notes, with the
//! selection (by position in the clip's note list) kept in step.
use vstd::prelude::*;
use std::collections::HashSet;
use crate::model::{ClipView, DawApp, PianoRollNote, TrackView, copy_vec, notes_wf, time_ok};
use crate::tracks::find_clip;

verus! {

/// The position of the selected clip, when one is selected and exists.
pub open spec fn selected_clip_at(app: DawApp) -> Option<(int, int)> {
    match app.selected_clip {
        Some(id) => find_clip(app.tracks.deep_view(), id),
        None => None,
    }
}

/// The tracks with the notes of clip `c` of track `t` replaced by `notes`.
pub open spec fn with_clip_notes(tracks: Seq<TrackView>, t: int, c: int, notes: Seq<PianoRollNote>) -> Seq<TrackView> {
    tracks.update(
        t,
        TrackView { clips: tracks[t].clips.update(c, ClipView { midi_notes: notes, ..tracks[t].clips[c] }), ..tracks[t] },
    )
}

/// Note `n` has pitch `pitch` and sounds somewhere in `start .. start + length`.
pub open spec fn overlaps_new(n: PianoRollNote, start: int, length: int, pitch: u8) -> bool {
    n.note == pitch && n.start + n.length > start && n.start < start + length
}

/// The note placed at `start` (not before 0), `length` ticks long, of pitch
/// `pitch`, at velocity 100.
pub open spec fn placed_note(start: i64, length: i64, pitch: u8) -> PianoRollNote {
    PianoRollNote { start: if start > 0 { start } else { 0 }, length, note: pitch, velocity: 100 }
}

/// The notes after a note was placed (see `placed_note`): when `replace`,
/// the notes of that pitch it overlaps are dropped first.
pub open spec fn notes_after_place(notes: Seq<PianoRollNote>, start: i64, length: i64, pitch: u8, replace: bool) -> Seq<
    PianoRollNote,
> {
    let p = placed_note(start, length, pitch);
    let kept = if replace {
        notes.filter(|n: PianoRollNote| !overlaps_new(n, p.start as int, length as int, pitch))
    } else {
        notes
    };
    kept.push(p)
}

/// The selection after note `idx` was deleted: that note leaves it and the
/// notes after it move one place up.
pub open spec fn selection_after_delete(sel: Set<usize>, idx: usize) -> Set<usize> {
    Set::new(|j: usize| (j < idx && sel.contains(j)) || (j >= idx && j < usize::MAX && sel.contains((j + 1) as usize)))
}

/// The selected positions below `n`, in increasing order.
pub open spec fn selected_below(sel: Set<usize>, n: int) -> Seq<usize>
    decreases n,
{
    if n <= 0 {
        Seq::empty()
    } else if sel.contains((n - 1) as usize) {
        selected_below(sel, n - 1).push((n - 1) as usize)
    } else {
        selected_below(sel, n - 1)
    }
}

/// The notes that duplicating copies, in order: the selected notes by
/// position; with nothing selected, note `note_index`.
pub open spec fn duplicated_order(len: int, sel: Set<usize>, note_index: usize) -> Seq<usize> {
    if sel.len() == 0 {
        if note_index < len {
            seq![note_index]
        } else {
            Seq::empty()
        }
    } else {
        selected_below(sel, len)
    }
}

/// The notes after duplicating: copies of the notes of `order` appended.
pub open spec fn notes_after_duplicate(notes: Seq<PianoRollNote>, order: Seq<usize>) -> Seq<PianoRollNote> {
    notes + order.map_values(|i: usize| notes[i as int])
}

/// The positions `from .. from + count`.
pub open spec fn positions(from: int, count: int) -> Set<usize> {
    Set::new(|j: usize| from <= j < from + count)
}

/// Deleting the note just placed (without replacing) restores the clip's
/// notes and leaves nothing selected.
pub proof fn law_place_then_delete(notes: Seq<PianoRollNote>, start: i64, length: i64, pitch: u8)
    ensures
        notes_after_place(notes, start, length, pitch, false).remove(notes.len() as int) == notes,
        notes.len() < usize::MAX ==> selection_after_delete(set![notes.len() as usize], notes.len() as usize) == Set::<usize>::empty(),
{
    assert(notes_after_place(notes, start, length, pitch, false).remove(notes.len() as int) =~= notes);
    if notes.len() < usize::MAX {
        assert(selection_after_delete(set![notes.len() as usize], notes.len() as usize) =~= Set::<usize>::empty());
    }
}

/// Placing a note in replace mode leaves no other note of its pitch
/// sounding with it, and keeps every note it does not overlap.
pub proof fn law_place_replacing(notes: Seq<PianoRollNote>, start: i64, length: i64, pitch: u8)
    ensures
        ({
            let r = notes_after_place(notes, start, length, pitch, true);
            let p = placed_note(start, length, pitch);
            &&& r.last() == p
            &&& forall|k: int| 0 <= k < r.len() - 1 ==> !overlaps_new(#[trigger] r[k], p.start as int, length as int, pitch)
            &&& forall|k: int| 0 <= k < notes.len() && !overlaps_new(#[trigger] notes[k], p.start as int, length as int, pitch)
                ==> r.contains(notes[k])
        }),
{
    let p = placed_note(start, length, pitch);
    let keep = |n: PianoRollNote| !overlaps_new(n, p.start as int, length as int, pitch);
    let kept = notes.filter(keep);
    notes.filter_lemma(keep);
    let r = notes_after_place(notes, start, length, pitch, true);
    assert(r == kept.push(p));
    assert forall|k: int| 0 <= k < notes.len() && !overlaps_new(#[trigger] notes[k], p.start as int, length as int, pitch)
        implies r.contains(notes[k]) by {
        assert(kept.contains(notes[k]));
        let j = choose|j: int| 0 <= j < kept.len() && kept[j] == notes[k];
        assert(r[j] == notes[k]);
    }
}

/// Each position `selected_below` lists is selected, below `n`, and listed
/// once in increasing order.
proof fn lemma_selected_below(sel: Set<usize>, n: int)
    requires
        0 <= n,
    ensures
        selected_below(sel, n).len() <= n,
        forall|k: int| 0 <= k < selected_below(sel, n).len() ==> (#[trigger] selected_below(sel, n)[k]) < n
            && sel.contains(selected_below(sel, n)[k]),
        forall|j: usize| 0 <= j < n && #[trigger] sel.contains(j) ==> selected_below(sel, n).contains(j),
    decreases n,
{
    if n > 0 {
        lemma_selected_below(sel, n - 1);
        let prev = selected_below(sel, n - 1);
        assert forall|j: usize| 0 <= j < n && #[trigger] sel.contains(j) implies selected_below(sel, n).contains(j) by {
            if j < n - 1 {
                assert(prev.contains(j));
                let k = choose|k: int| 0 <= k < prev.len() && prev[k] == j;
                if sel.contains((n - 1) as usize) {
                    assert(selected_below(sel, n)[k] == j);
                }
            } else {
                assert(selected_below(sel, n)[selected_below(sel, n).len() - 1] == j);
            }
        }
    }
}

/// The notes after a note was placed (see `notes_after_place`).
fn placed_notes(notes: &Vec<PianoRollNote>, start: i64, length: i64, pitch: u8, replace: bool) -> (r: Vec<PianoRollNote>)
    requires
        notes_wf(notes@),
        time_ok(start),
        time_ok(length),
    ensures
        r@ == notes_after_place(notes@, start, length, pitch, replace),
        notes_wf(r@),
{
    let ghost orig = notes@;
    let placed_start = if start > 0 {
        start
    } else {
        0
    };
    let end = placed_start + length;
    let ghost keep = |n: PianoRollNote| !overlaps_new(n, placed_start as int, length as int, pitch);
    let mut kept: Vec<PianoRollNote> = Vec::new();
    if replace {
        let mut i: usize = 0;
        while i < notes.len()
            invariant
                i <= notes@.len(),
                notes@ == orig,
                notes_wf(orig),
                end == placed_start + length,
                keep == (|n: PianoRollNote| !overlaps_new(n, placed_start as int, length as int, pitch)),
                kept@ == orig.take(i as int).filter(keep),
            decreases notes@.len() - i,
        {
            let n = notes[i];
            assert(orig[i as int].wf());
            proof {
                assert(orig.take(i + 1) == orig.take(i as int).push(n));
                orig.take(i as int).lemma_filter_push(n, keep);
            }
            let overlapping = n.note == pitch && n.start + n.length > placed_start && n.start < end;
            assert(keep(n) == !overlapping);
            if !overlapping {
                kept.push(n);
            }
            i = i + 1;
        }
        assert(orig.take(orig.len() as int) == orig);
        proof {
            assert forall|k: int| 0 <= k < kept@.len() implies #[trigger] kept@[k].wf() by {
                assert(kept@.contains(kept@[k]));
                orig.lemma_filter_contains_rev(keep, kept@[k]);
                let j = choose|j: int| 0 <= j < orig.len() && orig[j] == kept@[k];
                assert(orig[j].wf());
            }
        }
    } else {
        kept = copy_vec(notes);
    }
    let ghost before = kept@;
    kept.push(PianoRollNote { start: placed_start, length, note: pitch, velocity: 100 });
    proof {
        assert forall|k: int| 0 <= k < kept@.len() implies #[trigger] kept@[k].wf() by {
            if k < before.len() {
                assert(kept@[k] == before[k]);
            }
        }
    }
    kept
}

/// The positions of the notes duplicating copies (see `duplicated_order`).
fn duplication_order(selection: &HashSet<usize>, len: usize, note_index: usize) -> (r: Vec<usize>)
    ensures
        r@ == duplicated_order(len as int, selection@, note_index),
        r@.len() <= len,
        forall|m: int| 0 <= m < r@.len() ==> #[trigger] r@[m] < len,
{
    let ghost sel = selection@;
    let mut order: Vec<usize> = Vec::new();
    if selection.len() == 0 {
        if note_index < len {
            order.push(note_index);
        }
        assert(order@ =~= duplicated_order(len as int, sel, note_index));
    } else {
        let mut i: usize = 0;
        while i < len
            invariant
                i <= len,
                selection@ == sel,
                order@ == selected_below(sel, i as int),
            decreases len - i,
        {
            if selection.contains(&i) {
                order.push(i);
            }
            i = i + 1;
        }
        proof {
            lemma_selected_below(sel, len as int);
        }
    }
    order
}

/// `notes` with copies of the notes at `order` appended (see
/// `notes_after_duplicate`).
fn duplicated_notes(notes: &Vec<PianoRollNote>, order: &Vec<usize>) -> (r: Vec<PianoRollNote>)
    requires
        notes_wf(notes@),
        forall|m: int| 0 <= m < order@.len() ==> #[trigger] order@[m] < notes@.len(),
    ensures
        r@ == notes_after_duplicate(notes@, order@),
        notes_wf(r@),
{
    let ghost orig = notes@;
    let mut out = copy_vec(notes);
    let mut k: usize = 0;
    while k < order.len()
        invariant
            k <= order@.len(),
            notes@ == orig,
            forall|m: int| 0 <= m < order@.len() ==> #[trigger] order@[m] < orig.len(),
            out@ == orig + order@.take(k as int).map_values(|i: usize| orig[i as int]),
        decreases order@.len() - k,
    {
        let idx = order[k];
        let n = notes[idx];
        proof {
            assert(order@.take(k + 1) == order@.take(k as int).push(idx));
        }
        out.push(n);
        assert(out@ =~= orig + order@.take(k + 1).map_values(|i: usize| orig[i as int]));
        k = k + 1;
    }
    assert(order@.take(order@.len() as int) == order@);
    proof {
        assert forall|m: int| 0 <= m < out@.len() implies #[trigger] out@[m].wf() by {
            if m < orig.len() {
                assert(orig[m].wf());
            } else {
                let i = order@[m - orig.len()];
                assert(out@[m] == orig[i as int]);
                assert(orig[i as int].wf());
            }
        }
    }
    out
}

/// Position `s` of the selection after note `idx` was deleted.
pub open spec fn shifted_down(s: usize, idx: usize) -> usize {
    if s > idx {
        (s - 1) as usize
    } else {
        s
    }
}

/// The selection after note `idx` was deleted (see
/// `selection_after_delete`).
fn selection_shifted(selection: &HashSet<usize>, index: usize) -> (r: HashSet<usize>)
    ensures
        r@ == selection_after_delete(selection@, index),
{
    let mut shifted: HashSet<usize> = HashSet::new();
    for i in it: selection.iter()
        invariant
            it.seq().unref().to_set() == selection@,
            forall|j: usize| shifted@.contains(j) <==> exists|k: int| 0 <= k < it.index() && it.seq().unref()[k] != index
                && j == shifted_down(it.seq().unref()[k], index),
            it.index() == it.seq().len() ==> forall|j: usize| shifted@.contains(j) <==> exists|s: usize|
                selection@.contains(s) && s != index && j == shifted_down(s, index),
    {
        let s = *i;
        if s != index {
            shifted.insert(shifted_down_exec(s, index));
        }
    }
    proof {
        let sq = selection@;
        assert forall|j: usize| shifted@.contains(j) == selection_after_delete(sq, index).contains(j) by {
            if selection_after_delete(sq, index).contains(j) {
                let s: usize = if j < index {
                    j
                } else {
                    (j + 1) as usize
                };
                assert(sq.contains(s) && s != index && j == shifted_down(s, index));
            }
            if shifted@.contains(j) {
                let s = choose|s: usize| sq.contains(s) && s != index && j == shifted_down(s, index);
                if s > index {
                    assert((j + 1) as usize == s);
                }
            }
        }
        assert(shifted@ =~= selection_after_delete(sq, index));
    }
    shifted
}

/// See `shifted_down`.
fn shifted_down_exec(s: usize, idx: usize) -> (r: usize)
    ensures
        r == shifted_down(s, idx),
{
    if s > idx {
        s - 1
    } else {
        s
    }
}

impl DawApp {
    /// Replaces the notes of clip `c` of track `t` by `notes`.
    fn set_clip_notes(&mut self, t: usize, c: usize, notes: Vec<PianoRollNote>)
        requires
            t < old(self).tracks@.len(),
            c < old(self).tracks@[t as int].clips@.len(),
            notes_wf(notes@),
        ensures
            final(self).tracks.deep_view() == with_clip_notes(old(self).tracks.deep_view(), t as int, c as int, notes@),
            *final(self) == (DawApp { tracks: final(self).tracks, ..*old(self) }),
            old(self).wf() ==> final(self).wf(),
    {
        let ghost before = self.tracks.deep_view();
        let ghost old_tracks = self.tracks@;
        let ghost nv = notes@;
        self.tracks[t].clips[c].midi_notes = notes;
        proof {
            let after = self.tracks.deep_view();
            let expected = with_clip_notes(before, t as int, c as int, nv);
            assert(after[t as int].clips =~= expected[t as int].clips) by {
                assert forall|k: int| 0 <= k < after[t as int].clips.len() implies after[t as int].clips[k]
                    == expected[t as int].clips[k] by {
                    if k != c {
                        assert(self.tracks@[t as int].clips@[k] == old_tracks[t as int].clips@[k]);
                    }
                }
            }
            assert forall|j: int| 0 <= j < before.len() && j != t implies after[j] == before[j] by {
                assert(self.tracks@[j] == old_tracks[j]);
            }
            assert(after =~= expected);
            if old(self).wf() {
                assert forall|j: int| 0 <= j < self.tracks@.len() implies #[trigger] self.tracks@[j].wf() by {
                    if j != t {
                        assert(self.tracks@[j] == old_tracks[j]);
                    } else {
                        assert(old_tracks[j].wf());
                        assert forall|k: int| 0 <= k < self.tracks@[j]@.clips.len() implies #[trigger] self.tracks@[j]@.clips[k].wf() by {
                            assert(old_tracks[j]@.clips[k].wf());
                            if k != c {
                                assert(self.tracks@[j]@.clips[k] == old_tracks[j]@.clips[k]);
                            }
                        }
                    }
                }
            }
        }
    }

    /// The position of the selected clip (see `selected_clip_at`).
    fn selected_clip_position(&self) -> (r: Option<(usize, usize)>)
        ensures
            match r {
                Some((t, c)) => selected_clip_at(*self) == Some((t as int, c as int)) && t < self.tracks@.len() && c
                    < self.tracks@[t as int].clips@.len(),
                None => selected_clip_at(*self) is None,
            },
    {
        match self.selected_clip {
            Some(id) => self.find_clip_indices_by_id(id),
            None => None,
        }
    }

    /// Places a note in the selected clip when it is a MIDI clip (see
    /// `notes_after_place`) and makes it the only selected note; the result
    /// says whether it was placed.
    #[verifier::rlimit(40)]
    pub fn piano_place_note(
        &mut self,
        selection: &mut HashSet<usize>,
        start: i64,
        length: i64,
        pitch: u8,
        replace: bool,
    ) -> (placed: bool)
        requires
            old(self).wf(),
            time_ok(start),
            time_ok(length),
        ensures
            final(self).wf(),
            placed == (selected_clip_at(*old(self)) matches Some((t, c)) && old(self).tracks.deep_view()[t].clips[c].is_midi),
            placed ==> ({
                let (t, c) = selected_clip_at(*old(self))->0;
                let notes = old(self).tracks.deep_view()[t].clips[c].midi_notes;
                &&& final(self).tracks.deep_view() == with_clip_notes(
                    old(self).tracks.deep_view(),
                    t,
                    c,
                    notes_after_place(notes, start, length, pitch, replace),
                )
                &&& final(selection)@ == set![(notes_after_place(notes, start, length, pitch, replace).len() - 1) as usize]
            }),
            !placed ==> *final(self) == *old(self) && final(selection)@ == old(selection)@,
            *final(self) == (DawApp { tracks: final(self).tracks, ..*old(self) }),
    {
        let (t, c) = match self.selected_clip_position() {
            Some(found) => found,
            None => {
                return false;
            },
        };
        if !self.tracks[t].clips[c].is_midi {
            return false;
        }
        let ghost orig = self.tracks@[t as int].clips@[c as int].midi_notes@;
        assert(orig == self.tracks.deep_view()[t as int].clips[c as int].midi_notes);
        assert(self.tracks@[t as int].wf());
        assert(self.tracks@[t as int]@.clips[c as int].wf());
        let kept = placed_notes(&self.tracks[t].clips[c].midi_notes, start, length, pitch, replace);
        let count = kept.len();
        self.set_clip_notes(t, c, kept);
        selection.clear();
        selection.insert(count - 1);
        assert(selection@ =~= set![(count - 1) as usize]);
        true
    }

    /// Deletes note `index` of the selected clip when it has one; the
    /// selection follows (see `selection_after_delete`). The result says
    /// whether a note was deleted.
    pub fn piano_delete_note(&mut self, selection: &mut HashSet<usize>, index: usize) -> (deleted: bool)
        requires
            old(self).wf(),
        ensures
            final(self).wf(),
            deleted == (selected_clip_at(*old(self)) matches Some((t, c)) && index < old(self).tracks.deep_view()[t].clips[c].midi_notes.len()),
            deleted ==> ({
                let (t, c) = selected_clip_at(*old(self))->0;
                let notes = old(self).tracks.deep_view()[t].clips[c].midi_notes;
                &&& final(self).tracks.deep_view() == with_clip_notes(old(self).tracks.deep_view(), t, c, notes.remove(index as int))
                &&& final(selection)@ == selection_after_delete(old(selection)@, index)
            }),
            !deleted ==> *final(self) == *old(self) && final(selection)@ == old(selection)@,
            *final(self) == (DawApp { tracks: final(self).tracks, ..*old(self) }),
    {
        let (t, c) = match self.selected_clip_position() {
            Some(found) => found,
            None => {
                return false;
            },
        };
        if index >= self.tracks[t].clips[c].midi_notes.len() {
            return false;
        }
        let ghost orig = self.tracks@[t as int].clips@[c as int].midi_notes@;
        assert(orig == self.tracks.deep_view()[t as int].clips[c as int].midi_notes);
        assert(self.tracks@[t as int].wf());
        assert(self.tracks@[t as int]@.clips[c as int].wf());
        let mut notes = copy_vec(&self.tracks[t].clips[c].midi_notes);
        notes.remove(index);
        assert forall|k: int| 0 <= k < notes@.len() implies #[trigger] notes@[k].wf() by {
            if k < index {
                assert(notes@[k] == orig[k]);
            } else {
                assert(notes@[k] == orig[k + 1]);
            }
        }
        self.set_clip_notes(t, c, notes);
        let shifted = selection_shifted(selection, index);
        *selection = shifted;
        true
    }

    /// Duplicates notes of the selected clip (see `duplicated_order`): their
    /// copies are appended (see `notes_after_duplicate`) and become the
    /// selection. The result is how many notes were copied.
    pub fn piano_duplicate_selection(&mut self, selection: &mut HashSet<usize>, note_index: usize) -> (copied: usize)
        requires
            old(self).wf(),
        ensures
            final(self).wf(),
            selected_clip_at(*old(self)) is None ==> copied == 0 && *final(self) == *old(self) && final(selection)@
                == old(selection)@,
            selected_clip_at(*old(self)) matches Some((t, c)) ==> ({
                let notes = old(self).tracks.deep_view()[t].clips[c].midi_notes;
                let order = duplicated_order(notes.len() as int, old(selection)@, note_index);
                &&& copied == order.len()
                &&& final(self).tracks.deep_view() == with_clip_notes(
                    old(self).tracks.deep_view(),
                    t,
                    c,
                    notes_after_duplicate(notes, order),
                )
                &&& final(selection)@ == positions(notes.len() as int, order.len() as int)
            }),
            *final(self) == (DawApp { tracks: final(self).tracks, ..*old(self) }),
    {
        let (t, c) = match self.selected_clip_position() {
            Some(found) => found,
            None => {
                return 0;
            },
        };
        let ghost orig = self.tracks@[t as int].clips@[c as int].midi_notes@;
        let ghost sel = selection@;
        assert(orig == self.tracks.deep_view()[t as int].clips[c as int].midi_notes);
        assert(self.tracks@[t as int].wf());
        assert(self.tracks@[t as int]@.clips[c as int].wf());
        let base_len = self.tracks[t].clips[c].midi_notes.len();
        let order = duplication_order(selection, base_len, note_index);
        let out = duplicated_notes(&self.tracks[t].clips[c].midi_notes, &order);
        let copied = order.len();
        let total = out.len();
        assert(total == base_len + copied);
        self.set_clip_notes(t, c, out);
        selection.clear();
        let mut j: usize = 0;
        while j < copied
            invariant
                j <= copied,
                base_len == orig.len(),
                copied == order@.len(),
                total == base_len + copied,
                selection@ == positions(base_len as int, j as int),
            decreases copied - j,
        {
            selection.insert(base_len + j);
            assert(selection@ =~= positions(base_len as int, j + 1));
            j = j + 1;
        }
        copied
    }
}

} // verus!
