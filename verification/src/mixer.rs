//! The mixer's edits of a track: mute and solo, and the track's chain of
//! effects (adding, removing and reordering an effect, and keeping the
//! per-effect lists as long as the chain).
use vstd::prelude::*;
use crate::launch::PerformanceRuntimeClip;
use crate::instrument::params_refresh;
use crate::model::{copy_strings, DawApp, Track, TrackView, tracks_wf};
use crate::text::owned;

verus! {

/// `s` without its `i`-th item, when it has one.
pub open spec fn seq_removed<T>(s: Seq<T>, i: int) -> Seq<T> {
    if 0 <= i < s.len() {
        s.remove(i)
    } else {
        s
    }
}

/// `s` with its `i`-th and `j`-th items exchanged, when it has a `j`-th.
pub open spec fn seq_swapped<T>(s: Seq<T>, i: int, j: int) -> Seq<T> {
    if 0 <= j < s.len() {
        s.update(i, s[j]).update(j, s[i])
    } else {
        s
    }
}

/// `s` cut or padded with `fill` to length `n`.
pub open spec fn seq_resized<T>(s: Seq<T>, n: int, fill: T) -> Seq<T> {
    if n <= s.len() {
        s.take(n)
    } else {
        s + Seq::new((n - s.len()) as nat, |_k: int| fill)
    }
}

/// Track `t` without its effect `fx`: every per-effect list loses its
/// `fx`-th entry where it has one.
pub open spec fn effect_removed(t: TrackView, fx: int) -> TrackView {
    TrackView {
        effect_paths: seq_removed(t.effect_paths, fx),
        effect_clap_ids: seq_removed(t.effect_clap_ids, fx),
        effect_bypass: seq_removed(t.effect_bypass, fx),
        effect_params: seq_removed(t.effect_params, fx),
        effect_param_ids: seq_removed(t.effect_param_ids, fx),
        effect_param_values: seq_removed(t.effect_param_values, fx),
        ..t
    }
}

/// The slot an effect moves to: one up (not above the first) for a
/// negative direction, else one down.
pub open spec fn effect_target(fx: int, direction: i32) -> int {
    if direction < 0 {
        if fx == 0 {
            0
        } else {
            fx - 1
        }
    } else {
        fx + 1
    }
}

/// Track `t` with effects `fx` and `target` exchanged in every per-effect
/// list that has a `target`-th entry.
pub open spec fn effect_moved(t: TrackView, fx: int, target: int) -> TrackView {
    TrackView {
        effect_paths: seq_swapped(t.effect_paths, fx, target),
        effect_clap_ids: seq_swapped(t.effect_clap_ids, fx, target),
        effect_bypass: seq_swapped(t.effect_bypass, fx, target),
        effect_params: seq_swapped(t.effect_params, fx, target),
        effect_param_ids: seq_swapped(t.effect_param_ids, fx, target),
        effect_param_values: seq_swapped(t.effect_param_values, fx, target),
        ..t
    }
}

/// A list of length `len` can have `fx` and `target` exchanged whenever it
/// has a `target`-th entry.
pub open spec fn swap_safe(len: int, fx: int, target: int) -> bool {
    target < len ==> fx < len
}

/// Every per-effect list of `t` can have `fx` and `target` exchanged.
pub open spec fn effect_lists_swap_safe(t: TrackView, fx: int, target: int) -> bool {
    &&& swap_safe(t.effect_paths.len() as int, fx, target)
    &&& swap_safe(t.effect_clap_ids.len() as int, fx, target)
    &&& swap_safe(t.effect_bypass.len() as int, fx, target)
    &&& swap_safe(t.effect_params.len() as int, fx, target)
    &&& swap_safe(t.effect_param_ids.len() as int, fx, target)
    &&& swap_safe(t.effect_param_values.len() as int, fx, target)
}

/// Track `t` with the effect at `path` (CLAP id `clap_id`) appended, not
/// bypassed, with no parameters read yet.
pub open spec fn effect_added(t: TrackView, path: Seq<char>, clap_id: Option<Seq<char>>) -> TrackView {
    TrackView {
        effect_paths: t.effect_paths.push(path),
        effect_clap_ids: t.effect_clap_ids.push(clap_id),
        effect_bypass: t.effect_bypass.push(false),
        effect_params: t.effect_params.push(Seq::empty()),
        effect_param_ids: t.effect_param_ids.push(Seq::empty()),
        effect_param_values: t.effect_param_values.push(Seq::empty()),
        ..t
    }
}

/// Track `t` with its bypass flags (padded with "not bypassed") and CLAP ids
/// (padded with none) as long as its chain of effects; when its parameter
/// names are not, they, the parameter ids and the values are cut or padded
/// with empty lists to that length too.
pub open spec fn effect_slots_fitted(t: TrackView) -> TrackView {
    let n = t.effect_paths.len() as int;
    let lists_fit = t.effect_params.len() == n;
    TrackView {
        effect_bypass: seq_resized(t.effect_bypass, n, false),
        effect_clap_ids: seq_resized(t.effect_clap_ids, n, None),
        effect_params: if lists_fit {
            t.effect_params
        } else {
            seq_resized(t.effect_params, n, Seq::empty())
        },
        effect_param_ids: if lists_fit {
            t.effect_param_ids
        } else {
            seq_resized(t.effect_param_ids, n, Seq::empty())
        },
        effect_param_values: if lists_fit {
            t.effect_param_values
        } else {
            seq_resized(t.effect_param_values, n, Seq::empty())
        },
        ..t
    }
}

/// Track `t` without an instrument: its parameter names reset to
/// `default_params`, its parameter ids and values cleared, and, when
/// `drop_sampler` (the parameter view's button), its sample instrument's
/// settings dropped too.
pub open spec fn instrument_cleared(t: TrackView, default_params: Seq<Seq<char>>, drop_sampler: bool) -> TrackView {
    TrackView {
        instrument_path: None,
        params: default_params,
        param_ids: Seq::empty(),
        param_values: Seq::empty(),
        treesynth: if drop_sampler {
            None
        } else {
            t.treesynth
        },
        ..t
    }
}

/// Every per-effect list of `t` is as long as its chain of effects.
pub open spec fn effect_lists_fit(t: TrackView) -> bool {
    let n = t.effect_paths.len();
    &&& t.effect_clap_ids.len() == n
    &&& t.effect_bypass.len() == n
    &&& t.effect_params.len() == n
    &&& t.effect_param_ids.len() == n
    &&& t.effect_param_values.len() == n
}

/// Moving an effect one slot down and then back up restores the track,
/// when every per-effect list is as long as the chain; both moves are
/// allowed there.
pub proof fn law_effect_move_round_trip(t: TrackView, fx: int)
    requires
        effect_lists_fit(t),
        0 <= fx,
        fx + 1 < t.effect_paths.len(),
    ensures
        effect_target(fx, 1i32) == fx + 1,
        effect_target(fx + 1, -1i32) == fx,
        effect_lists_swap_safe(t, fx, fx + 1),
        effect_lists_swap_safe(effect_moved(t, fx, fx + 1), fx + 1, fx),
        effect_moved(effect_moved(t, fx, fx + 1), fx + 1, fx) == t,
{
    let m = effect_moved(effect_moved(t, fx, fx + 1), fx + 1, fx);
    assert(m.effect_paths =~= t.effect_paths);
    assert(m.effect_clap_ids =~= t.effect_clap_ids);
    assert(m.effect_bypass =~= t.effect_bypass);
    assert(m.effect_params =~= t.effect_params);
    assert(m.effect_param_ids =~= t.effect_param_ids);
    assert(m.effect_param_values =~= t.effect_param_values);
}

/// Removing the effect just appended restores the track, when every
/// per-effect list was as long as the chain.
pub proof fn law_effect_add_then_remove(t: TrackView, path: Seq<char>, clap_id: Option<Seq<char>>)
    requires
        effect_lists_fit(t),
    ensures
        effect_lists_fit(effect_added(t, path, clap_id)),
        effect_removed(effect_added(t, path, clap_id), t.effect_paths.len() as int) == t,
{
    let a = effect_added(t, path, clap_id);
    let r = effect_removed(a, t.effect_paths.len() as int);
    assert(r.effect_paths =~= t.effect_paths);
    assert(r.effect_clap_ids =~= t.effect_clap_ids);
    assert(r.effect_bypass =~= t.effect_bypass);
    assert(r.effect_params =~= t.effect_params);
    assert(r.effect_param_ids =~= t.effect_param_ids);
    assert(r.effect_param_values =~= t.effect_param_values);
}

/// Fitting the per-effect lists makes the bypass flags, CLAP ids and
/// parameter names as long as the chain, changes nothing where every list
/// already fits, and a second fitting changes nothing.
pub proof fn law_effect_slots_fitted(t: TrackView)
    ensures
        effect_slots_fitted(t).effect_bypass.len() == t.effect_paths.len(),
        effect_slots_fitted(t).effect_clap_ids.len() == t.effect_paths.len(),
        effect_slots_fitted(t).effect_params.len() == t.effect_paths.len(),
        effect_lists_fit(t) ==> effect_slots_fitted(t) == t,
        effect_slots_fitted(effect_slots_fitted(t)) == effect_slots_fitted(t),
{
    let f = effect_slots_fitted(t);
    let n = t.effect_paths.len() as int;
    if effect_lists_fit(t) {
        assert(f.effect_bypass =~= t.effect_bypass);
        assert(f.effect_clap_ids =~= t.effect_clap_ids);
    }
    let g = effect_slots_fitted(f);
    assert(g.effect_bypass =~= f.effect_bypass);
    assert(g.effect_clap_ids =~= f.effect_clap_ids);
}

/// Flipping the mute, or the solo, of a track twice restores it.
pub proof fn law_mute_solo_flip_twice(t: TrackView)
    ensures
        (TrackView { muted: !(TrackView { muted: !t.muted, ..t }).muted, ..t }) == t,
        (TrackView { solo: !(TrackView { solo: !t.solo, ..t }).solo, ..t }) == t,
{
}

/// Exchanges the `i`-th and `j`-th items of `v`.
fn swap_items<T>(v: &mut Vec<T>, i: usize, j: usize)
    requires
        i < old(v)@.len(),
        j < old(v)@.len(),
    ensures
        final(v)@ == old(v)@.update(i as int, old(v)@[j as int]).update(j as int, old(v)@[i as int]),
{
    if i == j {
        assert(v@ =~= old(v)@.update(i as int, old(v)@[j as int]).update(j as int, old(v)@[i as int]));
        return;
    }
    let (lo, hi) = if i < j {
        (i, j)
    } else {
        (j, i)
    };
    let ghost s = v@;
    let top = v.remove(hi);
    let bottom = v.remove(lo);
    v.insert(lo, top);
    v.insert(hi, bottom);
    assert(v@ =~= s.update(lo as int, s[hi as int]).update(hi as int, s[lo as int]));
    assert(v@ =~= old(v)@.update(i as int, old(v)@[j as int]).update(j as int, old(v)@[i as int]));
}

/// Exchanges the `i`-th and `j`-th items of `v` when it has a `j`-th.
fn swap_if_present<T: DeepView>(v: &mut Vec<T>, i: usize, j: usize)
    requires
        swap_safe(old(v)@.len() as int, i as int, j as int),
    ensures
        final(v)@ == seq_swapped(old(v)@, i as int, j as int),
        final(v).deep_view() == seq_swapped(old(v).deep_view(), i as int, j as int),
{
    if j < v.len() {
        swap_items(v, i, j);
        assert(v.deep_view() =~= seq_swapped(old(v).deep_view(), i as int, j as int));
    } else {
        assert(v.deep_view() =~= seq_swapped(old(v).deep_view(), i as int, j as int));
    }
}

/// Removes the `i`-th item of `v` when it has one.
fn remove_if_present<T: DeepView>(v: &mut Vec<T>, i: usize)
    ensures
        final(v)@ == seq_removed(old(v)@, i as int),
        final(v).deep_view() == seq_removed(old(v).deep_view(), i as int),
{
    if i < v.len() {
        v.remove(i);
    }
    assert(v.deep_view() =~= seq_removed(old(v).deep_view(), i as int));
}

/// Cuts `v` to length `n` or pads it with `false`.
fn fit_flags(v: &mut Vec<bool>, n: usize)
    ensures
        final(v)@ == seq_resized(old(v)@, n as int, false),
{
    if n <= v.len() {
        v.truncate(n);
    } else {
        while v.len() < n
            invariant
                old(v)@.len() <= v@.len() <= n,
                v@ == seq_resized(old(v)@, v@.len() as int, false),
            decreases n - v@.len(),
        {
            v.push(false);
            assert(v@ =~= seq_resized(old(v)@, v@.len() as int, false));
        }
    }
    assert(v@ =~= seq_resized(old(v)@, n as int, false));
}

/// Cuts `v` to length `n` or pads it with `None`.
fn fit_ids(v: &mut Vec<Option<String>>, n: usize)
    ensures
        final(v).deep_view() == seq_resized(old(v).deep_view(), n as int, None),
{
    if n <= v.len() {
        v.truncate(n);
    } else {
        while v.len() < n
            invariant
                old(v)@.len() <= v@.len() <= n,
                v.deep_view() == seq_resized(old(v).deep_view(), v@.len() as int, None),
            decreases n - v@.len(),
        {
            let ghost prev = v.deep_view();
            v.push(None);
            assert(v.deep_view() =~= prev.push(None));
            assert(v.deep_view() =~= seq_resized(old(v).deep_view(), v@.len() as int, None));
        }
    }
    assert(v.deep_view() =~= seq_resized(old(v).deep_view(), n as int, None));
}

/// Cuts `v` to length `n` or pads it with empty lists.
fn fit_name_lists(v: &mut Vec<Vec<String>>, n: usize)
    ensures
        final(v).deep_view() == seq_resized(old(v).deep_view(), n as int, Seq::empty()),
{
    if n <= v.len() {
        v.truncate(n);
    } else {
        while v.len() < n
            invariant
                old(v)@.len() <= v@.len() <= n,
                v.deep_view() == seq_resized(old(v).deep_view(), v@.len() as int, Seq::empty()),
            decreases n - v@.len(),
        {
            let ghost prev = v.deep_view();
            let e = Vec::new();
            assert(e.deep_view() =~= Seq::empty());
            v.push(e);
            assert(v.deep_view() =~= prev.push(Seq::empty()));
            assert(v.deep_view() =~= seq_resized(old(v).deep_view(), v@.len() as int, Seq::empty()));
        }
    }
    assert(v.deep_view() =~= seq_resized(old(v).deep_view(), n as int, Seq::empty()));
}

/// Cuts `v` to length `n` or pads it with empty lists.
fn fit_value_lists(v: &mut Vec<Vec<u32>>, n: usize)
    ensures
        final(v).deep_view() == seq_resized(old(v).deep_view(), n as int, Seq::empty()),
{
    if n <= v.len() {
        v.truncate(n);
    } else {
        while v.len() < n
            invariant
                old(v)@.len() <= v@.len() <= n,
                v.deep_view() == seq_resized(old(v).deep_view(), v@.len() as int, Seq::empty()),
            decreases n - v@.len(),
        {
            let ghost prev = v.deep_view();
            let e = Vec::new();
            assert(e.deep_view() =~= Seq::empty());
            v.push(e);
            assert(v.deep_view() =~= prev.push(Seq::empty()));
            assert(v.deep_view() =~= seq_resized(old(v).deep_view(), v@.len() as int, Seq::empty()));
        }
    }
    assert(v.deep_view() =~= seq_resized(old(v).deep_view(), n as int, Seq::empty()));
}

/// Removes effect `fx` from every per-effect list of `t` that has it.
fn remove_effect_of(t: &mut Track, fx: usize)
    ensures
        final(t)@ == effect_removed(old(t)@, fx as int),
{
    remove_if_present(&mut t.effect_paths, fx);
    remove_if_present(&mut t.effect_clap_ids, fx);
    remove_if_present(&mut t.effect_bypass, fx);
    remove_if_present(&mut t.effect_params, fx);
    remove_if_present(&mut t.effect_param_ids, fx);
    remove_if_present(&mut t.effect_param_values, fx);
}

/// Exchanges effects `fx` and `target` in every per-effect list of `t` that
/// reaches `target`.
fn move_effect_of(t: &mut Track, fx: usize, target: usize)
    requires
        effect_lists_swap_safe(old(t)@, fx as int, target as int),
    ensures
        final(t)@ == effect_moved(old(t)@, fx as int, target as int),
{
    swap_if_present(&mut t.effect_paths, fx, target);
    swap_if_present(&mut t.effect_bypass, fx, target);
    swap_if_present(&mut t.effect_params, fx, target);
    swap_if_present(&mut t.effect_param_ids, fx, target);
    swap_if_present(&mut t.effect_param_values, fx, target);
    swap_if_present(&mut t.effect_clap_ids, fx, target);
}

/// Appends the effect at `path` (CLAP id `clap_id`) to `t`'s chain.
fn add_effect_to(t: &mut Track, path: String, clap_id: Option<String>)
    ensures
        final(t)@ == effect_added(old(t)@, path@, clap_id.deep_view()),
{
    t.effect_paths.push(path);
    t.effect_clap_ids.push(clap_id);
    t.effect_bypass.push(false);
    let names: Vec<String> = Vec::new();
    assert(names.deep_view() =~= Seq::<Seq<char>>::empty());
    t.effect_params.push(names);
    let ids: Vec<u32> = Vec::new();
    assert(ids.deep_view() =~= Seq::<u32>::empty());
    t.effect_param_ids.push(ids);
    let values: Vec<u32> = Vec::new();
    assert(values.deep_view() =~= Seq::<u32>::empty());
    t.effect_param_values.push(values);
    assert(t.effect_paths.deep_view() =~= old(t).effect_paths.deep_view().push(path@));
    assert(t.effect_clap_ids.deep_view() =~= old(t).effect_clap_ids.deep_view().push(clap_id.deep_view()));
    assert(t.effect_params.deep_view() =~= old(t).effect_params.deep_view().push(Seq::empty()));
    assert(t.effect_param_ids.deep_view() =~= old(t).effect_param_ids.deep_view().push(Seq::empty()));
    assert(t.effect_param_values.deep_view() =~= old(t).effect_param_values.deep_view().push(Seq::empty()));
}

/// Takes the instrument off `t` (see `instrument_cleared`).
fn clear_instrument_of(t: &mut Track, default_params: &Vec<String>, drop_sampler: bool)
    ensures
        final(t)@ == instrument_cleared(old(t)@, default_params.deep_view(), drop_sampler),
{
    t.instrument_path = None;
    if drop_sampler {
        t.treesynth = None;
    }
    t.params = copy_strings(default_params);
    t.param_ids.clear();
    t.param_values.clear();
}

/// Fits the per-effect lists of `t` to its chain of effects (see
/// `effect_slots_fitted`).
fn fit_effect_slots_of(t: &mut Track)
    ensures
        final(t)@ == effect_slots_fitted(old(t)@),
{
    let n = t.effect_paths.len();
    fit_flags(&mut t.effect_bypass, n);
    fit_ids(&mut t.effect_clap_ids, n);
    if t.effect_params.len() != n {
        fit_name_lists(&mut t.effect_params, n);
        fit_value_lists(&mut t.effect_param_ids, n);
        fit_value_lists(&mut t.effect_param_values, n);
    }
}

/// Only track `index` changed between `before` and `after`, and its clips
/// and notes did not: the tracks stay well formed, and the other tracks'
/// values are unchanged.
pub(crate) proof fn lemma_one_track_changed(before: Seq<Track>, after: Seq<Track>, index: int)
    requires
        0 <= index < before.len(),
        after.len() == before.len(),
        forall|j: int| 0 <= j < before.len() && j != index ==> after[j] == before[j],
        after[index]@.clips == before[index]@.clips,
        after[index]@.midi_notes == before[index]@.midi_notes,
    ensures
        tracks_wf(before) ==> tracks_wf(after),
{
    if tracks_wf(before) {
        assert forall|j: int| 0 <= j < after.len() implies #[trigger] after[j].wf() by {
            if j != index {
                assert(after[j] == before[j]);
            } else {
                assert(before[j].wf());
            }
        }
    }
}

impl DawApp {
    /// Flips the mute of track `index`; nothing happens for a track that does
    /// not exist.
    pub fn toggle_track_mute(&mut self, index: usize)
        ensures
            final(self).tracks.deep_view() == if index < old(self).tracks@.len() {
                old(self).tracks.deep_view().update(
                    index as int,
                    TrackView { muted: !old(self).tracks.deep_view()[index as int].muted, ..old(self).tracks.deep_view()[index as int] },
                )
            } else {
                old(self).tracks.deep_view()
            },
            *final(self) == (DawApp { tracks: final(self).tracks, ..*old(self) }),
            old(self).wf() ==> final(self).wf(),
    {
        if index < self.tracks.len() {
            let ghost before = self.tracks.deep_view();
            let muted = self.tracks[index].muted;
            self.tracks[index].muted = !muted;
            proof {
                lemma_one_track_changed(old(self).tracks@, self.tracks@, index as int);
                assert(self.tracks.deep_view() =~= before.update(
                    index as int,
                    TrackView { muted: !before[index as int].muted, ..before[index as int] },
                ));
            }
        }
    }

    /// Selects track `index` and has its parameters shown (see
    /// `refresh_params_for_selected_track`, forced).
    pub fn select_track_for_params(&mut self, index: usize) -> (r: (bool, bool))
        ensures
            final(self).selected_track == Some(index),
            r == params_refresh(old(self).last_params_track, index, true),
            final(self).last_params_track == Some(index),
            final(self).tracks.deep_view() == old(self).tracks.deep_view(),
    {
        self.selected_track = Some(index);
        self.refresh_params_for_selected_track(true)
    }

    /// Appends the chosen effect (at `path`, CLAP id `clap_id`) to track
    /// `index` (see `effect_added`; nothing for a track that does not exist),
    /// reports it ("it will activate after stop/play" while audio runs), and
    /// has the selected track's parameters shown again (see
    /// `refresh_params_for_selected_track`, forced), which the result says.
    pub fn add_track_effect(&mut self, index: usize, path: String, clap_id: Option<String>) -> (r: (bool, bool))
        ensures
            final(self).tracks.deep_view() == if index < old(self).tracks@.len() {
                old(self).tracks.deep_view().update(
                    index as int,
                    effect_added(old(self).tracks.deep_view()[index as int], path@, clap_id.deep_view()),
                )
            } else {
                old(self).tracks.deep_view()
            },
            final(self).status@ == if old(self).audio_running {
                "Effect added; it will activate after stop/play"@
            } else {
                "Effect added"@
            },
            match old(self).selected_track {
                None => r == (false, false) && final(self).last_params_track == old(self).last_params_track,
                Some(s) => r == params_refresh(old(self).last_params_track, s, true) && final(self).last_params_track
                    == Some(s),
            },
            final(self).selected_track == old(self).selected_track,
            old(self).wf() ==> final(self).wf(),
    {
        if index < self.tracks.len() {
            let ghost before = self.tracks.deep_view();
            add_effect_to(&mut self.tracks[index], path, clap_id);
            proof {
                lemma_one_track_changed(old(self).tracks@, self.tracks@, index as int);
                assert(self.tracks.deep_view() =~= before.update(
                    index as int,
                    effect_added(before[index as int], path@, clap_id.deep_view()),
                ));
            }
        }
        if self.audio_running {
            self.status = owned("Effect added; it will activate after stop/play");
        } else {
            self.status = owned("Effect added");
        }
        let ghost mid = self.tracks@;
        let ghost mid_view = self.tracks.deep_view();
        assert(old(self).wf() ==> tracks_wf(mid));
        assert(mid_view.len() == mid.len());
        let r = self.refresh_params_for_selected_track(true);
        proof {
            if old(self).wf() {
                assert forall|j: int| 0 <= j < self.tracks@.len() implies #[trigger] self.tracks@[j].wf() by {
                    assert(self.tracks@[j]@ == self.tracks.deep_view()[j]);
                    assert(mid[j]@ == mid_view[j]);
                    assert(mid[j].wf());
                }
            }
        }
        r
    }

    /// Takes the instrument off track `index` (see `instrument_cleared`;
    /// nothing for a track that does not exist), then restarts audio when it
    /// runs (see `reinit_audio_if_running`), which the result says.
    pub fn clear_track_instrument(
        &mut self,
        index: usize,
        default_params: &Vec<String>,
        drop_sampler: bool,
        slots: &mut Vec<Option<PerformanceRuntimeClip>>,
    ) -> (restart: bool)
        ensures
            final(self).tracks.deep_view() == if index < old(self).tracks@.len() {
                old(self).tracks.deep_view().update(
                    index as int,
                    instrument_cleared(old(self).tracks.deep_view()[index as int], default_params.deep_view(), drop_sampler),
                )
            } else {
                old(self).tracks.deep_view()
            },
            restart == old(self).audio_running,
            !final(self).audio_running,
            !restart ==> final(slots)@ == old(slots)@,
            old(self).wf() ==> final(self).wf(),
    {
        if index < self.tracks.len() {
            let ghost before = self.tracks.deep_view();
            clear_instrument_of(&mut self.tracks[index], default_params, drop_sampler);
            proof {
                lemma_one_track_changed(old(self).tracks@, self.tracks@, index as int);
                assert(self.tracks.deep_view() =~= before.update(
                    index as int,
                    instrument_cleared(before[index as int], default_params.deep_view(), drop_sampler),
                ));
            }
        }
        let ghost mid = self.tracks@;
        let ghost mid_view = self.tracks.deep_view();
        assert(old(self).wf() ==> tracks_wf(mid));
        assert(mid_view.len() == mid.len());
        let restart = self.reinit_audio_if_running(slots);
        proof {
            if old(self).wf() {
                assert forall|j: int| 0 <= j < self.tracks@.len() implies #[trigger] self.tracks@[j].wf() by {
                    assert(self.tracks@[j]@ == self.tracks.deep_view()[j]);
                    assert(mid[j]@ == mid_view[j]);
                    assert(mid[j].wf());
                }
            }
        }
        restart
    }

    /// Fits every track's per-effect lists to its chain of effects (see
    /// `effect_slots_fitted`), as the audio engine expects when it starts.
    pub fn fit_effect_slots(&mut self)
        ensures
            final(self).tracks.deep_view() == Seq::new(
                old(self).tracks@.len(),
                |i: int| effect_slots_fitted(old(self).tracks.deep_view()[i]),
            ),
            *final(self) == (DawApp { tracks: final(self).tracks, ..*old(self) }),
            old(self).wf() ==> final(self).wf(),
    {
        let n = self.tracks.len();
        let mut i: usize = 0;
        while i < n
            invariant
                n == old(self).tracks@.len(),
                i <= n,
                self.tracks@.len() == n,
                *self == (DawApp { tracks: self.tracks, ..*old(self) }),
                forall|j: int| 0 <= j < i ==> (#[trigger] self.tracks@[j])@ == effect_slots_fitted(old(self).tracks@[j]@),
                forall|j: int| i <= j < n ==> #[trigger] self.tracks@[j] == old(self).tracks@[j],
                forall|j: int| 0 <= j < n ==> (#[trigger] self.tracks@[j])@.clips == old(self).tracks@[j]@.clips
                    && self.tracks@[j]@.midi_notes == old(self).tracks@[j]@.midi_notes,
            decreases n - i,
        {
            let ghost before = self.tracks@;
            fit_effect_slots_of(&mut self.tracks[i]);
            proof {
                assert forall|j: int| 0 <= j < n && j != i implies self.tracks@[j] == before[j] by {}
                assert(self.tracks@[i as int]@ == effect_slots_fitted(old(self).tracks@[i as int]@));
            }
            i = i + 1;
        }
        proof {
            assert forall|k: int| 0 <= k < n implies #[trigger] self.tracks.deep_view()[k] == effect_slots_fitted(
                old(self).tracks.deep_view()[k],
            ) by {
                assert(self.tracks.deep_view()[k] == self.tracks@[k]@);
                assert(old(self).tracks.deep_view()[k] == old(self).tracks@[k]@);
            }
            assert(self.tracks.deep_view() =~= Seq::new(n as nat, |k: int| effect_slots_fitted(old(self).tracks.deep_view()[k])));
            if old(self).wf() {
                assert forall|j: int| 0 <= j < n implies #[trigger] self.tracks@[j].wf() by {
                    assert(old(self).tracks@[j].wf());
                }
            }
        }
    }

    /// Flips the solo of track `index`; nothing happens for a track that does
    /// not exist.
    pub fn toggle_track_solo(&mut self, index: usize)
        ensures
            final(self).tracks.deep_view() == if index < old(self).tracks@.len() {
                old(self).tracks.deep_view().update(
                    index as int,
                    TrackView { solo: !old(self).tracks.deep_view()[index as int].solo, ..old(self).tracks.deep_view()[index as int] },
                )
            } else {
                old(self).tracks.deep_view()
            },
            *final(self) == (DawApp { tracks: final(self).tracks, ..*old(self) }),
            old(self).wf() ==> final(self).wf(),
    {
        if index < self.tracks.len() {
            let ghost before = self.tracks.deep_view();
            let solo = self.tracks[index].solo;
            self.tracks[index].solo = !solo;
            proof {
                lemma_one_track_changed(old(self).tracks@, self.tracks@, index as int);
                assert(self.tracks.deep_view() =~= before.update(
                    index as int,
                    TrackView { solo: !before[index as int].solo, ..before[index as int] },
                ));
            }
        }
    }

    /// Removes effect `fx` of track `index` from every per-effect list that
    /// has it (see `effect_removed`), then restarts audio when it runs (see
    /// `reinit_audio_if_running`), which the result says. The tracks do not
    /// change when track `index` does not exist.
    pub fn remove_track_effect(
        &mut self,
        index: usize,
        fx: usize,
        slots: &mut Vec<Option<PerformanceRuntimeClip>>,
    ) -> (restart: bool)
        ensures
            final(self).tracks.deep_view() == if index < old(self).tracks@.len() {
                old(self).tracks.deep_view().update(
                    index as int,
                    effect_removed(old(self).tracks.deep_view()[index as int], fx as int),
                )
            } else {
                old(self).tracks.deep_view()
            },
            restart == old(self).audio_running,
            !final(self).audio_running,
            !restart ==> final(slots)@ == old(slots)@,
            old(self).wf() ==> final(self).wf(),
    {
        if index < self.tracks.len() {
            let ghost before = self.tracks.deep_view();
            remove_effect_of(&mut self.tracks[index], fx);
            proof {
                lemma_one_track_changed(old(self).tracks@, self.tracks@, index as int);
                assert(self.tracks.deep_view() =~= before.update(
                    index as int,
                    effect_removed(before[index as int], fx as int),
                ));
            }
        }
        let ghost mid = self.tracks@;
        let ghost mid_view = self.tracks.deep_view();
        assert(old(self).wf() ==> tracks_wf(mid));
        assert(mid_view.len() == mid.len());
        let restart = self.reinit_audio_if_running(slots);
        proof {
            if old(self).wf() {
                assert forall|j: int| 0 <= j < self.tracks@.len() implies #[trigger] self.tracks@[j].wf() by {
                    assert(self.tracks@[j]@ == self.tracks.deep_view()[j]);
                    assert(mid[j]@ == mid_view[j]);
                    assert(mid[j].wf());
                }
            }
        }
        restart
    }

    /// Moves effect `fx` of track `index` one slot up (a negative
    /// `direction`; the first stays first) or down, exchanging it in every
    /// per-effect list that reaches the slot (see `effect_moved`). The result
    /// says whether it moved: not when the track does not exist or the chain
    /// has no such slot.
    pub fn move_track_effect(&mut self, index: usize, fx: usize, direction: i32) -> (moved: bool)
        requires
            direction >= 0 ==> fx < usize::MAX,
            index < old(self).tracks@.len() ==> effect_lists_swap_safe(
                old(self).tracks.deep_view()[index as int],
                fx as int,
                effect_target(fx as int, direction),
            ),
        ensures
            moved == (index < old(self).tracks@.len() && effect_target(fx as int, direction)
                < old(self).tracks.deep_view()[index as int].effect_paths.len()),
            final(self).tracks.deep_view() == if moved {
                old(self).tracks.deep_view().update(
                    index as int,
                    effect_moved(old(self).tracks.deep_view()[index as int], fx as int, effect_target(fx as int, direction)),
                )
            } else {
                old(self).tracks.deep_view()
            },
            *final(self) == (DawApp { tracks: final(self).tracks, ..*old(self) }),
            old(self).wf() ==> final(self).wf(),
    {
        let target = if direction < 0 {
            if fx == 0 {
                0
            } else {
                fx - 1
            }
        } else {
            fx + 1
        };
        if index >= self.tracks.len() {
            return false;
        }
        if target >= self.tracks[index].effect_paths.len() {
            return false;
        }
        let ghost before = self.tracks.deep_view();
        proof {
            assert(before[index as int] == self.tracks@[index as int]@);
        }
        move_effect_of(&mut self.tracks[index], fx, target);
        proof {
            lemma_one_track_changed(old(self).tracks@, self.tracks@, index as int);
            assert(self.tracks.deep_view() =~= before.update(
                index as int,
                effect_moved(before[index as int], fx as int, target as int),
            ));
        }
        true
    }
}

} // verus!
