//! Instruments of tracks: replacing a track's instrument, taking plug-in
//! state snapshots into the project, and when parameters are refreshed.
use vstd::prelude::*;
use crate::launch::PerformanceRuntimeClip;
use crate::transport::all_empty;
use crate::model::{DawApp, DrumMachineState, Track, TrackView, TreeSynthState, TreeSynthView, copy_strings};
use crate::text::{eq_ignore_ascii_case, eq_ignore_case, owned};

verus! {

/// The state a plug-in host reported for a track: its saved state blobs and
/// the normalized value of each of the track's parameters it could read (as
/// `f32` bit patterns), in the order of the track's parameter ids.
pub struct HostSnapshot {
    pub component: Vec<u8>,
    pub controller: Vec<u8>,
    pub param_values: Vec<Option<u32>>,
}

/// A state blob as the project stores it: none when empty.
pub open spec fn stored_blob(b: Seq<u8>) -> Option<Seq<u8>> {
    if b.len() == 0 {
        None
    } else {
        Some(b)
    }
}

/// `values` made `n` long: cut, or padded with 0.0.
pub open spec fn resized(values: Seq<u32>, n: int) -> Seq<u32> {
    Seq::new(n as nat, |i: int| if i < values.len() { values[i] } else { 0u32 })
}

/// Parameter values after a host snapshot: when the snapshot has no state
/// blobs and the stored values do not match the parameter ids, the values
/// are rebuilt from what the host reported (0.0 where it reported nothing).
pub open spec fn captured_values(t: TrackView, snap_values: Seq<Option<u32>>, has_state: bool) -> Seq<u32> {
    if !has_state && t.param_ids.len() > 0 && (t.param_values.len() == 0 || t.param_values.len() != t.param_ids.len()) {
        let base = resized(t.param_values, t.param_ids.len() as int);
        Seq::new(
            base.len(),
            |i: int|
                match snap_values[i] {
                    Some(v) => v,
                    None => base[i],
                },
        )
    } else {
        t.param_values
    }
}

/// Track `t` after a snapshot of its host was taken in.
pub open spec fn captured(t: TrackView, component: Seq<u8>, controller: Seq<u8>, snap_values: Seq<Option<u32>>) -> TrackView {
    let has_state = component.len() > 0 || controller.len() > 0;
    TrackView {
        plugin_state_component: stored_blob(component),
        plugin_state_controller: stored_blob(controller),
        param_values: captured_values(t, snap_values, has_state),
        ..t
    }
}

/// The empty settings of a sample instrument.
pub open spec fn empty_treesynth() -> TreeSynthView {
    TreeSynthView { folder: None, sample_paths: Seq::empty() }
}

/// Track `t` with the instrument at `path` (CLAP id `clap_id`): parameter
/// names reset to `default_params`, ids, values and state blobs cleared, and
/// the native sample instrument or drum machine set up empty when `path`
/// names one.
pub open spec fn with_instrument(
    t: TrackView,
    path: Seq<char>,
    clap_id: Option<Seq<char>>,
    default_params: Seq<Seq<char>>,
) -> TrackView {
    TrackView {
        instrument_path: Some(path),
        instrument_clap_id: clap_id,
        params: default_params,
        param_ids: Seq::empty(),
        param_values: Seq::empty(),
        plugin_state_component: None,
        plugin_state_controller: None,
        treesynth: if eq_ignore_case(path, "native:treesynth"@) {
            Some(empty_treesynth())
        } else {
            None
        },
        drum_machine: if eq_ignore_case(path, "native:drummachine"@) {
            Some(Seq::empty())
        } else {
            None
        },
        ..t
    }
}

/// What the parameter view has to do when track `index` is selected:
/// silence the MIDI of the newly selected track, and read its parameters
/// again (always when forced).
pub open spec fn params_refresh(last: Option<usize>, index: usize, force: bool) -> (bool, bool) {
    (last != Some(index), force || last != Some(index))
}

/// A copy of a byte blob, as the project stores it.
fn blob(b: &Vec<u8>) -> (r: Option<Vec<u8>>)
    ensures
        r.deep_view() == stored_blob(b@),
{
    if b.len() == 0 {
        None
    } else {
        Some(crate::model::copy_vec(b))
    }
}

impl DawApp {
    /// Takes in the plug-in state of every track whose host reported a
    /// snapshot (`snapshots[i]` for track `i`; see `captured`).
    pub fn capture_plugin_states(&mut self, snapshots: &Vec<Option<HostSnapshot>>)
        requires
            forall|i: int|
                0 <= i < old(self).tracks@.len() && i < snapshots@.len() ==> (#[trigger] snapshots@[i] matches Some(
                    s,
                ) ==> s.param_values@.len() == old(self).tracks@[i].param_ids@.len()),
        ensures
            final(self).tracks@.len() == old(self).tracks@.len(),
            forall|i: int|
                0 <= i < old(self).tracks@.len() ==> (#[trigger] final(self).tracks.deep_view()[i]) == (if i
                    < snapshots@.len() && snapshots@[i] is Some {
                    captured(
                        old(self).tracks.deep_view()[i],
                        snapshots@[i]->Some_0.component@,
                        snapshots@[i]->Some_0.controller@,
                        snapshots@[i]->Some_0.param_values@,
                    )
                } else {
                    old(self).tracks.deep_view()[i]
                }),
            final(self).wf() == old(self).wf(),
    {
        let mut i: usize = 0;
        let n = self.tracks.len();
        while i < n
            invariant
                i <= n == self.tracks@.len() == old(self).tracks@.len(),
                forall|j: int|
                    0 <= j < n && j < snapshots@.len() ==> (#[trigger] snapshots@[j] matches Some(s)
                        ==> s.param_values@.len() == old(self).tracks@[j].param_ids@.len()),
                forall|j: int| i <= j < n ==> self.tracks@[j] == old(self).tracks@[j],
                forall|j: int|
                    0 <= j < i ==> (#[trigger] self.tracks.deep_view()[j]) == (if j < snapshots@.len()
                        && snapshots@[j] is Some {
                        captured(
                            old(self).tracks.deep_view()[j],
                            snapshots@[j]->Some_0.component@,
                            snapshots@[j]->Some_0.controller@,
                            snapshots@[j]->Some_0.param_values@,
                        )
                    } else {
                        old(self).tracks.deep_view()[j]
                    }),
                forall|j: int| 0 <= j < i ==> self.tracks@[j].wf() == old(self).tracks@[j].wf(),
            decreases n - i,
        {
            let ghost dv_before = self.tracks.deep_view();
            assert forall|j: int| 0 <= j < i implies dv_before[j] == (if j < snapshots@.len() && snapshots@[j] is Some {
                captured(
                    old(self).tracks.deep_view()[j],
                    snapshots@[j]->Some_0.component@,
                    snapshots@[j]->Some_0.controller@,
                    snapshots@[j]->Some_0.param_values@,
                )
            } else {
                old(self).tracks.deep_view()[j]
            }) by {
                assert(dv_before[j] == self.tracks.deep_view()[j]);
            }
            if i < snapshots.len() {
                if let Some(snap) = &snapshots[i] {
                    let ghost t0 = self.tracks@[i as int]@;
                    let ghost before = self.tracks@;
                    let mut track = self.tracks[i].copied();
                    track.plugin_state_component = blob(&snap.component);
                    track.plugin_state_controller = blob(&snap.controller);
                    let has_state = snap.component.len() > 0 || snap.controller.len() > 0;
                    let ids_len = track.param_ids.len();
                    if !has_state && ids_len > 0 && (track.param_values.len() == 0 || track.param_values.len() != ids_len) {
                        let mut values: Vec<u32> = Vec::new();
                        let mut k: usize = 0;
                        let ghost base = resized(t0.param_values, ids_len as int);
                        while k < ids_len
                            invariant
                                k <= ids_len,
                                ids_len == t0.param_ids.len(),
                                snap.param_values@.len() == ids_len,
                                track.param_values@ == t0.param_values,
                                base == resized(t0.param_values, ids_len as int),
                                values@.len() == k,
                                forall|m: int| 0 <= m < k ==> values@[m] == (match snap.param_values@[m] {
                                    Some(v) => v,
                                    None => base[m],
                                }),
                            decreases ids_len - k,
                        {
                            let v = match snap.param_values[k] {
                                Some(v) => v,
                                None => if k < track.param_values.len() {
                                    track.param_values[k]
                                } else {
                                    0u32
                                },
                            };
                            values.push(v);
                            k = k + 1;
                        }
                        track.param_values = values;
                        assert(track.param_values@ =~= captured_values(t0, snap.param_values@, has_state));
                    }
                    assert(track@ =~= captured(t0, snap.component@, snap.controller@, snap.param_values@));
                    let ghost tv = track@;
                    assert(track.wf() == before[i as int].wf());
                    self.tracks.set(i, track);
                    assert forall|j: int| 0 <= j < n && j != i implies self.tracks@[j] == before[j] by {}
                    assert forall|j: int| 0 <= j < n && j != i implies self.tracks.deep_view()[j] == dv_before[j] by {
                        assert(self.tracks@[j] == before[j]);
                    }
                    assert(self.tracks.deep_view()[i as int] == tv);
                    assert(t0 == old(self).tracks.deep_view()[i as int]);
                }
            }
            assert forall|j: int| 0 <= j < i implies self.tracks.deep_view()[j] == dv_before[j] by {}
            assert(self.tracks.deep_view()[i as int] == (if i < snapshots@.len() && snapshots@[i as int] is Some {
                captured(
                    old(self).tracks.deep_view()[i as int],
                    snapshots@[i as int]->Some_0.component@,
                    snapshots@[i as int]->Some_0.controller@,
                    snapshots@[i as int]->Some_0.param_values@,
                )
            } else {
                old(self).tracks.deep_view()[i as int]
            }));
            assert forall|j: int| 0 <= j < i + 1 implies (#[trigger] self.tracks.deep_view()[j]) == (if j < snapshots@.len()
                && snapshots@[j] is Some {
                captured(
                    old(self).tracks.deep_view()[j],
                    snapshots@[j]->Some_0.component@,
                    snapshots@[j]->Some_0.controller@,
                    snapshots@[j]->Some_0.param_values@,
                )
            } else {
                old(self).tracks.deep_view()[j]
            }) by {
                if j < i {
                    assert(self.tracks.deep_view()[j] == dv_before[j]);
                }
            }
            i = i + 1;
        }
        assert forall|j: int| 0 <= j < n implies #[trigger] self.tracks@[j].wf() == old(self).tracks@[j].wf() by {}
    }

    /// Puts the instrument at `path` (CLAP id `clap_id`) on track `index`
    /// (see `with_instrument`; `default_params` are the parameter names of an
    /// instrument not yet asked for its parameters). When the audio engine
    /// runs it is stopped (see `stop_audio_and_midi`) and the status asks to
    /// press Play; otherwise the parameters are to be read again, which the
    /// result says.
    pub fn replace_instrument(
        &mut self,
        index: usize,
        path: String,
        clap_id: Option<String>,
        default_params: &Vec<String>,
        slots: &mut Vec<Option<PerformanceRuntimeClip>>,
    ) -> (refresh: bool)
        ensures
            refresh == !old(self).audio_running,
            old(self).audio_running ==> !final(self).audio_running && !final(self).arrangement_playback && all_empty(
                final(slots).deep_view(),
            ),
            !old(self).audio_running ==> final(slots)@ == old(slots)@ && final(self).audio_running == old(self).audio_running,
            index < old(self).tracks@.len() ==> final(self).tracks.deep_view() == old(self).tracks.deep_view().update(
                index as int,
                with_instrument(
                    old(self).tracks.deep_view()[index as int],
                    path@,
                    clap_id.deep_view(),
                    default_params.deep_view(),
                ),
            ),
            index >= old(self).tracks@.len() ==> final(self).tracks.deep_view() == old(self).tracks.deep_view(),
            old(self).audio_running ==> final(self).status@ == "Instrument changed. Press Play to activate it safely."@
                && final(self).last_params_track.is_none(),
            !old(self).audio_running ==> final(self).status@ == old(self).status@ && final(self).last_params_track
                == old(self).last_params_track,
            final(self).wf() == old(self).wf(),
    {
        let was_running = self.audio_running;
        if index < self.tracks.len() {
            let ghost before = self.tracks@;
            let ghost t0 = self.tracks@[index as int]@;
            let mut track = self.tracks[index].copied();
            let treesynth = eq_ignore_ascii_case(path.as_str(), "native:treesynth");
            let drums = eq_ignore_ascii_case(path.as_str(), "native:drummachine");
            track.instrument_path = Some(path);
            track.instrument_clap_id = clap_id;
            track.params = copy_strings(default_params);
            track.param_ids = Vec::new();
            track.param_values = Vec::new();
            track.plugin_state_component = None;
            track.plugin_state_controller = None;
            track.treesynth = if treesynth {
                Some(TreeSynthState { folder: None, sample_paths: Vec::new() })
            } else {
                None
            };
            track.drum_machine = if drums {
                Some(DrumMachineState { pad_paths: Vec::new() })
            } else {
                None
            };
            proof {
                let tv = track@;
                assert(tv.param_ids =~= Seq::<u32>::empty());
                assert(tv.param_values =~= Seq::<u32>::empty());
                if treesynth {
                    assert(tv.treesynth.unwrap().sample_paths =~= Seq::<Seq<char>>::empty());
                }
                if drums {
                    assert(tv.drum_machine.unwrap() =~= Seq::<Option<Seq<char>>>::empty());
                }
                assert(tv =~= with_instrument(t0, path@, clap_id.deep_view(), default_params.deep_view()));
            }
            self.tracks.set(index, track);
            assert(self.tracks.deep_view() =~= old(self).tracks.deep_view().update(
                index as int,
                with_instrument(t0, path@, clap_id.deep_view(), default_params.deep_view()),
            )) by {
                assert forall|j: int| 0 <= j < before.len() && j != index implies self.tracks@[j] == before[j] by {}
            }
        }
        assert forall|j: int| 0 <= j < self.tracks@.len() implies #[trigger] self.tracks@[j].wf() == old(self).tracks@[j].wf() by {
            assert(self.tracks.deep_view()[j] == self.tracks@[j]@);
            assert(old(self).tracks.deep_view()[j] == old(self).tracks@[j]@);
            if j == index {
                assert(self.tracks@[j]@.clips == old(self).tracks@[j]@.clips);
                assert(self.tracks@[j]@.midi_notes == old(self).tracks@[j]@.midi_notes);
            }
        }
        assert(self.wf() == old(self).wf()) by {
            if self.wf() {
                assert forall|j: int| 0 <= j < old(self).tracks@.len() implies #[trigger] old(self).tracks@[j].wf() by {
                    assert(self.tracks@[j].wf());
                }
            }
            if old(self).wf() {
                assert forall|j: int| 0 <= j < self.tracks@.len() implies #[trigger] self.tracks@[j].wf() by {
                    assert(old(self).tracks@[j].wf());
                }
            }
        }
        if was_running {
            let ghost mid = self.tracks@;
            let ghost mid_view = self.tracks.deep_view();
            assert(mid_view.len() == mid.len());
            self.stop_audio_and_midi(slots);
            assert forall|j: int| 0 <= j < self.tracks@.len() implies #[trigger] self.tracks@[j].wf() == mid[j].wf() by {
                assert(self.tracks@[j]@ == self.tracks.deep_view()[j]);
                assert(mid[j]@ == mid_view[j]);
            }
            assert(self.wf() == old(self).wf()) by {
                if self.wf() {
                    assert forall|j: int| 0 <= j < mid.len() implies #[trigger] mid[j].wf() by {
                        assert(self.tracks@[j].wf());
                    }
                }
                if old(self).wf() {
                    assert forall|j: int| 0 <= j < self.tracks@.len() implies #[trigger] self.tracks@[j].wf() by {
                        assert(mid[j].wf());
                    }
                }
            }
            self.last_params_track = None;
            self.status = owned("Instrument changed. Press Play to activate it safely.");
        }
        !was_running
    }

    /// Records that the parameter view now shows the selected track and says
    /// what it has to do (see `params_refresh`): whether to silence the
    /// track's MIDI and whether to read its parameters again. Nothing is to
    /// be done without a selected track.
    pub fn refresh_params_for_selected_track(&mut self, force: bool) -> (r: (bool, bool))
        ensures
            match old(self).selected_track {
                None => r == (false, false) && final(self).last_params_track == old(self).last_params_track,
                Some(index) => {
                    &&& r == params_refresh(old(self).last_params_track, index, force)
                    &&& final(self).last_params_track == (if r.1 {
                        Some(index)
                    } else {
                        old(self).last_params_track
                    })
                },
            },
            final(self).tracks.deep_view() == old(self).tracks.deep_view(),
            *final(self) == (DawApp { last_params_track: final(self).last_params_track, ..*old(self) }),
    {
        let index = match self.selected_track {
            Some(i) => i,
            None => {
                return (false, false);
            },
        };
        let changed = match self.last_params_track {
            Some(last) => last != index,
            None => true,
        };
        if !force && !changed {
            return (false, false);
        }
        self.last_params_track = Some(index);
        (changed, true)
    }
}

} // verus!
