//! The parameter view's edits of automation: creating the lane of an
//! instrument parameter, deleting a lane (the focused lane following), and
//! arming MIDI learn for a parameter.
use vstd::prelude::*;
use crate::mixer::lemma_one_track_changed;
use crate::model::{AutomationLane, AutomationTarget, DawApp, LaneView, Track, TrackView};
use crate::text::concat;

verus! {

/// The position of the first lane of `lanes` for parameter `param_id`.
pub open spec fn first_lane_for(lanes: Seq<LaneView>, param_id: u32) -> Option<int> {
    if exists|k: int| 0 <= k < lanes.len() && lanes[k].param_id == param_id {
        Some(choose|k: int| 0 <= k < lanes.len() && lanes[k].param_id == param_id && forall|j: int| 0 <= j < k ==> lanes[j].param_id != param_id)
    } else {
        None
    }
}

/// The lanes after asking for a lane for parameter `param_id` named
/// `name`: an empty instrument lane is appended unless a lane for that
/// parameter exists.
pub open spec fn lanes_with_param(lanes: Seq<LaneView>, param_id: u32, name: Seq<char>) -> Seq<LaneView> {
    if exists|k: int| 0 <= k < lanes.len() && lanes[k].param_id == param_id {
        lanes
    } else {
        lanes.push(LaneView { name, param_id, target: AutomationTarget::Instrument, points: Seq::empty() })
    }
}

/// The focused lane after lane `lane` of track `track` was deleted: a
/// focus on that lane is dropped, one on a later lane of the track moves
/// up with it.
pub open spec fn focus_after_delete(focus: Option<(usize, usize)>, track: usize, lane: usize) -> Option<(usize, usize)> {
    match focus {
        Some((t, l)) => if t == track && l == lane {
            None
        } else if t == track && l > lane {
            Some((t, (l - 1) as usize))
        } else {
            focus
        },
        None => None,
    }
}

/// Asking again for the lane of a parameter adds nothing: the first request
/// left a lane for it.
pub proof fn law_lane_request_idempotent(lanes: Seq<LaneView>, param_id: u32, name: Seq<char>, again: Seq<char>)
    ensures
        lanes_with_param(lanes_with_param(lanes, param_id, name), param_id, again) == lanes_with_param(lanes, param_id, name),
        first_lane_for(lanes_with_param(lanes, param_id, name), param_id) is Some,
{
    let once = lanes_with_param(lanes, param_id, name);
    if !(exists|k: int| 0 <= k < lanes.len() && lanes[k].param_id == param_id) {
        assert(once[lanes.len() as int].param_id == param_id);
    }
    assert(exists|k: int| 0 <= k < once.len() && once[k].param_id == param_id);
    let w = choose|k: int| 0 <= k < once.len() && once[k].param_id == param_id;
    lemma_first_exists(once, param_id, w);
}

/// A lane for `param_id` at `w` means there is a first one.
proof fn lemma_first_exists(lanes: Seq<LaneView>, param_id: u32, w: int)
    requires
        0 <= w < lanes.len(),
        lanes[w].param_id == param_id,
    ensures
        exists|k: int| 0 <= k < lanes.len() && lanes[k].param_id == param_id && forall|j: int| 0 <= j < k ==> lanes[j].param_id != param_id,
    decreases w,
{
    if exists|j: int| 0 <= j < w && lanes[j].param_id == param_id {
        let j = choose|j: int| 0 <= j < w && lanes[j].param_id == param_id;
        lemma_first_exists(lanes, param_id, j);
    } else {
        assert(lanes[w].param_id == param_id && forall|j: int| 0 <= j < w ==> lanes[j].param_id != param_id);
    }
}

/// After a lane is deleted, a focus on another lane of the track still
/// names the same lane.
pub proof fn law_focus_follows_lane(lanes: Seq<LaneView>, track: usize, lane: usize, focused: usize)
    requires
        lane < lanes.len(),
        focused < lanes.len(),
        focused != lane,
    ensures
        focus_after_delete(Some((track, focused)), track, lane) matches Some((t, l)) && t == track && lanes.remove(
            lane as int,
        )[l as int] == lanes[focused as int],
{
}

/// The position of the first lane of `lanes` for parameter `param_id`.
fn find_lane(lanes: &Vec<AutomationLane>, param_id: u32) -> (r: Option<usize>)
    ensures
        match r {
            Some(k) => k < lanes@.len() && lanes.deep_view()[k as int].param_id == param_id && forall|j: int|
                0 <= j < k ==> lanes.deep_view()[j].param_id != param_id,
            None => forall|j: int| 0 <= j < lanes@.len() ==> lanes.deep_view()[j].param_id != param_id,
        },
{
    let mut i: usize = 0;
    while i < lanes.len()
        invariant
            i <= lanes@.len(),
            forall|j: int| 0 <= j < i ==> lanes.deep_view()[j].param_id != param_id,
        decreases lanes@.len() - i,
    {
        if lanes[i].param_id == param_id {
            return Some(i);
        }
        i = i + 1;
    }
    None
}

/// Appends to `t` the lane for parameter `param_id` named `name` unless it
/// has one (see `lanes_with_param`); the result is the position of the
/// first lane for that parameter.
fn add_lane_if_missing(t: &mut Track, param_id: u32, name: String) -> (pos: usize)
    ensures
        final(t)@ == (TrackView { automation_lanes: lanes_with_param(old(t)@.automation_lanes, param_id, name@), ..old(t)@ }),
        first_lane_for(final(t)@.automation_lanes, param_id) == Some(pos as int),
{
    let ghost lanes_before = t@.automation_lanes;
    let ghost name_view = name@;
    let existing = find_lane(&t.automation_lanes, param_id);
    if existing.is_none() {
        let lane = AutomationLane { name, param_id, target: AutomationTarget::Instrument, points: Vec::new() };
        assert(lane.points@ =~= Seq::<crate::model::AutomationPoint>::empty());
        t.automation_lanes.push(lane);
        assert(t.automation_lanes.deep_view() =~= lanes_before.push(
            LaneView { name: name_view, param_id, target: AutomationTarget::Instrument, points: Seq::empty() },
        ));
    }
    let ghost lanes_after = lanes_with_param(lanes_before, param_id, name_view);
    assert(t@.automation_lanes == lanes_after);
    assert(exists|k: int| 0 <= k < lanes_after.len() && lanes_after[k].param_id == param_id) by {
        if exists|k: int| 0 <= k < lanes_before.len() && lanes_before[k].param_id == param_id {
            let k = choose|k: int| 0 <= k < lanes_before.len() && lanes_before[k].param_id == param_id;
            assert(lanes_after[k].param_id == param_id);
        } else {
            assert(lanes_after[lanes_before.len() as int].param_id == param_id);
        }
    }
    let pos = find_lane(&t.automation_lanes, param_id);
    match pos {
        Some(p) => {
            proof {
                let w = first_lane_for(lanes_after, param_id)->0;
                assert(0 <= w < lanes_after.len() && lanes_after[w].param_id == param_id);
                assert(w == p as int);
            }
            p
        },
        None => {
            assert(false);
            0
        },
    }
}

/// Removes lane `lane` of `t`.
fn remove_lane_of(t: &mut Track, lane: usize)
    requires
        lane < old(t)@.automation_lanes.len(),
    ensures
        final(t)@ == (TrackView { automation_lanes: old(t)@.automation_lanes.remove(lane as int), ..old(t)@ }),
{
    let ghost before = t@.automation_lanes;
    t.automation_lanes.remove(lane);
    assert(t.automation_lanes.deep_view() =~= before.remove(lane as int));
}

impl DawApp {
    /// Creates the automation lane of instrument parameter `slot` of track
    /// `track_index` (see `lanes_with_param`), named `label`, and focuses the
    /// first lane of that parameter. Nothing happens when the track or the
    /// parameter does not exist.
    #[verifier::rlimit(60)]
    pub fn create_automation_lane(&mut self, track_index: usize, slot: usize, label: String)
        ensures
            old(self).wf() ==> final(self).wf(),
            ({
                let tracks = old(self).tracks.deep_view();
                if track_index < tracks.len() && slot < tracks[track_index as int].param_ids.len() {
                    let t = tracks[track_index as int];
                    let pid = t.param_ids[slot as int];
                    let lanes = lanes_with_param(t.automation_lanes, pid, label@);
                    &&& final(self).tracks.deep_view() == tracks.update(
                        track_index as int,
                        TrackView { automation_lanes: lanes, ..t },
                    )
                    &&& final(self).automation_active matches Some((ft, fl)) && ft == track_index && first_lane_for(lanes, pid) == Some(fl as int)
                } else {
                    final(self).tracks.deep_view() == tracks && final(self).automation_active == old(self).automation_active
                }
            }),
            *final(self) == (DawApp { tracks: final(self).tracks, automation_active: final(self).automation_active, ..*old(self) }),
    {
        if track_index >= self.tracks.len() {
            return;
        }
        let n = self.tracks[track_index].param_ids.len();
        assert(n == self.tracks.deep_view()[track_index as int].param_ids.len());
        if slot >= n {
            return;
        }
        let pos = self.add_param_lane(track_index, slot, label);
        self.focus_lane(track_index, pos);
    }

    /// Focuses lane `lane` of track `track_index`.
    fn focus_lane(&mut self, track_index: usize, lane: usize)
        ensures
            *final(self) == (DawApp { automation_active: Some((track_index, lane)), ..*old(self) }),
    {
        self.automation_active = Some((track_index, lane));
    }

    /// The lane creation of `create_automation_lane`; the result is the
    /// position of the parameter's first lane.
    fn add_param_lane(&mut self, track_index: usize, slot: usize, label: String) -> (pos: usize)
        requires
            track_index < old(self).tracks@.len(),
            slot < old(self).tracks.deep_view()[track_index as int].param_ids.len(),
        ensures
            old(self).wf() ==> final(self).wf(),
            ({
                let tracks = old(self).tracks.deep_view();
                let t = tracks[track_index as int];
                let pid = t.param_ids[slot as int];
                let lanes = lanes_with_param(t.automation_lanes, pid, label@);
                &&& final(self).tracks.deep_view() == tracks.update(track_index as int, TrackView { automation_lanes: lanes, ..t })
                &&& first_lane_for(lanes, pid) == Some(pos as int)
            }),
            *final(self) == (DawApp { tracks: final(self).tracks, ..*old(self) }),
    {
        let ghost before = self.tracks.deep_view();
        let ghost old_tracks = self.tracks@;
        let param_id = self.tracks[track_index].param_ids[slot];
        assert(param_id == before[track_index as int].param_ids[slot as int]);
        let pos = add_lane_if_missing(&mut self.tracks[track_index], param_id, label);
        proof {
            lemma_one_track_changed(old_tracks, self.tracks@, track_index as int);
            assert(self.tracks.deep_view() =~= before.update(
                track_index as int,
                TrackView {
                    automation_lanes: lanes_with_param(before[track_index as int].automation_lanes, param_id, label@),
                    ..before[track_index as int]
                },
            ));
        }
        pos
    }

    /// Deletes lane `lane_index` of track `track_index` when it exists; the
    /// focused lane follows (see `focus_after_delete`).
    pub fn delete_automation_lane(&mut self, track_index: usize, lane_index: usize)
        ensures
            old(self).wf() ==> final(self).wf(),
            ({
                let tracks = old(self).tracks.deep_view();
                if track_index < tracks.len() && lane_index < tracks[track_index as int].automation_lanes.len() {
                    final(self).tracks.deep_view() == tracks.update(
                        track_index as int,
                        TrackView {
                            automation_lanes: tracks[track_index as int].automation_lanes.remove(lane_index as int),
                            ..tracks[track_index as int]
                        },
                    )
                } else {
                    final(self).tracks.deep_view() == tracks
                }
            }),
            final(self).automation_active == focus_after_delete(old(self).automation_active, track_index, lane_index),
            *final(self) == (DawApp { tracks: final(self).tracks, automation_active: final(self).automation_active, ..*old(self) }),
    {
        self.remove_lane_at(track_index, lane_index);
        self.focus_lane_after_delete(track_index, lane_index);
    }

    /// The lane removal of `delete_automation_lane`.
    fn remove_lane_at(&mut self, track_index: usize, lane_index: usize)
        ensures
            old(self).wf() ==> final(self).wf(),
            ({
                let tracks = old(self).tracks.deep_view();
                if track_index < tracks.len() && lane_index < tracks[track_index as int].automation_lanes.len() {
                    final(self).tracks.deep_view() == tracks.update(
                        track_index as int,
                        TrackView {
                            automation_lanes: tracks[track_index as int].automation_lanes.remove(lane_index as int),
                            ..tracks[track_index as int]
                        },
                    )
                } else {
                    final(self).tracks.deep_view() == tracks
                }
            }),
            *final(self) == (DawApp { tracks: final(self).tracks, ..*old(self) }),
    {
        if track_index < self.tracks.len() && lane_index < self.tracks[track_index].automation_lanes.len() {
            let ghost before = self.tracks.deep_view();
            let ghost old_tracks = self.tracks@;
            remove_lane_of(&mut self.tracks[track_index], lane_index);
            proof {
                lemma_one_track_changed(old_tracks, self.tracks@, track_index as int);
                assert(self.tracks.deep_view() =~= before.update(
                    track_index as int,
                    TrackView {
                        automation_lanes: before[track_index as int].automation_lanes.remove(lane_index as int),
                        ..before[track_index as int]
                    },
                ));
            }
        }
    }

    /// The focus change of `delete_automation_lane` (see
    /// `focus_after_delete`).
    fn focus_lane_after_delete(&mut self, track_index: usize, lane_index: usize)
        ensures
            final(self).automation_active == focus_after_delete(old(self).automation_active, track_index, lane_index),
            *final(self) == (DawApp { automation_active: final(self).automation_active, ..*old(self) }),
    {
        if let Some((active_track, active_lane)) = self.automation_active {
            if active_track == track_index {
                if active_lane == lane_index {
                    self.automation_active = None;
                } else if active_lane > lane_index {
                    self.automation_active = Some((track_index, active_lane - 1));
                }
            }
        }
    }

    /// Arms MIDI learn for parameter `param_id` of track `track_index`,
    /// reporting "MIDI Learn armed for <label>".
    pub fn arm_midi_learn(&mut self, track_index: usize, param_id: u32, label: &str)
        ensures
            final(self).midi_learn == Some((track_index, param_id)),
            final(self).status@ == "MIDI Learn armed for "@ + label@,
            *final(self) == (DawApp { midi_learn: final(self).midi_learn, status: final(self).status, ..*old(self) }),
    {
        self.midi_learn = Some((track_index, param_id));
        self.status = concat("MIDI Learn armed for ", label);
    }
}

} // verus!
