//! Recorded automation: points captured while recording are sorted, merged
//! with their neighbours, and written into the automation lanes of a track.
use vstd::prelude::*;
use crate::model::{AutomationLane, AutomationPoint, AutomationTarget, DawApp, LaneView, Track, TrackView};
use crate::order::{is_key_order, key_order, lemma_key_order_exists, lemma_key_order_unique, sorted_by_keys, stable_key_order};
use crate::text::{concat, decimal, decimal_string};

verus! {

/// Points closer than this, in ticks (0.02 beat), are merged into one.
pub const AUTOMATION_MERGE_TICKS: i64 = 20;

/// A parameter change captured while recording.
#[derive(Clone, Copy, Debug, PartialEq, Eq, Structural)]
pub struct RecordedAutomationPoint {
    pub target: AutomationTarget,
    pub param_id: u32,
    pub tick: i64,
    pub value: u32,
}

/// The number a target is grouped under: -1 for the instrument, the
/// effect's index (cast to `i32`) for an effect.
pub open spec fn target_key(t: AutomationTarget) -> i32 {
    match t {
        AutomationTarget::Instrument => -1i32,
        AutomationTarget::Effect(i) => i as i32,
    }
}

/// The target a group number stands for.
pub open spec fn key_target(k: i32) -> AutomationTarget {
    if k < 0 {
        AutomationTarget::Instrument
    } else {
        AutomationTarget::Effect(k as usize)
    }
}

pub open spec fn point_key(p: RecordedAutomationPoint) -> (i32, u32) {
    (target_key(p.target), p.param_id)
}

/// The groups of `points` (target and parameter), in order of first appearance.
pub open spec fn group_keys(points: Seq<RecordedAutomationPoint>) -> Seq<(i32, u32)>
    decreases points.len(),
{
    if points.len() == 0 {
        Seq::empty()
    } else {
        let k = group_keys(points.drop_last());
        if k.contains(point_key(points.last())) {
            k
        } else {
            k.push(point_key(points.last()))
        }
    }
}

/// The points of group `key`, in recording order.
pub open spec fn group_points(points: Seq<RecordedAutomationPoint>, key: (i32, u32)) -> Seq<AutomationPoint>
    decreases points.len(),
{
    if points.len() == 0 {
        Seq::empty()
    } else {
        let g = group_points(points.drop_last(), key);
        if point_key(points.last()) == key {
            g.push(AutomationPoint { tick: points.last().tick, value: points.last().value })
        } else {
            g
        }
    }
}

pub open spec fn ticks_of(points: Seq<AutomationPoint>) -> Seq<i64> {
    points.map_values(|p: AutomationPoint| p.tick)
}

/// Two positions within `AUTOMATION_MERGE_TICKS` of each other.
pub open spec fn close(a: i64, b: i64) -> bool {
    -AUTOMATION_MERGE_TICKS <= a - b <= AUTOMATION_MERGE_TICKS
}

/// `points` (in order) with each point that is close to the point kept
/// before it replacing that point.
pub open spec fn merge_close(points: Seq<AutomationPoint>) -> Seq<AutomationPoint>
    decreases points.len(),
{
    if points.len() == 0 {
        points
    } else {
        let m = merge_close(points.drop_last());
        let p = points.last();
        if m.len() > 0 && close(m.last().tick, p.tick) {
            m.drop_last().push(p)
        } else {
            m.push(p)
        }
    }
}

/// `points` stably sorted by position, then merged (see `merge_close`).
pub open spec fn coalesced(points: Seq<AutomationPoint>) -> Seq<AutomationPoint> {
    merge_close(sorted_by_keys(points, ticks_of(points)))
}

/// The points of `points` that lie more than `AUTOMATION_MERGE_TICKS` before
/// `lo` or after `hi`.
pub open spec fn outside_range(points: Seq<AutomationPoint>, lo: i64, hi: i64) -> Seq<AutomationPoint>
    decreases points.len(),
{
    if points.len() == 0 {
        points
    } else {
        let r = outside_range(points.drop_last(), lo, hi);
        let p = points.last();
        if p.tick < lo - AUTOMATION_MERGE_TICKS || p.tick > hi + AUTOMATION_MERGE_TICKS {
            r.push(p)
        } else {
            r
        }
    }
}

/// The first position of `id` in `ids`.
pub open spec fn id_position(ids: Seq<u32>, id: u32) -> Option<int>
    decreases ids.len(),
{
    if ids.len() == 0 {
        None
    } else {
        match id_position(ids.drop_last(), id) {
            Some(i) => Some(i),
            None => if ids.last() == id {
                Some(ids.len() - 1)
            } else {
                None
            },
        }
    }
}

/// The first lane of `lanes` that automates parameter `param_id` of `target`.
pub open spec fn lane_position(lanes: Seq<LaneView>, param_id: u32, target: AutomationTarget) -> Option<int>
    decreases lanes.len(),
{
    if lanes.len() == 0 {
        None
    } else {
        match lane_position(lanes.drop_last(), param_id, target) {
            Some(i) => Some(i),
            None => if lanes.last().param_id == param_id && lanes.last().target == target {
                Some(lanes.len() - 1)
            } else {
                None
            },
        }
    }
}

/// "Param <id>".
pub open spec fn param_fallback(param_id: u32) -> Seq<char> {
    "Param "@ + decimal(param_id as nat)
}

/// The name of a new lane for `param_id` of `target` on track `t`, whose
/// effects are shown under the names `fx_names`: the parameter's name, or
/// "Param <id>"; for an effect parameter, "<effect>: <parameter>", with
/// "FX <n>" for an effect the track does not have.
pub open spec fn lane_name(t: TrackView, target: AutomationTarget, param_id: u32, fx_names: Seq<Seq<char>>) -> Seq<char> {
    match target {
        AutomationTarget::Instrument => match id_position(t.param_ids, param_id) {
            Some(i) if i < t.params.len() => t.params[i],
            _ => param_fallback(param_id),
        },
        AutomationTarget::Effect(fx) => {
            let fx_name = if fx < t.effect_paths.len() {
                fx_names[fx as int]
            } else {
                "FX "@ + decimal((fx + 1) as nat)
            };
            let param_name = if fx < t.effect_param_ids.len() {
                match id_position(t.effect_param_ids[fx as int], param_id) {
                    Some(i) if fx < t.effect_params.len() && i < t.effect_params[fx as int].len() => t.effect_params[fx as int][i],
                    _ => param_fallback(param_id),
                }
            } else {
                param_fallback(param_id)
            };
            fx_name + ": "@ + param_name
        },
    }
}

/// The lanes of `t` with a lane for group `key` (the existing one, or a new,
/// empty one at the end), and that lane's position.
pub open spec fn lanes_with(t: TrackView, key: (i32, u32), fx_names: Seq<Seq<char>>) -> (Seq<LaneView>, int) {
    lanes_for(t, key_target(key.0), key.1, fx_names)
}

/// The lanes of `t` with a lane for `param_id` of `target` (the existing
/// one, or a new, empty one at the end), and that lane's position.
pub open spec fn lanes_for(t: TrackView, target: AutomationTarget, param_id: u32, fx_names: Seq<Seq<char>>) -> (
    Seq<LaneView>,
    int,
) {
    match lane_position(t.automation_lanes, param_id, target) {
        Some(i) => (t.automation_lanes, i),
        None => (
            t.automation_lanes.push(
                LaneView { name: lane_name(t, target, param_id, fx_names), param_id, target, points: Seq::empty() },
            ),
            t.automation_lanes.len() as int,
        ),
    }
}

/// `i` is the first position of `points` whose point is close to `tick`.
pub open spec fn first_close_at(points: Seq<AutomationPoint>, tick: i64, i: int) -> bool {
    &&& 0 <= i < points.len()
    &&& close(points[i].tick, tick)
    &&& forall|j: int| 0 <= j < i ==> !close(#[trigger] points[j].tick, tick)
}

/// The first position of `points` whose point is close to `tick`.
pub open spec fn first_close(points: Seq<AutomationPoint>, tick: i64) -> Option<int> {
    if exists|i: int| first_close_at(points, tick, i) {
        Some(choose|i: int| first_close_at(points, tick, i))
    } else {
        None
    }
}

/// Track `t` after a value was recorded for `param_id` of `target` at
/// `tick`: in its lane (created when missing), the first point close to
/// `tick` takes the new position and value, or the point is added; the lane
/// is then coalesced.
pub open spec fn point_recorded(
    t: TrackView,
    target: AutomationTarget,
    param_id: u32,
    tick: i64,
    value: u32,
    fx_names: Seq<Seq<char>>,
) -> TrackView {
    let (lanes, li) = lanes_for(t, target, param_id, fx_names);
    let pts = lanes[li].points;
    let p = AutomationPoint { tick, value };
    let updated = match first_close(pts, tick) {
        Some(k) => pts.update(k, p),
        None => pts.push(p),
    };
    TrackView { automation_lanes: lanes.update(li, LaneView { points: coalesced(updated), ..lanes[li] }), ..t }
}

/// Track `t` after the recorded points `pts` of group `key` were written
/// into its lane: they are coalesced, the lane's points around their span
/// make way for them, and the lane is coalesced again.
pub open spec fn with_group(t: TrackView, key: (i32, u32), pts: Seq<AutomationPoint>, fx_names: Seq<Seq<char>>) -> TrackView {
    let (lanes, li) = lanes_with(t, key, fx_names);
    let new_pts = coalesced(pts);
    if new_pts.len() == 0 {
        TrackView { automation_lanes: lanes, ..t }
    } else {
        let merged = coalesced(outside_range(lanes[li].points, new_pts[0].tick, new_pts.last().tick) + new_pts);
        TrackView { automation_lanes: lanes.update(li, LaneView { points: merged, ..lanes[li] }), ..t }
    }
}

/// Track `t` after the first `k` groups of `points` were written.
pub open spec fn with_groups(
    t: TrackView,
    points: Seq<RecordedAutomationPoint>,
    fx_names: Seq<Seq<char>>,
    k: int,
) -> TrackView
    decreases k,
{
    if k <= 0 {
        t
    } else {
        let prev = with_groups(t, points, fx_names, k - 1);
        let key = group_keys(points)[k - 1];
        with_group(prev, key, group_points(points, key), fx_names)
    }
}

/// Track `t` after all recorded `points` were written, group by group.
pub open spec fn recorded_automation_applied(
    t: TrackView,
    points: Seq<RecordedAutomationPoint>,
    fx_names: Seq<Seq<char>>,
) -> TrackView {
    with_groups(t, points, fx_names, group_keys(points).len() as int)
}

/// Points in order of position (equal positions allowed).
pub open spec fn nondecreasing(s: Seq<AutomationPoint>) -> bool {
    forall|i: int, j: int| 0 <= i < j < s.len() ==> #[trigger] s[i].tick <= #[trigger] s[j].tick
}

/// Points in order of position, each more than `AUTOMATION_MERGE_TICKS`
/// after the one before.
pub open spec fn spaced(s: Seq<AutomationPoint>) -> bool {
    forall|i: int, j: int| 0 <= i < j < s.len() ==> #[trigger] s[j].tick - #[trigger] s[i].tick > AUTOMATION_MERGE_TICKS
}

/// Merging the close neighbours of ordered points leaves them spaced, and
/// the last point stays last.
proof fn lemma_merge_close_spaced(s: Seq<AutomationPoint>)
    requires
        nondecreasing(s),
    ensures
        spaced(merge_close(s)),
        s.len() > 0 ==> merge_close(s).len() > 0 && merge_close(s).last() == s.last(),
        merge_close(s).len() <= s.len(),
    decreases s.len(),
{
    if s.len() > 0 {
        let prev = s.drop_last();
        assert(nondecreasing(prev)) by {
            assert forall|i: int, j: int| 0 <= i < j < prev.len() implies #[trigger] prev[i].tick <= #[trigger] prev[j].tick by {
                assert(prev[i] == s[i] && prev[j] == s[j]);
            }
        }
        lemma_merge_close_spaced(prev);
        let m = merge_close(prev);
        let p = s.last();
        if m.len() > 0 {
            assert(m.last() == prev.last());
            assert(prev.last().tick <= p.tick) by {
                assert(prev.last() == s[s.len() - 2]);
            }
        }
        let r = merge_close(s);
        assert forall|i: int, j: int| 0 <= i < j < r.len() implies #[trigger] r[j].tick - #[trigger] r[i].tick > AUTOMATION_MERGE_TICKS by {
            if j == r.len() - 1 {
                assert(r[j] == p);
                if m.len() > 0 && close(m.last().tick, p.tick) {
                    assert(r[i] == m[i]);
                    assert(m[m.len() - 1].tick - m[i].tick > AUTOMATION_MERGE_TICKS);
                } else if i < m.len() - 1 {
                    assert(r[i] == m[i]);
                    assert(m[m.len() - 1].tick - m[i].tick > AUTOMATION_MERGE_TICKS);
                } else {
                    assert(r[i] == m[i]);
                }
            } else {
                assert(r[i] == m[i] && r[j] == m[j]);
            }
        }
    }
}

/// Spaced points are left as they are by merging.
proof fn lemma_merge_close_spaced_fixed(s: Seq<AutomationPoint>)
    requires
        spaced(s),
    ensures
        merge_close(s) == s,
    decreases s.len(),
{
    if s.len() > 0 {
        let prev = s.drop_last();
        assert(spaced(prev)) by {
            assert forall|i: int, j: int| 0 <= i < j < prev.len() implies #[trigger] prev[j].tick - #[trigger] prev[i].tick > AUTOMATION_MERGE_TICKS by {
                assert(prev[i] == s[i] && prev[j] == s[j]);
            }
        }
        lemma_merge_close_spaced_fixed(prev);
        if prev.len() > 0 {
            assert(s[s.len() - 1].tick - s[s.len() - 2].tick > AUTOMATION_MERGE_TICKS);
        }
        assert(prev.push(s.last()) =~= s);
    }
}

/// Spaced points are already in stable order.
proof fn lemma_spaced_sorted(s: Seq<AutomationPoint>)
    requires
        spaced(s),
    ensures
        sorted_by_keys(s, ticks_of(s)) == s,
{
    let keys = ticks_of(s);
    let id = Seq::new(s.len(), |i: int| i);
    assert(is_key_order(keys, id)) by {
        assert forall|k: int| 0 <= k < keys.len() implies #[trigger] id.contains(k) by {
            assert(id[k] == k);
        }
        assert forall|i: int, j: int| 0 <= i < j < id.len() implies crate::order::key_before(keys, #[trigger] id[i], #[trigger] id[j]) by {
            assert(s[j].tick - s[i].tick > AUTOMATION_MERGE_TICKS);
        }
    }
    lemma_key_order_unique(keys, id, key_order(keys));
    assert(sorted_by_keys(s, keys) =~= s);
}

/// Whether `a` and `b` are within `AUTOMATION_MERGE_TICKS`.
fn ticks_close(a: i64, b: i64) -> (r: bool)
    ensures
        r == close(a, b),
{
    let d = (a as i128) - (b as i128);
    -20 <= d && d <= 20
}

/// The first position of `points` close to `tick` (see `first_close`).
fn first_close_index(points: &Vec<AutomationPoint>, tick: i64) -> (r: Option<usize>)
    ensures
        match r {
            Some(i) => first_close(points@, tick) == Some(i as int) && i < points@.len(),
            None => first_close(points@, tick) is None,
        },
{
    let mut k: usize = 0;
    while k < points.len()
        invariant
            k <= points@.len(),
            forall|j: int| 0 <= j < k ==> !close(#[trigger] points@[j].tick, tick),
        decreases points@.len() - k,
    {
        if ticks_close(points[k].tick, tick) {
            proof {
                assert(first_close_at(points@, tick, k as int));
                let c = choose|i: int| first_close_at(points@, tick, i);
                assert(first_close_at(points@, tick, c));
                if c < k {
                    assert(!close(points@[c].tick, tick));
                } else if c > k {
                    assert(!close(points@[k as int].tick, tick));
                }
            }
            return Some(k);
        }
        k = k + 1;
    }
    proof {
        if exists|i: int| first_close_at(points@, tick, i) {
            let c = choose|i: int| first_close_at(points@, tick, i);
            assert(!close(points@[c].tick, tick));
        }
    }
    None
}

/// `points` sorted by position (stably) and merged (see `coalesced`). The
/// result is spaced: in order, each point more than
/// `AUTOMATION_MERGE_TICKS` after the one before; coalescing it again
/// changes nothing.
pub fn coalesce_automation_points(points: &Vec<AutomationPoint>) -> (r: Vec<AutomationPoint>)
    ensures
        r@ == coalesced(points@),
        spaced(r@),
        coalesced(r@) == r@,
{
    let mut keys: Vec<i64> = Vec::new();
    let mut i: usize = 0;
    while i < points.len()
        invariant
            i <= points.len(),
            keys@ == ticks_of(points@).take(i as int),
        decreases points.len() - i,
    {
        keys.push(points[i].tick);
        assert(ticks_of(points@).take(i + 1) =~= ticks_of(points@).take(i as int).push(points@[i as int].tick));
        i = i + 1;
    }
    assert(ticks_of(points@).take(points.len() as int) =~= ticks_of(points@));
    let order = stable_key_order(&keys);
    let ghost sorted = sorted_by_keys(points@, ticks_of(points@));
    assert(sorted.len() == points@.len());
    assert forall|k: int| 0 <= k < order@.len() implies 0 <= #[trigger] order@[k] < points@.len() by {
        assert(order@.map_values(|x: usize| x as int)[k] == order@[k] as int);
    }
    let mut merged: Vec<AutomationPoint> = Vec::new();
    let mut j: usize = 0;
    while j < order.len()
        invariant
            j <= order.len() == points@.len(),
            order@.map_values(|x: usize| x as int) == key_order(ticks_of(points@)),
            forall|k: int| 0 <= k < order@.len() ==> 0 <= #[trigger] order@[k] < points@.len(),
            sorted == sorted_by_keys(points@, ticks_of(points@)),
            sorted.len() == points@.len(),
            merged@ == merge_close(sorted.take(j as int)),
        decreases order.len() - j,
    {
        let p = points[order[j]];
        assert(key_order(ticks_of(points@))[j as int] == order@[j as int] as int);
        assert(sorted[j as int] == p);
        assert(sorted.take(j + 1).drop_last() == sorted.take(j as int));
        assert(sorted.take(j + 1).last() == p);
        let n = merged.len();
        if n > 0 && ticks_close(merged[n - 1].tick, p.tick) {
            merged.set(n - 1, p);
            assert(merged@ =~= merge_close(sorted.take(j as int)).drop_last().push(p));
        } else {
            merged.push(p);
        }
        j = j + 1;
    }
    assert(sorted.take(order.len() as int) == sorted);
    proof {
        let ks = ticks_of(points@);
        let o = key_order(ks);
        assert(is_key_order(ks, o));
        assert(nondecreasing(sorted)) by {
            assert forall|i: int, j: int| 0 <= i < j < sorted.len() implies #[trigger] sorted[i].tick <= #[trigger] sorted[j].tick by {
                assert(crate::order::key_before(ks, o[i], o[j]));
                assert(sorted[i] == points@[o[i]]);
                assert(sorted[j] == points@[o[j]]);
            }
        }
        lemma_merge_close_spaced(sorted);
        lemma_spaced_sorted(merged@);
        lemma_merge_close_spaced_fixed(merged@);
    }
    merged
}

/// Writing an empty recording changes no track.
pub proof fn law_empty_recording_changes_nothing(t: TrackView, fx_names: Seq<Seq<char>>)
    ensures
        recorded_automation_applied(t, Seq::empty(), fx_names) == t,
{
    assert(group_keys(Seq::<RecordedAutomationPoint>::empty()).len() == 0);
}

/// A lane position lies within the lanes.
proof fn lemma_lane_position_in_range(lanes: Seq<LaneView>, param_id: u32, target: AutomationTarget)
    ensures
        lane_position(lanes, param_id, target) matches Some(i) ==> 0 <= i < lanes.len(),
    decreases lanes.len(),
{
    if lanes.len() > 0 {
        lemma_lane_position_in_range(lanes.drop_last(), param_id, target);
    }
}

/// Coalesced points are spaced, and coalescing them again changes nothing.
proof fn lemma_coalesced_spaced(points: Seq<AutomationPoint>)
    ensures
        spaced(coalesced(points)),
        coalesced(coalesced(points)) == coalesced(points),
{
    let ks = ticks_of(points);
    let o = key_order(ks);
    let sorted = sorted_by_keys(points, ks);
    lemma_key_order_exists(ks);
    assert(nondecreasing(sorted)) by {
        assert forall|i: int, j: int| 0 <= i < j < sorted.len() implies #[trigger] sorted[i].tick <= #[trigger] sorted[j].tick by {
            assert(crate::order::key_before(ks, o[i], o[j]));
            assert(sorted[i] == points[o[i]]);
            assert(sorted[j] == points[o[j]]);
        }
    }
    lemma_merge_close_spaced(sorted);
    let c = coalesced(points);
    lemma_spaced_sorted(c);
    lemma_merge_close_spaced_fixed(c);
}

/// Writing a recorded group into a lane leaves that lane's points in order
/// of position, each more than `AUTOMATION_MERGE_TICKS` after the one
/// before, so that merging them again changes nothing.
pub proof fn law_written_lane_spaced(
    t: TrackView,
    key: (i32, u32),
    pts: Seq<AutomationPoint>,
    fx_names: Seq<Seq<char>>,
)
    ensures
        ({
            let li = lanes_with(t, key, fx_names).1;
            let lane = with_group(t, key, pts, fx_names).automation_lanes[li].points;
            coalesced(pts).len() > 0 ==> spaced(lane) && coalesced(lane) == lane
        }),
{
    lemma_lane_position_in_range(t.automation_lanes, key.1, key_target(key.0));
    let (lanes, li) = lanes_with(t, key, fx_names);
    let new_pts = coalesced(pts);
    if new_pts.len() > 0 {
        lemma_coalesced_spaced(outside_range(lanes[li].points, new_pts[0].tick, new_pts.last().tick) + new_pts);
    }
}

/// Recording one value leaves the lane it went into in order of position,
/// each point more than `AUTOMATION_MERGE_TICKS` after the one before, so
/// that merging them again changes nothing.
pub proof fn law_recorded_point_lane_spaced(
    t: TrackView,
    target: AutomationTarget,
    param_id: u32,
    tick: i64,
    value: u32,
    fx_names: Seq<Seq<char>>,
)
    ensures
        ({
            let li = lanes_for(t, target, param_id, fx_names).1;
            let lane = point_recorded(t, target, param_id, tick, value, fx_names).automation_lanes[li].points;
            spaced(lane) && coalesced(lane) == lane
        }),
{
    lemma_lane_position_in_range(t.automation_lanes, param_id, target);
    let (lanes, li) = lanes_for(t, target, param_id, fx_names);
    let pts = lanes[li].points;
    let p = AutomationPoint { tick, value };
    let updated = match first_close(pts, tick) {
        Some(k) => pts.update(k, p),
        None => pts.push(p),
    };
    lemma_coalesced_spaced(updated);
}

/// The first position of `id` in `ids`.
fn find_id(ids: &Vec<u32>, id: u32) -> (r: Option<usize>)
    ensures
        match r {
            Some(i) => id_position(ids@, id) == Some(i as int) && i < ids@.len(),
            None => id_position(ids@, id) is None,
        },
{
    let mut i: usize = 0;
    while i < ids.len()
        invariant
            i <= ids.len(),
            id_position(ids@.take(i as int), id) is None,
        decreases ids.len() - i,
    {
        assert(ids@.take(i + 1).drop_last() == ids@.take(i as int));
        if ids[i] == id {
            proof {
                assert(id_position(ids@.take(i + 1), id) == Some(i as int));
                lemma_id_position_prefix(ids@, i + 1, id);
            }
            return Some(i);
        }
        i = i + 1;
    }
    assert(ids@.take(ids.len() as int) == ids@);
    None
}

/// A position found in a prefix is the position in the whole list.
proof fn lemma_id_position_prefix(ids: Seq<u32>, k: int, id: u32)
    requires
        0 <= k <= ids.len(),
        id_position(ids.take(k), id) is Some,
    ensures
        id_position(ids, id) == id_position(ids.take(k), id),
    decreases ids.len() - k,
{
    if k < ids.len() {
        assert(ids.take(k + 1).drop_last() == ids.take(k));
        lemma_id_position_prefix(ids, k + 1, id);
    } else {
        assert(ids.take(k) == ids);
    }
}

/// A lane found in a prefix is the lane found in the whole list.
proof fn lemma_lane_position_prefix(lanes: Seq<LaneView>, k: int, param_id: u32, target: AutomationTarget)
    requires
        0 <= k <= lanes.len(),
        lane_position(lanes.take(k), param_id, target) is Some,
    ensures
        lane_position(lanes, param_id, target) == lane_position(lanes.take(k), param_id, target),
    decreases lanes.len() - k,
{
    if k < lanes.len() {
        assert(lanes.take(k + 1).drop_last() == lanes.take(k));
        lemma_lane_position_prefix(lanes, k + 1, param_id, target);
    } else {
        assert(lanes.take(k) == lanes);
    }
}

/// The first lane of `lanes` for `param_id` of `target`.
fn find_lane(lanes: &Vec<AutomationLane>, param_id: u32, target: AutomationTarget) -> (r: Option<usize>)
    ensures
        match r {
            Some(i) => lane_position(lanes.deep_view(), param_id, target) == Some(i as int) && i < lanes@.len(),
            None => lane_position(lanes.deep_view(), param_id, target) is None,
        },
{
    let ghost lv = lanes.deep_view();
    let mut i: usize = 0;
    while i < lanes.len()
        invariant
            i <= lanes.len(),
            lv == lanes.deep_view(),
            lane_position(lv.take(i as int), param_id, target) is None,
        decreases lanes.len() - i,
    {
        assert(lv.take(i + 1).drop_last() == lv.take(i as int));
        assert(lv[i as int] == lanes@[i as int].deep_view());
        if lanes[i].param_id == param_id && lanes[i].target == target {
            proof {
                assert(lane_position(lv.take(i + 1), param_id, target) == Some(i as int));
                lemma_lane_position_prefix(lv, i + 1, param_id, target);
            }
            return Some(i);
        }
        i = i + 1;
    }
    assert(lv.take(lanes.len() as int) == lv);
    None
}

/// "Param <id>".
fn param_fallback_name(param_id: u32) -> (r: String)
    ensures
        r@ == param_fallback(param_id),
{
    let num = decimal_string(param_id as u64);
    concat("Param ", num.as_str())
}

/// The name of a new lane (see `lane_name`).
fn new_lane_name(track: &Track, target: AutomationTarget, param_id: u32, fx_names: &Vec<String>) -> (r: String)
    requires
        fx_names@.len() == track.effect_paths@.len(),
        target matches AutomationTarget::Effect(fx) ==> fx < usize::MAX,
    ensures
        r@ == lane_name(track@, target, param_id, fx_names.deep_view()),
{
    match target {
        AutomationTarget::Instrument => {
            match find_id(&track.param_ids, param_id) {
                Some(i) => {
                    if i < track.params.len() {
                        assert(track@.params[i as int] == track.params@[i as int]@);
                        track.params[i].clone()
                    } else {
                        param_fallback_name(param_id)
                    }
                },
                None => param_fallback_name(param_id),
            }
        },
        AutomationTarget::Effect(fx) => {
            let fx_name = if fx < track.effect_paths.len() {
                assert(fx_names.deep_view()[fx as int] == fx_names@[fx as int]@);
                fx_names[fx].clone()
            } else {
                let num = decimal_string((fx as u64) + 1);
                concat("FX ", num.as_str())
            };
            let param_name = if fx < track.effect_param_ids.len() {
                assert(track@.effect_param_ids[fx as int] == track.effect_param_ids@[fx as int]@);
                match find_id(&track.effect_param_ids[fx], param_id) {
                    Some(i) => {
                        if fx < track.effect_params.len() && i < track.effect_params[fx].len() {
                            assert(track@.effect_params[fx as int] == track.effect_params@[fx as int].deep_view());
                            assert(track@.effect_params[fx as int][i as int] == track.effect_params@[fx as int]@[i as int]@);
                            track.effect_params[fx][i].clone()
                        } else {
                            param_fallback_name(param_id)
                        }
                    },
                    None => param_fallback_name(param_id),
                }
            } else {
                param_fallback_name(param_id)
            };
            let head = concat(fx_name.as_str(), ": ");
            concat(head.as_str(), param_name.as_str())
        },
    }
}

/// The points of `points` outside the span `lo..hi` widened by
/// `AUTOMATION_MERGE_TICKS` (see `outside_range`).
fn points_outside(points: &Vec<AutomationPoint>, lo: i64, hi: i64) -> (r: Vec<AutomationPoint>)
    ensures
        r@ == outside_range(points@, lo, hi),
{
    let mut r: Vec<AutomationPoint> = Vec::new();
    let mut i: usize = 0;
    while i < points.len()
        invariant
            i <= points.len(),
            r@ == outside_range(points@.take(i as int), lo, hi),
        decreases points.len() - i,
    {
        let p = points[i];
        assert(points@.take(i + 1).drop_last() == points@.take(i as int));
        assert(points@.take(i + 1).last() == p);
        if (p.tick as i128) < (lo as i128) - 20 || (p.tick as i128) > (hi as i128) + 20 {
            r.push(p);
        }
        i = i + 1;
    }
    assert(points@.take(points.len() as int) == points@);
    r
}

/// The groups of `points` in order of first appearance (see `group_keys`).
fn collect_group_keys(points: &Vec<RecordedAutomationPoint>) -> (r: Vec<(i32, u32)>)
    ensures
        r@ == group_keys(points@),
{
    let mut keys: Vec<(i32, u32)> = Vec::new();
    let mut i: usize = 0;
    while i < points.len()
        invariant
            i <= points.len(),
            keys@ == group_keys(points@.take(i as int)),
        decreases points.len() - i,
    {
        let p = points[i];
        let key: (i32, u32) = (
            match p.target {
                AutomationTarget::Instrument => -1,
                AutomationTarget::Effect(k) => k as i32,
            },
            p.param_id,
        );
        assert(key == point_key(p));
        assert(points@.take(i + 1).drop_last() == points@.take(i as int));
        assert(points@.take(i + 1).last() == p);
        let mut found = false;
        let mut j: usize = 0;
        while j < keys.len()
            invariant
                j <= keys.len(),
                found == exists|m: int| 0 <= m < j && keys@[m] == key,
            decreases keys.len() - j,
        {
            if keys[j].0 == key.0 && keys[j].1 == key.1 {
                found = true;
            }
            j = j + 1;
        }
        proof {
            if found {
                let m = choose|m: int| 0 <= m < keys@.len() && keys@[m] == key;
                assert(keys@.contains(key)) by {
                    assert(keys@[m] == key);
                }
            } else {
                assert(!keys@.contains(key));
            }
        }
        if !found {
            keys.push(key);
        }
        i = i + 1;
    }
    assert(points@.take(points.len() as int) == points@);
    keys
}

/// The points of group `key`, in recording order (see `group_points`).
fn collect_group_points(points: &Vec<RecordedAutomationPoint>, key: (i32, u32)) -> (r: Vec<AutomationPoint>)
    ensures
        r@ == group_points(points@, key),
{
    let mut out: Vec<AutomationPoint> = Vec::new();
    let mut i: usize = 0;
    while i < points.len()
        invariant
            i <= points.len(),
            out@ == group_points(points@.take(i as int), key),
        decreases points.len() - i,
    {
        let p = points[i];
        let k0: i32 = match p.target {
            AutomationTarget::Instrument => -1,
            AutomationTarget::Effect(k) => k as i32,
        };
        assert((k0, p.param_id) == point_key(p));
        assert(points@.take(i + 1).drop_last() == points@.take(i as int));
        assert(points@.take(i + 1).last() == p);
        if k0 == key.0 && p.param_id == key.1 {
            out.push(AutomationPoint { tick: p.tick, value: p.value });
        }
        i = i + 1;
    }
    assert(points@.take(points.len() as int) == points@);
    out
}

impl DawApp {
    /// Writes the automation recorded on track `track_index` into its lanes
    /// (see `recorded_automation_applied`). `fx_names` are the display names
    /// of the track's effects. Nothing happens for a track that does not exist.
    #[verifier::rlimit(40)]
    pub fn apply_recorded_automation(
        &mut self,
        track_index: usize,
        points: Vec<RecordedAutomationPoint>,
        fx_names: &Vec<String>,
    )
        requires
            track_index < old(self).tracks@.len() ==> fx_names@.len() == old(
                self,
            ).tracks@[track_index as int].effect_paths@.len(),
        ensures
            track_index < old(self).tracks@.len() ==> final(self).tracks.deep_view() == old(
                self,
            ).tracks.deep_view().update(
                track_index as int,
                recorded_automation_applied(old(self).tracks.deep_view()[track_index as int], points@, fx_names.deep_view()),
            ),
            track_index >= old(self).tracks@.len() ==> final(self).tracks.deep_view() == old(self).tracks.deep_view(),
            final(self).wf() == old(self).wf(),
            final(self).selected_track == old(self).selected_track,
    {
        if track_index >= self.tracks.len() {
            return;
        }
        let keys = collect_group_keys(&points);
        let ghost t0 = self.tracks.deep_view()[track_index as int];
        let ghost all0 = self.tracks.deep_view();
        let ghost fxv = fx_names.deep_view();
        let mut k: usize = 0;
        while k < keys.len()
            invariant
                k <= keys@.len(),
                keys@ == group_keys(points@),
                track_index < self.tracks@.len() == all0.len(),
                all0 == old(self).tracks.deep_view(),
                fx_names@.len() == self.tracks@[track_index as int].effect_paths@.len(),
                fxv == fx_names.deep_view(),
                self.tracks.deep_view() == all0.update(track_index as int, with_groups(t0, points@, fxv, k as int)),
                old(self).tracks@.len() == self.tracks@.len(),
                forall|j: int| 0 <= j < self.tracks@.len() && j != track_index ==> self.tracks@[j] == old(self).tracks@[j],
                self.tracks@[track_index as int].wf() == old(self).tracks@[track_index as int].wf(),
                self.selected_track == old(self).selected_track,
            decreases keys@.len() - k,
        {
            let key = keys[k];
            let target = if key.0 < 0 {
                AutomationTarget::Instrument
            } else {
                AutomationTarget::Effect(key.0 as usize)
            };
            assert(target == key_target(key.0));
            let group = collect_group_points(&points, key);
            let new_pts = coalesce_automation_points(&group);
            let ghost tv = self.tracks.deep_view()[track_index as int];
            assert(tv == with_groups(t0, points@, fxv, k as int));
            let li = match find_lane(&self.tracks[track_index].automation_lanes, key.1, target) {
                Some(i) => i,
                None => {
                    let name = new_lane_name(&self.tracks[track_index], target, key.1, fx_names);
                    let lane = AutomationLane { name, param_id: key.1, target, points: Vec::new() };
                    let ghost lanes_before = self.tracks@[track_index as int].automation_lanes.deep_view();
                    self.tracks[track_index].automation_lanes.push(lane);
                    assert(self.tracks@[track_index as int].automation_lanes.deep_view() =~= lanes_before.push(
                        LaneView { name: lane_name(tv, target, key.1, fxv), param_id: key.1, target, points: Seq::empty() },
                    ));
                    self.tracks[track_index].automation_lanes.len() - 1
                },
            };
            let ghost lw = lanes_with(tv, key, fxv);
            assert(self.tracks@[track_index as int].automation_lanes.deep_view() == lw.0);
            assert(li as int == lw.1);
            if new_pts.len() > 0 {
                let lo = new_pts[0].tick;
                let hi = new_pts[new_pts.len() - 1].tick;
                let kept = points_outside(&self.tracks[track_index].automation_lanes[li].points, lo, hi);
                let mut combined = kept;
                let mut q: usize = 0;
                let ghost kept_v = combined@;
                while q < new_pts.len()
                    invariant
                        q <= new_pts@.len(),
                        combined@ == kept_v + new_pts@.take(q as int),
                    decreases new_pts@.len() - q,
                {
                    combined.push(new_pts[q]);
                    assert(new_pts@.take(q + 1) == new_pts@.take(q as int).push(new_pts@[q as int]));
                    q = q + 1;
                }
                assert(new_pts@.take(new_pts@.len() as int) == new_pts@);
                let merged = coalesce_automation_points(&combined);
                let ghost lanes_before = self.tracks@[track_index as int].automation_lanes.deep_view();
                self.tracks[track_index].automation_lanes[li].points = merged;
                assert(self.tracks@[track_index as int].automation_lanes.deep_view() =~= lanes_before.update(
                    li as int,
                    LaneView { points: merged@, ..lanes_before[li as int] },
                ));
            }
            proof {
                assert(self.tracks@[track_index as int]@ =~= with_group(tv, key, group_points(points@, key), fxv));
                assert(key == group_keys(points@)[k as int]);
                assert(with_groups(t0, points@, fxv, k + 1) == with_group(tv, key, group_points(points@, key), fxv));
                assert forall|j: int| 0 <= j < all0.len() && j != track_index implies self.tracks.deep_view()[j] == all0[j] by {
                    assert(self.tracks@[j] == old(self).tracks@[j]);
                    assert(all0[j] == old(self).tracks@[j].deep_view());
                }
                assert(self.tracks.deep_view() =~= all0.update(track_index as int, with_groups(t0, points@, fxv, k + 1)));
            }
            k = k + 1;
        }
    }

    /// Records `value` for parameter `param_id` of `target` at `tick` on
    /// track `track_index` (see `point_recorded`). `fx_names` are the display
    /// names of the track's effects. Nothing happens for a track that does
    /// not exist.
    pub fn record_automation_point(
        &mut self,
        track_index: usize,
        target: AutomationTarget,
        param_id: u32,
        tick: i64,
        value: u32,
        fx_names: &Vec<String>,
    )
        requires
            track_index < old(self).tracks@.len() ==> fx_names@.len() == old(
                self,
            ).tracks@[track_index as int].effect_paths@.len(),
            target matches AutomationTarget::Effect(fx) ==> fx < usize::MAX,
        ensures
            track_index < old(self).tracks@.len() ==> final(self).tracks.deep_view() == old(
                self,
            ).tracks.deep_view().update(
                track_index as int,
                point_recorded(
                    old(self).tracks.deep_view()[track_index as int],
                    target,
                    param_id,
                    tick,
                    value,
                    fx_names.deep_view(),
                ),
            ),
            track_index >= old(self).tracks@.len() ==> final(self).tracks.deep_view() == old(self).tracks.deep_view(),
            final(self).wf() == old(self).wf(),
            final(self).selected_track == old(self).selected_track,
    {
        if track_index >= self.tracks.len() {
            return;
        }
        let ghost all0 = self.tracks.deep_view();
        let ghost tv = all0[track_index as int];
        let ghost fxv = fx_names.deep_view();
        let li = match find_lane(&self.tracks[track_index].automation_lanes, param_id, target) {
            Some(i) => i,
            None => {
                let name = new_lane_name(&self.tracks[track_index], target, param_id, fx_names);
                let lane = AutomationLane { name, param_id, target, points: Vec::new() };
                let ghost lanes_before = self.tracks@[track_index as int].automation_lanes.deep_view();
                self.tracks[track_index].automation_lanes.push(lane);
                assert(self.tracks@[track_index as int].automation_lanes.deep_view() =~= lanes_before.push(
                    LaneView { name: lane_name(tv, target, param_id, fxv), param_id, target, points: Seq::empty() },
                ));
                self.tracks[track_index].automation_lanes.len() - 1
            },
        };
        let ghost lw = lanes_for(tv, target, param_id, fxv);
        assert(self.tracks@[track_index as int].automation_lanes.deep_view() == lw.0);
        assert(li as int == lw.1);
        let mut points = crate::model::copy_vec(&self.tracks[track_index].automation_lanes[li].points);
        let p = AutomationPoint { tick, value };
        match first_close_index(&points, tick) {
            Some(k) => {
                points.set(k, p);
            },
            None => {
                points.push(p);
            },
        }
        let merged = coalesce_automation_points(&points);
        let ghost lanes_before = self.tracks@[track_index as int].automation_lanes.deep_view();
        self.tracks[track_index].automation_lanes[li].points = merged;
        assert(self.tracks@[track_index as int].automation_lanes.deep_view() =~= lanes_before.update(
            li as int,
            LaneView { points: merged@, ..lanes_before[li as int] },
        ));
        proof {
            assert(self.tracks@[track_index as int]@ =~= point_recorded(tv, target, param_id, tick, value, fxv));
            assert forall|j: int| 0 <= j < all0.len() && j != track_index implies self.tracks.deep_view()[j] == all0[j] by {
                assert(self.tracks@[j] == old(self).tracks@[j]);
            }
            assert(self.tracks.deep_view() =~= all0.update(track_index as int, point_recorded(tv, target, param_id, tick, value, fxv)));
            assert(self.tracks@[track_index as int]@.clips == tv.clips);
            assert(self.tracks@[track_index as int]@.midi_notes == tv.midi_notes);
            assert(tv == old(self).tracks@[track_index as int]@);
            assert(self.tracks@[track_index as int].wf() == old(self).tracks@[track_index as int].wf());
            if old(self).wf() {
                assert forall|j: int| 0 <= j < self.tracks@.len() implies #[trigger] self.tracks@[j].wf() by {
                    if j != track_index {
                        assert(self.tracks@[j] == old(self).tracks@[j]);
                    }
                }
            }
            if self.wf() {
                assert forall|j: int| 0 <= j < old(self).tracks@.len() implies #[trigger] old(self).tracks@[j].wf() by {
                    if j != track_index {
                        assert(self.tracks@[j] == old(self).tracks@[j]);
                    } else {
                        assert(self.tracks@[j].wf());
                    }
                }
            }
        }
    }
}

} // verus!
