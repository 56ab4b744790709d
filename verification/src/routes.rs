//! The routing graph's defaults and repair, and the clean-up of per-clip
//! performance settings when a project is loaded.
use std::collections::HashMap;
use vstd::prelude::*;
use crate::model::{DawApp, NodeRouteKind, NodeRouteLink, PerformanceClipSettings, Track};

verus! {

broadcast use vstd::std_specs::hash::group_hash_axioms;

/// Highest output pair a route may take its signal from.
pub const MAX_OUTPUT_PAIR: usize = 7;

/// The enabled audio route from track `t`'s first output pair into the track
/// itself (`fx` `None`) or into its effect `fx`.
pub open spec fn own_route(t: usize, fx: Option<usize>) -> NodeRouteLink {
    NodeRouteLink {
        from_track: t,
        source_output_pair: 0,
        to_track: t,
        to_fx: fx,
        kind: NodeRouteKind::AudioSend,
        enabled: true,
    }
}

/// Default routes of track `t` with `fx_count` effects: one into each effect,
/// or one into the track when it has none.
pub open spec fn track_default_routes(t: usize, fx_count: nat) -> Seq<NodeRouteLink> {
    if fx_count == 0 {
        seq![own_route(t, None)]
    } else {
        Seq::new(fx_count, |k: int| own_route(t, Some(k as usize)))
    }
}

/// Default routes of the first `n` tracks, track by track.
pub open spec fn default_routes(tracks: Seq<Track>, n: int) -> Seq<NodeRouteLink>
    decreases n,
{
    if n <= 0 {
        Seq::empty()
    } else {
        default_routes(tracks, n - 1) + track_default_routes((n - 1) as usize, tracks[n - 1].effect_paths@.len())
    }
}

/// Route `r` repaired against `tracks`: dropped when either end names a track
/// that does not exist; otherwise its output pair capped at `MAX_OUTPUT_PAIR`
/// and its effect target cleared when the target track has no such effect.
pub open spec fn sanitized_route(r: NodeRouteLink, tracks: Seq<Track>) -> Option<NodeRouteLink> {
    if r.from_track >= tracks.len() || r.to_track >= tracks.len() {
        None
    } else {
        Some(
            NodeRouteLink {
                source_output_pair: if r.source_output_pair <= MAX_OUTPUT_PAIR {
                    r.source_output_pair
                } else {
                    MAX_OUTPUT_PAIR
                },
                to_fx: match r.to_fx {
                    Some(fx) => if fx < tracks[r.to_track as int].effect_paths@.len() {
                        Some(fx)
                    } else {
                        None
                    },
                    None => None,
                },
                ..r
            },
        )
    }
}

/// The routes of `routes` that survive repair, repaired, in order.
pub open spec fn sanitized_routes(routes: Seq<NodeRouteLink>, tracks: Seq<Track>) -> Seq<NodeRouteLink>
    decreases routes.len(),
{
    if routes.len() == 0 {
        Seq::empty()
    } else {
        let r = sanitized_routes(routes.drop_last(), tracks);
        match sanitized_route(routes.last(), tracks) {
            Some(x) => r.push(x),
            None => r,
        }
    }
}

/// A route refers only to existing tracks, existing effects and output pairs
/// up to `MAX_OUTPUT_PAIR`.
pub open spec fn route_valid(r: NodeRouteLink, tracks: Seq<Track>) -> bool {
    &&& r.from_track < tracks.len()
    &&& r.to_track < tracks.len()
    &&& r.source_output_pair <= MAX_OUTPUT_PAIR
    &&& match r.to_fx {
        Some(fx) => fx < tracks[r.to_track as int].effect_paths@.len(),
        None => true,
    }
}

/// Repaired routes are valid.
pub proof fn law_sanitized_routes_valid(routes: Seq<NodeRouteLink>, tracks: Seq<Track>)
    ensures
        forall|i: int| 0 <= i < sanitized_routes(routes, tracks).len() ==> route_valid(
            #[trigger] sanitized_routes(routes, tracks)[i], tracks),
    decreases routes.len(),
{
    if routes.len() > 0 {
        law_sanitized_routes_valid(routes.drop_last(), tracks);
        let r = sanitized_routes(routes.drop_last(), tracks);
        match sanitized_route(routes.last(), tracks) {
            Some(x) => {
                assert(sanitized_routes(routes, tracks) == r.push(x));
                assert(route_valid(x, tracks));
                assert forall|i: int| 0 <= i < r.push(x).len() implies route_valid(#[trigger] r.push(x)[i], tracks) by {
                    if i < r.len() {
                        assert(r.push(x)[i] == r[i]);
                    }
                }
            },
            None => {},
        }
    }
}

/// Default routes are valid and survive repair unchanged.
pub proof fn law_default_routes_valid(tracks: Seq<Track>, n: int)
    requires
        0 <= n <= tracks.len() <= usize::MAX,
    ensures
        forall|i: int| 0 <= i < default_routes(tracks, n).len() ==> route_valid(
            #[trigger] default_routes(tracks, n)[i], tracks),
        sanitized_routes(default_routes(tracks, n), tracks) == default_routes(tracks, n),
    decreases n,
{
    if n > 0 {
        law_default_routes_valid(tracks, n - 1);
        let prev = default_routes(tracks, n - 1);
        let own = track_default_routes((n - 1) as usize, tracks[n - 1].effect_paths@.len());
        assert forall|i: int| 0 <= i < own.len() implies route_valid(#[trigger] own[i], tracks) by {}
        lemma_sanitize_valid_append(prev, own, tracks);
        assert forall|i: int| 0 <= i < (prev + own).len() implies route_valid(#[trigger] (prev + own)[i], tracks) by {
            if i < prev.len() {
                assert((prev + own)[i] == prev[i]);
            } else {
                assert((prev + own)[i] == own[i - prev.len()]);
            }
        }
    }
}

/// Repairing valid routes appended to routes that repair to themselves leaves
/// the whole unchanged.
proof fn lemma_sanitize_valid_append(prev: Seq<NodeRouteLink>, extra: Seq<NodeRouteLink>, tracks: Seq<Track>)
    requires
        sanitized_routes(prev, tracks) == prev,
        forall|i: int| 0 <= i < extra.len() ==> route_valid(#[trigger] extra[i], tracks),
    ensures
        sanitized_routes(prev + extra, tracks) == prev + extra,
    decreases extra.len(),
{
    if extra.len() > 0 {
        let shorter = extra.drop_last();
        lemma_sanitize_valid_append(prev, shorter, tracks);
        assert((prev + extra).drop_last() == prev + shorter);
        assert((prev + extra).last() == extra.last());
        assert(route_valid(extra.last(), tracks));
        assert(prev + shorter.push(extra.last()) == prev + extra);
    } else {
        assert(prev + extra == prev);
    }
}

/// The ids of all clips of `tracks`.
pub open spec fn clip_ids(tracks: Seq<Track>) -> Set<usize> {
    Set::new(|id: usize| exists|t: int, c: int| 0 <= t < tracks.len() && 0 <= c < tracks[t].clips@.len()
        && #[trigger] tracks[t].clips@[c].id == id)
}

impl DawApp {
    /// The default routing: each track feeds each of its effects, or itself
    /// when it has none.
    pub fn default_node_routes(tracks: &[Track]) -> (routes: Vec<NodeRouteLink>)
        ensures
            routes@ == default_routes(tracks@, tracks@.len() as int),
    {
        let mut routes: Vec<NodeRouteLink> = Vec::new();
        let mut t: usize = 0;
        while t < tracks.len()
            invariant
                t <= tracks@.len(),
                routes@ == default_routes(tracks@, t as int),
            decreases tracks@.len() - t,
        {
            let fx_count = tracks[t].effect_paths.len();
            let ghost before = routes@;
            if fx_count == 0 {
                routes.push(NodeRouteLink {
                    from_track: t,
                    source_output_pair: 0,
                    to_track: t,
                    to_fx: None,
                    kind: NodeRouteKind::AudioSend,
                    enabled: true,
                });
                assert(routes@ == before + track_default_routes(t, 0));
            } else {
                let mut fx: usize = 0;
                while fx < fx_count
                    invariant
                        fx <= fx_count,
                        fx_count > 0,
                        routes@ == before + Seq::new(fx as nat, |k: int| own_route(t, Some(k as usize))),
                    decreases fx_count - fx,
                {
                    routes.push(NodeRouteLink {
                        from_track: t,
                        source_output_pair: 0,
                        to_track: t,
                        to_fx: Some(fx),
                        kind: NodeRouteKind::AudioSend,
                        enabled: true,
                    });
                    assert(Seq::new((fx + 1) as nat, |k: int| own_route(t, Some(k as usize)))
                        == Seq::new(fx as nat, |k: int| own_route(t, Some(k as usize))).push(own_route(t, Some(fx))));
                    fx = fx + 1;
                }
            }
            t = t + 1;
        }
        routes
    }

    /// Repairs routes against `tracks` (see `sanitized_route`); with no
    /// tracks, no route survives.
    pub fn sanitize_node_routes(routes: Vec<NodeRouteLink>, tracks: &[Track]) -> (r: Vec<NodeRouteLink>)
        ensures
            r@ == if tracks@.len() == 0 {
                Seq::empty()
            } else {
                sanitized_routes(routes@, tracks@)
            },
    {
        let mut out: Vec<NodeRouteLink> = Vec::new();
        if tracks.len() == 0 {
            return out;
        }
        let mut i: usize = 0;
        while i < routes.len()
            invariant
                i <= routes@.len(),
                tracks@.len() > 0,
                out@ == sanitized_routes(routes@.take(i as int), tracks@),
            decreases routes@.len() - i,
        {
            let route = routes[i];
            assert(routes@.take(i + 1).drop_last() == routes@.take(i as int));
            if route.from_track < tracks.len() && route.to_track < tracks.len() {
                let mut fixed = route;
                fixed.source_output_pair = if route.source_output_pair <= MAX_OUTPUT_PAIR {
                    route.source_output_pair
                } else {
                    MAX_OUTPUT_PAIR
                };
                if let Some(fx) = route.to_fx {
                    if fx >= tracks[route.to_track].effect_paths.len() {
                        fixed.to_fx = None;
                    }
                }
                out.push(fixed);
            }
            i = i + 1;
        }
        assert(routes@.take(routes@.len() as int) == routes@);
        out
    }

    /// Keeps the performance settings of clips that exist in `tracks` and
    /// drops the rest.
    pub fn sanitize_performance_clip_settings(
        settings: HashMap<usize, PerformanceClipSettings>,
        tracks: &[Track],
    ) -> (r: HashMap<usize, PerformanceClipSettings>)
        ensures
            r@ == settings@.restrict(clip_ids(tracks@)),
    {
        let mut out: HashMap<usize, PerformanceClipSettings> = HashMap::new();
        let ghost mut seen: Set<usize> = Set::empty();
        let mut t: usize = 0;
        while t < tracks.len()
            invariant
                t <= tracks@.len(),
                out@ == settings@.restrict(seen),
                forall|id: usize| seen.contains(id) <==> exists|t2: int, c: int| 0 <= t2 < t
                    && 0 <= c < tracks@[t2].clips@.len() && #[trigger] tracks@[t2].clips@[c].id == id,
            decreases tracks@.len() - t,
        {
            let mut c: usize = 0;
            while c < tracks[t].clips.len()
                invariant
                    t < tracks@.len(),
                    c <= tracks@[t as int].clips@.len(),
                    out@ == settings@.restrict(seen),
                    forall|id: usize| seen.contains(id) <==> (exists|t2: int, c2: int| 0 <= t2 < t
                        && 0 <= c2 < tracks@[t2].clips@.len() && #[trigger] tracks@[t2].clips@[c2].id == id)
                        || (exists|c2: int| 0 <= c2 < c && #[trigger] tracks@[t as int].clips@[c2].id == id),
                decreases tracks@[t as int].clips@.len() - c,
            {
                let id = tracks[t].clips[c].id;
                match settings.get(&id) {
                    Some(s) => {
                        out.insert(id, *s);
                    },
                    None => {},
                }
                proof {
                    seen = seen.insert(id);
                    assert(out@ =~= settings@.restrict(seen));
                    assert(tracks@[t as int].clips@[c as int].id == id);
                }
                c = c + 1;
            }
            proof {
                assert forall|id: usize| seen.contains(id) <==> exists|t2: int, c2: int| 0 <= t2 < t + 1
                    && 0 <= c2 < tracks@[t2].clips@.len() && #[trigger] tracks@[t2].clips@[c2].id == id by {
                    if seen.contains(id) {
                        if exists|c2: int| 0 <= c2 < tracks@[t as int].clips@.len() && #[trigger] tracks@[t as int].clips@[c2].id == id {
                            let c2 = choose|c2: int| 0 <= c2 < tracks@[t as int].clips@.len() && #[trigger] tracks@[t as int].clips@[c2].id == id;
                            assert(tracks@[t as int].clips@[c2].id == id);
                        }
                    }
                }
            }
            t = t + 1;
        }
        assert(seen =~= clip_ids(tracks@));
        out
    }
}

} // verus!
