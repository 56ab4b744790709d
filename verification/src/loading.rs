//! Opening a saved project or a template: what the editor takes from the
//! manifest, how routes, clip settings and built-in instruments are
//! repaired, and what it records once the project is open.
use std::collections::HashMap;
use vstd::prelude::*;
use crate::model::{DawApp, NodeRouteLink, PerformanceClipSettings, Track, TrackView, TreeSynthView};
use crate::paths::{file_name_allowed, name_from_file_name, path_file_name, path_parent};
use crate::project::{normalized_path, registered_recent, resolved_path};
use crate::routes::{clip_ids, default_routes, sanitized_routes};
use crate::text::{concat, decimal, decimal_string, eq_ignore_case, has_prefix, is_blank, owned, replace_char, replace_chars, trimmed};

verus! {

broadcast use vstd::std_specs::hash::group_hash_axioms;

/// What a project's manifest holds that the editor keeps.
pub struct LoadedProject {
    pub name: String,
    pub artist: String,
    pub title: String,
    pub album: String,
    pub genre: String,
    pub year: String,
    pub comment: String,
    pub tracks: Vec<Track>,
    pub node_routes: Vec<NodeRouteLink>,
    pub performance_clip_settings: HashMap<usize, PerformanceClipSettings>,
}

/// The instrument of a track with a built-in instrument (`native`) named as
/// that instrument, unless it already is (in any ASCII case).
pub open spec fn native_named(path: Option<Seq<char>>, has_native: bool, native: Seq<char>) -> Option<Seq<char>> {
    if has_native && !(path matches Some(p) && eq_ignore_case(p, native)) {
        Some(native)
    } else {
        path
    }
}

/// The sample paths of a built-in sampler resolved against `root`.
pub open spec fn treesynth_resolved(before: Option<TreeSynthView>, after: Option<TreeSynthView>, root: Seq<char>) -> bool {
    match before {
        None => after is None,
        Some(b) => after matches Some(a) && {
            &&& b.folder is None ==> a.folder is None
            &&& b.folder matches Some(f) ==> (a.folder matches Some(g) && resolved_path(root, f, g))
            &&& a.sample_paths.len() == b.sample_paths.len()
            &&& forall|i: int| 0 <= i < b.sample_paths.len() ==> resolved_path(root, #[trigger] b.sample_paths[i], a.sample_paths[i])
        },
    }
}

/// The pad samples of a drum machine resolved against `root`.
pub open spec fn drums_resolved(before: Option<Seq<Option<Seq<char>>>>, after: Option<Seq<Option<Seq<char>>>>, root: Seq<char>) -> bool {
    match before {
        None => after is None,
        Some(b) => after matches Some(a) && a.len() == b.len() && forall|i: int| 0 <= i < b.len() ==> match #[trigger] b[i] {
            None => a[i] is None,
            Some(p) => a[i] matches Some(q) && resolved_path(root, p, q),
        },
    }
}

/// Track `after` is track `before` as opened from the project folder `root`:
/// a built-in sampler or drum machine is named as the track's instrument and
/// its samples are found under the project folder; nothing else changes.
pub open spec fn opened_track(before: TrackView, after: TrackView, root: Seq<char>) -> bool {
    &&& after.instrument_path == native_named(
        native_named(before.instrument_path, before.treesynth is Some, "native:treesynth"@),
        before.drum_machine is Some,
        "native:drummachine"@,
    )
    &&& treesynth_resolved(before.treesynth, after.treesynth, root)
    &&& drums_resolved(before.drum_machine, after.drum_machine, root)
    &&& after == TrackView { instrument_path: after.instrument_path, treesynth: after.treesynth, drum_machine: after.drum_machine, ..before }
}

/// The routes a project opens with: its routes repaired against its tracks,
/// or the default routing when none survive.
pub open spec fn opened_routes(routes: Seq<NodeRouteLink>, tracks: Seq<Track>) -> Seq<NodeRouteLink> {
    let kept = if tracks.len() == 0 {
        Seq::empty()
    } else {
        sanitized_routes(routes, tracks)
    };
    if kept.len() == 0 {
        default_routes(tracks, tracks.len() as int)
    } else {
        kept
    }
}

impl DawApp {
    /// Takes in a project's manifest (see `opened_routes`): its metadata,
    /// tracks, repaired routes and the clip settings of clips it has; no clip
    /// is selected.
    fn take_manifest(&mut self, project: LoadedProject)
        ensures
            final(self).project_name@ == project.name@,
            final(self).metadata_artist@ == project.artist@,
            final(self).metadata_title@ == project.title@,
            final(self).metadata_album@ == project.album@,
            final(self).metadata_genre@ == project.genre@,
            final(self).metadata_year@ == project.year@,
            final(self).metadata_comment@ == project.comment@,
            final(self).tracks@ == project.tracks@,
            final(self).node_routes@ == opened_routes(project.node_routes@, project.tracks@),
            final(self).performance_clip_settings@ == project.performance_clip_settings@.restrict(clip_ids(project.tracks@)),
            final(self).performance_selected_clip.is_none(),
            final(self).selected_clip.is_none(),
            final(self).project_path@ == old(self).project_path@,
            final(self).settings.recent_projects.deep_view() == old(self).settings.recent_projects.deep_view(),
    {
        self.project_name = project.name;
        self.metadata_artist = project.artist;
        self.metadata_title = project.title;
        self.metadata_album = project.album;
        self.metadata_genre = project.genre;
        self.metadata_year = project.year;
        self.metadata_comment = project.comment;
        self.tracks = project.tracks;
        self.node_routes = Self::sanitize_node_routes(project.node_routes, self.tracks.as_slice());
        self.performance_clip_settings = Self::sanitize_performance_clip_settings(
            project.performance_clip_settings,
            self.tracks.as_slice(),
        );
        self.performance_selected_clip = None;
        if self.node_routes.len() == 0 {
            self.node_routes = Self::default_node_routes(self.tracks.as_slice());
        }
        self.selected_clip = None;
    }

    /// Opens track `i` from the project folder `root` (see `opened_track`).
    fn open_track(track: &mut Track, root: &str)
        ensures
            opened_track(old(track)@, final(track)@, root@),
            final(track).wf() == old(track).wf(),
    {
        let ghost before = track@;
        if track.treesynth.is_some() {
            let named = match &track.instrument_path {
                Some(p) => Self::is_treesynth_path(p.as_str()),
                None => false,
            };
            if !named {
                track.instrument_path = Some(owned("native:treesynth"));
            }
        }
        let ghost mid = track@;
        assert(mid.instrument_path == native_named(before.instrument_path, before.treesynth is Some, "native:treesynth"@));
        if track.drum_machine.is_some() {
            let named = match &track.instrument_path {
                Some(p) => Self::is_drummachine_path(p.as_str()),
                None => false,
            };
            if !named {
                track.instrument_path = Some(owned("native:drummachine"));
            }
        }
        let ghost named_view = track@;
        match &mut track.treesynth {
            Some(state) => {
                Self::resolve_treesynth_paths_from_project_root(state, root);
            },
            None => {},
        }
        proof {
            assert(treesynth_resolved(before.treesynth, track@.treesynth, root@)) by {
                match before.treesynth {
                    None => {},
                    Some(b) => {
                        let a = track@.treesynth->0;
                        assert forall|i: int| 0 <= i < b.sample_paths.len() implies resolved_path(
                            root@,
                            #[trigger] b.sample_paths[i],
                            a.sample_paths[i],
                        ) by {
                            assert(b.sample_paths[i] == old(track).treesynth->0.sample_paths@[i]@);
                            assert(a.sample_paths[i] == track.treesynth->0.sample_paths@[i]@);
                        }
                    },
                }
            }
        }
        let ghost ts_view = track@;
        match &mut track.drum_machine {
            Some(state) => {
                Self::resolve_drummachine_paths_from_project_root(state, root);
            },
            None => {},
        }
        proof {
            assert(drums_resolved(before.drum_machine, track@.drum_machine, root@)) by {
                match before.drum_machine {
                    None => {},
                    Some(b) => {
                        let a = track@.drum_machine->0;
                        assert forall|i: int| 0 <= i < b.len() implies match #[trigger] b[i] {
                            None => a[i] is None,
                            Some(p) => a[i] matches Some(q) && resolved_path(root@, p, q),
                        } by {
                            assert(b[i] == old(track).drum_machine->0.pad_paths@[i].deep_view());
                            assert(a[i] == track.drum_machine->0.pad_paths@[i].deep_view());
                        }
                    },
                }
            }
            assert(track@ =~= TrackView {
                instrument_path: track@.instrument_path,
                treesynth: track@.treesynth,
                drum_machine: track@.drum_machine,
                ..before
            });
        }
    }

    /// Opens a project from its manifest (`project`), read from `folder`:
    /// the manifest is taken in (see `take_manifest`), every track's
    /// built-in instruments are set up against the project folder (see
    /// `opened_track`), and the folder becomes the project's.
    pub fn load_project_from_folder(&mut self, project: LoadedProject, folder: &str)
        ensures
            final(self).project_name@ == project.name@,
            final(self).metadata_artist@ == project.artist@,
            final(self).metadata_title@ == project.title@,
            final(self).tracks@.len() == project.tracks@.len(),
            forall|i: int| 0 <= i < project.tracks@.len() ==> opened_track(
                #[trigger] project.tracks@[i]@,
                final(self).tracks@[i]@,
                normalized_path(folder@),
            ),
            final(self).node_routes@ == opened_routes(project.node_routes@, project.tracks@),
            final(self).performance_clip_settings@ == project.performance_clip_settings@.restrict(clip_ids(project.tracks@)),
            final(self).performance_selected_clip.is_none(),
            final(self).selected_clip.is_none(),
            final(self).project_path@ == folder@,
            tracks_wf_of(project.tracks@) ==> final(self).wf(),
    {
        let ghost original = project.tracks@;
        let root = Self::normalize_windows_path(folder);
        self.take_manifest(project);
        let ghost name = self.project_name@;
        let ghost artist = self.metadata_artist@;
        let ghost title = self.metadata_title@;
        let ghost routes = self.node_routes@;
        let ghost clip_settings = self.performance_clip_settings@;
        let mut i: usize = 0;
        while i < self.tracks.len()
            invariant
                i <= self.tracks@.len() == original.len(),
                self.project_name@ == name,
                self.metadata_artist@ == artist,
                self.metadata_title@ == title,
                self.node_routes@ == routes,
                self.performance_clip_settings@ == clip_settings,
                self.performance_selected_clip.is_none(),
                self.selected_clip.is_none(),
                forall|k: int| 0 <= k < i ==> opened_track(#[trigger] original[k]@, self.tracks@[k]@, root@),
                forall|k: int| i <= k < original.len() ==> #[trigger] self.tracks@[k] == original[k],
                forall|k: int| 0 <= k < original.len() ==> (#[trigger] self.tracks@[k]).wf() == original[k].wf(),
            decreases original.len() - i,
        {
            let ghost before = self.tracks@;
            Self::open_track(&mut self.tracks[i], root.as_str());
            assert forall|k: int| 0 <= k < original.len() && k != i implies self.tracks@[k] == before[k] by {}
            i = i + 1;
        }
        self.project_path = owned(folder);
        proof {
            if tracks_wf_of(original) {
                assert forall|k: int| 0 <= k < self.tracks@.len() implies #[trigger] self.tracks@[k].wf() by {
                    assert(original[k].wf());
                }
            }
        }
    }

    /// Records an opened project, read from `folder`: the first track is
    /// selected, a project without name takes the folder's, the folder goes
    /// to the front of the recent projects, and the status says it was
    /// loaded, with the missing plug-in references that were cleared (the
    /// project is then dirty).
    #[verifier::rlimit(30)]
    pub fn finish_project_load(&mut self, folder: &str, missing_instruments: usize, missing_effects: usize)
        ensures
            final(self).selected_track == if old(self).tracks@.len() == 0 {
                None
            } else {
                Some(0usize)
            },
            trimmed(old(self).project_name@).len() > 0 ==> final(self).project_name@ == old(self).project_name@,
            trimmed(old(self).project_name@).len() == 0 ==> exists|n: Option<Seq<char>>| file_name_allowed(
                old(self).project_path@,
                n,
            ) && final(self).project_name@ == match name_from_file_name(n) {
                Some(name) => name,
                None => old(self).project_name@,
            },
            final(self).settings.recent_projects.deep_view() == registered_recent(
                old(self).settings.recent_projects.deep_view(),
                folder@,
            ),
            missing_instruments == 0 && missing_effects == 0 ==> !final(self).dirty && final(self).status@ == "Loaded "@
                + old(self).project_path@,
            !(missing_instruments == 0 && missing_effects == 0) ==> final(self).dirty && final(self).status@
                == "Loaded "@ + old(self).project_path@ + " | cleared "@ + decimal(missing_instruments as nat)
                + " missing instrument(s), "@ + decimal(missing_effects as nat) + " missing effect(s)"@,
            final(self).tracks@ == old(self).tracks@,
            final(self).project_path@ == old(self).project_path@,
    {
        if is_blank(self.project_name.as_str()) {
            if let Some(name) = self.project_name_from_path() {
                self.project_name = name;
            }
        }
        self.register_recent_project_path(folder);
        if missing_instruments == 0 && missing_effects == 0 {
            self.dirty = false;
            self.status = concat("Loaded ", self.project_path.as_str());
        } else {
            self.dirty = true;
            let a = concat("Loaded ", self.project_path.as_str());
            let b = concat(a.as_str(), " | cleared ");
            let n1 = decimal_string(missing_instruments as u64);
            let c = concat(b.as_str(), n1.as_str());
            let d = concat(c.as_str(), " missing instrument(s), ");
            let n2 = decimal_string(missing_effects as u64);
            let e = concat(d.as_str(), n2.as_str());
            self.status = concat(e.as_str(), " missing effect(s)");
        }
        self.selected_track = if self.tracks.len() == 0 {
            None
        } else {
            Some(0)
        };
    }

    /// The folder of a template given by `path`: the path itself when it is
    /// a folder (`is_dir`), otherwise its parent; refused when it has none.
    pub fn template_folder(path: &str, is_dir: bool) -> (r: Result<String, String>)
        ensures
            is_dir ==> (r matches Ok(f) && f@ == path@),
            !is_dir ==> match r {
                Ok(f) => has_prefix(path@, f@),
                Err(e) => e@ == "Template folder unavailable"@,
            },
            !is_dir && path@.len() == 0 ==> r is Err,
    {
        if is_dir {
            return Ok(owned(path));
        }
        match path_parent(path) {
            Some(p) => Ok(p),
            None => Err(owned("Template folder unavailable")),
        }
    }

    /// Opens a template from `folder`: refused when it has no manifest
    /// (`project` is nothing); otherwise the manifest is taken in (see
    /// `take_manifest`), the project has no folder of its own, the first
    /// track is selected, a template without name is named after its folder
    /// (underscores read as spaces), and it is not dirty.
    pub fn load_template_from_path(&mut self, folder: &str, project: Option<LoadedProject>) -> (r: Result<(), String>)
        ensures
            project is None ==> (r matches Err(e) && e@ == "Template project.json missing"@),
            project matches Some(p) ==> {
                &&& r is Ok
                &&& final(self).tracks@ == p.tracks@
                &&& final(self).node_routes@ == opened_routes(p.node_routes@, p.tracks@)
                &&& final(self).performance_clip_settings@ == p.performance_clip_settings@.restrict(clip_ids(p.tracks@))
                &&& final(self).selected_clip.is_none()
                &&& final(self).project_path@.len() == 0
                &&& final(self).selected_track == if p.tracks@.len() == 0 {
                    None
                } else {
                    Some(0usize)
                }
                &&& trimmed(p.name@).len() > 0 ==> final(self).project_name@ == p.name@
                &&& trimmed(p.name@).len() == 0 ==> exists|n: Option<Seq<char>>| file_name_allowed(folder@, n)
                    && final(self).project_name@ == match n {
                    Some(name) => replace_char(name, '_', ' '),
                    None => p.name@,
                }
                &&& !final(self).dirty
                &&& final(self).status@ == "Template loaded"@
            },
    {
        let project = match project {
            None => {
                return Err(owned("Template project.json missing"));
            },
            Some(p) => p,
        };
        self.take_manifest(project);
        self.project_path = String::new();
        self.selected_track = if self.tracks.len() == 0 {
            None
        } else {
            Some(0)
        };
        if is_blank(self.project_name.as_str()) {
            if let Some(name) = path_file_name(folder) {
                self.project_name = replace_chars(name.as_str(), '_', ' ');
            }
        }
        self.dirty = false;
        self.status = owned("Template loaded");
        Ok(())
    }
}

/// Opening a track as a project saves it (see `native_instruments`) gives
/// back the track as saved: the instrument the manifest names, and every
/// other field but the sample paths of its built-in instruments, which are
/// found under the project folder. A track without a built-in instrument
/// comes back exactly as it was before saving.
pub proof fn law_opening_restores_saved_track(tracks: Seq<TrackView>, i: int, opened: TrackView, root: Seq<char>)
    requires
        0 <= i < tracks.len(),
        opened_track(crate::render::native_instruments(tracks)[i], opened, root),
    ensures
        opened == (TrackView {
            treesynth: opened.treesynth,
            drum_machine: opened.drum_machine,
            ..crate::render::native_instruments(tracks)[i]
        }),
        tracks[i].treesynth is None && tracks[i].drum_machine is None ==> opened == tracks[i],
{
    let saved = crate::render::native_instruments(tracks)[i];
    let ts = "native:treesynth"@;
    let dm = "native:drummachine"@;
    reveal_strlit("native:treesynth");
    reveal_strlit("native:drummachine");
    assert(crate::text::lower_seq(ts).len() != crate::text::lower_seq(dm).len());
    if saved.treesynth is Some {
        if saved.drum_machine is None {
            assert(saved.instrument_path == Some(ts));
            assert(crate::text::lower_seq(ts) == crate::text::lower_seq(ts));
            assert(eq_ignore_case(ts, ts));
        } else {
            assert(saved.instrument_path == Some(dm));
            assert(!eq_ignore_case(dm, ts));
            assert(eq_ignore_case(dm, dm));
        }
    } else if saved.drum_machine is Some {
        assert(saved.instrument_path == Some(dm));
        assert(eq_ignore_case(dm, dm));
    }
    assert(opened.instrument_path == saved.instrument_path);
}

/// Every track of `tracks` is within the timeline bounds.
pub open spec fn tracks_wf_of(tracks: Seq<Track>) -> bool {
    crate::model::tracks_wf(tracks)
}

} // verus!
