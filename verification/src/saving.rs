//! Saving a project to a folder: the folders it makes, the tracks written
//! to its manifest, the MIDI files written beside it, and what the editor
//! records once the save is done.
use vstd::prelude::*;
use crate::model::{ClipView, DawApp, PianoRollNote, Track, TrackView, copy_vec, notes_wf, tracks_wf};
use crate::paths::{double_backslash_start, file_name_allowed, has_suffix, is_path_punct, name_from_file_name, path_join};
use crate::project::{registered_recent, sanitized_folder_name};
use crate::render::{native_instruments, two_digits};
use crate::text::{concat, decimal, decimal_string, has_prefix, is_blank, owned, trim, trimmed};

verus! {

/// Whether note `n` touches the span `start..end`.
pub open spec fn note_touches(n: PianoRollNote, start: int, end: int) -> bool {
    n.start + n.length >= start && n.start <= end
}

/// The notes of a clip written to its MIDI file: those that touch the clip,
/// each moved to count from the clip's start (not before 0).
pub open spec fn exported_notes(notes: Seq<PianoRollNote>, start: int, end: int) -> Seq<PianoRollNote>
    decreases notes.len(),
{
    if notes.len() == 0 {
        Seq::empty()
    } else {
        let before = exported_notes(notes.drop_last(), start, end);
        let n = notes.last();
        if note_touches(n, start, end) {
            before.push(
                PianoRollNote {
                    start: if n.start - start > 0 {
                        (n.start - start) as i64
                    } else {
                        0
                    },
                    ..n
                },
            )
        } else {
            before
        }
    }
}

/// The MIDI file name of clip `c` of track `index` (whose name made safe is
/// `safe_track`): "<nn>_<track>_<clip>_clip<id>.mid".
pub open spec fn clip_file_name(index: nat, safe_track: Seq<char>, c: ClipView) -> Seq<char> {
    let safe_clip = sanitized_folder_name(c.name);
    let head = two_digits(index + 1) + "_"@ + safe_track;
    if safe_clip.len() == 0 {
        head + "_clip"@ + decimal(c.id as nat) + ".mid"@
    } else {
        head + "_"@ + safe_clip + "_clip"@ + decimal(c.id as nat) + ".mid"@
    }
}

/// The MIDI files of the first `k` clips of a track: one for each MIDI
/// clip with notes to write.
pub open spec fn clip_exports(index: nat, safe_track: Seq<char>, clips: Seq<ClipView>, k: int) -> Seq<
    (Seq<char>, Seq<PianoRollNote>),
>
    decreases k,
{
    if k <= 0 {
        Seq::empty()
    } else {
        let before = clip_exports(index, safe_track, clips, k - 1);
        let c = clips[k - 1];
        let notes = exported_notes(c.midi_notes, c.start as int, c.start + c.length);
        if c.is_midi && notes.len() > 0 {
            before.push((clip_file_name(index, safe_track, c), notes))
        } else {
            before
        }
    }
}

/// The MIDI files of track `index`: one per MIDI clip with notes; when there
/// is none, the track's own notes as "<nn>_<track>.mid", if it has any.
pub open spec fn track_exports(index: nat, t: TrackView) -> Seq<(Seq<char>, Seq<PianoRollNote>)> {
    let safe = sanitized_folder_name(t.name);
    let from_clips = clip_exports(index, safe, t.clips, t.clips.len() as int);
    if from_clips.len() == 0 && t.midi_notes.len() > 0 {
        seq![(two_digits(index + 1) + "_"@ + safe + ".mid"@, t.midi_notes)]
    } else {
        from_clips
    }
}

/// The MIDI files of the first `k` tracks, track by track.
pub open spec fn midi_exports(tracks: Seq<TrackView>, k: int) -> Seq<(Seq<char>, Seq<PianoRollNote>)>
    decreases k,
{
    if k <= 0 {
        Seq::empty()
    } else {
        midi_exports(tracks, k - 1) + track_exports((k - 1) as nat, tracks[k - 1])
    }
}

/// The values of a list of MIDI files.
pub open spec fn files_view(files: Seq<(String, Vec<PianoRollNote>)>) -> Seq<(Seq<char>, Seq<PianoRollNote>)> {
    files.map_values(|f: (String, Vec<PianoRollNote>)| (f.0@, f.1@))
}

/// The name a project's default folder is made from: its trimmed name, or
/// "LingStationProject" when it has none.
pub open spec fn default_project_name(name: Seq<char>) -> Seq<char> {
    if trimmed(name).len() == 0 {
        "LingStationProject"@
    } else {
        trimmed(name)
    }
}

/// What saving the project to a folder writes.
pub struct SavePlan {
    /// The folder saved to, without a verbatim prefix.
    pub folder: String,
    /// The folders made inside it, each as its path components.
    pub subfolders: Vec<Vec<String>>,
    /// The folder the project was saved in before, if any; its assets are
    /// copied along.
    pub previous_folder: Option<String>,
    /// The tracks as the manifest holds them.
    pub tracks: Vec<Track>,
    /// The MIDI files written to the "midi" folder: names and notes.
    pub midi_files: Vec<(String, Vec<PianoRollNote>)>,
}

/// The folders made inside a saved project: "midi", "assets/samples",
/// "audio" and "renders".
pub open spec fn project_subfolders() -> Seq<Seq<Seq<char>>> {
    seq![seq!["midi"@], seq!["assets"@, "samples"@], seq!["audio"@], seq!["renders"@]]
}

impl DawApp {
    /// The notes of a clip spanning `start..end` written to its MIDI file
    /// (see `exported_notes`).
    fn clip_notes_for_export(notes: &Vec<PianoRollNote>, start: i64, end: i64) -> (r: Vec<PianoRollNote>)
        requires
            notes_wf(notes@),
            crate::model::time_ok(start),
        ensures
            r@ == exported_notes(notes@, start as int, end as int),
    {
        let mut out: Vec<PianoRollNote> = Vec::new();
        let mut i: usize = 0;
        while i < notes.len()
            invariant
                i <= notes@.len(),
                notes_wf(notes@),
                crate::model::time_ok(start),
                out@ == exported_notes(notes@.take(i as int), start as int, end as int),
            decreases notes@.len() - i,
        {
            assert(notes@.take(i + 1).drop_last() == notes@.take(i as int));
            assert(notes@[i as int].wf());
            let n = notes[i];
            if n.start + n.length >= start && n.start <= end {
                let moved = n.start - start;
                out.push(PianoRollNote { start: if moved > 0 { moved } else { 0 }, ..n });
            }
            i = i + 1;
        }
        assert(notes@.take(notes@.len() as int) == notes@);
        out
    }

    /// The MIDI files of track `index` (see `track_exports`).
    fn track_midi_files(index: usize, track: &Track) -> (r: Vec<(String, Vec<PianoRollNote>)>)
        requires
            track.wf(),
            index < usize::MAX,
        ensures
            files_view(r@) == track_exports(index as nat, track@),
    {
        let safe = Self::sanitize_folder_name(track.name.as_str());
        let number = crate::render::two_digit_text((index + 1) as u64);
        let a = concat(number.as_str(), "_");
        let head = concat(a.as_str(), safe.as_str());
        let ghost clips = track@.clips;
        let mut files: Vec<(String, Vec<PianoRollNote>)> = Vec::new();
        let mut c: usize = 0;
        while c < track.clips.len()
            invariant
                c <= clips.len(),
                clips == track@.clips,
                track.wf(),
                index < usize::MAX,
                head@ == two_digits((index + 1) as nat) + "_"@ + sanitized_folder_name(track@.name),
                files_view(files@) == clip_exports(index as nat, sanitized_folder_name(track@.name), clips, c as int),
            decreases clips.len() - c,
        {
            let clip = &track.clips[c];
            assert(clips[c as int] == clip@);
            assert(clip@.wf());
            if clip.is_midi {
                let notes = Self::clip_notes_for_export(&clip.midi_notes, clip.start, clip.start + clip.length);
                if notes.len() > 0 {
                    let safe_clip = Self::sanitize_folder_name(clip.name.as_str());
                    let id = decimal_string(clip.id as u64);
                    let name = if crate::text::is_empty_text(safe_clip.as_str()) {
                        let b = concat(head.as_str(), "_clip");
                        let d = concat(b.as_str(), id.as_str());
                        concat(d.as_str(), ".mid")
                    } else {
                        let b = concat(head.as_str(), "_");
                        let d = concat(b.as_str(), safe_clip.as_str());
                        let e = concat(d.as_str(), "_clip");
                        let f = concat(e.as_str(), id.as_str());
                        concat(f.as_str(), ".mid")
                    };
                    let ghost before = files_view(files@);
                    let ghost entry = (name@, notes@);
                    files.push((name, notes));
                    assert(files_view(files@) =~= before.push(entry));
                }
            }
            c = c + 1;
        }
        if files.len() == 0 && track.midi_notes.len() > 0 {
            let name = concat(head.as_str(), ".mid");
            files.push((name, copy_vec(&track.midi_notes)));
            assert(files_view(files@) =~= seq![(two_digits((index + 1) as nat) + "_"@ + sanitized_folder_name(track@.name)
                + ".mid"@, track@.midi_notes)]);
        }
        files
    }

    /// The MIDI files saved with the project (see `midi_exports`).
    pub fn midi_export_files(&self) -> (r: Vec<(String, Vec<PianoRollNote>)>)
        requires
            self.wf(),
        ensures
            files_view(r@) == midi_exports(self.tracks.deep_view(), self.tracks@.len() as int),
    {
        let ghost tv = self.tracks.deep_view();
        let mut files: Vec<(String, Vec<PianoRollNote>)> = Vec::new();
        let mut t: usize = 0;
        let n = self.tracks.len();
        while t < n
            invariant
                t <= n == self.tracks@.len() == tv.len(),
                tv == self.tracks.deep_view(),
                tracks_wf(self.tracks@),
                files_view(files@) == midi_exports(tv, t as int),
            decreases n - t,
        {
            assert(tv[t as int] == self.tracks@[t as int]@);
            assert(self.tracks@[t as int].wf());
            let mut more = Self::track_midi_files(t, &self.tracks[t]);
            let ghost before = files_view(files@);
            let ghost added = files_view(more@);
            files.append(&mut more);
            assert(files_view(files@) =~= before + added);
            t = t + 1;
        }
        files
    }

    /// The tracks as the manifest of a saved project holds them: every
    /// built-in synth or drum machine named as its track's instrument (see
    /// `native_instruments`).
    pub fn tracks_for_save(&self) -> (r: Vec<Track>)
        ensures
            r.deep_view() == native_instruments(self.tracks.deep_view()),
    {
        let ghost tv = self.tracks.deep_view();
        let mut out: Vec<Track> = Vec::new();
        let mut i: usize = 0;
        while i < self.tracks.len()
            invariant
                i <= self.tracks@.len() == tv.len(),
                tv == self.tracks.deep_view(),
                out.deep_view() == native_instruments(tv).take(i as int),
            decreases self.tracks@.len() - i,
        {
            let mut t = self.tracks[i].copied();
            assert(t@ == tv[i as int]);
            if t.treesynth.is_some() {
                t.instrument_path = Some(owned("native:treesynth"));
            }
            if t.drum_machine.is_some() {
                t.instrument_path = Some(owned("native:drummachine"));
            }
            assert(t@ =~= native_instruments(tv)[i as int]);
            let ghost before = out.deep_view();
            let ghost tview = t@;
            out.push(t);
            assert(out.deep_view() =~= before.push(tview));
            assert(native_instruments(tv).take(i + 1) =~= native_instruments(tv).take(i as int).push(native_instruments(tv)[i as int]));
            i = i + 1;
        }
        assert(native_instruments(tv).take(tv.len() as int) =~= native_instruments(tv));
        out
    }

    /// What saving the project to `folder` writes (see `SavePlan`): the
    /// folder without a verbatim prefix, its sub-folders, the folder saved
    /// in before (the trimmed project path, when there is one), the tracks
    /// for the manifest and the MIDI files.
    pub fn save_project_to_folder(&self, folder: &str) -> (r: SavePlan)
        requires
            self.wf(),
        ensures
            r.folder@ == crate::project::normalized_path(folder@),
            r.subfolders.deep_view() == project_subfolders(),
            r.previous_folder.deep_view() == if trimmed(self.project_path@).len() == 0 {
                None
            } else {
                Some(trimmed(self.project_path@))
            },
            r.tracks.deep_view() == native_instruments(self.tracks.deep_view()),
            files_view(r.midi_files@) == midi_exports(self.tracks.deep_view(), self.tracks@.len() as int),
    {
        let previous_folder = if is_blank(self.project_path.as_str()) {
            None
        } else {
            Some(trim(self.project_path.as_str()))
        };
        let midi = vec![owned("midi")];
        let samples = vec![owned("assets"), owned("samples")];
        let audio = vec![owned("audio")];
        let renders = vec![owned("renders")];
        assert(midi.deep_view() =~= seq!["midi"@]);
        assert(samples.deep_view() =~= seq!["assets"@, "samples"@]);
        assert(audio.deep_view() =~= seq!["audio"@]);
        assert(renders.deep_view() =~= seq!["renders"@]);
        let subfolders: Vec<Vec<String>> = vec![midi, samples, audio, renders];
        assert(subfolders.deep_view() =~= project_subfolders());
        SavePlan {
            folder: Self::normalize_windows_path(folder),
            subfolders,
            previous_folder,
            tracks: self.tracks_for_save(),
            midi_files: self.midi_export_files(),
        }
    }

    /// Records a finished save to `folder` (without a verbatim prefix): it
    /// becomes the project's folder and the front of the recent projects, a
    /// project without name takes the folder's, the project is no longer
    /// dirty, and the status says where it was saved.
    pub fn finish_project_save(&mut self, folder: &str)
        ensures
            final(self).project_path@ == folder@,
            final(self).settings.recent_projects.deep_view() == registered_recent(
                old(self).settings.recent_projects.deep_view(),
                folder@,
            ),
            trimmed(old(self).project_name@).len() > 0 ==> final(self).project_name@ == old(self).project_name@,
            trimmed(old(self).project_name@).len() == 0 ==> exists|n: Option<Seq<char>>| file_name_allowed(folder@, n)
                && final(self).project_name@ == match name_from_file_name(n) {
                Some(name) => name,
                None => old(self).project_name@,
            },
            !final(self).dirty,
            final(self).status@ == "Saved "@ + folder@,
            final(self).tracks@ == old(self).tracks@,
    {
        self.project_path = owned(folder);
        if is_blank(self.project_name.as_str()) {
            if let Some(name) = self.project_name_from_path() {
                self.project_name = name;
            }
        }
        self.register_recent_project_path(folder);
        self.dirty = false;
        self.status = concat("Saved ", self.project_path.as_str());
    }

    /// The folder a new project is saved to by default: beside the program
    /// (`exe_dir`), named after the project (made safe for files; the
    /// default name when it has none). Nothing without the program's folder.
    pub fn default_project_dir(&self, exe_dir: Option<String>) -> (r: Option<String>)
        ensures
            exe_dir is None ==> r is None,
            exe_dir is Some ==> r is Some,
            exe_dir matches Some(d) ==> (!double_backslash_start(d@) ==> (r matches Some(p) && has_prefix(p@, d@)
                && has_suffix(p@, sanitized_folder_name(default_project_name(self.project_name@))))),
    {
        let base = match exe_dir {
            Some(d) => d,
            None => {
                return None;
            },
        };
        let name = if is_blank(self.project_name.as_str()) {
            owned("LingStationProject")
        } else {
            trim(self.project_name.as_str())
        };
        let folder = Self::sanitize_folder_name(name.as_str());
        proof {
            crate::project::law_sanitized_folder_name(name@);
            assert forall|i: int| 0 <= i < folder@.len() implies !is_path_punct(#[trigger] folder@[i]) by {
                assert(!crate::project::is_reserved(folder@[i]));
            }
        }
        Some(path_join(base.as_str(), folder.as_str()))
    }
}

/// Every note written for a clip starting at `start` and `length` long
/// begins within the clip: its exported start lies between 0 and the clip's
/// length, so a note starting after the clip's end is never written; every
/// written note keeps its length and pitch.
pub proof fn law_exported_notes_within_clip(notes: Seq<PianoRollNote>, start: i64, length: i64)
    requires
        length >= 0,
    ensures
        forall|i: int| 0 <= i < exported_notes(notes, start as int, start + length).len() ==> {
            &&& 0 <= #[trigger] exported_notes(notes, start as int, start + length)[i].start <= length
        },
        exported_notes(notes, start as int, start + length).len() <= notes.len(),
    decreases notes.len(),
{
    if notes.len() > 0 {
        law_exported_notes_within_clip(notes.drop_last(), start, length);
        let before = exported_notes(notes.drop_last(), start as int, start + length);
        let r = exported_notes(notes, start as int, start + length);
        assert forall|i: int| 0 <= i < r.len() implies 0 <= #[trigger] r[i].start <= length by {
            if i < before.len() {
                assert(r[i] == before[i]);
            }
        }
    }
}

/// The notes written for a clip spanning `start..start + length` are
/// exactly the clip's notes that sound within it (ending at or after its
/// start, starting at or before its end), in their order, each with its
/// pitch, velocity and length kept and its start counted from the clip's
/// start (a note begun before the clip starts at 0).
pub proof fn law_exported_notes_are_sounding_notes(notes: Seq<PianoRollNote>, start: i64, length: i64)
    requires
        length >= 0,
    ensures
        forall|i: int| 0 <= i < exported_notes(notes, start as int, start + length).len() ==> exists|j: int| {
            &&& 0 <= j < notes.len()
            &&& notes[j].start + notes[j].length >= start
            &&& notes[j].start <= start + length
            &&& #[trigger] exported_notes(notes, start as int, start + length)[i] == PianoRollNote {
                start: if notes[j].start - start > 0 { (notes[j].start - start) as i64 } else { 0 },
                ..notes[j]
            }
        },
        forall|j: int| 0 <= j < notes.len() && #[trigger] notes[j].start + notes[j].length >= start && notes[j].start
            <= start + length ==> exported_notes(notes, start as int, start + length).contains(PianoRollNote {
            start: if notes[j].start - start > 0 { (notes[j].start - start) as i64 } else { 0 },
            ..notes[j]
        }),
    decreases notes.len(),
{
    if notes.len() > 0 {
        let prev = notes.drop_last();
        law_exported_notes_are_sounding_notes(prev, start, length);
        let before = exported_notes(prev, start as int, start + length);
        let r = exported_notes(notes, start as int, start + length);
        assert forall|i: int| 0 <= i < r.len() implies exists|j: int| {
            &&& 0 <= j < notes.len()
            &&& notes[j].start + notes[j].length >= start
            &&& notes[j].start <= start + length
            &&& #[trigger] r[i] == PianoRollNote {
                start: if notes[j].start - start > 0 { (notes[j].start - start) as i64 } else { 0 },
                ..notes[j]
            }
        } by {
            if i < before.len() {
                assert(r[i] == before[i]);
                let j = choose|j: int| {
                    &&& 0 <= j < prev.len()
                    &&& prev[j].start + prev[j].length >= start
                    &&& prev[j].start <= start + length
                    &&& #[trigger] before[i] == PianoRollNote {
                        start: if prev[j].start - start > 0 { (prev[j].start - start) as i64 } else { 0 },
                        ..prev[j]
                    }
                };
                assert(notes[j] == prev[j]);
            } else {
                let j = notes.len() - 1;
                assert(notes[j] == notes.last());
            }
        }
        assert forall|j: int| 0 <= j < notes.len() && #[trigger] notes[j].start + notes[j].length >= start && notes[j].start
            <= start + length implies r.contains(PianoRollNote {
            start: if notes[j].start - start > 0 { (notes[j].start - start) as i64 } else { 0 },
            ..notes[j]
        }) by {
            let e = PianoRollNote {
                start: if notes[j].start - start > 0 { (notes[j].start - start) as i64 } else { 0 },
                ..notes[j]
            };
            if j < prev.len() {
                assert(prev[j] == notes[j]);
                assert(prev[j].start + prev[j].length >= start);
                assert(before.contains(e));
                let k = choose|k: int| 0 <= k < before.len() && before[k] == e;
                assert(r[k] == e);
            } else {
                assert(r[r.len() - 1] == e);
            }
        }
    }
}
} // verus!
