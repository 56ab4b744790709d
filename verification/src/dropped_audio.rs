//! Audio files dropped onto a track: the name the copy is stored under in
//! the project's "audio" folder, and the clip that plays it.
use vstd::prelude::*;
use crate::model::{Clip, DawApp, PianoRollNote, time_ok};
use crate::paths::{extension_allowed, file_name_allowed, file_stem_allowed, path_extension, path_file_name, path_file_stem};
use crate::project::sanitized_folder_name;
use crate::recording::{max_int, with_clip_added, MIN_CLIP_TICKS};
use crate::tracks::{clip_ids_below_max, is_next_clip_id};
use crate::text::{concat, decimal, decimal_string, owned};

verus! {

/// Length, in ticks, given to a dropped clip whose audio length is unknown
/// (four beats).
pub const UNKNOWN_AUDIO_TICKS: i64 = 4000;

/// The stored name of a dropped file: "<stem>.<ext>", or "<stem>_<n>.<ext>"
/// for the `n`-th alternative when that name is taken.
pub open spec fn dropped_name(stem: Seq<char>, ext: Seq<char>, counter: u32) -> Seq<char> {
    if counter == 0 {
        stem + "."@ + ext
    } else {
        stem + "_"@ + decimal(counter as nat) + "."@ + ext
    }
}

/// The clip a dropped audio file becomes: named `stem`, at `start` (not
/// before 0) on `track_index`, playing `audio/<file_name>`, as long as the
/// audio (`source_length`; four beats when unknown), at least
/// `MIN_CLIP_TICKS`.
pub open spec fn dropped_clip(
    id: usize,
    track_index: usize,
    start: i64,
    stem: Seq<char>,
    file_name: Seq<char>,
    source_length: Option<i64>,
) -> crate::model::ClipView {
    let length = max_int(
        match source_length {
            Some(l) => l as int,
            None => UNKNOWN_AUDIO_TICKS as int,
        },
        MIN_CLIP_TICKS as int,
    );
    crate::model::ClipView {
        id,
        track: track_index,
        start: max_int(start as int, 0) as i64,
        length: length as i64,
        is_midi: false,
        midi_notes: Seq::empty(),
        midi_source: None,
        link_id: None,
        name: stem,
        audio_path: Some("audio/"@ + file_name),
        audio_source: source_length,
    }
}

impl DawApp {
    /// Refuses a drop onto a track that does not exist.
    pub fn dropped_clip_track(&self, track_index: usize) -> (r: Result<(), String>)
        ensures
            track_index < self.tracks@.len() <==> r is Ok,
            r matches Err(e) ==> e@ == "Invalid track for dropped clip"@,
    {
        if track_index >= self.tracks.len() {
            return Err(owned("Invalid track for dropped clip"));
        }
        Ok(())
    }

    /// The name (made safe for files; "Audio" when it has none) and the
    /// extension ("wav" when it has none) a dropped file is stored under,
    /// as the platform reads the path; refused when the path has no file
    /// name.
    pub fn dropped_audio_source(source: &str) -> (r: Result<(String, String), String>)
        ensures
            match r {
                Ok((stem, ext)) => exists|s: Option<Seq<char>>, x: Option<Seq<char>>| {
                    &&& file_stem_allowed(source@, s)
                    &&& extension_allowed(source@, x)
                    &&& stem@ == sanitized_folder_name(
                        match s {
                            Some(t) => t,
                            None => "Audio"@,
                        },
                    )
                    &&& ext@ == match x {
                        Some(t) => t,
                        None => "wav"@,
                    }
                },
                Err(e) => e@ == "Invalid file name"@ && file_name_allowed(source@, None),
            },
    {
        let name = path_file_name(source);
        if name.is_none() {
            return Err(owned("Invalid file name"));
        }
        let stem = match path_file_stem(source) {
            Some(s) => s,
            None => owned("Audio"),
        };
        let ext = match path_extension(source) {
            Some(x) => x,
            None => owned("wav"),
        };
        Ok((Self::sanitize_folder_name(stem.as_str()), ext))
    }

    /// The `counter`-th name a dropped file may be stored under (see
    /// `dropped_name`).
    pub fn dropped_audio_file_name(stem: &str, ext: &str, counter: u32) -> (r: String)
        ensures
            r@ == dropped_name(stem@, ext@, counter),
    {
        let head = if counter == 0 {
            owned(stem)
        } else {
            let a = concat(stem, "_");
            let n = decimal_string(counter as u64);
            concat(a.as_str(), n.as_str())
        };
        let b = concat(head.as_str(), ".");
        concat(b.as_str(), ext)
    }

    /// Adds the clip of a dropped audio file copied to `audio/<file_name>`
    /// (see `dropped_clip`) with the next free clip id, and selects the
    /// track and the clip; refused when the track does not exist.
    pub fn add_audio_clip_from_path(
        &mut self,
        track_index: usize,
        start: i64,
        stem: &str,
        file_name: &str,
        source_length: Option<i64>,
    ) -> (r: Result<(), String>)
        requires
            old(self).wf(),
            clip_ids_below_max(old(self).tracks@),
            time_ok(start),
            source_length matches Some(l) ==> time_ok(l),
        ensures
            final(self).wf(),
            track_index >= old(self).tracks@.len() ==> (r matches Err(e) && e@ == "Invalid track for dropped clip"@)
                && final(self).tracks.deep_view() == old(self).tracks.deep_view(),
            track_index < old(self).tracks@.len() ==> {
                &&& r is Ok
                &&& exists|id: usize| {
                    &&& is_next_clip_id(old(self).tracks@, id as int)
                    &&& final(self).selected_clip == Some(id)
                    &&& final(self).tracks.deep_view() == with_clip_added(
                        old(self).tracks.deep_view(),
                        track_index as int,
                        dropped_clip(id, track_index, start, stem@, file_name@, source_length),
                    )
                }
                &&& final(self).selected_track == Some(track_index)
            },
    {
        if track_index >= self.tracks.len() {
            return Err(owned("Invalid track for dropped clip"));
        }
        let clip_id = self.next_clip_id();
        let wanted = match source_length {
            Some(l) => l,
            None => UNKNOWN_AUDIO_TICKS,
        };
        let length = if wanted >= MIN_CLIP_TICKS { wanted } else { MIN_CLIP_TICKS };
        let clip = Clip {
            id: clip_id,
            track: track_index,
            start: if start > 0 { start } else { 0 },
            length,
            is_midi: false,
            midi_notes: Vec::new(),
            midi_source: None,
            link_id: None,
            name: owned(stem),
            audio_path: Some(concat("audio/", file_name)),
            audio_source: source_length,
        };
        assert(clip.midi_notes@ =~= Seq::<PianoRollNote>::empty());
        assert(clip@ == dropped_clip(clip_id, track_index, start, stem@, file_name@, source_length));
        self.push_clip(track_index, clip);
        self.selected_track = Some(track_index);
        self.selected_clip = Some(clip_id);
        Ok(())
    }
}

} // verus!
