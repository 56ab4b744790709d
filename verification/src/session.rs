//! Session state around the project: renaming tracks and clips, the active
//! track's instrument and notes, audio buffer sizes, MIDI input settings and
//! browser folders, and starting a new project.
use vstd::prelude::*;
use crate::model::{
    ClipView, DawApp, SettingsState, MidiDeviceConfig, MidiDeviceView, default_device, PianoRollNote, Track, TrackView, new_track_view,
};
use crate::routes::default_routes;
use crate::text::{concat, is_blank, owned, trim, trimmed};

verus! {

/// `c` is the first position in `clips` of a clip with id `id`.
pub open spec fn first_with_id(clips: Seq<ClipView>, id: usize, c: int) -> bool {
    &&& 0 <= c < clips.len()
    &&& clips[c].id == id
    &&& forall|k: int| 0 <= k < c ==> #[trigger] clips[k].id != id
}

/// The track that the track-specific views show: the selected one, or the
/// first when none is selected.
pub open spec fn active_index(selected: Option<usize>) -> int {
    match selected {
        Some(i) => i as int,
        None => 0,
    }
}

/// `list` without the entries equal to `key`.
pub open spec fn without_entry(list: Seq<Seq<char>>, key: Seq<char>) -> Seq<Seq<char>>
    decreases list.len(),
{
    if list.len() == 0 {
        list
    } else {
        let rest = without_entry(list.drop_last(), key);
        if list.last() == key {
            rest
        } else {
            rest.push(list.last())
        }
    }
}

/// A device that MIDI input is taken from: enabled, with a port.
pub open spec fn device_usable(d: MidiDeviceView) -> bool {
    d.enabled && trimmed(d.input_port).len() > 0
}

/// The usable devices of `devices`, in order.
pub open spec fn usable_devices(devices: Seq<MidiDeviceView>) -> Seq<MidiDeviceView>
    decreases devices.len(),
{
    if devices.len() == 0 {
        devices
    } else {
        let rest = usable_devices(devices.drop_last());
        if device_usable(devices.last()) {
            rest.push(devices.last())
        } else {
            rest
        }
    }
}

/// The first usable device of `devices`, if any.
pub open spec fn first_usable(devices: Seq<MidiDeviceView>) -> Option<MidiDeviceView> {
    if usable_devices(devices).len() > 0 {
        Some(usable_devices(devices)[0])
    } else {
        None
    }
}

/// The devices MIDI input is read from: the usable configured devices, or,
/// when there are none, a device for the legacy single input port if one is set.
pub open spec fn input_devices(devices: Seq<MidiDeviceView>, legacy_port: Seq<char>) -> Seq<MidiDeviceView> {
    if usable_devices(devices).len() > 0 {
        usable_devices(devices)
    } else if trimmed(legacy_port).len() == 0 {
        Seq::empty()
    } else {
        seq![default_device("Legacy MIDI Input"@, legacy_port)]
    }
}

/// Device list and legacy port after the settings of an older version were
/// brought over: a lone legacy port becomes the "Primary Keyboard" device,
/// and a missing legacy port is taken from the first usable device.
pub open spec fn migrated_midi(devices: Seq<MidiDeviceView>, port: Seq<char>) -> (Seq<MidiDeviceView>, Seq<char>) {
    let d = if devices.len() == 0 && trimmed(port).len() > 0 {
        devices.push(default_device("Primary Keyboard"@, port))
    } else {
        devices
    };
    let p = if trimmed(port).len() == 0 && first_usable(d).is_some() {
        first_usable(d).unwrap().input_port
    } else {
        port
    };
    (d, p)
}

/// Every usable device is usable.
proof fn lemma_usable_devices_usable(devices: Seq<MidiDeviceView>)
    ensures
        forall|k: int| 0 <= k < usable_devices(devices).len() ==> device_usable(#[trigger] usable_devices(devices)[k]),
    decreases devices.len(),
{
    if devices.len() > 0 {
        lemma_usable_devices_usable(devices.drop_last());
        let rest = usable_devices(devices.drop_last());
        if device_usable(devices.last()) {
            assert forall|k: int| 0 <= k < usable_devices(devices).len() implies device_usable(
                #[trigger] usable_devices(devices)[k],
            ) by {
                if k < rest.len() {
                    assert(usable_devices(devices)[k] == rest[k]);
                }
            }
        }
    }
}

/// Bringing the MIDI settings over a second time changes nothing.
pub proof fn law_midi_migration_idempotent(devices: Seq<MidiDeviceView>, port: Seq<char>)
    ensures
        migrated_midi(migrated_midi(devices, port).0, migrated_midi(devices, port).1) == migrated_midi(devices, port),
{
    let (d1, p1) = migrated_midi(devices, port);
    lemma_usable_devices_usable(d1);
    if first_usable(d1) is Some {
        assert(device_usable(usable_devices(d1)[0]));
    }
}

/// The buffer size the audio device is opened with before triple buffering:
/// the override if one is set, else the configured size, at least 1.
pub open spec fn base_buffer(buffer_override: Option<u32>, configured: u32) -> u32 {
    let b = match buffer_override {
        Some(b) => b,
        None => configured,
    };
    if b < 1 {
        1
    } else {
        b
    }
}

/// The buffer size the engine works with: three times the base size when
/// triple buffering is on (saturating at `u32::MAX`).
pub open spec fn effective_buffer(base: u32, triple: bool) -> u32 {
    if triple {
        if 3 * base > u32::MAX {
            u32::MAX
        } else {
            (3 * base) as u32
        }
    } else {
        base
    }
}

/// The first launch point at or after `current` on the grid of `quantum`
/// samples; `current` itself when there is no grid (a quantum of at most 1)
/// or at position 0.
pub open spec fn quantized_launch(current: u64, quantum: u64) -> int {
    if quantum <= 1 || current == 0 || current % quantum == 0 {
        current as int
    } else {
        current + (quantum - current % quantum)
    }
}

/// A launch point is on the grid: a multiple of the quantum, not before the
/// current position, and less than one quantum after it.
pub proof fn law_launch_on_grid(current: u64, quantum: u64)
    requires
        quantum > 1,
    ensures
        quantized_launch(current, quantum) % (quantum as int) == 0,
        current <= quantized_launch(current, quantum) < current + quantum,
{
    let r = current % quantum;
    assert(0 <= r < quantum);
    assert(current == (current / quantum) * quantum + r) by (nonlinear_arith)
        requires
            r == current % quantum,
            quantum > 1,
    ;
    if current == 0 {
    } else if r == 0 {
        assert((current as int) % (quantum as int) == 0);
    } else {
        let q = current / quantum;
        assert(current + (quantum - r) == (q + 1) * quantum) by (nonlinear_arith)
            requires
                current == q * quantum + r,
        ;
        assert(((q + 1) * quantum) % (quantum as int) == 0) by (nonlinear_arith)
            requires
                quantum > 1,
                q >= 0,
        ;
    }
}

/// The first position in `clips` of a clip with id `id`.
fn clip_index(clips: &Vec<crate::model::Clip>, id: usize) -> (r: Option<usize>)
    ensures
        match r {
            Some(c) => first_with_id(clips.deep_view(), id, c as int),
            None => forall|k: int| 0 <= k < clips@.len() ==> clips.deep_view()[k].id != id,
        },
{
    let mut k: usize = 0;
    while k < clips.len()
        invariant
            k <= clips.len(),
            forall|j: int| 0 <= j < k ==> clips.deep_view()[j].id != id,
        decreases clips.len() - k,
    {
        assert(clips.deep_view()[k as int] == clips@[k as int]@);
        if clips[k].id == id {
            return Some(k);
        }
        k = k + 1;
    }
    None
}

/// The keyboard shortcuts listed in the help window, by category.
pub open spec fn shortcut_table() -> Seq<(Seq<char>, Seq<(Seq<char>, Seq<char>)>)> {
    seq![
        ("Transport"@, seq![("Space"@, "Play/Pause"@), ("R"@, "Record"@)]),
        ("File"@, seq![
            ("Ctrl+S"@, "Save"@),
            ("Ctrl+Shift+S"@, "Save As"@),
            ("Ctrl+O"@, "Open"@),
            ("Ctrl+N"@, "New Project"@),
            ("Ctrl+E"@, "Render"@),
        ]),
        ("Edit"@, seq![("Ctrl+Z"@, "Undo"@), ("Ctrl+Y"@, "Redo"@), ("Delete/Backspace"@, "Delete selected clip"@)]),
        ("View"@, seq![("Ctrl+,"@, "Settings"@)]),
        ("Track"@, seq![("Ctrl+D"@, "Duplicate selected track"@)]),
    ]
}

/// The instruments shipped with the program, with their catalogue notes.
pub open spec fn bundled_synth_table() -> Seq<(Seq<char>, Seq<char>)> {
    seq![
        ("CatSynth"@, "KVR info pending"@),
        ("DogSynth"@, "KVR info pending"@),
        ("FishSynth"@, "KVR info pending"@),
        ("LingSynth"@, "KVR info pending"@),
        ("MiceSynth"@, "KVR info pending"@),
        ("PlantSynth"@, "KVR info pending"@),
        ("SannySynth"@, "KVR info pending"@),
    ]
}

/// A pair of owned strings.
fn text_pair(a: &str, b: &str) -> (r: (String, String))
    ensures
        r.0@ == a@,
        r.1@ == b@,
{
    (owned(a), owned(b))
}

impl DawApp {
    /// Opens the rename dialog of the selected track with its current name;
    /// nothing happens when no existing track is selected.
    pub fn begin_rename_selected_track(&mut self)
        ensures
            match old(self).selected_track {
                Some(i) if i < old(self).tracks@.len() => {
                    &&& final(self).rename_buffer@ == old(self).tracks@[i as int].name@
                    &&& final(self).show_rename_track
                },
                _ => {
                    &&& final(self).rename_buffer@ == old(self).rename_buffer@
                    &&& final(self).show_rename_track == old(self).show_rename_track
                },
            },
            final(self).tracks.deep_view() == old(self).tracks.deep_view(),
            final(self).selected_track == old(self).selected_track,
    {
        if let Some(index) = self.selected_track {
            if index < self.tracks.len() {
                self.rename_buffer = self.tracks[index].name.clone();
                self.show_rename_track = true;
            }
        }
    }

    /// Opens the rename dialog of clip `clip_id` on track `track_index` with
    /// the clip's name, or "Clip" when the track has no such clip.
    pub fn begin_rename_clip(&mut self, track_index: usize, clip_id: usize)
        ensures
            final(self).rename_clip_target == Some((track_index, clip_id)),
            final(self).show_rename_clip,
            forall|c: int|
                track_index < old(self).tracks@.len() && first_with_id(
                    old(self).tracks.deep_view()[track_index as int].clips,
                    clip_id,
                    c,
                ) ==> final(self).rename_clip_buffer@ == old(self).tracks.deep_view()[track_index as int].clips[c].name,
            (track_index >= old(self).tracks@.len() || forall|c: int|
                0 <= c < old(self).tracks.deep_view()[track_index as int].clips.len()
                    ==> old(self).tracks.deep_view()[track_index as int].clips[c].id != clip_id)
                ==> final(self).rename_clip_buffer@ == "Clip"@,
            final(self).tracks.deep_view() == old(self).tracks.deep_view(),
    {
        let mut name = owned("Clip");
        if track_index < self.tracks.len() {
            let found = clip_index(&self.tracks[track_index].clips, clip_id);
            proof {
                let cl = self.tracks.deep_view()[track_index as int].clips;
                assert(cl == self.tracks@[track_index as int].clips.deep_view());
                assert forall|c: int| first_with_id(cl, clip_id, c) implies found == Some(c as usize) by {
                    match found {
                        Some(f) => {
                            if (f as int) < c {
                                assert(cl[f as int].id == clip_id);
                            } else if c < f {
                                assert(cl[c].id == clip_id);
                            }
                        },
                        None => {
                            assert(cl[c].id == clip_id);
                        },
                    }
                }
            }
            if let Some(c) = found {
                name = self.tracks[track_index].clips[c].name.clone();
                assert(name@ == self.tracks.deep_view()[track_index as int].clips[c as int].name);
            }
        }
        self.rename_clip_buffer = name;
        self.rename_clip_target = Some((track_index, clip_id));
        self.show_rename_clip = true;
    }

    /// Gives the selected track the trimmed name from the rename dialog,
    /// unless that is blank or no existing track is selected.
    pub fn apply_rename(&mut self)
        ensures
            match old(self).selected_track {
                Some(i) if i < old(self).tracks@.len() && trimmed(old(self).rename_buffer@).len() > 0 => {
                    &&& final(self).tracks.deep_view() == old(self).tracks.deep_view().update(
                        i as int,
                        TrackView { name: trimmed(old(self).rename_buffer@), ..old(self).tracks.deep_view()[i as int] },
                    )
                    &&& final(self).dirty
                    &&& final(self).status@ == "Track renamed"@
                },
                _ => {
                    &&& final(self).tracks.deep_view() == old(self).tracks.deep_view()
                    &&& final(self).dirty == old(self).dirty
                    &&& final(self).status@ == old(self).status@
                },
            },
            final(self).rename_buffer@ == old(self).rename_buffer@,
            final(self).wf() == old(self).wf(),
    {
        if let Some(index) = self.selected_track {
            if index < self.tracks.len() && !is_blank(self.rename_buffer.as_str()) {
                let name = trim(self.rename_buffer.as_str());
                let ghost before = self.tracks.deep_view();
                self.tracks[index].name = name;
                assert(self.tracks.deep_view() =~= before.update(
                    index as int,
                    TrackView { name: trimmed(self.rename_buffer@), ..before[index as int] },
                ));
                self.dirty = true;
                self.status = owned("Track renamed");
                assert(self.tracks@[index as int].wf() == old(self).tracks@[index as int].wf());
                assert(forall|k: int| 0 <= k < self.tracks@.len() && k != index ==> self.tracks@[k] == old(self).tracks@[k]);
            }
        }
    }

    /// Gives the clip of the rename dialog the trimmed name from the dialog,
    /// unless that is blank or the clip no longer exists on its track.
    #[verifier::rlimit(100)]
    pub fn apply_rename_clip(&mut self)
        ensures
            match old(self).rename_clip_target {
                Some((t, id)) if t < old(self).tracks@.len() && trimmed(old(self).rename_clip_buffer@).len() > 0
                    && exists|c: int| first_with_id(old(self).tracks.deep_view()[t as int].clips, id, c) => {
                    &&& (exists|c: int| {
                        &&& first_with_id(old(self).tracks.deep_view()[t as int].clips, id, c)
                        &&& final(self).tracks.deep_view() == old(self).tracks.deep_view().update(
                            t as int,
                            TrackView {
                                clips: old(self).tracks.deep_view()[t as int].clips.update(
                                    c,
                                    ClipView {
                                        name: trimmed(old(self).rename_clip_buffer@),
                                        ..old(self).tracks.deep_view()[t as int].clips[c]
                                    },
                                ),
                                ..old(self).tracks.deep_view()[t as int]
                            },
                        )
                    })
                    &&& final(self).dirty
                    &&& final(self).status@ == "Clip renamed"@
                },
                _ => {
                    &&& final(self).tracks.deep_view() == old(self).tracks.deep_view()
                    &&& final(self).dirty == old(self).dirty
                    &&& final(self).status@ == old(self).status@
                    &&& *final(self) == *old(self)
                },
            },
            final(self).rename_clip_target == old(self).rename_clip_target,
            final(self).wf() == old(self).wf(),
            *final(self) == (DawApp {
                tracks: final(self).tracks,
                dirty: final(self).dirty,
                status: final(self).status,
                ..*old(self)
            }),
    {
        let (t, id) = match self.rename_clip_target {
            Some(target) => target,
            None => {
                return;
            },
        };
        if is_blank(self.rename_clip_buffer.as_str()) || t >= self.tracks.len() {
            return;
        }
        let found = clip_index(&self.tracks[t].clips, id);
        let c = match found {
            Some(c) => c,
            None => {
                proof {
                    assert(self.tracks.deep_view()[t as int].clips == self.tracks@[t as int].clips.deep_view());
                    assert forall|c: int| !first_with_id(self.tracks.deep_view()[t as int].clips, id, c) by {
                        if 0 <= c < self.tracks.deep_view()[t as int].clips.len() {
                            assert(self.tracks.deep_view()[t as int].clips[c].id != id);
                        }
                    }
                }
                return;
            },
        };
        let name = trim(self.rename_clip_buffer.as_str());
        proof {
            assert(self.tracks.deep_view()[t as int].clips == self.tracks@[t as int].clips.deep_view());
            assert(first_with_id(self.tracks.deep_view()[t as int].clips, id, c as int));
        }
        Self::rename_clip_at(&mut self.tracks, t, c, name);
        proof {
            if old(self).wf() {
                assert forall|k: int| 0 <= k < self.tracks@.len() implies #[trigger] self.tracks@[k].wf() by {
                    assert(old(self).tracks@[k].wf());
                }
            }
            if self.wf() {
                assert forall|k: int| 0 <= k < old(self).tracks@.len() implies #[trigger] old(self).tracks@[k].wf() by {
                    assert(self.tracks@[k].wf());
                }
            }
        }
        self.dirty = true;
        self.status = owned("Clip renamed");
    }

    /// Gives clip `c` of track `t` the name `name`; nothing else changes.
    fn rename_clip_at(tracks: &mut Vec<Track>, t: usize, c: usize, name: String)
        requires
            t < old(tracks)@.len(),
            c < old(tracks)@[t as int].clips@.len(),
        ensures
            final(tracks).deep_view() == old(tracks).deep_view().update(
                t as int,
                TrackView {
                    clips: old(tracks).deep_view()[t as int].clips.update(
                        c as int,
                        ClipView { name: name@, ..old(tracks).deep_view()[t as int].clips[c as int] },
                    ),
                    ..old(tracks).deep_view()[t as int]
                },
            ),
            final(tracks)@.len() == old(tracks)@.len(),
            final(tracks)@[t as int].wf() == old(tracks)@[t as int].wf(),
            forall|k: int| 0 <= k < final(tracks)@.len() && k != t ==> final(tracks)@[k] == old(tracks)@[k],
    {
        let ghost before = tracks.deep_view();
        let ghost old_clip = tracks@[t as int].clips@[c as int];
        let ghost nm = name@;
        tracks[t].clips[c].name = name;
        proof {
            let cl = before[t as int].clips;
            let new_clips = cl.update(c as int, ClipView { name: nm, ..cl[c as int] });
            assert(tracks@[t as int].clips.deep_view() =~= new_clips);
            assert(tracks.deep_view() =~= before.update(t as int, TrackView { clips: new_clips, ..before[t as int] }));
            assert(tracks@[t as int].clips@[c as int].wf() == old_clip.wf());
            assert(tracks@[t as int].wf() == old(tracks)@[t as int].wf()) by {
                let nt = tracks@[t as int];
                let ot = old(tracks)@[t as int];
                assert forall|k: int| 0 <= k < nt.clips@.len() && k != c implies nt.clips@[k] == ot.clips@[k] by {}
                if ot.wf() {
                    assert forall|k: int| 0 <= k < nt@.clips.len() implies #[trigger] nt@.clips[k].wf() by {
                        assert(ot@.clips[k].wf());
                    }
                }
                if nt.wf() {
                    assert forall|k: int| 0 <= k < ot@.clips.len() implies #[trigger] ot@.clips[k].wf() by {
                        assert(nt@.clips[k].wf());
                    }
                }
            }
            assert(forall|k: int| 0 <= k < tracks@.len() && k != t ==> tracks@[k] == old(tracks)@[k]);
        }
    }

    /// The instrument of the active track (see `active_index`), if it has one.
    pub fn active_instrument_path(&self) -> (r: Option<String>)
        ensures
            r.deep_view() == (if active_index(self.selected_track) < self.tracks@.len() {
                self.tracks.deep_view()[active_index(self.selected_track)].instrument_path
            } else {
                None
            }),
    {
        let index = match self.selected_track {
            Some(i) => i,
            None => 0,
        };
        if index < self.tracks.len() {
            match &self.tracks[index].instrument_path {
                Some(p) => Some(p.clone()),
                None => None,
            }
        } else {
            None
        }
    }

    /// The notes of the active track (see `active_index`), or none.
    pub fn active_midi_notes(&self) -> (r: Vec<PianoRollNote>)
        ensures
            r@ == (if active_index(self.selected_track) < self.tracks@.len() {
                self.tracks@[active_index(self.selected_track)].midi_notes@
            } else {
                Seq::empty()
            }),
    {
        let index = match self.selected_track {
            Some(i) => i,
            None => 0,
        };
        if index < self.tracks.len() {
            crate::model::copy_vec(&self.tracks[index].midi_notes)
        } else {
            Vec::new()
        }
    }

    /// See `base_buffer`.
    pub fn base_buffer_size(&self) -> (r: u32)
        ensures
            r == base_buffer(self.buffer_override, self.settings.buffer_size),
            r >= 1,
    {
        let b = match self.buffer_override {
            Some(b) => b,
            None => self.settings.buffer_size,
        };
        if b < 1 {
            1
        } else {
            b
        }
    }

    /// See `effective_buffer`.
    pub fn effective_buffer_size(&self) -> (r: u32)
        ensures
            r == effective_buffer(base_buffer(self.buffer_override, self.settings.buffer_size), self.settings.triple_buffer),
            r >= 1,
    {
        let base = self.base_buffer_size();
        if self.settings.triple_buffer {
            if base > u32::MAX / 3 {
                u32::MAX
            } else {
                base * 3
            }
        } else {
            base
        }
    }

    /// Where the settings file lives.
    pub fn settings_path(&self) -> (r: &str)
        ensures
            r@ == self.settings_path@,
    {
        self.settings_path.as_str()
    }

    /// Brings MIDI settings of an older version over (see `migrated_midi`).
    pub fn migrate_legacy_midi_settings(&mut self)
        ensures
            (final(self).settings.midi_devices.deep_view(), final(self).settings.midi_input@) == migrated_midi(
                old(self).settings.midi_devices.deep_view(),
                old(self).settings.midi_input@,
            ),
            final(self).settings.recent_projects.deep_view() == old(self).settings.recent_projects.deep_view(),
            final(self).tracks.deep_view() == old(self).tracks.deep_view(),
            *final(self) == (DawApp {
                settings: SettingsState {
                    midi_devices: final(self).settings.midi_devices,
                    midi_input: final(self).settings.midi_input,
                    ..old(self).settings
                },
                ..*old(self)
            }),
    {
        Self::migrate_midi_in(&mut self.settings);
    }

    /// The settings part of `migrate_legacy_midi_settings`.
    fn migrate_midi_in(s: &mut SettingsState)
        ensures
            (final(s).midi_devices.deep_view(), final(s).midi_input@) == migrated_midi(
                old(s).midi_devices.deep_view(),
                old(s).midi_input@,
            ),
            *final(s) == (SettingsState { midi_devices: final(s).midi_devices, midi_input: final(s).midi_input, ..*old(s) }),
    {
        if s.midi_devices.len() == 0 && !is_blank(s.midi_input.as_str()) {
            let device = MidiDeviceConfig {
                name: owned("Primary Keyboard"),
                input_port: s.midi_input.clone(),
                ..MidiDeviceConfig::default()
            };
            let ghost before = s.midi_devices.deep_view();
            s.midi_devices.push(device);
            assert(s.midi_devices.deep_view() =~= before.push(default_device("Primary Keyboard"@, s.midi_input@)));
        }
        if is_blank(s.midi_input.as_str()) {
            let found = Self::first_usable_device(&s.midi_devices);
            if let Some(i) = found {
                s.midi_input = s.midi_devices[i].input_port.clone();
            }
        }
    }

    /// Position of the first usable device.
    pub(crate) fn first_usable_device(devices: &Vec<MidiDeviceConfig>) -> (r: Option<usize>)
        ensures
            match r {
                Some(i) => i < devices@.len() && first_usable(devices.deep_view()) == Some(devices.deep_view()[i as int]),
                None => first_usable(devices.deep_view()).is_none(),
            },
    {
        let mut i: usize = 0;
        while i < devices.len()
            invariant
                i <= devices.len(),
                usable_devices(devices.deep_view().take(i as int)).len() == 0,
            decreases devices.len() - i,
        {
            let d = &devices[i];
            assert(devices.deep_view().take(i + 1).drop_last() == devices.deep_view().take(i as int));
            assert(devices.deep_view()[i as int] == d.deep_view());
            if d.enabled && !is_blank(d.input_port.as_str()) {
                proof {
                    Self::lemma_usable_prefix(devices.deep_view(), i as int + 1);
                    assert(usable_devices(devices.deep_view().take(i + 1)) == seq![devices.deep_view()[i as int]]);
                    assert(usable_devices(devices.deep_view().take(i + 1))[0] == devices.deep_view()[i as int]);
                }
                return Some(i);
            }
            i = i + 1;
        }
        assert(devices.deep_view().take(devices.len() as int) == devices.deep_view());
        None
    }

    /// The usable devices of a prefix come first among those of the whole list.
    proof fn lemma_usable_prefix(devices: Seq<MidiDeviceView>, k: int)
        requires
            0 <= k <= devices.len(),
        ensures
            usable_devices(devices.take(k)).len() <= usable_devices(devices).len(),
            forall|j: int| 0 <= j < usable_devices(devices.take(k)).len()
                ==> usable_devices(devices)[j] == #[trigger] usable_devices(devices.take(k))[j],
        decreases devices.len() - k,
    {
        if k < devices.len() {
            Self::lemma_usable_prefix(devices, k + 1);
            assert(devices.take(k + 1).drop_last() == devices.take(k));
            assert(devices.take(k + 1).last() == devices[k]);
            let a = usable_devices(devices.take(k));
            let b = usable_devices(devices.take(k + 1));
            assert(b == if device_usable(devices[k]) { a.push(devices[k]) } else { a });
            assert forall|j: int| 0 <= j < a.len() implies usable_devices(devices)[j] == #[trigger] a[j] by {
                assert(b[j] == a[j]);
            }
        } else {
            assert(devices.take(k) == devices);
        }
    }

    /// The devices MIDI input is read from (see `input_devices`).
    pub fn active_midi_input_devices(&self) -> (r: Vec<MidiDeviceConfig>)
        ensures
            r.deep_view() == input_devices(self.settings.midi_devices.deep_view(), self.settings.midi_input@),
    {
        let devices = &self.settings.midi_devices;
        let mut out: Vec<MidiDeviceConfig> = Vec::new();
        let mut i: usize = 0;
        while i < devices.len()
            invariant
                i <= devices.len(),
                out.deep_view() == usable_devices(devices.deep_view().take(i as int)),
            decreases devices.len() - i,
        {
            let d = &devices[i];
            assert(devices.deep_view().take(i + 1).drop_last() == devices.deep_view().take(i as int));
            assert(devices.deep_view()[i as int] == d.deep_view());
            if d.enabled && !is_blank(d.input_port.as_str()) {
                let ghost before = out.deep_view();
                out.push(d.copied());
                assert(out.deep_view() =~= before.push(d.deep_view()));
            }
            i = i + 1;
        }
        assert(devices.deep_view().take(devices.len() as int) == devices.deep_view());
        if out.len() > 0 {
            return out;
        }
        if is_blank(self.settings.midi_input.as_str()) {
            Vec::new()
        } else {
            let mut legacy: Vec<MidiDeviceConfig> = Vec::new();
            legacy.push(
                MidiDeviceConfig {
                    name: owned("Legacy MIDI Input"),
                    input_port: self.settings.midi_input.clone(),
                    ..MidiDeviceConfig::default()
                },
            );
            assert(legacy.deep_view() =~= seq![
                default_device("Legacy MIDI Input"@, self.settings.midi_input@),
            ]);
            legacy
        }
    }

    /// Removes `path` from the folders shown in the file browser.
    pub fn remove_browser_folder(&mut self, path: &str)
        ensures
            final(self).settings.browser_folders.deep_view() == without_entry(
                old(self).settings.browser_folders.deep_view(),
                path@,
            ),
            final(self).status@ == "Browser folder removed: "@ + path@,
            final(self).tracks.deep_view() == old(self).tracks.deep_view(),
    {
        let folders = &self.settings.browser_folders;
        let mut kept: Vec<String> = Vec::new();
        let mut i: usize = 0;
        while i < folders.len()
            invariant
                i <= folders.len(),
                kept.deep_view() == without_entry(folders.deep_view().take(i as int), path@),
            decreases folders.len() - i,
        {
            let entry = &folders[i];
            assert(folders.deep_view().take(i + 1).drop_last() == folders.deep_view().take(i as int));
            assert(folders.deep_view()[i as int] == entry@);
            if !crate::text::same_text(entry.as_str(), path) {
                let ghost before = kept.deep_view();
                kept.push(entry.clone());
                assert(kept.deep_view() =~= before.push(entry@));
            }
            i = i + 1;
        }
        assert(folders.deep_view().take(folders.len() as int) == folders.deep_view());
        self.settings.browser_folders = kept;
        self.status = concat("Browser folder removed: ", path);
    }

    /// Whether the transport plays the arrangement.
    pub fn arrangement_playback_enabled(&self) -> (r: bool)
        ensures
            r == self.arrangement_playback,
    {
        self.arrangement_playback
    }

    /// Turns playback of the arrangement on or off.
    pub fn set_arrangement_playback_enabled(&mut self, enabled: bool)
        ensures
            final(self).arrangement_playback == enabled,
            final(self).tracks.deep_view() == old(self).tracks.deep_view(),
            final(self).audio_running == old(self).audio_running,
    {
        self.arrangement_playback = enabled;
    }

    /// The sample position at which a performance clip launched now starts:
    /// `current_samples` moved up to the launch grid of `quantum_samples`
    /// (see `quantized_launch`).
    pub fn performance_launch_samples(&self, current_samples: u64, quantum_samples: u64) -> (r: u64)
        requires
            quantized_launch(current_samples, quantum_samples) <= u64::MAX,
        ensures
            r == quantized_launch(current_samples, quantum_samples),
    {
        if quantum_samples <= 1 || current_samples == 0 {
            return current_samples;
        }
        let remainder = current_samples % quantum_samples;
        if remainder == 0 {
            current_samples
        } else {
            current_samples + (quantum_samples - remainder)
        }
    }

    /// Replaces the project by an empty one with a single track, "Track 1",
    /// with the parameter names of the default instrument (`default_params`),
    /// after a running recording (stopped at `end_beat`; what it recorded is
    /// returned) and running playback were stopped (see
    /// `prepare_for_project_change`).
    pub fn new_project(
        &mut self,
        slots: &mut Vec<Option<crate::launch::PerformanceRuntimeClip>>,
        end_beat: i64,
        default_params: &Vec<String>,
    ) -> (r: Option<crate::session_recording::EndedRecording>)
        requires
            crate::recording::actives_ok(old(self).recording.performance_active@),
            crate::model::time_ok(end_beat),
        ensures
            r is Some == old(self).is_recording,
            !final(self).is_recording,
            !final(self).audio_running,
            old(self).audio_running ==> crate::transport::all_empty(final(slots).deep_view()),
            !old(self).audio_running ==> final(slots)@ == old(slots)@,
            final(self).project_name@ == "Untitled Project"@,
            final(self).project_path@.len() == 0,
            final(self).metadata_artist@.len() == 0,
            final(self).metadata_title@.len() == 0,
            final(self).metadata_album@.len() == 0,
            final(self).metadata_genre@.len() == 0,
            final(self).metadata_year@.len() == 0,
            final(self).metadata_comment@.len() == 0,
            final(self).tracks.deep_view() == seq![TrackView { params: default_params.deep_view(), ..new_track_view("Track 1"@) }],
            final(self).selected_clip.is_none(),
            final(self).selected_track == Some(0usize),
            final(self).performance_clip_settings@.len() == 0,
            final(self).performance_selected_clip.is_none(),
            final(self).node_routes@ == default_routes(final(self).tracks@, 1),
            !final(self).dirty,
            final(self).status@ == "New project"@,
            final(self).wf(),
    {
        let ended = self.prepare_for_project_change(slots, end_beat);
        self.project_name = owned("Untitled Project");
        self.project_path = String::new();
        self.metadata_artist = String::new();
        self.metadata_title = String::new();
        self.metadata_album = String::new();
        self.metadata_genre = String::new();
        self.metadata_year = String::new();
        self.metadata_comment = String::new();
        let mut tracks: Vec<Track> = Vec::new();
        tracks.push(Track::with_params(owned("Track 1"), default_params));
        assert(tracks.deep_view() =~= seq![TrackView { params: default_params.deep_view(), ..new_track_view("Track 1"@) }]);
        self.tracks = tracks;
        self.selected_clip = None;
        self.selected_track = Some(0);
        self.performance_clip_settings.clear();
        self.performance_selected_clip = None;
        self.node_routes = Self::default_node_routes(self.tracks.as_slice());
        self.dirty = false;
        self.status = owned("New project");
        ended
    }
    /// The keyboard shortcuts, by category (see `shortcut_table`).
    pub fn shortcuts_by_category() -> (r: Vec<(String, Vec<(String, String)>)>)
        ensures
            r.deep_view() == shortcut_table(),
    {
        let mut transport: Vec<(String, String)> = Vec::new();
        transport.push(text_pair("Space", "Play/Pause"));
        transport.push(text_pair("R", "Record"));
        let mut file: Vec<(String, String)> = Vec::new();
        file.push(text_pair("Ctrl+S", "Save"));
        file.push(text_pair("Ctrl+Shift+S", "Save As"));
        file.push(text_pair("Ctrl+O", "Open"));
        file.push(text_pair("Ctrl+N", "New Project"));
        file.push(text_pair("Ctrl+E", "Render"));
        let mut edit: Vec<(String, String)> = Vec::new();
        edit.push(text_pair("Ctrl+Z", "Undo"));
        edit.push(text_pair("Ctrl+Y", "Redo"));
        edit.push(text_pair("Delete/Backspace", "Delete selected clip"));
        let mut view: Vec<(String, String)> = Vec::new();
        view.push(text_pair("Ctrl+,", "Settings"));
        let mut track: Vec<(String, String)> = Vec::new();
        track.push(text_pair("Ctrl+D", "Duplicate selected track"));
        assert(transport.deep_view() =~= shortcut_table()[0].1);
        assert(file.deep_view() =~= shortcut_table()[1].1);
        assert(edit.deep_view() =~= shortcut_table()[2].1);
        assert(view.deep_view() =~= shortcut_table()[3].1);
        assert(track.deep_view() =~= shortcut_table()[4].1);
        let mut r: Vec<(String, Vec<(String, String)>)> = Vec::new();
        r.push((owned("Transport"), transport));
        r.push((owned("File"), file));
        r.push((owned("Edit"), edit));
        r.push((owned("View"), view));
        r.push((owned("Track"), track));
        assert(r.deep_view() =~= shortcut_table());
        r
    }

    /// The instruments shipped with the program (see `bundled_synth_table`).
    pub fn bundled_synths() -> (r: Vec<(String, String)>)
        ensures
            r.deep_view() == bundled_synth_table(),
    {
        let mut r: Vec<(String, String)> = Vec::new();
        r.push(text_pair("CatSynth", "KVR info pending"));
        r.push(text_pair("DogSynth", "KVR info pending"));
        r.push(text_pair("FishSynth", "KVR info pending"));
        r.push(text_pair("LingSynth", "KVR info pending"));
        r.push(text_pair("MiceSynth", "KVR info pending"));
        r.push(text_pair("PlantSynth", "KVR info pending"));
        r.push(text_pair("SannySynth", "KVR info pending"));
        assert(r.deep_view() =~= bundled_synth_table());
        r
    }
    /// Starts the transport for the performance view only: the arrangement
    /// does not play (the audio engine is then started).
    pub fn start_session_clock(&mut self)
        ensures
            !final(self).arrangement_playback,
            final(self).tracks.deep_view() == old(self).tracks.deep_view(),
    {
        self.set_arrangement_playback_enabled(false);
    }

    /// Starts playback of the arrangement (the audio engine is then started).
    pub fn start_audio_and_midi(&mut self)
        ensures
            final(self).arrangement_playback,
            final(self).tracks.deep_view() == old(self).tracks.deep_view(),
    {
        self.set_arrangement_playback_enabled(true);
    }

    /// Forgets the loaded wallpaper image.
    pub fn invalidate_wallpaper_texture(&mut self)
        ensures
            final(self).wallpaper_texture_path@.len() == 0,
            final(self).settings.wallpaper_path@ == old(self).settings.wallpaper_path@,
    {
        self.wallpaper_texture_path = String::new();
    }
}

} // verus!
