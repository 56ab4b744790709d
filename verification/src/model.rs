//! The project model: tracks, clips, notes, routes and performance settings.
//!
//! Positions and lengths on the timeline are fixed-point ticks, `TICKS_PER_BEAT`
//! to the beat. Continuous parameters that the rules here only carry (mix
//! levels, normalized plug-in parameter values) are kept as the bit patterns of
//! their `f32` values.
use std::collections::HashMap;
use std::collections::HashSet;
use vstd::prelude::*;

verus! {

/// Ticks in one beat.
pub const TICKS_PER_BEAT: i64 = 1000;

/// Largest magnitude of a position or length on the timeline.
pub const TIME_LIMIT: i64 = 1_000_000_000_000_000;

/// Timeline values the model accepts.
pub open spec fn time_ok(t: i64) -> bool {
    -TIME_LIMIT <= t <= TIME_LIMIT
}

/// The mix level of a new track, 0.8, as an `f32` bit pattern.
pub const DEFAULT_TRACK_LEVEL: u32 = 0x3F4C_CCCD;

/// A note of a MIDI clip or of a track's note list.
#[derive(Clone, Copy, Debug, PartialEq, Eq, Structural)]
pub struct PianoRollNote {
    pub start: i64,
    pub length: i64,
    pub note: u8,
    pub velocity: u8,
}

impl PianoRollNote {
    pub open spec fn wf(self) -> bool {
        time_ok(self.start) && time_ok(self.length)
    }
}

/// Every note of `notes` is within the timeline bounds.
pub open spec fn notes_wf(notes: Seq<PianoRollNote>) -> bool {
    forall|i: int| 0 <= i < notes.len() ==> #[trigger] notes[i].wf()
}

/// A clip on a track: a MIDI pattern or a reference to an audio file.
pub struct Clip {
    pub id: usize,
    pub track: usize,
    pub start: i64,
    pub length: i64,
    pub is_midi: bool,
    pub midi_notes: Vec<PianoRollNote>,
    pub midi_source: Option<i64>,
    pub link_id: Option<usize>,
    pub name: String,
    pub audio_path: Option<String>,
    pub audio_source: Option<i64>,
}

pub open spec fn opt_time_ok(t: Option<i64>) -> bool {
    match t {
        Some(v) => time_ok(v),
        None => true,
    }
}

/// The value of a clip.
pub struct ClipView {
    pub id: usize,
    pub track: usize,
    pub start: i64,
    pub length: i64,
    pub is_midi: bool,
    pub midi_notes: Seq<PianoRollNote>,
    pub midi_source: Option<i64>,
    pub link_id: Option<usize>,
    pub name: Seq<char>,
    pub audio_path: Option<Seq<char>>,
    pub audio_source: Option<i64>,
}

impl DeepView for Clip {
    type V = ClipView;

    open spec fn deep_view(&self) -> ClipView {
        ClipView {
            id: self.id,
            track: self.track,
            start: self.start,
            length: self.length,
            is_midi: self.is_midi,
            midi_notes: self.midi_notes@,
            midi_source: self.midi_source,
            link_id: self.link_id,
            name: self.name@,
            audio_path: self.audio_path.deep_view(),
            audio_source: self.audio_source,
        }
    }
}

impl View for Clip {
    type V = ClipView;

    open spec fn view(&self) -> ClipView {
        self.deep_view()
    }
}

impl ClipView {
    pub open spec fn wf(self) -> bool {
        &&& time_ok(self.start)
        &&& time_ok(self.length)
        &&& notes_wf(self.midi_notes)
        &&& opt_time_ok(self.midi_source)
        &&& opt_time_ok(self.audio_source)
    }
}

impl Clip {
    pub open spec fn wf(&self) -> bool {
        self@.wf()
    }

    /// A field-by-field copy of the clip.
    pub fn copied(&self) -> (c: Clip)
        ensures
            c@ == self@,
    {
        Clip {
            id: self.id,
            track: self.track,
            start: self.start,
            length: self.length,
            is_midi: self.is_midi,
            midi_notes: copy_vec(&self.midi_notes),
            midi_source: self.midi_source,
            link_id: self.link_id,
            name: self.name.clone(),
            audio_path: copy_opt_string(&self.audio_path),
            audio_source: self.audio_source,
        }
    }
}

/// A copy of a vector of plain values.
pub fn copy_vec<T: Copy>(v: &Vec<T>) -> (r: Vec<T>)
    ensures
        r@ == v@,
{
    let mut r: Vec<T> = Vec::new();
    let mut i: usize = 0;
    while i < v.len()
        invariant
            i <= v.len(),
            r@ == v@.take(i as int),
        decreases v.len() - i,
    {
        r.push(v[i]);
        assert(v@.take(i + 1) == v@.take(i as int).push(v@[i as int]));
        i = i + 1;
    }
    assert(v@.take(v.len() as int) == v@);
    r
}

/// A copy of an optional string.
pub fn copy_opt_string(s: &Option<String>) -> (r: Option<String>)
    ensures
        r == *s,
{
    match s {
        Some(t) => Some(t.clone()),
        None => None,
    }
}

/// A copy of an optional byte blob.
pub fn copy_opt_bytes(s: &Option<Vec<u8>>) -> (r: Option<Vec<u8>>)
    ensures
        r.deep_view() == s.deep_view(),
{
    match s {
        Some(t) => Some(copy_vec(t)),
        None => None,
    }
}

/// A copy of a list of strings.
pub fn copy_strings(v: &Vec<String>) -> (r: Vec<String>)
    ensures
        r@ == v@,
        r.deep_view() == v.deep_view(),
{
    let mut r: Vec<String> = Vec::new();
    let mut i: usize = 0;
    while i < v.len()
        invariant
            i <= v.len(),
            r@ == v@.take(i as int),
        decreases v.len() - i,
    {
        r.push(v[i].clone());
        assert(v@.take(i + 1) == v@.take(i as int).push(v@[i as int]));
        i = i + 1;
    }
    assert(v@.take(v.len() as int) == v@);
    assert(r@ == v@);
    r
}

/// A copy of a list of optional strings.
pub fn copy_opt_strings(v: &Vec<Option<String>>) -> (r: Vec<Option<String>>)
    ensures
        r@ == v@,
        r.deep_view() == v.deep_view(),
{
    let mut r: Vec<Option<String>> = Vec::new();
    let mut i: usize = 0;
    while i < v.len()
        invariant
            i <= v.len(),
            r@ == v@.take(i as int),
        decreases v.len() - i,
    {
        r.push(copy_opt_string(&v[i]));
        assert(v@.take(i + 1) == v@.take(i as int).push(v@[i as int]));
        i = i + 1;
    }
    assert(v@.take(v.len() as int) == v@);
    assert(r@ == v@);
    r
}

/// A copy of a list of clips.
pub fn copy_clips(v: &Vec<Clip>) -> (r: Vec<Clip>)
    ensures
        r.deep_view() == v.deep_view(),
{
    let mut r: Vec<Clip> = Vec::new();
    let mut i: usize = 0;
    while i < v.len()
        invariant
            i <= v.len(),
            r.deep_view() == v.deep_view().take(i as int),
        decreases v.len() - i,
    {
        r.push(v[i].copied());
        assert(v.deep_view().take(i + 1) == v.deep_view().take(i as int).push(v.deep_view()[i as int]));
        i = i + 1;
    }
    assert(v.deep_view().take(v.len() as int) == v.deep_view());
    r
}

/// The sample-based instrument of a track: a sample folder and sample files.
pub struct TreeSynthState {
    pub folder: Option<String>,
    pub sample_paths: Vec<String>,
}

/// The value of a sample-based instrument's settings.
pub struct TreeSynthView {
    pub folder: Option<Seq<char>>,
    pub sample_paths: Seq<Seq<char>>,
}

impl DeepView for TreeSynthState {
    type V = TreeSynthView;

    open spec fn deep_view(&self) -> TreeSynthView {
        TreeSynthView { folder: self.folder.deep_view(), sample_paths: self.sample_paths.deep_view() }
    }
}

impl TreeSynthState {
    pub fn copied(&self) -> (r: TreeSynthState)
        ensures
            r.deep_view() == self.deep_view(),
    {
        TreeSynthState {
            folder: copy_opt_string(&self.folder),
            sample_paths: copy_strings(&self.sample_paths),
        }
    }
}

/// The drum-machine instrument of a track: one optional sample file per pad.
pub struct DrumMachineState {
    pub pad_paths: Vec<Option<String>>,
}

impl DeepView for DrumMachineState {
    type V = Seq<Option<Seq<char>>>;

    open spec fn deep_view(&self) -> Seq<Option<Seq<char>>> {
        self.pad_paths.deep_view()
    }
}

impl DrumMachineState {
    pub fn copied(&self) -> (r: DrumMachineState)
        ensures
            r.deep_view() == self.deep_view(),
    {
        DrumMachineState { pad_paths: copy_opt_strings(&self.pad_paths) }
    }
}

/// What an automation lane drives: a parameter of the instrument or of one
/// of the effects.
#[derive(Clone, Copy, Debug, PartialEq, Eq, Structural)]
pub enum AutomationTarget {
    Instrument,
    Effect(usize),
}

/// A point of an automation lane: a position and a normalized value (as an
/// `f32` bit pattern).
#[derive(Clone, Copy, Debug, PartialEq, Eq, Structural)]
pub struct AutomationPoint {
    pub tick: i64,
    pub value: u32,
}

/// The automation of one parameter of a track.
pub struct AutomationLane {
    pub name: String,
    pub param_id: u32,
    pub target: AutomationTarget,
    pub points: Vec<AutomationPoint>,
}

/// The value of an automation lane.
pub struct LaneView {
    pub name: Seq<char>,
    pub param_id: u32,
    pub target: AutomationTarget,
    pub points: Seq<AutomationPoint>,
}

impl DeepView for AutomationLane {
    type V = LaneView;

    open spec fn deep_view(&self) -> LaneView {
        LaneView { name: self.name@, param_id: self.param_id, target: self.target, points: self.points@ }
    }
}

impl AutomationLane {
    pub fn copied(&self) -> (r: AutomationLane)
        ensures
            r.deep_view() == self.deep_view(),
    {
        AutomationLane {
            name: self.name.clone(),
            param_id: self.param_id,
            target: self.target,
            points: copy_vec(&self.points),
        }
    }
}

/// A copy of a list of automation lanes.
pub fn copy_lanes(v: &Vec<AutomationLane>) -> (r: Vec<AutomationLane>)
    ensures
        r.deep_view() == v.deep_view(),
{
    let mut r: Vec<AutomationLane> = Vec::new();
    let mut i: usize = 0;
    while i < v.len()
        invariant
            i <= v.len(),
            r.deep_view() == v.deep_view().take(i as int),
        decreases v.len() - i,
    {
        let ghost before = r.deep_view();
        r.push(v[i].copied());
        assert(r.deep_view() =~= before.push(v.deep_view()[i as int]));
        assert(v.deep_view().take(i + 1) == v.deep_view().take(i as int).push(v.deep_view()[i as int]));
        i = i + 1;
    }
    assert(v.deep_view().take(v.len() as int) == v.deep_view());
    r
}

/// A copy of a list of lists of parameter ids.
pub fn copy_id_lists(v: &Vec<Vec<u32>>) -> (r: Vec<Vec<u32>>)
    ensures
        r.deep_view() == v.deep_view(),
{
    let mut r: Vec<Vec<u32>> = Vec::new();
    let mut i: usize = 0;
    while i < v.len()
        invariant
            i <= v.len(),
            r.deep_view() == v.deep_view().take(i as int),
        decreases v.len() - i,
    {
        let ghost before = r.deep_view();
        r.push(copy_vec(&v[i]));
        assert(r.deep_view() =~= before.push(v.deep_view()[i as int]));
        assert(v.deep_view().take(i + 1) == v.deep_view().take(i as int).push(v.deep_view()[i as int]));
        i = i + 1;
    }
    assert(v.deep_view().take(v.len() as int) == v.deep_view());
    r
}

/// A copy of a list of lists of names.
pub fn copy_name_lists(v: &Vec<Vec<String>>) -> (r: Vec<Vec<String>>)
    ensures
        r.deep_view() == v.deep_view(),
{
    let mut r: Vec<Vec<String>> = Vec::new();
    let mut i: usize = 0;
    while i < v.len()
        invariant
            i <= v.len(),
            r.deep_view() == v.deep_view().take(i as int),
        decreases v.len() - i,
    {
        let ghost before = r.deep_view();
        r.push(copy_strings(&v[i]));
        assert(r.deep_view() =~= before.push(v.deep_view()[i as int]));
        assert(v.deep_view().take(i + 1) == v.deep_view().take(i as int).push(v.deep_view()[i as int]));
        i = i + 1;
    }
    assert(v.deep_view().take(v.len() as int) == v.deep_view());
    r
}

/// A track of the arrangement.
pub struct Track {
    pub name: String,
    pub clips: Vec<Clip>,
    /// Mix level, as an `f32` bit pattern.
    pub level: u32,
    pub muted: bool,
    pub solo: bool,
    pub midi_notes: Vec<PianoRollNote>,
    pub instrument_path: Option<String>,
    pub instrument_clap_id: Option<String>,
    pub effect_paths: Vec<String>,
    /// The CLAP plug-in id of each effect, where one is known.
    pub effect_clap_ids: Vec<Option<String>>,
    /// Whether each effect is bypassed.
    pub effect_bypass: Vec<bool>,
    pub param_ids: Vec<u32>,
    /// Normalized plug-in parameter values, as `f32` bit patterns.
    pub param_values: Vec<u32>,
    /// Names of the instrument's parameters, in the order of `param_ids`.
    pub params: Vec<String>,
    /// Parameter ids of each effect.
    pub effect_param_ids: Vec<Vec<u32>>,
    /// Parameter names of each effect, in the order of its ids.
    pub effect_params: Vec<Vec<String>>,
    /// Normalized parameter values of each effect, as `f32` bit patterns.
    pub effect_param_values: Vec<Vec<u32>>,
    pub automation_lanes: Vec<AutomationLane>,
    pub plugin_state_component: Option<Vec<u8>>,
    pub plugin_state_controller: Option<Vec<u8>>,
    pub treesynth: Option<TreeSynthState>,
    pub drum_machine: Option<DrumMachineState>,
}

/// Every clip of `clips` is well formed.
pub open spec fn clips_wf(clips: Seq<ClipView>) -> bool {
    forall|i: int| 0 <= i < clips.len() ==> #[trigger] clips[i].wf()
}

/// The value of a track.
pub struct TrackView {
    pub name: Seq<char>,
    pub clips: Seq<ClipView>,
    pub level: u32,
    pub muted: bool,
    pub solo: bool,
    pub midi_notes: Seq<PianoRollNote>,
    pub instrument_path: Option<Seq<char>>,
    pub instrument_clap_id: Option<Seq<char>>,
    pub effect_paths: Seq<Seq<char>>,
    pub effect_clap_ids: Seq<Option<Seq<char>>>,
    pub effect_bypass: Seq<bool>,
    pub param_ids: Seq<u32>,
    pub param_values: Seq<u32>,
    pub params: Seq<Seq<char>>,
    pub effect_param_ids: Seq<Seq<u32>>,
    pub effect_params: Seq<Seq<Seq<char>>>,
    pub effect_param_values: Seq<Seq<u32>>,
    pub automation_lanes: Seq<LaneView>,
    pub plugin_state_component: Option<Seq<u8>>,
    pub plugin_state_controller: Option<Seq<u8>>,
    pub treesynth: Option<TreeSynthView>,
    pub drum_machine: Option<Seq<Option<Seq<char>>>>,
}

impl DeepView for Track {
    type V = TrackView;

    open spec fn deep_view(&self) -> TrackView {
        TrackView {
            name: self.name@,
            clips: self.clips.deep_view(),
            level: self.level,
            muted: self.muted,
            solo: self.solo,
            midi_notes: self.midi_notes@,
            instrument_path: self.instrument_path.deep_view(),
            instrument_clap_id: self.instrument_clap_id.deep_view(),
            effect_paths: self.effect_paths.deep_view(),
            effect_clap_ids: self.effect_clap_ids.deep_view(),
            effect_bypass: self.effect_bypass@,
            param_ids: self.param_ids@,
            param_values: self.param_values@,
            params: self.params.deep_view(),
            effect_param_ids: self.effect_param_ids.deep_view(),
            effect_params: self.effect_params.deep_view(),
            effect_param_values: self.effect_param_values.deep_view(),
            automation_lanes: self.automation_lanes.deep_view(),
            plugin_state_component: self.plugin_state_component.deep_view(),
            plugin_state_controller: self.plugin_state_controller.deep_view(),
            treesynth: self.treesynth.deep_view(),
            drum_machine: self.drum_machine.deep_view(),
        }
    }
}

impl View for Track {
    type V = TrackView;

    open spec fn view(&self) -> TrackView {
        self.deep_view()
    }
}

impl TrackView {
    pub open spec fn wf(self) -> bool {
        clips_wf(self.clips) && notes_wf(self.midi_notes)
    }
}

impl Track {
    pub open spec fn wf(&self) -> bool {
        self@.wf()
    }

    /// A field-by-field copy of the track.
    pub fn copied(&self) -> (t: Track)
        ensures
            t@ == self@,
    {
        Track {
            name: self.name.clone(),
            clips: copy_clips(&self.clips),
            level: self.level,
            muted: self.muted,
            solo: self.solo,
            midi_notes: copy_vec(&self.midi_notes),
            instrument_path: copy_opt_string(&self.instrument_path),
            instrument_clap_id: copy_opt_string(&self.instrument_clap_id),
            effect_paths: copy_strings(&self.effect_paths),
            effect_clap_ids: copy_opt_strings(&self.effect_clap_ids),
            effect_bypass: copy_vec(&self.effect_bypass),
            param_ids: copy_vec(&self.param_ids),
            param_values: copy_vec(&self.param_values),
            params: copy_strings(&self.params),
            effect_param_ids: copy_id_lists(&self.effect_param_ids),
            effect_params: copy_name_lists(&self.effect_params),
            effect_param_values: copy_id_lists(&self.effect_param_values),
            automation_lanes: copy_lanes(&self.automation_lanes),
            plugin_state_component: copy_opt_bytes(&self.plugin_state_component),
            plugin_state_controller: copy_opt_bytes(&self.plugin_state_controller),
            treesynth: match &self.treesynth {
                Some(t) => Some(t.copied()),
                None => None,
            },
            drum_machine: match &self.drum_machine {
                Some(d) => Some(d.copied()),
                None => None,
            },
        }
    }

    /// An empty track with the given name, the default mix settings and the
    /// parameter names `params` (those of the default instrument).
    pub fn with_params(name: String, params: &Vec<String>) -> (t: Track)
        ensures
            t@ == (TrackView { params: params.deep_view(), ..new_track_view(name@) }),
            t.wf(),
    {
        let mut t = Track::named(name);
        t.params = copy_strings(params);
        t
    }

    /// An empty track with the given name and the default mix settings.
    pub fn named(name: String) -> (t: Track)
        ensures
            t@ == new_track_view(name@),
            t.wf(),
    {
        let t = Track {
            name,
            clips: Vec::new(),
            level: DEFAULT_TRACK_LEVEL,
            muted: false,
            solo: false,
            midi_notes: Vec::new(),
            instrument_path: None,
            instrument_clap_id: None,
            effect_paths: Vec::new(),
            effect_clap_ids: Vec::new(),
            effect_bypass: Vec::new(),
            param_ids: Vec::new(),
            param_values: Vec::new(),
            params: Vec::new(),
            effect_param_ids: Vec::new(),
            effect_params: Vec::new(),
            effect_param_values: Vec::new(),
            automation_lanes: Vec::new(),
            plugin_state_component: None,
            plugin_state_controller: None,
            treesynth: None,
            drum_machine: None,
        };
        assert(t.clips.deep_view() =~= Seq::<ClipView>::empty());
        assert(t.effect_paths.deep_view() =~= Seq::<Seq<char>>::empty());
        assert(t.midi_notes@ =~= Seq::<PianoRollNote>::empty());
        assert(t.param_ids@ =~= Seq::<u32>::empty());
        assert(t.param_values@ =~= Seq::<u32>::empty());
        assert(t.params.deep_view() =~= Seq::<Seq<char>>::empty());
        assert(t.effect_param_ids.deep_view() =~= Seq::<Seq<u32>>::empty());
        assert(t.effect_params.deep_view() =~= Seq::<Seq<Seq<char>>>::empty());
        assert(t.effect_clap_ids.deep_view() =~= Seq::<Option<Seq<char>>>::empty());
        assert(t.effect_bypass@ =~= Seq::<bool>::empty());
        assert(t.effect_param_values.deep_view() =~= Seq::<Seq<u32>>::empty());
        assert(t.automation_lanes.deep_view() =~= Seq::<LaneView>::empty());
        t
    }
}

/// The value of an empty track named `name` with the default mix settings.
pub open spec fn new_track_view(name: Seq<char>) -> TrackView {
    TrackView {
        name,
        clips: Seq::empty(),
        level: DEFAULT_TRACK_LEVEL,
        muted: false,
        solo: false,
        midi_notes: Seq::empty(),
        instrument_path: None,
        instrument_clap_id: None,
        effect_paths: Seq::empty(),
        effect_clap_ids: Seq::empty(),
        effect_bypass: Seq::empty(),
        param_ids: Seq::empty(),
        param_values: Seq::empty(),
        params: Seq::empty(),
        effect_param_ids: Seq::empty(),
        effect_params: Seq::empty(),
        effect_param_values: Seq::empty(),
        automation_lanes: Seq::empty(),
        plugin_state_component: None,
        plugin_state_controller: None,
        treesynth: None,
        drum_machine: None,
    }
}

/// Every track of `tracks` is well formed.
pub open spec fn tracks_wf(tracks: Seq<Track>) -> bool {
    forall|i: int| 0 <= i < tracks.len() ==> #[trigger] tracks[i].wf()
}

/// How a clip of the performance view reacts to being launched.
#[derive(Clone, Copy, Debug, PartialEq, Eq, Structural)]
pub enum PerformanceTriggerMode {
    OneShot,
    Toggle,
    Gate,
    Loop,
}

/// Launch settings of one clip in the performance view.
#[derive(Clone, Copy, Debug, PartialEq, Eq, Structural)]
pub struct PerformanceClipSettings {
    pub trigger_mode: PerformanceTriggerMode,
    pub loop_enabled: bool,
    pub auto_follow: bool,
    pub next_clip_id: Option<usize>,
}

/// The settings of a clip that has none of its own.
pub open spec fn default_settings() -> PerformanceClipSettings {
    PerformanceClipSettings {
        trigger_mode: PerformanceTriggerMode::OneShot,
        loop_enabled: false,
        auto_follow: false,
        next_clip_id: None,
    }
}

impl PerformanceClipSettings {
    /// The settings of a clip that has none of its own.
    pub fn fresh() -> (s: PerformanceClipSettings)
        ensures
            s == default_settings(),
    {
        PerformanceClipSettings {
            trigger_mode: PerformanceTriggerMode::OneShot,
            loop_enabled: false,
            auto_follow: false,
            next_clip_id: None,
        }
    }
}

/// What a route carries.
#[derive(Clone, Copy, Debug, PartialEq, Eq, Structural)]
pub enum NodeRouteKind {
    AudioSend,
    Sidechain,
}

/// A link of the routing graph: from a track's output pair to a track or to
/// one of its effects.
#[derive(Clone, Copy, Debug, PartialEq, Eq, Structural)]
pub struct NodeRouteLink {
    pub from_track: usize,
    pub source_output_pair: usize,
    pub to_track: usize,
    pub to_fx: Option<usize>,
    pub kind: NodeRouteKind,
    pub enabled: bool,
}

/// The kind of hardware a configured MIDI device is.
#[derive(Clone, Copy, Debug, PartialEq, Eq, Structural)]
pub enum MidiDeviceProfile {
    Keyboard,
    Launchpad,
    Apc,
    PadController,
    ControlSurface,
    Generic,
}

/// A MIDI device the user configured.
pub struct MidiDeviceConfig {
    pub name: String,
    pub profile: MidiDeviceProfile,
    pub input_port: String,
    /// The port controller feedback is sent to; empty for none.
    pub output_port: String,
    pub enabled: bool,
    /// The MIDI channel (1 to 16) the device listens to; 0 for any.
    pub midi_channel: u8,
}

/// The value of a MIDI device's configuration.
pub struct MidiDeviceView {
    pub name: Seq<char>,
    pub profile: MidiDeviceProfile,
    pub input_port: Seq<char>,
    pub output_port: Seq<char>,
    pub enabled: bool,
    pub midi_channel: u8,
}

/// A device named `name` reading `port`, otherwise as newly added (see
/// `MidiDeviceConfig::default`).
pub open spec fn default_device(name: Seq<char>, port: Seq<char>) -> MidiDeviceView {
    MidiDeviceView {
        name,
        profile: MidiDeviceProfile::Keyboard,
        input_port: port,
        output_port: Seq::empty(),
        enabled: true,
        midi_channel: 0,
    }
}

impl DeepView for MidiDeviceConfig {
    type V = MidiDeviceView;

    open spec fn deep_view(&self) -> MidiDeviceView {
        MidiDeviceView {
            name: self.name@,
            profile: self.profile,
            input_port: self.input_port@,
            output_port: self.output_port@,
            enabled: self.enabled,
            midi_channel: self.midi_channel,
        }
    }
}

impl MidiDeviceConfig {
    pub fn copied(&self) -> (r: MidiDeviceConfig)
        ensures
            r.name@ == self.name@,
            r.input_port@ == self.input_port@,
            r.enabled == self.enabled,
            r.deep_view() == self.deep_view(),
    {
        MidiDeviceConfig {
            name: self.name.clone(),
            profile: self.profile,
            input_port: self.input_port.clone(),
            output_port: self.output_port.clone(),
            enabled: self.enabled,
            midi_channel: self.midi_channel,
        }
    }
}

/// A newly added device: a keyboard with no name and no ports, enabled,
/// listening on every channel.
impl Default for MidiDeviceConfig {
    fn default() -> (r: MidiDeviceConfig)
        ensures
            r.deep_view() == default_device(Seq::empty(), Seq::empty()),
            r.name@.len() == 0,
            r.input_port@.len() == 0,
            r.enabled,
            r.midi_channel == 0,
    {
        MidiDeviceConfig {
            name: String::new(),
            profile: MidiDeviceProfile::Keyboard,
            input_port: String::new(),
            output_port: String::new(),
            enabled: true,
            midi_channel: 0,
        }
    }
}

/// User settings that outlive a project.
pub struct SettingsState {
    pub buffer_size: u32,
    pub triple_buffer: bool,
    pub sample_rate: u32,
    pub recent_projects: Vec<String>,
    pub midi_input: String,
    pub midi_devices: Vec<MidiDeviceConfig>,
    pub device_id: String,
    pub device_salt: String,
    pub registered_to: String,
    pub wallpaper_path: String,
    pub browser_folders: Vec<String>,
    /// Token of the signed-in license account.
    pub auth_token: String,
    /// The signed license file, as downloaded.
    pub license_file: String,
    pub license_monthly_activations: Option<u64>,
    pub license_remaining_activations: Option<u64>,
    /// The name of the sound card audio plays on; blank for the system's
    /// default.
    pub output_device: String,
}

/// A performance take that is still running on a track.
#[derive(Clone, Copy, Debug, PartialEq, Eq, Structural)]
pub struct ActivePerformanceTake {
    pub source_clip_id: usize,
    pub start_beat: i64,
    pub trigger_mode: PerformanceTriggerMode,
    pub loop_enabled: bool,
}

/// A finished performance take: a clip played on a track over a span of time.
#[derive(Clone, Copy, Debug, PartialEq, Eq, Structural)]
pub struct RecordedPerformanceTake {
    pub track_index: usize,
    pub source_clip_id: usize,
    pub start_beat: i64,
    pub end_beat: i64,
    pub loop_enabled: bool,
}

/// The recorder's state while a take is being recorded.
pub struct RecordingBuffers {
    pub active: bool,
    /// The track being recorded, `usize::MAX` for none.
    pub track_index: usize,
    pub record_performance: bool,
    pub performance_active: HashMap<usize, ActivePerformanceTake>,
    pub performance_takes: Vec<RecordedPerformanceTake>,
    /// Where on the timeline the take started.
    pub start_beat: i64,
    pub record_audio: bool,
    pub record_midi: bool,
    pub record_automation: bool,
    /// Notes held down while MIDI is recorded: note number to where it
    /// started and its velocity.
    pub midi_active: HashMap<u8, (i64, u8)>,
    /// Notes recorded so far.
    pub midi_notes: Vec<PianoRollNote>,
    /// Parameter changes recorded so far.
    pub automation_points: Vec<crate::automation::RecordedAutomationPoint>,
}

/// The editor's project and session state.
pub struct DawApp {
    pub project_name: String,
    pub project_path: String,
    pub metadata_artist: String,
    pub metadata_title: String,
    pub metadata_album: String,
    pub metadata_genre: String,
    pub metadata_year: String,
    pub metadata_comment: String,
    pub tracks: Vec<Track>,
    pub selected_track: Option<usize>,
    pub selected_clip: Option<usize>,
    pub performance_clip_settings: HashMap<usize, PerformanceClipSettings>,
    pub performance_selected_clip: Option<usize>,
    pub node_routes: Vec<NodeRouteLink>,
    pub rename_buffer: String,
    pub show_rename_track: bool,
    pub rename_clip_buffer: String,
    pub rename_clip_target: Option<(usize, usize)>,
    pub show_rename_clip: bool,
    pub project_name_buffer: String,
    pub show_rename_project: bool,
    pub status: String,
    pub dirty: bool,
    pub automation_active: Option<(usize, usize)>,
    pub automation_rows_expanded: HashSet<usize>,
    pub midi_learn: Option<(usize, u32)>,
    pub recording: RecordingBuffers,
    pub is_recording: bool,
    pub settings: SettingsState,
    pub settings_path: String,
    pub buffer_override: Option<u32>,
    pub license_status: String,
    /// Whether the transport plays the arrangement (off while only
    /// performance clips run).
    pub arrangement_playback: bool,
    /// Whether the audio engine is running.
    pub audio_running: bool,
    /// The track whose plug-in parameters the parameter view last showed.
    pub last_params_track: Option<usize>,
    /// The serial number typed into the license dialog.
    pub license_serial: String,
    /// The wallpaper file whose image is loaded, empty when none is.
    pub wallpaper_texture_path: String,
    /// What the next recording takes: audio, MIDI notes, automation,
    /// performance launches.
    pub record_audio: bool,
    pub record_midi: bool,
    pub record_automation: bool,
    pub record_performance: bool,
    /// Whether the running recording started the audio engine itself.
    pub record_started_audio: bool,
    /// The account name or e-mail, password and device label typed into the
    /// license dialog.
    pub license_identifier: String,
    pub license_password: String,
    pub license_device_label: String,
    /// The folders of the project tree shown open, and the entry selected
    /// there (by path).
    pub fs_expanded: Vec<String>,
    pub fs_selected: Option<String>,
    /// The folders of the file browser shown open, and the entry selected
    /// there (by path).
    pub browser_expanded: Vec<String>,
    pub browser_selected: Option<String>,
}

impl DawApp {
    /// The timeline values of the project are within bounds.
    pub open spec fn wf(&self) -> bool {
        tracks_wf(self.tracks@)
    }
}

} // verus!
