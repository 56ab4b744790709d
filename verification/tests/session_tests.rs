use std::collections::HashMap;
use std::collections::HashSet;

use lingstation::automation::{coalesce_automation_points, RecordedAutomationPoint};
use lingstation::instrument::HostSnapshot;
use lingstation::launch::{LaunchOutcome, PerformanceRuntimeClip};
use lingstation::midi_input::{ControlOutcome, MidiMessage};
use lingstation::model::ActivePerformanceTake;
use lingstation::session_recording::RecordingPlan;
use lingstation::model::{
    AutomationPoint, AutomationTarget, Clip, DawApp, MidiDeviceConfig, MidiDeviceProfile, PerformanceClipSettings,
    PerformanceTriggerMode, PianoRollNote, RecordingBuffers, SettingsState, Track,
};

fn settings() -> SettingsState {
    SettingsState {
        buffer_size: 512,
        triple_buffer: false,
        sample_rate: 48000,
        recent_projects: Vec::new(),
        midi_input: String::new(),
        midi_devices: Vec::new(),
        device_id: String::new(),
        device_salt: String::new(),
        registered_to: String::new(),
        wallpaper_path: String::new(),
        browser_folders: Vec::new(),
        auth_token: String::new(),
        license_file: String::new(),
        license_monthly_activations: None,
        license_remaining_activations: None,
        output_device: String::new(),
    }
}

fn app(tracks: Vec<Track>) -> DawApp {
    DawApp {
        project_name: "Demo".to_string(),
        project_path: String::new(),
        metadata_artist: String::new(),
        metadata_title: String::new(),
        metadata_album: String::new(),
        metadata_genre: String::new(),
        metadata_year: String::new(),
        metadata_comment: String::new(),
        tracks,
        selected_track: None,
        selected_clip: None,
        performance_clip_settings: HashMap::new(),
        performance_selected_clip: None,
        node_routes: Vec::new(),
        rename_buffer: String::new(),
        show_rename_track: false,
        rename_clip_buffer: String::new(),
        rename_clip_target: None,
        show_rename_clip: false,
        project_name_buffer: String::new(),
        show_rename_project: false,
        status: String::new(),
        dirty: false,
        automation_active: None,
        automation_rows_expanded: HashSet::new(),
        midi_learn: None,
        recording: RecordingBuffers {
            active: false,
            track_index: usize::MAX,
            record_performance: false,
            performance_active: HashMap::new(),
            performance_takes: Vec::new(),
            start_beat: 0,
            record_audio: false,
            record_midi: false,
            record_automation: false,
            midi_active: HashMap::new(),
            midi_notes: Vec::new(),
            automation_points: Vec::new(),
        },
        is_recording: false,
        settings: settings(),
        settings_path: "settings.json".to_string(),
        buffer_override: None,
        license_status: String::new(),
        arrangement_playback: true,
        audio_running: false,
        last_params_track: None,
        license_serial: String::new(),
        wallpaper_texture_path: String::new(),
        record_audio: false,
        record_midi: true,
        record_automation: false,
        record_performance: false,
        record_started_audio: false,
        license_identifier: String::new(),
        license_password: String::new(),
        license_device_label: String::new(),
        fs_expanded: Vec::new(),
        fs_selected: None,
        browser_expanded: Vec::new(),
        browser_selected: None,
    }
}

fn clip(id: usize, track: usize, start: i64, length: i64, name: &str) -> Clip {
    Clip {
        id,
        track,
        start,
        length,
        is_midi: true,
        midi_notes: Vec::new(),
        midi_source: None,
        link_id: None,
        name: name.to_string(),
        audio_path: None,
        audio_source: None,
    }
}

fn track_with(name: &str, clips: Vec<Clip>) -> Track {
    let mut t = Track::named(name.to_string());
    t.clips = clips;
    t
}

fn settings_with(mode: PerformanceTriggerMode, auto_follow: bool, next: Option<usize>) -> PerformanceClipSettings {
    PerformanceClipSettings { trigger_mode: mode, loop_enabled: false, auto_follow, next_clip_id: next }
}

#[test]
fn rename_selected_track() {
    let mut a = app(vec![Track::named("One".to_string()), Track::named("Two".to_string())]);
    a.begin_rename_selected_track();
    assert!(!a.show_rename_track);
    a.selected_track = Some(1);
    a.begin_rename_selected_track();
    assert!(a.show_rename_track);
    assert_eq!(a.rename_buffer, "Two");
    a.rename_buffer = "  Bass ".to_string();
    a.apply_rename();
    assert_eq!(a.tracks[1].name, "Bass");
    assert_eq!(a.status, "Track renamed");
    assert!(a.dirty);
}

#[test]
fn rename_clip_by_id() {
    let mut a = app(vec![track_with("T", vec![clip(4, 0, 0, 1000, "Intro"), clip(4, 0, 1000, 1000, "Again")])]);
    a.begin_rename_clip(0, 4);
    assert_eq!(a.rename_clip_buffer, "Intro");
    assert_eq!(a.rename_clip_target, Some((0, 4)));
    a.begin_rename_clip(0, 9);
    assert_eq!(a.rename_clip_buffer, "Clip");
    a.begin_rename_clip(0, 4);
    a.rename_clip_buffer = " Verse ".to_string();
    a.apply_rename_clip();
    assert_eq!(a.tracks[0].clips[0].name, "Verse");
    assert_eq!(a.tracks[0].clips[1].name, "Again");
    assert_eq!(a.status, "Clip renamed");
}

#[test]
fn rename_clip_ignores_blank_or_missing() {
    let mut a = app(vec![track_with("T", vec![clip(1, 0, 0, 1000, "A")])]);
    a.rename_clip_target = Some((0, 2));
    a.rename_clip_buffer = "B".to_string();
    a.apply_rename_clip();
    assert_eq!(a.tracks[0].clips[0].name, "A");
    assert!(!a.dirty);
    a.rename_clip_target = Some((0, 1));
    a.rename_clip_buffer = " ".to_string();
    a.apply_rename_clip();
    assert_eq!(a.tracks[0].clips[0].name, "A");
}

#[test]
fn active_track_instrument_and_notes() {
    let mut t0 = Track::named("A".to_string());
    t0.instrument_path = Some("synths/Cat.vst3".to_string());
    t0.midi_notes = vec![PianoRollNote { start: 0, length: 500, note: 60, velocity: 100 }];
    let t1 = Track::named("B".to_string());
    let mut a = app(vec![t0, t1]);
    assert_eq!(a.active_instrument_path(), Some("synths/Cat.vst3".to_string()));
    assert_eq!(a.active_midi_notes().len(), 1);
    a.selected_track = Some(1);
    assert_eq!(a.active_instrument_path(), None);
    assert!(a.active_midi_notes().is_empty());
    a.selected_track = Some(7);
    assert_eq!(a.active_instrument_path(), None);
}

#[test]
fn buffer_sizes() {
    let mut a = app(Vec::new());
    assert_eq!(a.base_buffer_size(), 512);
    a.buffer_override = Some(0);
    assert_eq!(a.base_buffer_size(), 1);
    a.buffer_override = Some(256);
    a.settings.triple_buffer = true;
    assert_eq!(a.effective_buffer_size(), 768);
    a.buffer_override = Some(u32::MAX / 2);
    assert_eq!(a.effective_buffer_size(), u32::MAX);
    assert_eq!(a.settings_path(), "settings.json");
}

#[test]
fn legacy_midi_input_becomes_a_device() {
    let mut a = app(Vec::new());
    a.settings.midi_input = "Port A".to_string();
    a.migrate_legacy_midi_settings();
    assert_eq!(a.settings.midi_devices.len(), 1);
    assert_eq!(a.settings.midi_devices[0].name, "Primary Keyboard");
    assert_eq!(a.settings.midi_devices[0].input_port, "Port A");
    assert!(a.settings.midi_devices[0].enabled);
}

#[test]
fn legacy_port_taken_from_first_usable_device() {
    let mut a = app(Vec::new());
    a.settings.midi_devices = vec![
        MidiDeviceConfig { name: "Off".to_string(), profile: MidiDeviceProfile::Keyboard, input_port: "P0".to_string(), output_port: String::new(), enabled: false, midi_channel: 0 },
        MidiDeviceConfig { name: "Blank".to_string(), profile: MidiDeviceProfile::Keyboard, input_port: " ".to_string(), output_port: String::new(), enabled: true, midi_channel: 0 },
        MidiDeviceConfig { name: "Keys".to_string(), profile: MidiDeviceProfile::Keyboard, input_port: "P2".to_string(), output_port: String::new(), enabled: true, midi_channel: 0 },
    ];
    a.migrate_legacy_midi_settings();
    assert_eq!(a.settings.midi_input, "P2");
    let active = a.active_midi_input_devices();
    assert_eq!(active.len(), 1);
    assert_eq!(active[0].name, "Keys");
}

#[test]
fn legacy_input_device_when_none_configured() {
    let mut a = app(Vec::new());
    assert!(a.active_midi_input_devices().is_empty());
    a.settings.midi_input = "Old".to_string();
    let active = a.active_midi_input_devices();
    assert_eq!(active.len(), 1);
    assert_eq!(active[0].name, "Legacy MIDI Input");
    assert_eq!(active[0].input_port, "Old");
}

#[test]
fn browser_folder_removed() {
    let mut a = app(Vec::new());
    a.settings.browser_folders = vec!["/a".to_string(), "/b".to_string(), "/a".to_string()];
    a.remove_browser_folder("/a");
    assert_eq!(a.settings.browser_folders, vec!["/b".to_string()]);
    assert_eq!(a.status, "Browser folder removed: /a");
}

#[test]
fn arrangement_playback_flag() {
    let mut a = app(Vec::new());
    a.set_arrangement_playback_enabled(false);
    assert!(!a.arrangement_playback_enabled());
}

#[test]
fn launch_points_round_up_to_grid() {
    let a = app(Vec::new());
    assert_eq!(a.performance_launch_samples(1000, 480), 1440);
    assert_eq!(a.performance_launch_samples(960, 480), 960);
    assert_eq!(a.performance_launch_samples(0, 480), 0);
    assert_eq!(a.performance_launch_samples(7, 1), 7);
}

#[test]
fn new_project_has_one_track() {
    let mut a = app(vec![Track::named("x".to_string()), Track::named("y".to_string())]);
    a.dirty = true;
    a.metadata_artist = "A".to_string();
    a.audio_running = true;
    let mut slots = Vec::new();
    let defaults = vec!["Cutoff".to_string(), "Resonance".to_string()];
    assert!(a.new_project(&mut slots, 0, &defaults).is_none());
    assert_eq!(a.tracks[0].params, defaults);
    assert!(!a.audio_running && !a.is_recording);
    assert_eq!(a.project_name, "Untitled Project");
    assert_eq!(a.tracks.len(), 1);
    assert_eq!(a.tracks[0].name, "Track 1");
    assert_eq!(a.selected_track, Some(0));
    assert_eq!(a.node_routes.len(), 1);
    assert!(!a.dirty);
    assert_eq!(a.status, "New project");
    assert!(a.metadata_artist.is_empty());
}

#[test]
fn shortcut_and_synth_tables() {
    let s = DawApp::shortcuts_by_category();
    assert_eq!(s.len(), 5);
    assert_eq!(s[1].0, "File");
    assert_eq!(s[1].1[1], ("Ctrl+Shift+S".to_string(), "Save As".to_string()));
    let b = DawApp::bundled_synths();
    assert_eq!(b.len(), 7);
    assert_eq!(b[3].0, "LingSynth");
}

#[test]
fn coalesce_sorts_and_merges_close_points() {
    let p = |tick: i64, value: u32| AutomationPoint { tick, value };
    let out = coalesce_automation_points(&vec![p(100, 1), p(0, 2), p(110, 3), p(50, 4), p(200, 5)]);
    assert_eq!(out, vec![p(0, 2), p(50, 4), p(110, 3), p(200, 5)]);
    let again = coalesce_automation_points(&out);
    assert_eq!(again, out);
}

#[test]
fn recorded_automation_creates_named_lanes() {
    let mut t = Track::named("T".to_string());
    t.param_ids = vec![7, 9];
    t.params = vec!["Cutoff".to_string(), "Res".to_string()];
    t.effect_paths = vec!["fx.vst3".to_string()];
    let mut a = app(vec![t]);
    let r = |target, param_id, tick, value| RecordedAutomationPoint { target, param_id, tick, value };
    let points = vec![
        r(AutomationTarget::Instrument, 9, 100, 1),
        r(AutomationTarget::Effect(0), 3, 0, 2),
        r(AutomationTarget::Instrument, 9, 0, 3),
        r(AutomationTarget::Instrument, 42, 10, 4),
        r(AutomationTarget::Effect(2), 5, 10, 6),
    ];
    a.apply_recorded_automation(0, points, &vec!["Reverb".to_string()]);
    let lanes = &a.tracks[0].automation_lanes;
    let names: Vec<String> = lanes.iter().map(|l| l.name.clone()).collect();
    assert_eq!(names, vec!["Res", "Reverb: Param 3", "Param 42", "FX 3: Param 5"]);
    assert_eq!(lanes[0].points, vec![AutomationPoint { tick: 0, value: 3 }, AutomationPoint { tick: 100, value: 1 }]);
}

#[test]
fn recorded_automation_replaces_points_in_its_span() {
    let mut a = app(vec![Track::named("T".to_string())]);
    let r = |tick, value| RecordedAutomationPoint { target: AutomationTarget::Instrument, param_id: 1, tick, value };
    a.apply_recorded_automation(0, vec![r(0, 1), r(500, 1), r(1000, 1), r(2000, 1)], &Vec::new());
    a.apply_recorded_automation(0, vec![r(490, 9), r(1010, 9)], &Vec::new());
    let ticks: Vec<(i64, u32)> = a.tracks[0].automation_lanes[0].points.iter().map(|p| (p.tick, p.value)).collect();
    assert_eq!(ticks, vec![(0, 1), (490, 9), (1010, 9), (2000, 1)]);
    assert_eq!(a.tracks[0].automation_lanes.len(), 1);
    assert_eq!(a.tracks[0].automation_lanes[0].name, "Param 1");
}

#[test]
fn launch_and_toggle_performance_clip() {
    let a = app(vec![track_with("T", vec![clip(3, 0, 0, 4000, "A")]), Track::named("U".to_string())]);
    let mut slots: Vec<Option<PerformanceRuntimeClip>> = Vec::new();
    let toggle = settings_with(PerformanceTriggerMode::Toggle, false, None);
    assert_eq!(a.launch_performance_clip_at(&mut slots, 1, 3, toggle, 100, None), Ok(LaunchOutcome::Launched));
    assert_eq!(slots.len(), 2);
    let active = slots[1].as_ref().unwrap();
    assert_eq!(active.clip.id, 3);
    assert_eq!(active.launch_samples, 100);
    assert!(!active.loop_enabled);
    assert_eq!(a.launch_performance_clip_at(&mut slots, 1, 3, toggle, 200, None), Ok(LaunchOutcome::Stopped));
    assert!(slots[1].is_none());
    let looped = settings_with(PerformanceTriggerMode::Loop, false, None);
    assert_eq!(a.launch_performance_clip(&mut slots, 0, 3, looped, 1000, 480, None), Ok(LaunchOutcome::Launched));
    assert_eq!(slots[0].as_ref().unwrap().launch_samples, 1440);
    assert!(slots[0].as_ref().unwrap().loop_enabled);
    assert_eq!(
        a.launch_performance_clip_at(&mut slots, 0, 99, looped, 0, None),
        Err("Performance clip not found".to_string())
    );
    a.stop_performance_track(&mut slots, 0);
    assert!(slots[0].is_none());
}

#[test]
fn auto_follow_moves_to_next_clip() {
    let mut a = app(vec![track_with("T", vec![clip(1, 0, 0, 1000, "A"), clip(2, 0, 1000, 1000, "B")])]);
    a.performance_clip_settings.insert(1, settings_with(PerformanceTriggerMode::OneShot, true, Some(2)));
    a.audio_running = true;
    let mut lengths = HashMap::new();
    lengths.insert(1usize, 100u64);
    lengths.insert(2usize, 100u64);
    let mut slots: Vec<Option<PerformanceRuntimeClip>> = Vec::new();
    let one_shot = settings_with(PerformanceTriggerMode::OneShot, false, None);
    a.launch_performance_clip_at(&mut slots, 0, 1, one_shot, 0, None).unwrap();
    let target = a.next_performance_follow_target(slots[0].as_ref().unwrap(), 150, &lengths);
    assert_eq!(target, Some((0, 2, PerformanceClipSettings::fresh(), 100)));
    assert_eq!(a.next_performance_follow_target(slots[0].as_ref().unwrap(), 50, &lengths), None);
    let silenced = a.update_performance_auto_follow(&mut slots, 150, &lengths, &HashMap::new());
    assert!(silenced.is_empty());
    assert_eq!(slots[0].as_ref().unwrap().clip.id, 2);
    assert_eq!(slots[0].as_ref().unwrap().launch_samples, 100);
    a.update_performance_auto_follow(&mut slots, 250, &lengths, &HashMap::new());
    assert!(slots[0].is_none());
}

#[test]
fn auto_follow_stops_at_cycles() {
    let mut a = app(vec![track_with("T", vec![clip(1, 0, 0, 1000, "A"), clip(2, 0, 1000, 1000, "B")])]);
    a.performance_clip_settings.insert(1, settings_with(PerformanceTriggerMode::OneShot, true, Some(2)));
    a.performance_clip_settings.insert(2, settings_with(PerformanceTriggerMode::OneShot, true, Some(1)));
    let mut lengths = HashMap::new();
    lengths.insert(1usize, 10u64);
    lengths.insert(2usize, 10u64);
    let mut slots: Vec<Option<PerformanceRuntimeClip>> = Vec::new();
    a.launch_performance_clip_at(&mut slots, 0, 1, PerformanceClipSettings::fresh(), 0, None).unwrap();
    assert_eq!(a.next_performance_follow_target(slots[0].as_ref().unwrap(), 15, &lengths).map(|t| t.1), Some(2));
    assert_eq!(a.next_performance_follow_target(slots[0].as_ref().unwrap(), 1000, &lengths), None);
    a.update_performance_auto_follow(&mut slots, 1000, &lengths, &HashMap::new());
    assert_eq!(slots[0].as_ref().unwrap().clip.id, 1);
}

#[test]
fn capture_plugin_states_from_snapshots() {
    let mut t0 = Track::named("A".to_string());
    t0.param_ids = vec![1, 2, 3];
    t0.param_values = vec![5];
    let mut t1 = Track::named("B".to_string());
    t1.param_ids = vec![1];
    t1.param_values = vec![8];
    let mut a = app(vec![t0, t1]);
    let snaps = vec![
        Some(HostSnapshot { component: Vec::new(), controller: Vec::new(), param_values: vec![None, Some(7), None] }),
        Some(HostSnapshot { component: vec![1, 2], controller: Vec::new(), param_values: vec![Some(9)] }),
    ];
    a.capture_plugin_states(&snaps);
    assert_eq!(a.tracks[0].param_values, vec![5, 7, 0]);
    assert_eq!(a.tracks[0].plugin_state_component, None);
    assert_eq!(a.tracks[1].param_values, vec![8]);
    assert_eq!(a.tracks[1].plugin_state_component, Some(vec![1, 2]));
    assert_eq!(a.tracks[1].plugin_state_controller, None);
}

#[test]
fn replace_instrument_resets_track() {
    let mut t = Track::named("A".to_string());
    t.param_ids = vec![1];
    t.param_values = vec![2];
    t.plugin_state_component = Some(vec![1]);
    let mut a = app(vec![t]);
    let mut slots = Vec::new();
    let refresh = a.replace_instrument(0, "NATIVE:TreeSynth".to_string(), None, &vec!["Gain".to_string()], &mut slots);
    assert!(refresh);
    assert_eq!(a.tracks[0].instrument_path, Some("NATIVE:TreeSynth".to_string()));
    assert!(a.tracks[0].param_ids.is_empty());
    assert!(a.tracks[0].plugin_state_component.is_none());
    assert!(a.tracks[0].treesynth.is_some());
    assert!(a.tracks[0].drum_machine.is_none());
    assert_eq!(a.tracks[0].params, vec!["Gain".to_string()]);
    a.audio_running = true;
    let refresh = a.replace_instrument(0, "x.clap".to_string(), Some("id".to_string()), &Vec::new(), &mut slots);
    assert!(!refresh);
    assert!(!a.audio_running);
    assert!(a.tracks[0].treesynth.is_none());
    assert_eq!(a.status, "Instrument changed. Press Play to activate it safely.");
}

#[test]
fn parameter_refresh_on_selection_change() {
    let mut a = app(vec![Track::named("A".to_string()), Track::named("B".to_string())]);
    assert_eq!(a.refresh_params_for_selected_track(true), (false, false));
    a.selected_track = Some(1);
    assert_eq!(a.refresh_params_for_selected_track(false), (true, true));
    assert_eq!(a.last_params_track, Some(1));
    assert_eq!(a.refresh_params_for_selected_track(false), (false, false));
    assert_eq!(a.refresh_params_for_selected_track(true), (false, true));
}

fn section(start: i64, length: i64, loop_unit: Option<i64>) -> lingstation::performance::PerformanceSectionAnalysis {
    lingstation::performance::PerformanceSectionAnalysis { start, length, loop_unit }
}

#[test]
fn smart_sections_chain_and_loop() {
    let mut looping = clip(1, 0, 0, 8000, "Loop");
    looping.midi_notes = vec![PianoRollNote { start: 0, length: 100, note: 60, velocity: 90 }];
    let mut audio = clip(2, 1, 0, 4000, "Pad");
    audio.is_midi = false;
    audio.audio_source = Some(1000);
    let mut a = app(vec![
        track_with("Drums", vec![looping, clip(3, 0, 8000, 4000, "Fill")]),
        track_with("Pad", vec![audio, clip(4, 1, 8000, 4000, "Pad 2")]),
    ]);
    let sections = vec![section(0, 8000, Some(4000)), section(8000, 4000, None)];
    let mut repeats = HashMap::new();
    repeats.insert(1usize, 4000i64);
    let (configured, loops) = a.apply_smart_performance_sections(&sections, &repeats);
    assert_eq!((configured, loops), (4, 1));
    assert_eq!(a.tracks[0].clips[0].midi_source, Some(4000));
    let s1 = a.performance_clip_settings[&1];
    assert_eq!(s1.trigger_mode, PerformanceTriggerMode::Loop);
    assert!(s1.loop_enabled && !s1.auto_follow);
    let s2 = a.performance_clip_settings[&2];
    assert_eq!(s2.trigger_mode, PerformanceTriggerMode::OneShot);
    assert_eq!(s2.next_clip_id, Some(4));
    assert!(s2.auto_follow);
    let s3 = a.performance_clip_settings[&3];
    assert_eq!(s3.next_clip_id, None);
    assert!(!s3.auto_follow);
    assert_eq!(a.find_track_clip_at_section_start(1, 8000), Some(4));
    assert_eq!(a.find_track_clip_at_section_start(1, 7990), Some(4));
    assert_eq!(a.find_track_clip_at_section_start(5, 0), None);
}

#[test]
fn auto_build_needs_sections_and_tracks() {
    let mut a = app(vec![track_with("T", vec![clip(1, 0, 0, 4000, "A"), clip(2, 0, 4000, 4000, "B")])]);
    let empty = a.auto_build_performance_from_arrangement(&Vec::new(), 3, &HashMap::new());
    assert_eq!(empty.sections, 0);
    assert_eq!(empty.slices_created, 0);
    let summary = a.auto_build_performance_from_arrangement(
        &vec![section(0, 4000, None), section(4000, 4000, None)],
        1,
        &HashMap::new(),
    );
    assert_eq!((summary.sections, summary.slices_created, summary.configured_clips, summary.loop_clips), (2, 1, 2, 0));
    assert_eq!(a.performance_clip_settings[&1].next_clip_id, Some(2));
}

#[test]
fn slice_plan_on_grid() {
    let a = app(vec![track_with("T", vec![clip(1, 0, 0, 4000, "A"), clip(2, 0, 4100, 1030, "B")])]);
    let plan = a.auto_slice_playlist_to_performance(1000);
    assert_eq!(plan, vec![(1, vec![1000, 2000, 3000]), (2, vec![5000])]);
    let plan = a.auto_slice_playlist_to_performance(10);
    assert_eq!(plan[0].1.len(), 15);
}

#[test]
fn render_model_of_tracks() {
    let mut t = Track::named("A".to_string());
    t.instrument_path = Some("x.vst3".to_string());
    t.muted = true;
    let r = DawApp::render_track_model(2, &t, false, None);
    assert_eq!(r.index, 2);
    assert!(!r.mix.active);
    assert_eq!(r.host_id, Some("x.vst3".to_string()));
    t.instrument_clap_id = Some("org.synth".to_string());
    t.muted = false;
    let r = DawApp::render_track_model(0, &t, true, None);
    assert!(!r.mix.active);
    assert_eq!(r.host_id, Some("org.synth".to_string()));
    let r = DawApp::render_track_model(0, &t, true, Some(true));
    assert!(r.mix.active);
}

#[test]
fn session_clock_and_wallpaper() {
    let mut a = app(Vec::new());
    a.start_session_clock();
    assert!(!a.arrangement_playback);
    a.start_audio_and_midi();
    assert!(a.arrangement_playback);
    a.wallpaper_texture_path = "w.png".to_string();
    a.invalidate_wallpaper_texture();
    assert!(a.wallpaper_texture_path.is_empty());
}

#[test]
fn recording_start_plan() {
    let mut a = app(vec![Track::named("A".to_string()), Track::named("B".to_string())]);
    a.selected_track = Some(9);
    assert_eq!(a.begin_recording(true), Err("Cannot record while rendering".to_string()));
    assert_eq!(a.begin_recording(false), Ok(Some(RecordingPlan { track_index: 1, start_audio: true })));
    a.record_audio = true;
    assert!(a.arm_recorder(1, 4000, true));
    assert!(a.recording.active);
    assert_eq!(a.recording.start_beat, 4000);
    assert!(a.record_started_audio);
    assert!(a.toggle_recording());
    a.mark_recording_started();
    assert!(a.is_recording);
    assert_eq!(a.status, "Recording...");
    assert_eq!(a.begin_recording(false), Ok(None));
    assert!(!a.toggle_recording());
}

#[test]
fn recording_stop_closes_running_takes() {
    let mut a = app(vec![track_with("T", vec![clip(1, 0, 0, 4000, "A")])]);
    a.record_performance = true;
    a.arm_recorder(0, 0, false);
    a.mark_recording_started();
    a.recording.performance_active.insert(
        0,
        ActivePerformanceTake { source_clip_id: 1, start_beat: 1000, trigger_mode: PerformanceTriggerMode::Loop, loop_enabled: true },
    );
    a.recording.performance_active.insert(
        3,
        ActivePerformanceTake { source_clip_id: 1, start_beat: 0, trigger_mode: PerformanceTriggerMode::OneShot, loop_enabled: false },
    );
    let ended = a.end_recording(5000).unwrap();
    assert!(!a.is_recording && !a.recording.active);
    assert!(ended.record_performance);
    assert_eq!(ended.performance_takes.len(), 1);
    assert_eq!((ended.performance_takes[0].start_beat, ended.performance_takes[0].end_beat), (1000, 5000));
    assert!(a.recording.performance_active.is_empty());
    assert!(a.end_recording(6000).is_none());
    a.recording_failed(false, "disk full");
    assert_eq!(a.status, "Stop recording failed: disk full");
    a.mark_recording_stopped();
    assert_eq!(a.status, "Recording stopped");
}

#[test]
fn midi_messages_parsed() {
    assert_eq!(DawApp::parse_midi_message(&[0x90, 60, 100], 0), MidiMessage::NoteOn { channel: 0, note: 60, velocity: 100 });
    assert_eq!(DawApp::parse_midi_message(&[0x91, 60, 0], 0), MidiMessage::NoteOff { channel: 1, note: 60, velocity: 0 });
    assert_eq!(DawApp::parse_midi_message(&[0x80, 61, 64, 9], 1), MidiMessage::NoteOff { channel: 0, note: 61, velocity: 64 });
    assert_eq!(DawApp::parse_midi_message(&[0xB2, 7, 127], 3), MidiMessage::Control { channel: 2, controller: 7, value: 127 });
    assert_eq!(DawApp::parse_midi_message(&[0xB2, 7, 127], 2), MidiMessage::Ignored);
    assert_eq!(DawApp::parse_midi_message(&[0x90, 60], 0), MidiMessage::Ignored);
    assert_eq!(DawApp::parse_midi_message(&[0xE0, 0, 64], 0), MidiMessage::Ignored);
}

#[test]
fn midi_notes_recorded_from_keys() {
    let mut a = app(vec![Track::named("A".to_string())]);
    a.record_midi = true;
    a.arm_recorder(0, 0, false);
    let rec = &mut a.recording;
    DawApp::record_midi_note_on(rec, 60, 100, 1000);
    DawApp::record_midi_note_off(rec, 60, 0, 1020);
    assert_eq!(rec.midi_notes, vec![PianoRollNote { start: 1000, length: 50, note: 60, velocity: 100 }]);
    DawApp::record_midi_note_on(rec, 62, 0, 2000);
    DawApp::record_midi_note_off(rec, 62, 70, 3000);
    assert_eq!(rec.midi_notes[1], PianoRollNote { start: 2000, length: 1000, note: 62, velocity: 70 });
    DawApp::record_midi_note_off(rec, 64, 70, 3000);
    assert_eq!(rec.midi_notes.len(), 2);
    assert!(rec.midi_active.is_empty());
    rec.record_midi = false;
    DawApp::record_midi_note_on(rec, 65, 90, 4000);
    assert!(rec.midi_active.is_empty());
    let ended = a.end_recording(5000);
    assert!(ended.is_none());
    a.mark_recording_started();
    let ended = a.end_recording(5000).unwrap();
    assert_eq!(ended.midi_notes.len(), 2);
    assert!(a.recording.midi_notes.is_empty());
}

#[test]
fn midi_learn_and_controller_automation() {
    let mut a = app(vec![Track::named("A".to_string())]);
    a.record_automation = true;
    a.arm_recorder(0, 0, false);
    let mut learn = Some((1usize, 42u32));
    let r = DawApp::midi_control(&mut a.recording, &mut learn, 1, Some(9), 500, 0x3f80_0000);
    assert_eq!(r, ControlOutcome::Learned { track: 1, param_id: 42 });
    assert_eq!(learn, None);
    assert!(a.recording.automation_points.is_empty());
    let mut learn = Some((2usize, 42u32));
    let r = DawApp::midi_control(&mut a.recording, &mut learn, 1, Some(9), 500, 0x3f80_0000);
    assert_eq!(r, ControlOutcome::Forward);
    assert_eq!(learn, Some((2, 42)));
    assert_eq!(
        a.recording.automation_points,
        vec![RecordedAutomationPoint { param_id: 9, target: AutomationTarget::Instrument, tick: 500, value: 0x3f80_0000 }]
    );
    let r = DawApp::midi_control(&mut a.recording, &mut None, 1, None, 600, 0);
    assert_eq!(r, ControlOutcome::Forward);
    assert_eq!(a.recording.automation_points.len(), 1);
}

#[test]
fn recorded_lane_points_stay_spaced() {
    let mut a = app(vec![Track::named("T".to_string())]);
    let fx: Vec<String> = Vec::new();
    for (tick, value) in [(1000i64, 1u32), (1015, 2), (990, 3), (1040, 4), (1500, 5), (1519, 6)] {
        a.record_automation_point(0, AutomationTarget::Instrument, 2, tick, value, &fx);
    }
    let points = &a.tracks[0].automation_lanes[0].points;
    for w in points.windows(2) {
        assert!(w[1].tick - w[0].tick > 20);
    }
    assert_eq!(coalesce_automation_points(points), *points);
}
