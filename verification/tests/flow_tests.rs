use std::collections::HashMap;
use std::collections::HashSet;

use lingstation::launch::PerformanceRuntimeClip;
use lingstation::loading::LoadedProject;
use lingstation::model::{
    Clip, DawApp, DrumMachineState, MidiDeviceConfig, MidiDeviceProfile, NodeRouteKind, NodeRouteLink, PerformanceClipSettings,
    PerformanceTriggerMode, PianoRollNote, RecordingBuffers, SettingsState, Track, TreeSynthState,
};

fn settings() -> SettingsState {
    SettingsState {
        buffer_size: 512,
        triple_buffer: false,
        sample_rate: 48000,
        recent_projects: Vec::new(),
        midi_input: String::new(),
        midi_devices: Vec::new(),
        device_id: String::new(),
        device_salt: String::new(),
        registered_to: String::new(),
        wallpaper_path: String::new(),
        browser_folders: Vec::new(),
        auth_token: String::new(),
        license_file: String::new(),
        license_monthly_activations: None,
        license_remaining_activations: None,
        output_device: String::new(),
    }
}

fn app(tracks: Vec<Track>) -> DawApp {
    DawApp {
        project_name: "Demo".to_string(),
        project_path: String::new(),
        metadata_artist: String::new(),
        metadata_title: String::new(),
        metadata_album: String::new(),
        metadata_genre: String::new(),
        metadata_year: String::new(),
        metadata_comment: String::new(),
        tracks,
        selected_track: None,
        selected_clip: None,
        performance_clip_settings: HashMap::new(),
        performance_selected_clip: None,
        node_routes: Vec::new(),
        rename_buffer: String::new(),
        show_rename_track: false,
        rename_clip_buffer: String::new(),
        rename_clip_target: None,
        show_rename_clip: false,
        project_name_buffer: String::new(),
        show_rename_project: false,
        status: String::new(),
        dirty: false,
        automation_active: None,
        automation_rows_expanded: HashSet::new(),
        midi_learn: None,
        recording: RecordingBuffers {
            active: false,
            track_index: usize::MAX,
            record_performance: false,
            performance_active: HashMap::new(),
            performance_takes: Vec::new(),
            start_beat: 0,
            record_audio: false,
            record_midi: false,
            record_automation: false,
            midi_active: HashMap::new(),
            midi_notes: Vec::new(),
            automation_points: Vec::new(),
        },
        is_recording: false,
        settings: settings(),
        settings_path: "settings.json".to_string(),
        buffer_override: None,
        license_status: String::new(),
        arrangement_playback: true,
        audio_running: false,
        last_params_track: None,
        license_serial: String::new(),
        wallpaper_texture_path: String::new(),
        record_audio: false,
        record_midi: true,
        record_automation: false,
        record_performance: false,
        record_started_audio: false,
        license_identifier: String::new(),
        license_password: String::new(),
        license_device_label: String::new(),
        fs_expanded: Vec::new(),
        fs_selected: None,
        browser_expanded: Vec::new(),
        browser_selected: None,
    }
}

fn clip(id: usize, track: usize, start: i64, length: i64, name: &str) -> Clip {
    Clip {
        id,
        track,
        start,
        length,
        is_midi: true,
        midi_notes: Vec::new(),
        midi_source: None,
        link_id: None,
        name: name.to_string(),
        audio_path: None,
        audio_source: None,
    }
}

fn track_with(name: &str, clips: Vec<Clip>) -> Track {
    let mut t = Track::named(name.to_string());
    t.clips = clips;
    t
}

fn note(start: i64, length: i64) -> PianoRollNote {
    PianoRollNote { start, length, note: 60, velocity: 100 }
}

fn playing(track: usize) -> Option<PerformanceRuntimeClip> {
    Some(PerformanceRuntimeClip {
        track_index: track,
        launch_samples: 0,
        clip: clip(1, track, 0, 1000, "c"),
        loop_enabled: false,
        trigger_mode: PerformanceTriggerMode::Gate,
        resolved_audio_path: None,
    })
}

fn device(name: &str, port: &str) -> MidiDeviceConfig {
    MidiDeviceConfig { name: name.to_string(), profile: MidiDeviceProfile::Keyboard, input_port: port.to_string(), output_port: String::new(), enabled: true, midi_channel: 0 }
}

fn settings_of(mode: PerformanceTriggerMode) -> PerformanceClipSettings {
    PerformanceClipSettings { trigger_mode: mode, loop_enabled: false, auto_follow: false, next_clip_id: None }
}

#[test]
fn pause_stop_and_restart() {
    let mut a = app(vec![Track::named("A".to_string())]);
    let mut slots = vec![playing(0), None];
    a.audio_running = true;
    assert!(a.pause_audio_and_midi(&mut slots));
    assert!(!a.audio_running && !a.arrangement_playback);
    assert!(slots.iter().all(|s| s.is_none()));
    assert_eq!(slots.len(), 2);
    assert!(!a.pause_audio_and_midi(&mut slots));
    let mut more = vec![playing(1)];
    assert!(!a.stop_audio_and_midi_internal(&mut more, false));
    assert!(more[0].is_none());
    assert!(!a.reinit_audio_if_running(&mut more));
    a.audio_running = true;
    assert!(a.reinit_audio_if_running(&mut more));
    assert!(!a.audio_running);
    a.finish_audio_restart(Ok(()));
    assert_eq!(a.status, "Audio restarted for new VST3");
    a.finish_audio_restart(Err("no device".to_string()));
    assert_eq!(a.status, "Audio restart failed: no device");
}

#[test]
fn project_change_stops_recording_and_playback() {
    let mut a = app(vec![Track::named("A".to_string())]);
    let mut slots = vec![playing(0)];
    a.arm_recorder(0, 0, false);
    a.mark_recording_started();
    a.audio_running = true;
    let ended = a.prepare_for_project_change(&mut slots, 1000);
    assert!(ended.is_some());
    assert!(!a.is_recording && !a.audio_running);
    assert!(slots[0].is_none());
    assert!(a.prepare_for_project_change(&mut slots, 1000).is_none());
}

#[test]
fn midi_inputs_reconnected() {
    let mut a = app(Vec::new());
    assert_eq!(a.reconnect_midi_inputs(&Vec::new()), Err("No MIDI input devices configured".to_string()));
    a.settings.midi_devices = vec![device("Keys", "P1"), device("Pads", "P2")];
    let failed = vec![
        ("Keys".to_string(), Some("gone".to_string())),
        ("Pads".to_string(), Some("busy".to_string())),
    ];
    assert_eq!(a.reconnect_midi_inputs(&failed), Err("Keys (gone); Pads (busy)".to_string()));
    assert_eq!(a.settings.midi_input, "");
    let mixed = vec![("Keys".to_string(), None), ("Pads".to_string(), Some("busy".to_string()))];
    assert_eq!(a.reconnect_midi_inputs(&mixed), Ok(()));
    assert_eq!(a.settings.midi_input, "P1");
    assert_eq!(a.status, "Connected 1 MIDI input(s); skipped Pads (busy)");
    a.status = String::new();
    let all = vec![("Keys".to_string(), None), ("Pads".to_string(), None)];
    assert_eq!(a.reconnect_midi_inputs(&all), Ok(()));
    assert_eq!(a.status, "");
}

fn save_app() -> DawApp {
    let mut intro = clip(7, 0, 1000, 2000, "Intro");
    intro.midi_notes = vec![note(500, 100), note(900, 200), note(2500, 100)];
    let mut pad = Track::named("Pad".to_string());
    pad.midi_notes = vec![note(0, 10)];
    let mut drums = Track::named("Drums".to_string());
    drums.drum_machine = Some(DrumMachineState { pad_paths: vec![None] });
    let mut a = app(vec![track_with("Lead", vec![intro]), pad, drums]);
    a.project_path = " /old ".to_string();
    a
}

#[test]
fn save_plan_for_folder() {
    let a = save_app();
    let plan = a.save_project_to_folder("\\\\?\\C:\\P");
    assert_eq!(plan.folder, "C:\\P");
    assert_eq!(plan.subfolders, vec![
        vec!["midi".to_string()],
        vec!["assets".to_string(), "samples".to_string()],
        vec!["audio".to_string()],
        vec!["renders".to_string()],
    ]);
    assert_eq!(plan.previous_folder, Some("/old".to_string()));
    let names: Vec<&str> = plan.midi_files.iter().map(|f| f.0.as_str()).collect();
    assert_eq!(names, vec!["01_Lead_Intro_clip7.mid", "02_Pad.mid"]);
    assert_eq!(plan.midi_files[0].1, vec![note(0, 200), note(1500, 100)]);
    assert_eq!(plan.midi_files[1].1, vec![note(0, 10)]);
    assert_eq!(plan.tracks[2].instrument_path, Some("native:drummachine".to_string()));
    assert_eq!(plan.tracks[0].instrument_path, None);
}

#[test]
fn finished_save_recorded() {
    let mut a = save_app();
    a.project_name = "  ".to_string();
    a.dirty = true;
    a.finish_project_save("/p/My_Song");
    assert_eq!(a.project_path, "/p/My_Song");
    assert_eq!(a.project_name, "My Song");
    assert_eq!(a.settings.recent_projects[0], "/p/My_Song");
    assert!(!a.dirty);
    assert_eq!(a.status, "Saved /p/My_Song");
    a.project_name = " Demo ".to_string();
    assert_eq!(a.default_project_dir(Some("/opt/ls".to_string())), Some("/opt/ls/Demo".to_string()));
    a.project_name = String::new();
    assert_eq!(a.default_project_dir(Some("/opt/ls".to_string())), Some("/opt/ls/LingStationProject".to_string()));
    assert_eq!(a.default_project_dir(None), None);
}

fn loaded(name: &str, routes: Vec<NodeRouteLink>) -> LoadedProject {
    let mut t = track_with("Keys", vec![clip(1, 0, 0, 1000, "a")]);
    t.treesynth = Some(TreeSynthState { folder: Some("samples".to_string()), sample_paths: vec!["a.wav".to_string()] });
    let mut settings = HashMap::new();
    settings.insert(1usize, settings_of(PerformanceTriggerMode::Loop));
    settings.insert(99usize, settings_of(PerformanceTriggerMode::Gate));
    LoadedProject {
        name: name.to_string(),
        artist: "Ann".to_string(),
        title: String::new(),
        album: String::new(),
        genre: String::new(),
        year: String::new(),
        comment: String::new(),
        tracks: vec![t],
        node_routes: routes,
        performance_clip_settings: settings,
    }
}

#[test]
fn project_opened_from_folder() {
    let mut a = app(Vec::new());
    a.selected_clip = Some(3);
    a.load_project_from_folder(loaded("Song", Vec::new()), "/proj");
    assert_eq!(a.project_name, "Song");
    assert_eq!(a.metadata_artist, "Ann");
    assert_eq!(a.tracks[0].instrument_path, Some("native:treesynth".to_string()));
    let ts = a.tracks[0].treesynth.as_ref().unwrap();
    assert_eq!(ts.folder, Some("/proj/samples".to_string()));
    assert_eq!(ts.sample_paths, vec!["/proj/a.wav".to_string()]);
    assert_eq!(a.node_routes.len(), 1);
    assert_eq!(a.node_routes[0].kind, NodeRouteKind::AudioSend);
    assert_eq!(a.performance_clip_settings.len(), 1);
    assert!(a.performance_clip_settings.contains_key(&1));
    assert_eq!(a.selected_clip, None);
    assert_eq!(a.project_path, "/proj");
    a.finish_project_load("/proj", 0, 0);
    assert_eq!(a.status, "Loaded /proj");
    assert_eq!(a.selected_track, Some(0));
    assert!(!a.dirty);
    a.finish_project_load("/proj", 1, 2);
    assert_eq!(a.status, "Loaded /proj | cleared 1 missing instrument(s), 2 missing effect(s)");
    assert!(a.dirty);
    let kept = NodeRouteLink { from_track: 0, source_output_pair: 9, to_track: 0, to_fx: None, kind: NodeRouteKind::Sidechain, enabled: false };
    a.load_project_from_folder(loaded("Song", vec![kept]), "/proj");
    assert_eq!(a.node_routes[0].source_output_pair, 7);
    assert_eq!(a.node_routes[0].kind, NodeRouteKind::Sidechain);
}

#[test]
fn template_opened() {
    assert_eq!(DawApp::template_folder("/t/Lo_Fi/project.json", false), Ok("/t/Lo_Fi".to_string()));
    assert_eq!(DawApp::template_folder("/t/x", true), Ok("/t/x".to_string()));
    assert_eq!(DawApp::template_folder("", false), Err("Template folder unavailable".to_string()));
    let mut a = app(Vec::new());
    a.project_path = "/old".to_string();
    assert_eq!(a.load_template_from_path("/t/Lo_Fi", None), Err("Template project.json missing".to_string()));
    assert_eq!(a.load_template_from_path("/t/Lo_Fi", Some(loaded("", Vec::new()))), Ok(()));
    assert_eq!(a.project_name, "Lo Fi");
    assert_eq!(a.project_path, "");
    assert_eq!(a.status, "Template loaded");
    assert_eq!(a.selected_track, Some(0));
    assert_eq!(a.tracks[0].instrument_path, None);
}

#[test]
fn saved_project_reopens_unchanged() {
    let a = save_app();
    let plan = a.save_project_to_folder("/p/Song");
    let project = LoadedProject {
        name: "Song".to_string(),
        artist: String::new(),
        title: String::new(),
        album: String::new(),
        genre: String::new(),
        year: String::new(),
        comment: String::new(),
        tracks: plan.tracks,
        node_routes: Vec::new(),
        performance_clip_settings: HashMap::new(),
    };
    let mut b = app(Vec::new());
    b.load_project_from_folder(project, "/p/Song");
    assert_eq!(b.tracks.len(), a.tracks.len());
    for (before, after) in a.tracks.iter().zip(b.tracks.iter()) {
        assert_eq!(after.name, before.name);
        assert_eq!(after.level, before.level);
        assert_eq!(after.midi_notes, before.midi_notes);
        assert_eq!(after.clips.len(), before.clips.len());
        for (c, d) in before.clips.iter().zip(after.clips.iter()) {
            assert_eq!((d.id, d.start, d.length), (c.id, c.start, c.length));
            assert_eq!(d.midi_notes, c.midi_notes);
        }
    }
    assert_eq!(b.tracks[0].instrument_path, None);
    assert_eq!(b.tracks[1].instrument_path, None);
    assert_eq!(b.tracks[2].instrument_path, Some("native:drummachine".to_string()));
    assert_eq!(b.tracks[2].drum_machine.as_ref().unwrap().pad_paths, vec![None]);
}
