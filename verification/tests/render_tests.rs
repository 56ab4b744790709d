use std::collections::HashMap;
use std::collections::HashSet;

use lingstation::model::{
    AutomationPoint, AutomationTarget, Clip, DawApp, DrumMachineState, PianoRollNote, RecordingBuffers, SettingsState, Track,
    TreeSynthState,
};
use lingstation::render::RenderFormat;
use lingstation::safe_path::PathPart;

fn settings() -> SettingsState {
    SettingsState {
        buffer_size: 512,
        triple_buffer: false,
        sample_rate: 48000,
        recent_projects: Vec::new(),
        midi_input: String::new(),
        midi_devices: Vec::new(),
        device_id: String::new(),
        device_salt: String::new(),
        registered_to: String::new(),
        wallpaper_path: String::new(),
        browser_folders: Vec::new(),
        auth_token: String::new(),
        license_file: String::new(),
        license_monthly_activations: None,
        license_remaining_activations: None,
        output_device: String::new(),
    }
}

fn app(tracks: Vec<Track>) -> DawApp {
    DawApp {
        project_name: "Demo".to_string(),
        project_path: String::new(),
        metadata_artist: String::new(),
        metadata_title: String::new(),
        metadata_album: String::new(),
        metadata_genre: String::new(),
        metadata_year: String::new(),
        metadata_comment: String::new(),
        tracks,
        selected_track: None,
        selected_clip: None,
        performance_clip_settings: HashMap::new(),
        performance_selected_clip: None,
        node_routes: Vec::new(),
        rename_buffer: String::new(),
        show_rename_track: false,
        rename_clip_buffer: String::new(),
        rename_clip_target: None,
        show_rename_clip: false,
        project_name_buffer: String::new(),
        show_rename_project: false,
        status: String::new(),
        dirty: false,
        automation_active: None,
        automation_rows_expanded: HashSet::new(),
        midi_learn: None,
        recording: RecordingBuffers {
            active: false,
            track_index: usize::MAX,
            record_performance: false,
            performance_active: HashMap::new(),
            performance_takes: Vec::new(),
            start_beat: 0,
            record_audio: false,
            record_midi: false,
            record_automation: false,
            midi_active: HashMap::new(),
            midi_notes: Vec::new(),
            automation_points: Vec::new(),
        },
        is_recording: false,
        settings: settings(),
        settings_path: "settings.json".to_string(),
        buffer_override: None,
        license_status: String::new(),
        arrangement_playback: true,
        audio_running: false,
        last_params_track: None,
        license_serial: String::new(),
        wallpaper_texture_path: String::new(),
        record_audio: false,
        record_midi: true,
        record_automation: false,
        record_performance: false,
        record_started_audio: false,
        license_identifier: String::new(),
        license_password: String::new(),
        license_device_label: String::new(),
        fs_expanded: Vec::new(),
        fs_selected: None,
        browser_expanded: Vec::new(),
        browser_selected: None,
    }
}

fn clip(id: usize, track: usize, start: i64, length: i64, name: &str) -> Clip {
    Clip {
        id,
        track,
        start,
        length,
        is_midi: true,
        midi_notes: Vec::new(),
        midi_source: None,
        link_id: None,
        name: name.to_string(),
        audio_path: None,
        audio_source: None,
    }
}

fn track_with(name: &str, clips: Vec<Clip>) -> Track {
    let mut t = Track::named(name.to_string());
    t.clips = clips;
    t
}

fn note(start: i64, length: i64) -> PianoRollNote {
    PianoRollNote { start, length, note: 64, velocity: 90 }
}

fn audio_clip(id: usize, track: usize, start: i64, length: i64) -> Clip {
    let mut c = clip(id, track, start, length, "a");
    c.is_midi = false;
    c.audio_path = Some("a.wav".to_string());
    c
}

fn normal(s: &str) -> PathPart {
    PathPart::Normal(s.to_string())
}

#[test]
fn automation_point_recorded_in_lane() {
    let mut t = Track::named("Synth".to_string());
    t.param_ids = vec![5];
    t.params = vec!["Cutoff".to_string()];
    t.effect_paths = vec!["eq.vst3".to_string()];
    t.effect_param_ids = vec![vec![3]];
    t.effect_params = vec![vec!["Gain".to_string()]];
    let mut a = app(vec![t]);
    let fx = vec!["EQ".to_string()];
    a.record_automation_point(0, AutomationTarget::Instrument, 5, 1000, 7, &fx);
    assert_eq!(a.tracks[0].automation_lanes.len(), 1);
    assert_eq!(a.tracks[0].automation_lanes[0].name, "Cutoff");
    assert_eq!(a.tracks[0].automation_lanes[0].points, vec![AutomationPoint { tick: 1000, value: 7 }]);
    a.record_automation_point(0, AutomationTarget::Instrument, 5, 1010, 9, &fx);
    assert_eq!(a.tracks[0].automation_lanes[0].points, vec![AutomationPoint { tick: 1010, value: 9 }]);
    a.record_automation_point(0, AutomationTarget::Instrument, 5, 500, 1, &fx);
    assert_eq!(
        a.tracks[0].automation_lanes[0].points,
        vec![AutomationPoint { tick: 500, value: 1 }, AutomationPoint { tick: 1010, value: 9 }]
    );
    a.record_automation_point(0, AutomationTarget::Effect(0), 3, 0, 2, &fx);
    assert_eq!(a.tracks[0].automation_lanes[1].name, "EQ: Gain");
    a.record_automation_point(0, AutomationTarget::Effect(4), 3, 0, 2, &fx);
    assert_eq!(a.tracks[0].automation_lanes[2].name, "FX 5: Param 3");
    a.record_automation_point(7, AutomationTarget::Instrument, 5, 0, 2, &fx);
    assert_eq!(a.tracks.len(), 1);
}

#[test]
fn midi_recording_becomes_clip() {
    let mut a = app(vec![track_with("A", vec![clip(3, 0, 0, 1000, "x")])]);
    a.finalize_midi_recording(0, 1000, vec![note(1000, 500), note(1200, 2000)]);
    let c = &a.tracks[0].clips[1];
    assert_eq!((c.id, c.track, c.start, c.length), (4, 0, 1000, 2200));
    assert_eq!(c.name, "MIDI Rec");
    assert!(c.is_midi);
    assert_eq!(c.midi_source, Some(2200));
    assert_eq!(c.midi_notes.len(), 2);
    a.finalize_midi_recording(0, 5000, Vec::new());
    assert_eq!(a.tracks[0].clips[2].length, 250);
    assert_eq!(a.tracks[0].clips[2].id, 5);
    a.finalize_midi_recording(3, 0, vec![note(0, 10)]);
    assert_eq!(a.tracks[0].clips.len(), 3);
}

#[test]
fn audio_recording_becomes_clip() {
    let mut a = app(vec![track_with("A", vec![clip(3, 0, 0, 1000, "x")])]);
    a.finalize_audio_recording(0, 500, 100, "recording_1.wav");
    let c = &a.tracks[0].clips[1];
    assert_eq!((c.id, c.start, c.length), (4, 500, 250));
    assert_eq!(c.name, "Recording");
    assert!(!c.is_midi);
    assert_eq!(c.audio_path, Some("audio/recording_1.wav".to_string()));
    assert_eq!(c.audio_source, Some(250));
    assert_eq!(a.selected_track, Some(0));
    assert_eq!(a.selected_clip, Some(4));
    a.finalize_audio_recording(0, 0, 8000, "b.wav");
    assert_eq!(a.tracks[0].clips[2].length, 8000);
    a.finalize_audio_recording(9, 0, 8000, "c.wav");
    assert_eq!(a.tracks[0].clips.len(), 3);
    assert_eq!(a.selected_track, Some(9));
    assert_eq!(a.selected_clip, Some(6));
}

#[test]
fn clip_notes_shifted() {
    let mut c = clip(2, 0, 0, 1000, "x");
    c.midi_notes = vec![note(100, 50), note(500, 50)];
    let mut a = app(vec![track_with("A", vec![clip(1, 0, 0, 10, "y"), c])]);
    a.shift_clip_notes_by_delta(2, -300);
    assert_eq!(a.tracks[0].clips[1].midi_notes, vec![note(0, 50), note(200, 50)]);
    a.shift_clip_notes_by_delta(2, 0);
    a.shift_clip_notes_by_delta(9, 100);
    assert_eq!(a.tracks[0].clips[1].midi_notes, vec![note(0, 50), note(200, 50)]);
    a.shift_clip_notes_by_delta(2, 1000);
    assert_eq!(a.tracks[0].clips[1].midi_notes, vec![note(1000, 50), note(1200, 50)]);
}

#[test]
fn join_kept_inside_base() {
    assert_eq!(DawApp::safe_join_within_base("/out", "mix.wav"), Ok("/out/mix.wav".to_string()));
    assert_eq!(DawApp::safe_join_within_base("out", "a/../b.wav"), Ok("out/a/../b.wav".to_string()));
    let escape = Err("Output path escapes render base directory".to_string());
    assert_eq!(DawApp::safe_join_within_base("/out", "../x.wav"), escape);
    assert_eq!(DawApp::safe_join_within_base("/out", "/etc/passwd"), escape);
    assert_eq!(DawApp::safe_join_within_base("", "x.wav"), Err("Base path is empty".to_string()));
}

#[test]
fn containment_of_components() {
    let base = vec![PathPart::RootDir, normal("out"), PathPart::CurDir];
    let inside = vec![PathPart::RootDir, normal("out"), normal("a"), PathPart::ParentDir, normal("b")];
    assert_eq!(DawApp::path_within_base(&base, &inside), Ok(()));
    let outside = vec![PathPart::RootDir, normal("out"), PathPart::ParentDir, normal("b")];
    assert_eq!(DawApp::path_within_base(&base, &outside), Err("Output path escapes render base directory".to_string()));
    let other_drive = vec![PathPart::Prefix("D:".to_string()), PathPart::RootDir, normal("out")];
    let c_drive = vec![PathPart::Prefix("C:".to_string()), PathPart::RootDir, normal("out")];
    assert_eq!(
        DawApp::path_within_base(&c_drive, &other_drive),
        Err("Output path escapes render base directory".to_string())
    );
    assert_eq!(DawApp::path_within_base(&base, &Vec::new()), Err("Candidate path is empty".to_string()));
    let climbing = vec![PathPart::RootDir, PathPart::ParentDir];
    assert_eq!(DawApp::path_within_base(&climbing, &inside), Err("Output path escapes render base directory".to_string()));
}

#[test]
fn project_end_and_clip_range() {
    let mut t = track_with("A", vec![clip(1, 0, 500, 100, "a"), clip(2, 0, 2000, 10, "b")]);
    t.midi_notes = vec![note(4000, 100)];
    let a = app(vec![t, Track::named("B".to_string())]);
    assert_eq!(a.project_end_beats(), 4100);
    assert_eq!(a.project_clip_range(), Some((500, 2010)));
    let empty = app(vec![Track::named("B".to_string())]);
    assert_eq!(empty.project_end_beats(), 0);
    assert_eq!(empty.project_clip_range(), None);
    let early = app(vec![track_with("A", vec![clip(1, 0, -100, 50, "a")])]);
    assert_eq!(early.project_clip_range(), Some((0, 150)));
}

#[test]
fn audio_in_render_range() {
    let mut t = Track::named("A".to_string());
    assert!(!DawApp::track_has_audio_in_range(&t, 0, 1000));
    t.midi_notes = vec![note(100, 60)];
    assert!(DawApp::track_has_audio_in_range(&t, 120, 130));
    assert!(!DawApp::track_has_audio_in_range(&t, 200, 300));
    assert!(DawApp::track_has_audio_in_range(&t, 150, 100));
    let mut u = track_with("U", vec![clip(1, 0, 0, 100, "m")]);
    assert!(!DawApp::track_has_audio_in_range(&u, 0, 1000));
    u.clips.push(audio_clip(2, 0, 900, 100));
    assert!(DawApp::track_has_audio_in_range(&u, 950, 2000));
    let mut v = Track::named("V".to_string());
    v.instrument_path = Some("synth.vst3".to_string());
    assert!(DawApp::track_has_audio_in_range(&v, 0, 1));
}

#[test]
fn master_and_stem_plans() {
    let mut muted = Track::named("M".to_string());
    muted.muted = true;
    let a = app(vec![Track::named("A".to_string()), muted]);
    let master = a.build_master_render_plan(48000, -5, 100, false, Some("c".to_string()));
    assert_eq!((master.start, master.end, master.channels), (0, 245, 2));
    assert_eq!(master.license_comment, Some("c".to_string()));
    assert_eq!(master.tracks.iter().map(|t| t.mix.active).collect::<Vec<_>>(), vec![true, false]);
    let stem = a.build_stem_render_plan(0, 44100, 0, 8000, false, None);
    assert_eq!(stem.tracks.iter().map(|t| t.mix.active).collect::<Vec<_>>(), vec![true, false]);
    assert_eq!(stem.end, 8000);
    let muted_stem = a.build_stem_render_plan(1, 44100, 0, 8000, false, None);
    assert_eq!(muted_stem.tracks.iter().map(|t| t.mix.active).collect::<Vec<_>>(), vec![false, false]);
}

#[test]
fn render_span_rules() {
    let a = app(vec![track_with("A", vec![clip(1, 0, 0, 4000, "a")])]);
    assert_eq!(a.render_range(0, 0, None), (0, 4000));
    assert_eq!(a.render_range(1000, 500, None), (1000, 4000));
    assert_eq!(a.render_range(0, 0, Some(100)), (0, 4100));
    assert_eq!(a.render_range(-5, 3000, None), (0, 3000));
    assert_eq!(a.render_range(5000, 0, None), (5000, 5250));
}

fn render_app() -> DawApp {
    let mut bass = Track::named("Bass".to_string());
    bass.instrument_path = Some("bass.vst3".to_string());
    let mut a = app(vec![
        track_with("Lead", vec![audio_clip(1, 0, 0, 4000)]),
        Track::named("Pad".to_string()),
        bass,
    ]);
    a.metadata_artist = "Ann".to_string();
    a.metadata_title = "Song".to_string();
    a
}

#[test]
fn render_files_named_and_planned() {
    let a = render_app();
    let pairs = vec![(0usize, 2u32), (0, 2), (0, 6)];
    let files = a.plan_render_files(RenderFormat::Wav, true, &pairs, 48000, 0, 4000, None);
    let names: Vec<&str> = files.iter().map(|f| f.0.as_str()).collect();
    assert_eq!(names, vec![
        "Ann - Song.wav",
        "Ann - Song - 01_Lead.wav",
        "Ann - Song - 03_Bass_Out1-2.wav",
        "Ann - Song - 03_Bass_Out3-4.wav",
        "Ann - Song - 03_Bass_Out5-6.wav",
    ]);
    assert_eq!(files[0].1.tracks.iter().map(|t| t.mix.active).collect::<Vec<_>>(), vec![true, true, true]);
    assert_eq!(files[1].1.tracks.iter().map(|t| t.mix.active).collect::<Vec<_>>(), vec![true, false, false]);
    assert_eq!(files[3].1.tracks[2].output_pair, Some(1));
    assert_eq!(files[1].1.tracks[0].output_pair, None);
    let only_master = a.plan_render_files(RenderFormat::Flac, false, &pairs, 48000, 0, 4000, None);
    assert_eq!(only_master.len(), 1);
    assert_eq!(only_master[0].0, "Ann - Song.flac");
}

#[test]
fn render_outputs_joined_to_folder() {
    let mut a = render_app();
    a.license_status = "Registered".to_string();
    let pairs = vec![(0usize, 2u32), (0, 2), (2, 2)];
    let out = a.render_with_options("/renders", RenderFormat::Ogg, true, &pairs, 48000, 0, 0, None).ok().unwrap();
    let paths: Vec<&str> = out.iter().map(|f| f.0.as_str()).collect();
    assert_eq!(paths, vec![
        "/renders/Ann - Song.ogg",
        "/renders/Ann - Song - 01_Lead.ogg",
        "/renders/Ann - Song - 03_Bass_Out1-2.ogg",
        "/renders/Ann - Song - 03_Bass_Out3-4.ogg",
    ]);
    assert_eq!((out[0].1.start, out[0].1.end), (0, 4000));
    let refused = DawApp::render_output_paths("", a.plan_render_files(RenderFormat::Wav, false, &pairs, 1, 0, 1, None));
    assert_eq!(refused.err(), Some("Base path is empty".to_string()));
}

#[test]
fn render_start_and_native_instruments() {
    let mut t = Track::named("T".to_string());
    t.treesynth = Some(TreeSynthState { folder: None, sample_paths: Vec::new() });
    let mut d = Track::named("D".to_string());
    d.drum_machine = Some(DrumMachineState { pad_paths: vec![None] });
    d.treesynth = Some(TreeSynthState { folder: None, sample_paths: Vec::new() });
    let mut p = Track::named("P".to_string());
    p.instrument_path = Some("x.vst3".to_string());
    let mut a = app(vec![t, d, p]);
    a.audio_running = true;
    assert!(!a.begin_render(true));
    assert_eq!(a.status, "Playback paused for render stability");
    assert!(a.begin_render(false));
    a.use_native_instrument_paths();
    assert_eq!(a.tracks[0].instrument_path, Some("native:treesynth".to_string()));
    assert_eq!(a.tracks[1].instrument_path, Some("native:drummachine".to_string()));
    assert_eq!(a.tracks[2].instrument_path, Some("x.vst3".to_string()));
    assert!(!a.has_solo_track());
    a.tracks[2].solo = true;
    assert!(a.has_solo_track());
}
