use std::collections::HashMap;
use std::collections::HashSet;

use lingstation::model::{
    ActivePerformanceTake, Clip, DawApp, NodeRouteKind, NodeRouteLink, PerformanceClipSettings,
    PerformanceTriggerMode, PianoRollNote, RecordedPerformanceTake, RecordingBuffers, SettingsState, Track,
};
use lingstation::performance::PerformanceSectionAnalysis;

fn settings() -> SettingsState {
    SettingsState {
        buffer_size: 512,
        triple_buffer: false,
        sample_rate: 48000,
        recent_projects: Vec::new(),
        midi_input: String::new(),
        midi_devices: Vec::new(),
        device_id: String::new(),
        device_salt: String::new(),
        registered_to: String::new(),
        wallpaper_path: String::new(),
        browser_folders: Vec::new(),
        auth_token: String::new(),
        license_file: String::new(),
        license_monthly_activations: None,
        license_remaining_activations: None,
        output_device: String::new(),
    }
}

fn app(tracks: Vec<Track>) -> DawApp {
    DawApp {
        project_name: "Demo".to_string(),
        project_path: String::new(),
        metadata_artist: String::new(),
        metadata_title: String::new(),
        metadata_album: String::new(),
        metadata_genre: String::new(),
        metadata_year: String::new(),
        metadata_comment: String::new(),
        tracks,
        selected_track: None,
        selected_clip: None,
        performance_clip_settings: HashMap::new(),
        performance_selected_clip: None,
        node_routes: Vec::new(),
        rename_buffer: String::new(),
        show_rename_track: false,
        rename_clip_buffer: String::new(),
        rename_clip_target: None,
        show_rename_clip: false,
        project_name_buffer: String::new(),
        show_rename_project: false,
        status: String::new(),
        dirty: false,
        automation_active: None,
        automation_rows_expanded: HashSet::new(),
        midi_learn: None,
        recording: RecordingBuffers {
            active: false,
            track_index: usize::MAX,
            record_performance: false,
            performance_active: HashMap::new(),
            performance_takes: Vec::new(),
            start_beat: 0,
            record_audio: false,
            record_midi: false,
            record_automation: false,
            midi_active: HashMap::new(),
            midi_notes: Vec::new(),
            automation_points: Vec::new(),
        },
        is_recording: false,
        settings: settings(),
        settings_path: "settings.json".to_string(),
        buffer_override: None,
        license_status: String::new(),
        arrangement_playback: true,
        audio_running: false,
        last_params_track: None,
        license_serial: String::new(),
        wallpaper_texture_path: String::new(),
        record_audio: false,
        record_midi: true,
        record_automation: false,
        record_performance: false,
        record_started_audio: false,
        license_identifier: String::new(),
        license_password: String::new(),
        license_device_label: String::new(),
        fs_expanded: Vec::new(),
        fs_selected: None,
        browser_expanded: Vec::new(),
        browser_selected: None,
    }
}

fn clip(id: usize, track: usize, start: i64, length: i64, name: &str) -> Clip {
    Clip {
        id,
        track,
        start,
        length,
        is_midi: true,
        midi_notes: Vec::new(),
        midi_source: None,
        link_id: None,
        name: name.to_string(),
        audio_path: None,
        audio_source: None,
    }
}

fn track_with(name: &str, clips: Vec<Clip>) -> Track {
    let mut t = Track::named(name.to_string());
    t.clips = clips;
    t
}

fn recording_app(tracks: Vec<Track>) -> DawApp {
    let mut a = app(tracks);
    a.is_recording = true;
    a.recording.active = true;
    a.recording.record_performance = true;
    a
}

fn note(start: i64, length: i64) -> PianoRollNote {
    PianoRollNote { start, length, note: 60, velocity: 100 }
}

fn plain(mode: PerformanceTriggerMode, loop_enabled: bool) -> PerformanceClipSettings {
    PerformanceClipSettings { trigger_mode: mode, loop_enabled, auto_follow: false, next_clip_id: None }
}

fn route(from: usize, pair: usize, to: usize, fx: Option<usize>) -> NodeRouteLink {
    NodeRouteLink { from_track: from, source_output_pair: pair, to_track: to, to_fx: fx, kind: NodeRouteKind::AudioSend, enabled: true }
}

fn take(track: usize, clip_id: usize, start: i64, end: i64, looped: bool) -> RecordedPerformanceTake {
    RecordedPerformanceTake { track_index: track, source_clip_id: clip_id, start_beat: start, end_beat: end, loop_enabled: looped }
}

#[test]
fn add_track_is_numbered_by_count() {
    let mut a = app(vec![Track::named("A".to_string()), Track::named("B".to_string())]);
    a.add_track(&vec!["Cutoff".to_string()]);
    assert_eq!(a.tracks.len(), 3);
    assert_eq!(a.tracks[2].params, vec!["Cutoff".to_string()]);
    assert_eq!(a.tracks[2].name, "Track 3");
    assert!(a.tracks[2].clips.is_empty());
    assert_eq!(a.tracks[0].name, "A");
    assert_eq!(a.selected_track, Some(2));
    assert_eq!(a.status, "Track added");
    assert!(a.dirty);
}

#[test]
fn remove_selected_track_selects_previous() {
    let mut a = app(vec![
        Track::named("A".to_string()),
        Track::named("B".to_string()),
        Track::named("C".to_string()),
    ]);
    a.remove_selected_track();
    assert_eq!(a.tracks.len(), 3);
    a.selected_track = Some(2);
    a.remove_selected_track();
    assert_eq!(a.tracks.len(), 2);
    assert_eq!(a.tracks[1].name, "B");
    assert_eq!(a.selected_track, Some(1));
    assert_eq!(a.status, "Track removed");
    a.selected_track = Some(0);
    a.remove_selected_track();
    assert_eq!(a.tracks.len(), 1);
    assert_eq!(a.tracks[0].name, "B");
    assert_eq!(a.selected_track, Some(0));
    a.remove_selected_track();
    assert_eq!(a.tracks.len(), 1);
    assert_eq!(a.status, "At least one track required");
}

#[test]
fn duplicate_track_takes_next_clip_id() {
    let mut a = app(vec![
        track_with("Lead", vec![clip(3, 0, 0, 1000, "a"), clip(5, 0, 1000, 1000, "b")]),
        track_with("Bass", vec![clip(9, 1, 0, 1000, "c")]),
    ]);
    a.selected_track = Some(0);
    a.duplicate_selected_track();
    assert_eq!(a.tracks.len(), 3);
    assert_eq!(a.tracks[1].name, "Lead Copy");
    assert_eq!(a.tracks[1].clips.len(), 2);
    for c in &a.tracks[1].clips {
        assert_eq!(c.id, 10);
        assert_eq!(c.track, 1);
    }
    assert_eq!(a.tracks[1].clips[1].start, 1000);
    assert_eq!(a.tracks[0].clips[0].id, 3);
    assert_eq!(a.tracks[2].name, "Bass");
    assert_eq!(a.selected_track, Some(1));
    assert_eq!(a.status, "Track duplicated");
    a.selected_track = Some(8);
    a.duplicate_selected_track();
    assert_eq!(a.tracks.len(), 3);
}

#[test]
fn clone_track_has_no_clips() {
    let mut a = app(vec![track_with("Pad", vec![clip(1, 0, 0, 1000, "a")]), Track::named("X".to_string())]);
    a.tracks[0].muted = true;
    a.selected_track = Some(0);
    a.clone_selected_track();
    assert_eq!(a.tracks.len(), 3);
    assert_eq!(a.tracks[1].name, "Pad Clone");
    assert!(a.tracks[1].clips.is_empty());
    assert!(a.tracks[1].muted);
    assert_eq!(a.tracks[2].name, "X");
    assert_eq!(a.selected_track, Some(1));
    assert_eq!(a.status, "Track cloned");
}

#[test]
fn remapped_track_indices() {
    assert_eq!(DawApp::remap_track_index(0, 0, 2), 2);
    assert_eq!(DawApp::remap_track_index(1, 0, 2), 0);
    assert_eq!(DawApp::remap_track_index(2, 0, 2), 1);
    assert_eq!(DawApp::remap_track_index(3, 0, 2), 3);
    assert_eq!(DawApp::remap_track_index(0, 3, 0), 1);
    assert_eq!(DawApp::remap_track_index(3, 3, 0), 0);
    assert_eq!(DawApp::remap_track_index(4, 1, 1), 4);
}

#[test]
fn move_track_keeps_references() {
    let mut a = app(vec![
        track_with("A", vec![clip(1, 0, 0, 1000, "a")]),
        track_with("B", vec![clip(2, 1, 0, 1000, "b")]),
        track_with("C", vec![clip(3, 2, 0, 1000, "c")]),
    ]);
    a.selected_track = Some(0);
    a.automation_active = Some((2, 4));
    a.automation_rows_expanded.insert(0);
    a.automation_rows_expanded.insert(2);
    a.midi_learn = Some((2, 7));
    a.recording.track_index = 1;
    a.move_track_order(0, 2);
    let names: Vec<&str> = a.tracks.iter().map(|t| t.name.as_str()).collect();
    assert_eq!(names, vec!["B", "C", "A"]);
    assert_eq!(a.tracks[2].clips[0].track, 2);
    assert_eq!(a.tracks[0].clips[0].track, 0);
    assert_eq!(a.selected_track, Some(2));
    assert_eq!(a.automation_active, Some((1, 4)));
    let expected: HashSet<usize> = [1usize, 2].into_iter().collect();
    assert_eq!(a.automation_rows_expanded, expected);
    assert_eq!(a.midi_learn, Some((1, 7)));
    assert_eq!(a.recording.track_index, 0);
    a.move_track_order(2, 0);
    let names: Vec<&str> = a.tracks.iter().map(|t| t.name.as_str()).collect();
    assert_eq!(names, vec!["A", "B", "C"]);
    assert_eq!(a.selected_track, Some(0));
    assert_eq!(a.midi_learn, Some((2, 7)));
    assert_eq!(a.recording.track_index, 1);
    a.move_track_order(0, 5);
    assert_eq!(a.tracks[0].name, "A");
    assert_eq!(a.selected_track, Some(0));
}

#[test]
fn next_clip_id_after_largest() {
    let a = app(vec![Track::named("A".to_string())]);
    assert_eq!(a.next_clip_id(), 1);
    let b = app(vec![
        track_with("A", vec![clip(3, 0, 0, 1000, "a")]),
        track_with("B", vec![clip(9, 1, 0, 1000, "b"), clip(4, 1, 0, 1000, "c")]),
    ]);
    assert_eq!(b.next_clip_id(), 10);
    assert_eq!(b.find_clip_indices_by_id(4), Some((1, 1)));
    assert_eq!(b.find_clip_indices_by_id(8), None);
}

#[test]
fn clips_in_start_order() {
    let t = track_with("A", vec![
        clip(1, 0, 500, 100, "a"),
        clip(2, 0, 0, 100, "b"),
        clip(3, 0, 500, 100, "c"),
        clip(4, 0, 100, 100, "d"),
    ]);
    assert_eq!(DawApp::clip_start_order(&t), vec![1, 3, 0, 2]);
}

#[test]
fn default_routes_feed_effects() {
    let t0 = Track::named("A".to_string());
    let mut t1 = Track::named("B".to_string());
    t1.effect_paths = vec!["eq.vst3".to_string(), "verb.vst3".to_string()];
    let routes = DawApp::default_node_routes(&[t0, t1]);
    assert_eq!(routes, vec![route(0, 0, 0, None), route(1, 0, 1, Some(0)), route(1, 0, 1, Some(1))]);
}

#[test]
fn routes_repaired_against_tracks() {
    let t0 = Track::named("A".to_string());
    let mut t1 = Track::named("B".to_string());
    t1.effect_paths = vec!["eq.vst3".to_string(), "verb.vst3".to_string()];
    let tracks = vec![t0, t1];
    let routes = vec![
        route(0, 5, 5, None),
        route(0, 9, 1, Some(1)),
        route(1, 2, 1, Some(3)),
        route(2, 0, 0, None),
    ];
    let fixed = DawApp::sanitize_node_routes(routes.clone(), &tracks);
    assert_eq!(fixed, vec![route(0, 7, 1, Some(1)), route(1, 2, 1, None)]);
    assert!(DawApp::sanitize_node_routes(routes, &[]).is_empty());
}

#[test]
fn clip_settings_of_missing_clips_dropped() {
    let tracks = vec![track_with("A", vec![clip(1, 0, 0, 1000, "a"), clip(2, 0, 1000, 1000, "b")])];
    let mut s = HashMap::new();
    s.insert(1usize, plain(PerformanceTriggerMode::Gate, false));
    s.insert(99usize, plain(PerformanceTriggerMode::Toggle, true));
    let kept = DawApp::sanitize_performance_clip_settings(s, &tracks);
    assert_eq!(kept.len(), 1);
    assert_eq!(kept.get(&1), Some(&plain(PerformanceTriggerMode::Gate, false)));
    assert!(kept.get(&99).is_none());
}

#[test]
fn flow_links_follow_touching_clips() {
    let mut a = app(vec![
        track_with("A", vec![clip(3, 0, 5000, 1000, "c"), clip(1, 0, 0, 1000, "a"), clip(2, 0, 1030, 1000, "b")]),
        track_with("B", vec![clip(7, 1, 0, 1000, "x"), clip(8, 1, 1000, 1000, "y")]),
    ]);
    let mut last = plain(PerformanceTriggerMode::Loop, false);
    last.auto_follow = true;
    last.next_clip_id = Some(1);
    a.performance_clip_settings.insert(3, last);
    a.update_performance_flow_links_for_tracks(&[0]);
    let s = &a.performance_clip_settings;
    assert_eq!(s[&1].auto_follow, true);
    assert_eq!(s[&1].next_clip_id, Some(2));
    assert_eq!(s[&2].auto_follow, false);
    assert_eq!(s[&2].next_clip_id, None);
    assert_eq!(s[&3].auto_follow, true);
    assert_eq!(s[&3].next_clip_id, None);
    assert_eq!(s[&3].trigger_mode, PerformanceTriggerMode::Loop);
    assert!(s.get(&7).is_none());
}

#[test]
fn sections_of_plain_bars() {
    let runs: Vec<Option<(usize, usize)>> = vec![None; 10];
    let changes: Vec<usize> = vec![0; 10];
    let s = DawApp::analyze_performance_sections(&runs, &changes);
    assert_eq!(s, vec![
        PerformanceSectionAnalysis { start: 0, length: 32000, loop_unit: None },
        PerformanceSectionAnalysis { start: 32000, length: 8000, loop_unit: None },
    ]);
    let busy: Vec<usize> = vec![5; 10];
    let s = DawApp::analyze_performance_sections(&runs, &busy);
    assert_eq!(s.len(), 3);
    assert_eq!(s[0].length, 16000);
    assert_eq!(s[2], PerformanceSectionAnalysis { start: 32000, length: 8000, loop_unit: None });
    assert!(DawApp::analyze_performance_sections(&Vec::new(), &Vec::new()).is_empty());
}

#[test]
fn sections_of_repeated_run() {
    let mut runs: Vec<Option<(usize, usize)>> = vec![None; 8];
    runs[0] = Some((2, 6));
    let changes: Vec<usize> = vec![0; 8];
    let s = DawApp::analyze_performance_sections(&runs, &changes);
    assert_eq!(s, vec![
        PerformanceSectionAnalysis { start: 0, length: 24000, loop_unit: Some(8000) },
        PerformanceSectionAnalysis { start: 24000, length: 8000, loop_unit: None },
    ]);
}

#[test]
fn take_ends_with_minimum_length() {
    let mut rec = app(Vec::new()).recording;
    rec.performance_active.insert(0, ActivePerformanceTake {
        source_clip_id: 4,
        start_beat: 1000,
        trigger_mode: PerformanceTriggerMode::Gate,
        loop_enabled: false,
    });
    rec.performance_active.insert(1, ActivePerformanceTake {
        source_clip_id: 5,
        start_beat: 0,
        trigger_mode: PerformanceTriggerMode::OneShot,
        loop_enabled: false,
    });
    DawApp::finalize_performance_take_locked(&mut rec, 0, 1020);
    assert_eq!(rec.performance_takes, vec![take(0, 4, 1000, 1050, false)]);
    DawApp::finalize_performance_take_locked(&mut rec, 1, 3000);
    assert_eq!(rec.performance_takes.len(), 1);
    assert!(rec.performance_active.is_empty());
    DawApp::finalize_performance_take_locked(&mut rec, 2, 3000);
    assert_eq!(rec.performance_takes.len(), 1);
}

#[test]
fn launches_recorded_as_takes() {
    let mut a = recording_app(vec![track_with("A", vec![clip(4, 0, 0, 2000, "a")])]);
    a.record_performance_clip_trigger(0, 4, -5, plain(PerformanceTriggerMode::OneShot, true));
    assert_eq!(a.recording.performance_takes, vec![take(0, 4, 0, 2000, false)]);
    a.record_performance_clip_trigger(0, 4, 100, plain(PerformanceTriggerMode::Toggle, false));
    assert_eq!(a.recording.performance_active.get(&0).map(|t| t.start_beat), Some(100));
    a.record_performance_clip_trigger(0, 4, 300, plain(PerformanceTriggerMode::Toggle, false));
    assert!(a.recording.performance_active.is_empty());
    assert_eq!(a.recording.performance_takes[1], take(0, 4, 100, 300, false));
    a.record_performance_clip_trigger(0, 9, 400, plain(PerformanceTriggerMode::Loop, false));
    assert_eq!(a.recording.performance_active[&0].loop_enabled, true);
    a.record_performance_clip_trigger(0, 9, 500, plain(PerformanceTriggerMode::OneShot, false));
    assert_eq!(a.recording.performance_takes[2], take(0, 9, 400, 500, true));
    assert_eq!(a.recording.performance_takes[3], take(0, 9, 500, 750, false));
    a.record_performance_clip_trigger(1, 4, 600, plain(PerformanceTriggerMode::Gate, false));
    a.record_performance_track_stop(1, 900);
    assert_eq!(a.recording.performance_takes[4], take(1, 4, 600, 900, false));
    assert!(a.recording.performance_active.is_empty());
}

#[test]
fn launches_ignored_when_not_recording() {
    let mut a = recording_app(vec![track_with("A", vec![clip(4, 0, 0, 2000, "a")])]);
    a.recording.record_performance = false;
    a.record_performance_clip_trigger(0, 4, 0, plain(PerformanceTriggerMode::OneShot, false));
    assert!(a.recording.performance_takes.is_empty());
    a.recording.record_performance = true;
    a.is_recording = false;
    a.record_performance_clip_trigger(0, 4, 0, plain(PerformanceTriggerMode::Gate, false));
    a.record_performance_track_stop(0, 100);
    assert!(a.recording.performance_active.is_empty());
    assert!(a.recording.performance_takes.is_empty());
}

#[test]
fn recorded_clip_is_cut_to_the_take() {
    let a = app(Vec::new());
    let mut source = clip(4, 0, 1000, 2000, "Intro");
    source.midi_notes = vec![note(1000, 500), note(2500, 1000)];
    let c = a.make_recorded_performance_clip(&source, 1, 3000, 3800, false, 11).unwrap();
    assert_eq!(c.id, 11);
    assert_eq!(c.track, 1);
    assert_eq!(c.start, 3000);
    assert_eq!(c.length, 800);
    assert_eq!(c.name, "Intro");
    assert_eq!(c.midi_notes, vec![note(3000, 500)]);
    assert_eq!(c.midi_source, None);
    assert_eq!(c.link_id, None);
    let short = a.make_recorded_performance_clip(&source, 1, 3000, 3010, false, 12).unwrap();
    assert_eq!(short.length, 250);
    let looped = a.make_recorded_performance_clip(&source, 1, -20, 5000, true, 13).unwrap();
    assert_eq!(looped.start, 0);
    assert_eq!(looped.length, 5020);
    assert_eq!(looped.midi_source, Some(2000));
    let capped = a.make_recorded_performance_clip(&source, 1, 0, 5000, false, 14).unwrap();
    assert_eq!(capped.length, 2000);
}

#[test]
fn recorded_audio_clip_named_when_blank() {
    let a = app(Vec::new());
    let mut source = clip(4, 0, 0, 100, "  ");
    source.is_midi = false;
    source.audio_path = Some("loop.wav".to_string());
    let c = a.make_recorded_performance_clip(&source, 0, 0, 1000, true, 7).unwrap();
    assert_eq!(c.name, "Performance");
    assert_eq!(c.length, 1000);
    assert_eq!(c.audio_source, Some(250));
    assert_eq!(c.audio_path, Some("loop.wav".to_string()));
}

#[test]
fn finalized_takes_become_clips() {
    let mut src = clip(4, 0, 0, 1000, "Hook");
    src.midi_notes = vec![note(0, 500)];
    let mut a = app(vec![track_with("A", vec![src]), Track::named("B".to_string())]);
    let takes = vec![
        take(1, 4, 2000, 2600, false),
        take(9, 4, 0, 1000, false),
        take(1, 77, 0, 1000, false),
    ];
    let (changed, audio) = a.finalize_performance_recording(takes);
    assert_eq!(changed, vec![1]);
    assert!(!audio);
    assert_eq!(a.tracks[1].clips.len(), 1);
    let c = &a.tracks[1].clips[0];
    assert_eq!(c.id, 5);
    assert_eq!(c.track, 1);
    assert_eq!(c.start, 2000);
    assert_eq!(c.length, 600);
    assert_eq!(c.name, "Hook");
    assert_eq!(c.midi_notes, vec![note(2000, 500)]);
    assert_eq!(a.selected_clip, Some(5));
    assert_eq!(a.performance_selected_clip, Some(5));
    assert_eq!(a.status, "Performance recorded: 1 clips");
    assert!(a.dirty);
    let (none, _) = a.finalize_performance_recording(Vec::new());
    assert!(none.is_empty());
    assert_eq!(a.status, "Performance recorded: 1 clips");
}
