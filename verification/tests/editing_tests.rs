use std::collections::HashMap;
use std::collections::HashSet;

use lingstation::dialogs::{CloseClick, CloseConfirm, PluginCandidate};
use lingstation::file_browser::{FsMenuItem, FsSource};
use lingstation::launch::PerformanceRuntimeClip;
use lingstation::plugin_scan::ClapScan;
use lingstation::model::{AutomationLane, AutomationTarget, Clip, DawApp, MidiDeviceConfig, MidiDeviceProfile, PianoRollNote, RecordingBuffers, SettingsState, Track};
use lingstation::paths::{PluginCategory, PluginKind};

fn settings() -> SettingsState {
    SettingsState {
        buffer_size: 512,
        triple_buffer: false,
        sample_rate: 48000,
        recent_projects: Vec::new(),
        midi_input: String::new(),
        midi_devices: Vec::new(),
        device_id: String::new(),
        device_salt: String::new(),
        registered_to: String::new(),
        wallpaper_path: String::new(),
        browser_folders: Vec::new(),
        auth_token: String::new(),
        license_file: String::new(),
        license_monthly_activations: None,
        license_remaining_activations: None,
        output_device: String::new(),
    }
}

fn app(tracks: Vec<Track>) -> DawApp {
    DawApp {
        project_name: "Demo".to_string(),
        project_path: String::new(),
        metadata_artist: String::new(),
        metadata_title: String::new(),
        metadata_album: String::new(),
        metadata_genre: String::new(),
        metadata_year: String::new(),
        metadata_comment: String::new(),
        tracks,
        selected_track: None,
        selected_clip: None,
        performance_clip_settings: HashMap::new(),
        performance_selected_clip: None,
        node_routes: Vec::new(),
        rename_buffer: String::new(),
        show_rename_track: false,
        rename_clip_buffer: String::new(),
        rename_clip_target: None,
        show_rename_clip: false,
        project_name_buffer: String::new(),
        show_rename_project: false,
        status: String::new(),
        dirty: false,
        automation_active: None,
        automation_rows_expanded: HashSet::new(),
        midi_learn: None,
        recording: RecordingBuffers {
            active: false,
            track_index: usize::MAX,
            record_performance: false,
            performance_active: HashMap::new(),
            performance_takes: Vec::new(),
            start_beat: 0,
            record_audio: false,
            record_midi: false,
            record_automation: false,
            midi_active: HashMap::new(),
            midi_notes: Vec::new(),
            automation_points: Vec::new(),
        },
        is_recording: false,
        settings: settings(),
        settings_path: "settings.json".to_string(),
        buffer_override: None,
        license_status: String::new(),
        arrangement_playback: true,
        audio_running: false,
        last_params_track: None,
        license_serial: String::new(),
        wallpaper_texture_path: String::new(),
        record_audio: false,
        record_midi: true,
        record_automation: false,
        record_performance: false,
        record_started_audio: false,
        license_identifier: String::new(),
        license_password: String::new(),
        license_device_label: String::new(),
        fs_expanded: Vec::new(),
        fs_selected: None,
        browser_expanded: Vec::new(),
        browser_selected: None,
    }
}

fn clip(id: usize, track: usize, start: i64, length: i64, name: &str) -> Clip {
    Clip {
        id,
        track,
        start,
        length,
        is_midi: true,
        midi_notes: Vec::new(),
        midi_source: None,
        link_id: None,
        name: name.to_string(),
        audio_path: None,
        audio_source: None,
    }
}

fn track_with(name: &str, clips: Vec<Clip>) -> Track {
    let mut t = Track::named(name.to_string());
    t.clips = clips;
    t
}

fn fx_track(names: &[&str]) -> Track {
    let mut t = Track::named("Fx".to_string());
    for (i, n) in names.iter().enumerate() {
        t.effect_paths.push(n.to_string());
        t.effect_clap_ids.push(if i == 0 { Some(format!("id.{n}")) } else { None });
        t.effect_bypass.push(i == 1);
        t.effect_params.push(vec![format!("{n} gain")]);
        t.effect_param_ids.push(vec![i as u32]);
        t.effect_param_values.push(vec![i as u32 + 10]);
    }
    t
}

fn no_slots() -> Vec<Option<PerformanceRuntimeClip>> {
    Vec::new()
}

#[test]
fn mixer_mute_and_solo_flip() {
    let mut a = app(vec![track_with("A", Vec::new()), track_with("B", Vec::new())]);
    a.toggle_track_mute(1);
    assert!(a.tracks[1].muted && !a.tracks[0].muted);
    a.toggle_track_mute(1);
    assert!(!a.tracks[1].muted);
    a.toggle_track_solo(0);
    assert!(a.tracks[0].solo);
    a.toggle_track_solo(7);
    assert!(a.tracks[0].solo && !a.tracks[1].solo);
}

#[test]
fn mixer_effect_added_and_removed() {
    let mut a = app(vec![fx_track(&["eq", "comp"])]);
    a.selected_track = Some(0);
    let r = a.add_track_effect(0, "delay.clap".to_string(), Some("com.delay".to_string()));
    assert_eq!(r, (true, true));
    assert_eq!(a.status, "Effect added");
    let t = &a.tracks[0];
    assert_eq!(t.effect_paths, vec!["eq", "comp", "delay.clap"]);
    assert_eq!(t.effect_clap_ids[2], Some("com.delay".to_string()));
    assert_eq!(t.effect_bypass, vec![false, true, false]);
    assert!(t.effect_params[2].is_empty() && t.effect_param_ids[2].is_empty() && t.effect_param_values[2].is_empty());
    let mut slots = no_slots();
    assert!(!a.remove_track_effect(0, 0, &mut slots));
    let t = &a.tracks[0];
    assert_eq!(t.effect_paths, vec!["comp", "delay.clap"]);
    assert_eq!(t.effect_bypass, vec![true, false]);
    assert_eq!(t.effect_param_values, vec![vec![11], vec![]]);
}

#[test]
fn mixer_effect_added_while_playing() {
    let mut a = app(vec![fx_track(&[])]);
    a.audio_running = true;
    a.add_track_effect(0, "x.vst3".to_string(), None);
    assert_eq!(a.status, "Effect added; it will activate after stop/play");
    let mut slots = no_slots();
    assert!(a.remove_track_effect(0, 5, &mut slots));
    assert!(!a.audio_running);
    assert_eq!(a.tracks[0].effect_paths.len(), 1);
}

#[test]
fn mixer_effect_moves() {
    let mut a = app(vec![fx_track(&["a", "b", "c"])]);
    assert!(a.move_track_effect(0, 0, 1));
    let t = &a.tracks[0];
    assert_eq!(t.effect_paths, vec!["b", "a", "c"]);
    assert_eq!(t.effect_bypass, vec![true, false, false]);
    assert_eq!(t.effect_clap_ids, vec![None, Some("id.a".to_string()), None]);
    assert_eq!(t.effect_param_ids, vec![vec![1], vec![0], vec![2]]);
    assert!(a.move_track_effect(0, 1, -1));
    assert_eq!(a.tracks[0].effect_paths, vec!["a", "b", "c"]);
    assert!(!a.move_track_effect(0, 2, 1));
    assert!(a.move_track_effect(0, 0, -1));
    assert_eq!(a.tracks[0].effect_paths, vec!["a", "b", "c"]);
    assert!(!a.move_track_effect(3, 0, 1));
}

#[test]
fn mixer_effect_slots_fitted() {
    let mut t = Track::named("T".to_string());
    t.effect_paths = vec!["a".to_string(), "b".to_string()];
    t.effect_bypass = vec![true, true, true];
    t.effect_param_ids = vec![vec![4]];
    let mut a = app(vec![t]);
    a.fit_effect_slots();
    let t = &a.tracks[0];
    assert_eq!(t.effect_bypass, vec![true, true]);
    assert_eq!(t.effect_clap_ids, vec![None, None]);
    assert_eq!(t.effect_params, vec![Vec::<String>::new(), Vec::new()]);
    assert_eq!(t.effect_param_ids, vec![vec![4], vec![]]);
    assert_eq!(t.effect_param_values.len(), 2);
}

#[test]
fn mixer_instrument_cleared() {
    let mut t = Track::named("T".to_string());
    t.instrument_path = Some("synth.vst3".to_string());
    t.instrument_clap_id = Some("id".to_string());
    t.param_ids = vec![1, 2];
    t.param_values = vec![3, 4];
    let mut a = app(vec![t]);
    let mut slots = no_slots();
    let defaults = vec!["Volume".to_string()];
    a.tracks[0].treesynth = Some(lingstation::model::TreeSynthState { folder: Some("kit".to_string()), sample_paths: Vec::new() });
    assert!(!a.clear_track_instrument(0, &defaults, false, &mut slots));
    assert!(a.tracks[0].treesynth.is_some());
    assert!(!a.clear_track_instrument(0, &defaults, true, &mut slots));
    assert!(a.tracks[0].treesynth.is_none());
    let t = &a.tracks[0];
    assert_eq!(t.instrument_path, None);
    assert_eq!(t.instrument_clap_id, Some("id".to_string()));
    assert_eq!(t.params, defaults);
    assert!(t.param_ids.is_empty() && t.param_values.is_empty());
}

#[test]
fn mixer_selects_track_for_parameters() {
    let mut a = app(vec![track_with("A", Vec::new()), track_with("B", Vec::new())]);
    a.last_params_track = Some(1);
    assert_eq!(a.select_track_for_params(1), (false, true));
    assert_eq!(a.select_track_for_params(0), (true, true));
    assert_eq!(a.selected_track, Some(0));
    assert_eq!(a.last_params_track, Some(0));
}

#[test]
fn engine_start_refused_while_rendering() {
    let mut a = app(Vec::new());
    assert_eq!(a.audio_start_check(true), Err("Cannot start playback while rendering".to_string()));
    assert_eq!(a.audio_start_check(false), Ok(true));
    a.audio_running = true;
    assert_eq!(a.audio_start_check(false), Ok(false));
}

#[test]
fn engine_output_device_chosen() {
    let mut a = app(Vec::new());
    let names = vec![Some("Speakers".to_string()), None, Some("Interface".to_string())];
    assert_eq!(a.pick_output_device(&names), None);
    a.settings.output_device = "Interface".to_string();
    assert_eq!(a.pick_output_device(&names), Some(2));
    a.settings.output_device = "Missing".to_string();
    assert_eq!(a.pick_output_device(&names), None);
}

#[test]
fn engine_sample_rate_chosen() {
    let mut a = app(Vec::new());
    assert_eq!(a.stream_sample_rate(&None), 48000);
    assert_eq!(a.stream_sample_rate(&Some(Vec::new())), 48000);
    assert_eq!(a.stream_sample_rate(&Some(vec![(22050, 96000)])), 48000);
    assert_eq!(a.stream_sample_rate(&Some(vec![(44100, 44100), (96000, 192000)])), 44100);
    assert_eq!(a.stream_sample_rate(&Some(vec![(88200, 96000), (50000, 50000)])), 50000);
    a.settings.sample_rate = 0;
    assert_eq!(a.stream_sample_rate(&Some(vec![(8000, 8000)])), 8000);
    assert_eq!(a.stream_sample_rate(&Some(vec![(0, 2)])), 1);
}

#[test]
fn engine_buffer_grows_after_overrun() {
    assert_eq!(DawApp::grow_buffer_after_overrun(512), Some(1024));
    assert_eq!(DawApp::grow_buffer_after_overrun(5000), Some(8192));
    assert_eq!(DawApp::grow_buffer_after_overrun(8192), None);
    assert_eq!(DawApp::grow_buffer_after_overrun(10000), None);
    assert_eq!(DawApp::grow_buffer_after_overrun(0), None);
}

#[test]
fn engine_start_finished() {
    let mut a = app(Vec::new());
    a.finish_audio_start(&Vec::new(), false);
    assert!(a.audio_running);
    assert_eq!(a.status, "No MIDI input devices configured");
    a.finish_audio_start(&Vec::new(), true);
    assert_eq!(a.status, "Audio buffer applied");
}

#[test]
fn controller_devices_added_and_removed() {
    let mut a = app(Vec::new());
    a.add_midi_device(MidiDeviceProfile::Keyboard);
    a.add_midi_device(MidiDeviceProfile::Launchpad);
    a.add_midi_device(MidiDeviceProfile::Apc);
    a.add_midi_device(MidiDeviceProfile::Generic);
    let names: Vec<&str> = a.settings.midi_devices.iter().map(|d| d.name.as_str()).collect();
    assert_eq!(names, vec!["Keyboard 1", "Launchpad 2", "APC 3", "Controller 4"]);
    let d = &a.settings.midi_devices[1];
    assert_eq!(d.profile, MidiDeviceProfile::Launchpad);
    assert!(d.enabled && d.input_port.is_empty() && d.output_port.is_empty() && d.midi_channel == 0);
    a.remove_midi_device(0);
    assert_eq!(a.settings.midi_devices.len(), 3);
    assert_eq!(a.settings.midi_devices[0].name, "Launchpad 2");
}

#[test]
fn controller_choice_labels() {
    assert_eq!(DawApp::port_choice_label("  "), "None");
    assert_eq!(DawApp::port_choice_label("USB MIDI"), "USB MIDI");
    assert_eq!(DawApp::channel_choice_label(0), "Any MIDI Channel");
    assert_eq!(DawApp::channel_choice_label(16), "Channel 16");
}

#[test]
fn controller_reconnect_reported() {
    let mut a = app(Vec::new());
    let r = a.reconnect_midi_now(&Vec::new());
    assert!(r.is_err());
    assert_eq!(a.status, "MIDI reconnect failed: No MIDI input devices configured");
    let mut b = app(Vec::new());
    b.settings.midi_devices.push(MidiDeviceConfig {
        name: "Keys".to_string(),
        profile: MidiDeviceProfile::Keyboard,
        input_port: "P1".to_string(),
        output_port: String::new(),
        enabled: true,
        midi_channel: 0,
    });
    let outcomes = vec![("Keys".to_string(), None)];
    assert_eq!(b.reconnect_midi_now(&outcomes), Ok(()));
    assert_eq!(b.status, "MIDI inputs reconnected");
}

#[test]
fn sidebar_root_folder() {
    let mut a = app(Vec::new());
    a.project_path = "  /projects/song  ".to_string();
    assert_eq!(a.sidebar_project_root(None), "/projects/song");
    a.project_path = String::new();
    assert_eq!(a.sidebar_project_root(None), ".");
    a.project_name = "Song".to_string();
    assert_eq!(a.sidebar_project_root(Some("/opt/ls".to_string())), "/opt/ls/Song");
    assert_eq!(DawApp::fs_row_label("/projects/song"), "song");
    assert_eq!(DawApp::fs_row_label("/"), "/");
}

#[test]
fn sidebar_folders_open_and_close() {
    let mut a = app(Vec::new());
    a.open_project_root("/p");
    a.open_project_root("/q");
    assert_eq!(a.fs_expanded, vec!["/p"]);
    assert!(a.fs_tree_step(FsSource::Project, "/p/sub", true, true));
    assert!(a.is_fs_open(FsSource::Project, "/p/sub"));
    assert!(!a.fs_tree_step(FsSource::Project, "/p/sub", true, true));
    assert_eq!(a.fs_expanded, vec!["/p"]);
    assert!(a.fs_tree_step(FsSource::Project, "/p", true, false));
    assert!(!a.fs_tree_step(FsSource::Project, "/p/file.wav", false, true));
    a.open_browser_root("/samples");
    a.open_browser_root("/samples");
    assert_eq!(a.browser_expanded, vec!["/samples"]);
    assert!(!a.is_fs_open(FsSource::Project, "/samples"));
}

#[test]
fn sidebar_selection_badges_and_menus() {
    let mut a = app(Vec::new());
    a.select_fs_entry(FsSource::Browser, "/s/kick.wav");
    assert!(a.is_fs_selected(FsSource::Browser, "/s/kick.wav"));
    assert!(!a.is_fs_selected(FsSource::Project, "/s/kick.wav"));
    assert_eq!(DawApp::fs_row_badge("kick.wav", false), Some("WAV".to_string()));
    assert_eq!(DawApp::fs_row_badge("a.tar.gz", false), Some("GZ".to_string()));
    assert_eq!(DawApp::fs_row_badge("README", false), Some("README".to_string()));
    assert_eq!(DawApp::fs_row_badge("notes.longext", false), None);
    assert_eq!(DawApp::fs_row_badge("file.", false), None);
    assert_eq!(DawApp::fs_row_badge("folder.wav", true), None);
    assert_eq!(
        DawApp::fs_row_menu(false, FsSource::Project, 2),
        vec![FsMenuItem::Delete, FsMenuItem::Duplicate, FsMenuItem::ShowInExplorer]
    );
    assert_eq!(DawApp::fs_row_menu(true, FsSource::Browser, 0), vec![FsMenuItem::ShowInExplorer, FsMenuItem::RemoveFolder]);
    assert_eq!(DawApp::fs_row_menu(true, FsSource::Browser, 1), vec![FsMenuItem::ShowInExplorer]);
}

#[test]
fn sidebar_file_actions_reported() {
    let mut a = app(Vec::new());
    a.report_fs_delete(Ok(()));
    assert_eq!(a.status, "");
    a.report_fs_delete(Err("busy".to_string()));
    assert_eq!(a.status, "Delete failed: busy");
    a.report_fs_duplicate(Ok("/s/kick copy.wav".to_string()));
    assert_eq!(a.status, "Duplicated: /s/kick copy.wav");
    a.report_fs_duplicate(Err("Duplicate only supports files".to_string()));
    assert_eq!(a.status, "Duplicate failed: Duplicate only supports files");
    assert!(a.add_browser_folder("/samples"));
    assert_eq!(a.status, "Browser folder added: /samples");
    assert!(!a.add_browser_folder("/samples"));
    assert_eq!(a.settings.browser_folders, vec!["/samples"]);
}

fn question(pending: Option<u32>, exit: bool) -> CloseConfirm<u32> {
    CloseConfirm { open: true, pending_exit: exit, pending_action: pending, exit_confirmed: false }
}

#[test]
fn unsaved_changes_saved_then_continued() {
    let mut a = app(Vec::new());
    a.dirty = true;
    let (s, go) = a.resolve_close_confirm(question(Some(7), true), CloseClick::Save(Ok(())), false);
    assert_eq!(go, Some(7));
    assert!(!s.open && s.exit_confirmed && !s.pending_exit && s.pending_action.is_none());
    assert!(!a.dirty);
}

#[test]
fn unsaved_changes_save_failed() {
    let mut a = app(Vec::new());
    a.dirty = true;
    let (s, go) = a.resolve_close_confirm(question(Some(3), false), CloseClick::Save(Err("disk full".to_string())), false);
    assert_eq!(go, None);
    assert!(s.open && s.pending_action == Some(3));
    assert_eq!(a.status, "Save failed: disk full");
    assert!(a.dirty);
}

#[test]
fn unsaved_changes_discarded_cancelled_or_closed() {
    let mut a = app(Vec::new());
    a.dirty = true;
    let (s, go) = a.resolve_close_confirm(question(Some(1), false), CloseClick::Discard, false);
    assert_eq!(go, Some(1));
    assert!(!s.open && !s.exit_confirmed && !a.dirty);
    let (s, go) = a.resolve_close_confirm(question(Some(2), true), CloseClick::Cancel, false);
    assert_eq!(go, None);
    assert!(!s.open && !s.pending_exit && s.pending_action.is_none() && !s.exit_confirmed);
    let (s, go) = a.resolve_close_confirm(question(Some(2), true), CloseClick::Nothing, false);
    assert!(s.open && s.pending_exit && s.pending_action == Some(2) && go.is_none());
    let (s, go) = a.resolve_close_confirm(question(Some(2), true), CloseClick::Nothing, true);
    assert!(!s.open && !s.pending_exit && s.pending_action.is_none() && go.is_none());
}

fn candidate(path: &str, display: &str, category: PluginCategory, instrument_only: bool) -> PluginCandidate {
    PluginCandidate { path: path.to_string(), kind: PluginKind::Vst3, display: display.to_string(), category, instrument_only, clap_id: None }
}

#[test]
fn plugin_picker_lists_by_group() {
    let cands = vec![
        candidate("C:/vst/Reverb.vst3", "Reverb", PluginCategory::System, false),
        candidate("native:treesynth", "TreeSynth", PluginCategory::Native, true),
        candidate("C:/app/synths/FishSynth.clap", "FishSynth", PluginCategory::Bundled, true),
        candidate("C:/vst/SuperSynth.vst3", "Super", PluginCategory::System, false),
    ];
    let all = DawApp::plugin_picker_groups(&cands, "", true);
    assert_eq!(
        all,
        vec![(PluginCategory::Native, vec![1]), (PluginCategory::Bundled, vec![2]), (PluginCategory::System, vec![0, 3])]
    );
    let effects = DawApp::plugin_picker_groups(&cands, "", false);
    assert_eq!(effects, vec![(PluginCategory::System, vec![0, 3])]);
    let found = DawApp::plugin_picker_groups(&cands, "SYNTH", true);
    assert_eq!(
        found,
        vec![(PluginCategory::Native, vec![1]), (PluginCategory::Bundled, vec![2]), (PluginCategory::System, vec![3])]
    );
    assert!(DawApp::plugin_picker_groups(&cands, "zzz", true).is_empty());
}

#[test]
fn license_dialog_buttons() {
    let mut a = app(Vec::new());
    assert_eq!(a.registration_label(), "Unregistered");
    a.settings.registered_to = "Ling".to_string();
    assert_eq!(a.registration_label(), "Registered to: Ling");
    a.settings.auth_token = "tok".to_string();
    a.clear_license_token();
    assert!(a.settings.auth_token.is_empty());
    assert_eq!(a.status, "Token cleared");
    a.import_license_text(None);
    assert_eq!(a.status, "License file read failed");
    a.import_license_text(Some("{}".to_string()));
    assert_eq!(a.settings.license_file, "{}");
    assert_eq!(a.status, "License file imported");
}

fn note(start: i64, length: i64, pitch: u8) -> PianoRollNote {
    PianoRollNote { start, length, note: pitch, velocity: 90 }
}

fn roll_app(notes: Vec<PianoRollNote>, is_midi: bool) -> DawApp {
    let mut c = clip(1, 0, 0, 4000, "c");
    c.midi_notes = notes;
    c.is_midi = is_midi;
    let mut a = app(vec![track_with("T", vec![c])]);
    a.selected_clip = Some(1);
    a
}

#[test]
fn piano_note_placed() {
    let mut a = roll_app(vec![note(0, 500, 60), note(1000, 500, 62)], true);
    let mut sel: HashSet<usize> = [0usize, 1].into_iter().collect();
    assert!(a.piano_place_note(&mut sel, -30, 250, 60, false));
    let notes = &a.tracks[0].clips[0].midi_notes;
    assert_eq!(notes.len(), 3);
    assert_eq!(notes[2], PianoRollNote { start: 0, length: 250, note: 60, velocity: 100 });
    assert_eq!(sel, [2usize].into_iter().collect());
}

#[test]
fn piano_note_placed_replacing_overlaps() {
    let mut a = roll_app(vec![note(0, 500, 60), note(400, 500, 60), note(100, 100, 61), note(900, 100, 60)], true);
    let mut sel = HashSet::new();
    assert!(a.piano_place_note(&mut sel, 450, 400, 60, true));
    let notes = &a.tracks[0].clips[0].midi_notes;
    assert_eq!(notes.clone(), vec![note(100, 100, 61), note(900, 100, 60), PianoRollNote { start: 450, length: 400, note: 60, velocity: 100 }]);
}

#[test]
fn piano_note_not_placed_without_midi_clip() {
    let mut a = roll_app(Vec::new(), false);
    let mut sel = HashSet::new();
    assert!(!a.piano_place_note(&mut sel, 0, 100, 60, false));
    a.selected_clip = None;
    assert!(!a.piano_place_note(&mut sel, 0, 100, 60, false));
    assert!(a.tracks[0].clips[0].midi_notes.is_empty());
}

#[test]
fn piano_note_deleted_and_selection_shifted() {
    let mut a = roll_app(vec![note(0, 1, 60), note(1, 1, 61), note(2, 1, 62), note(3, 1, 63)], true);
    let mut sel: HashSet<usize> = [0usize, 2, 3].into_iter().collect();
    assert!(a.piano_delete_note(&mut sel, 2));
    assert_eq!(a.tracks[0].clips[0].midi_notes, vec![note(0, 1, 60), note(1, 1, 61), note(3, 1, 63)]);
    assert_eq!(sel, [0usize, 2].into_iter().collect());
    assert!(!a.piano_delete_note(&mut sel, 9));
}

#[test]
fn piano_selection_duplicated() {
    let mut a = roll_app(vec![note(0, 1, 60), note(1, 1, 61), note(2, 1, 62)], true);
    let mut sel: HashSet<usize> = [2usize, 0, 7].into_iter().collect();
    assert_eq!(a.piano_duplicate_selection(&mut sel, 1), 2);
    let notes = &a.tracks[0].clips[0].midi_notes;
    assert_eq!(notes[3], note(0, 1, 60));
    assert_eq!(notes[4], note(2, 1, 62));
    assert_eq!(sel, [3usize, 4].into_iter().collect());
    let mut empty = HashSet::new();
    assert_eq!(a.piano_duplicate_selection(&mut empty, 1), 1);
    assert_eq!(a.tracks[0].clips[0].midi_notes[5], note(1, 1, 61));
    assert_eq!(empty, [5usize].into_iter().collect());
}

fn lane(name: &str, param_id: u32) -> AutomationLane {
    AutomationLane { name: name.to_string(), param_id, target: AutomationTarget::Instrument, points: Vec::new() }
}

#[test]
fn automation_lane_created_once() {
    let mut t = Track::named("Synth".to_string());
    t.param_ids = vec![10, 20];
    t.automation_lanes = vec![lane("Cutoff", 10)];
    let mut a = app(vec![t]);
    a.create_automation_lane(0, 1, "Resonance".to_string());
    assert_eq!(a.tracks[0].automation_lanes.len(), 2);
    assert_eq!(a.tracks[0].automation_lanes[1].name, "Resonance");
    assert_eq!(a.tracks[0].automation_lanes[1].param_id, 20);
    assert_eq!(a.automation_active, Some((0, 1)));
    a.create_automation_lane(0, 0, "Again".to_string());
    assert_eq!(a.tracks[0].automation_lanes.len(), 2);
    assert_eq!(a.automation_active, Some((0, 0)));
    a.create_automation_lane(0, 5, "Missing".to_string());
    a.create_automation_lane(3, 0, "Missing".to_string());
    assert_eq!(a.tracks[0].automation_lanes.len(), 2);
    assert_eq!(a.automation_active, Some((0, 0)));
}

#[test]
fn automation_lane_deleted_and_focus_follows() {
    let mut t = Track::named("Synth".to_string());
    t.automation_lanes = vec![lane("A", 1), lane("B", 2), lane("C", 3)];
    let mut a = app(vec![t]);
    a.automation_active = Some((0, 2));
    a.delete_automation_lane(0, 0);
    assert_eq!(a.tracks[0].automation_lanes.len(), 2);
    assert_eq!(a.automation_active, Some((0, 1)));
    assert_eq!(a.tracks[0].automation_lanes[1].name, "C");
    a.delete_automation_lane(0, 1);
    assert_eq!(a.automation_active, None);
    a.automation_active = Some((1, 4));
    a.delete_automation_lane(0, 0);
    assert_eq!(a.automation_active, Some((1, 4)));
    assert!(a.tracks[0].automation_lanes.is_empty());
}

#[test]
fn midi_learn_armed() {
    let mut a = app(Vec::new());
    a.arm_midi_learn(2, 77, "Cutoff");
    assert_eq!(a.midi_learn, Some((2, 77)));
    assert_eq!(a.status, "MIDI Learn armed for Cutoff");
}

#[test]
fn scanned_plugins_listed_in_groups() {
    let vst3 = vec![
        ("C:/vst/zeta.vst3".to_string(), "Zeta".to_string()),
        ("C:/app/synths/Bundled.vst3".to_string(), "bundled one".to_string()),
        ("C:/vst/alpha.vst3".to_string(), "alpha".to_string()),
    ];
    let clap = vec![
        ClapScan {
            path: "C:/clap/multi.clap".to_string(),
            name: "multi".to_string(),
            plugins: vec![("com.b".to_string(), "Beta".to_string()), ("com.a".to_string(), "Acme".to_string())],
        },
        ClapScan { path: "C:/clap/broken.clap".to_string(), name: "broken".to_string(), plugins: Vec::new() },
    ];
    let r = DawApp::assemble_plugin_candidates(&vst3, &clap);
    let shown: Vec<&str> = r.iter().map(|c| c.display.as_str()).collect();
    assert_eq!(
        shown,
        vec![
            "Drum Machine (Sampler)",
            "TreeSynth (Sampler)",
            "bundled one",
            "Acme (CLAP)",
            "alpha",
            "Beta (CLAP)",
            "broken (CLAP)",
            "Zeta",
        ]
    );
    assert_eq!(r[2].category, PluginCategory::Bundled);
    assert_eq!(r[3].clap_id, Some("com.a".to_string()));
    assert_eq!(r[3].kind, PluginKind::Clap);
    assert_eq!(r[6].clap_id, None);
    assert_eq!(r[4].kind, PluginKind::Vst3);
    assert!(r[0].instrument_only && r[0].path == "native:drummachine");
}
