use std::collections::HashMap;
use std::collections::HashSet;

use lingstation::dropped_audio::UNKNOWN_AUDIO_TICKS;
use lingstation::model::{Clip, DawApp, RecordingBuffers, SettingsState, Track};

fn settings() -> SettingsState {
    SettingsState {
        buffer_size: 512,
        triple_buffer: false,
        sample_rate: 48000,
        recent_projects: Vec::new(),
        midi_input: String::new(),
        midi_devices: Vec::new(),
        device_id: String::new(),
        device_salt: String::new(),
        registered_to: String::new(),
        wallpaper_path: String::new(),
        browser_folders: Vec::new(),
        auth_token: String::new(),
        license_file: String::new(),
        license_monthly_activations: None,
        license_remaining_activations: None,
        output_device: String::new(),
    }
}

fn app(tracks: Vec<Track>) -> DawApp {
    DawApp {
        project_name: "Demo".to_string(),
        project_path: String::new(),
        metadata_artist: String::new(),
        metadata_title: String::new(),
        metadata_album: String::new(),
        metadata_genre: String::new(),
        metadata_year: String::new(),
        metadata_comment: String::new(),
        tracks,
        selected_track: None,
        selected_clip: None,
        performance_clip_settings: HashMap::new(),
        performance_selected_clip: None,
        node_routes: Vec::new(),
        rename_buffer: String::new(),
        show_rename_track: false,
        rename_clip_buffer: String::new(),
        rename_clip_target: None,
        show_rename_clip: false,
        project_name_buffer: String::new(),
        show_rename_project: false,
        status: String::new(),
        dirty: false,
        automation_active: None,
        automation_rows_expanded: HashSet::new(),
        midi_learn: None,
        recording: RecordingBuffers {
            active: false,
            track_index: usize::MAX,
            record_performance: false,
            performance_active: HashMap::new(),
            performance_takes: Vec::new(),
            start_beat: 0,
            record_audio: false,
            record_midi: false,
            record_automation: false,
            midi_active: HashMap::new(),
            midi_notes: Vec::new(),
            automation_points: Vec::new(),
        },
        is_recording: false,
        settings: settings(),
        settings_path: "settings.json".to_string(),
        buffer_override: None,
        license_status: String::new(),
        arrangement_playback: true,
        audio_running: false,
        last_params_track: None,
        license_serial: String::new(),
        wallpaper_texture_path: String::new(),
        record_audio: false,
        record_midi: true,
        record_automation: false,
        record_performance: false,
        record_started_audio: false,
        license_identifier: String::new(),
        license_password: String::new(),
        license_device_label: String::new(),
        fs_expanded: Vec::new(),
        fs_selected: None,
        browser_expanded: Vec::new(),
        browser_selected: None,
    }
}

fn clip(id: usize, track: usize, start: i64, length: i64, name: &str) -> Clip {
    Clip {
        id,
        track,
        start,
        length,
        is_midi: true,
        midi_notes: Vec::new(),
        midi_source: None,
        link_id: None,
        name: name.to_string(),
        audio_path: None,
        audio_source: None,
    }
}

fn track_with(name: &str, clips: Vec<Clip>) -> Track {
    let mut t = Track::named(name.to_string());
    t.clips = clips;
    t
}

#[test]
fn dropped_audio_name_and_extension() {
    let r = DawApp::dropped_audio_source("/music/My Song!.mp3").unwrap();
    assert_eq!(r.1, "mp3");
    assert_eq!(r.0, DawApp::sanitize_folder_name("My Song!"));
    let plain = DawApp::dropped_audio_source("kick").unwrap();
    assert_eq!(plain, ("kick".to_string(), "wav".to_string()));
    assert_eq!(DawApp::dropped_audio_source("/"), Err("Invalid file name".to_string()));
}

#[test]
fn dropped_audio_alternative_names() {
    assert_eq!(DawApp::dropped_audio_file_name("kick", "wav", 0), "kick.wav");
    assert_eq!(DawApp::dropped_audio_file_name("kick", "wav", 3), "kick_3.wav");
    assert_eq!(DawApp::dropped_audio_file_name("loop", "flac", 12), "loop_12.flac");
}

#[test]
fn dropped_audio_becomes_clip() {
    let mut a = app(vec![track_with("Drums", vec![clip(4, 0, 0, 1000, "a")]), track_with("Bass", Vec::new())]);
    assert_eq!(a.dropped_clip_track(1), Ok(()));
    a.add_audio_clip_from_path(1, -200, "kick", "kick_1.wav", Some(8000)).unwrap();
    let c = &a.tracks[1].clips[0];
    assert_eq!(c.id, 5);
    assert_eq!(c.start, 0);
    assert_eq!(c.length, 8000);
    assert!(!c.is_midi);
    assert_eq!(c.name, "kick");
    assert_eq!(c.audio_path, Some("audio/kick_1.wav".to_string()));
    assert_eq!(a.selected_track, Some(1));
    assert_eq!(a.selected_clip, Some(5));
}

#[test]
fn dropped_audio_unknown_or_short_length() {
    let mut a = app(vec![track_with("Audio", Vec::new())]);
    a.add_audio_clip_from_path(0, 2000, "pad", "pad.wav", None).unwrap();
    assert_eq!(a.tracks[0].clips[0].length, UNKNOWN_AUDIO_TICKS);
    assert_eq!(a.tracks[0].clips[0].start, 2000);
    a.add_audio_clip_from_path(0, 0, "tick", "tick.wav", Some(3)).unwrap();
    assert!(a.tracks[0].clips[1].length > 3);
}

#[test]
fn dropped_audio_on_missing_track() {
    let mut a = app(vec![track_with("Audio", Vec::new())]);
    let err = Err("Invalid track for dropped clip".to_string());
    assert_eq!(a.dropped_clip_track(2), err.clone());
    assert_eq!(a.add_audio_clip_from_path(2, 0, "x", "x.wav", None), err);
    assert!(a.tracks[0].clips.is_empty());
}

#[test]
fn home_folder_by_platform() {
    let up = Some("C:\\Users\\me".to_string());
    let home = Some("/home/me".to_string());
    assert_eq!(DawApp::home_dir(true, up.clone(), home.clone()), up);
    assert_eq!(DawApp::home_dir(false, up, home.clone()), home);
}

#[test]
fn settings_file_locations() {
    let (p, d) = DawApp::default_settings_path(false, None, Some("/xdg".to_string()), Some("/home/me".to_string()));
    assert_eq!(p, "/xdg/LingStation/settings.ling.json");
    assert_eq!(d, Some("/xdg/LingStation".to_string()));
    let (p, d) = DawApp::default_settings_path(false, None, None, Some("/home/me".to_string()));
    assert_eq!(p, "/home/me/.config/LingStation/settings.ling.json");
    assert_eq!(d, Some("/home/me/.config/LingStation".to_string()));
    let (p, d) = DawApp::default_settings_path(false, None, None, None);
    assert_eq!(p, "settings.ling.json");
    assert_eq!(d, None);
    let (p, d) = DawApp::default_settings_path(true, None, Some("/xdg".to_string()), None);
    assert_eq!(p, "settings.ling.json");
    assert_eq!(d, None);
    let (p, _) = DawApp::default_settings_path(true, Some("/appdata".to_string()), None, None);
    assert_eq!(p, "/appdata/LingStation/settings.ling.json");
}

#[test]
fn template_folders_in_order() {
    let r = DawApp::templates_dir(Some("/work".to_string()), Some("/opt/ls".to_string()));
    assert_eq!(r, vec!["/work/assets/templates".to_string(), "/opt/ls/assets/templates".to_string()]);
    assert!(DawApp::templates_dir(None, None).is_empty());
}

#[test]
fn render_folder_candidates() {
    let mut a = app(Vec::new());
    a.project_path = "  /projects/demo ".to_string();
    a.project_name = "My Song".to_string();
    let r = a.default_render_dir(Some("/opt/ls".to_string()), Some("/home/me".to_string()));
    let paths: Vec<(String, bool)> = r.iter().map(|c| (c.path.clone(), c.create)).collect();
    assert_eq!(
        paths,
        vec![
            ("/projects/demo".to_string(), false),
            ("/opt/ls/My Song".to_string(), true),
            ("/home/me/Music".to_string(), true),
            ("/home/me".to_string(), false),
        ]
    );
    let b = app(Vec::new());
    assert!(b.default_render_dir(None, None).is_empty());
}
