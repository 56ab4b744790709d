use std::collections::HashMap;
use std::collections::HashSet;

use lingstation::device::hex_lower_string;
use lingstation::json::{JsonMember, JsonValue};
use lingstation::license::{FetchOutcome, LicenseJobResult, LicensePayloadInfo};
use lingstation::model::{
    DawApp, DrumMachineState, MidiDeviceConfig, RecordingBuffers, SettingsState, Track, TreeSynthState,
};
use lingstation::paths::{FsDragKind, FsEntry, PluginCategory, PluginKind, TemplateFolder};

fn settings() -> SettingsState {
    SettingsState {
        buffer_size: 512,
        triple_buffer: false,
        sample_rate: 48000,
        recent_projects: Vec::new(),
        midi_input: String::new(),
        midi_devices: Vec::new(),
        device_id: String::new(),
        device_salt: String::new(),
        registered_to: String::new(),
        wallpaper_path: String::new(),
        browser_folders: Vec::new(),
        auth_token: String::new(),
        license_file: String::new(),
        license_monthly_activations: None,
        license_remaining_activations: None,
        output_device: String::new(),
    }
}

fn app(tracks: Vec<Track>) -> DawApp {
    DawApp {
        project_name: "Demo".to_string(),
        project_path: String::new(),
        metadata_artist: String::new(),
        metadata_title: String::new(),
        metadata_album: String::new(),
        metadata_genre: String::new(),
        metadata_year: String::new(),
        metadata_comment: String::new(),
        tracks,
        selected_track: None,
        selected_clip: None,
        performance_clip_settings: HashMap::new(),
        performance_selected_clip: None,
        node_routes: Vec::new(),
        rename_buffer: String::new(),
        show_rename_track: false,
        rename_clip_buffer: String::new(),
        rename_clip_target: None,
        show_rename_clip: false,
        project_name_buffer: String::new(),
        show_rename_project: false,
        status: String::new(),
        dirty: false,
        automation_active: None,
        automation_rows_expanded: HashSet::new(),
        midi_learn: None,
        recording: RecordingBuffers {
            active: false,
            track_index: usize::MAX,
            record_performance: false,
            performance_active: HashMap::new(),
            performance_takes: Vec::new(),
            start_beat: 0,
            record_audio: false,
            record_midi: false,
            record_automation: false,
            midi_active: HashMap::new(),
            midi_notes: Vec::new(),
            automation_points: Vec::new(),
        },
        is_recording: false,
        settings: settings(),
        settings_path: "settings.json".to_string(),
        buffer_override: None,
        license_status: String::new(),
        arrangement_playback: true,
        audio_running: false,
        last_params_track: None,
        license_serial: String::new(),
        wallpaper_texture_path: String::new(),
        record_audio: false,
        record_midi: true,
        record_automation: false,
        record_performance: false,
        record_started_audio: false,
        license_identifier: String::new(),
        license_password: String::new(),
        license_device_label: String::new(),
        fs_expanded: Vec::new(),
        fs_selected: None,
        browser_expanded: Vec::new(),
        browser_selected: None,
    }
}

#[test]
fn split_version_suffix_reads_trailing_version() {
    assert_eq!(DawApp::split_version_suffix("Song v3"), ("Song".to_string(), Some(3)));
    assert_eq!(DawApp::split_version_suffix("a v1 v2"), ("a v1".to_string(), Some(2)));
    assert_eq!(DawApp::split_version_suffix("Song v007"), ("Song".to_string(), Some(7)));
}

#[test]
fn split_version_suffix_rejects_other_suffixes() {
    assert_eq!(DawApp::split_version_suffix("Song"), ("Song".to_string(), None));
    assert_eq!(DawApp::split_version_suffix("Song v"), ("Song v".to_string(), None));
    assert_eq!(DawApp::split_version_suffix("Song v12a"), ("Song v12a".to_string(), None));
    assert_eq!(DawApp::split_version_suffix("x v4294967296"), ("x v4294967296".to_string(), None));
    assert_eq!(DawApp::split_version_suffix("x v4294967295"), ("x".to_string(), Some(u32::MAX)));
}

#[test]
fn sanitize_folder_name_replaces_reserved_characters() {
    assert_eq!(DawApp::sanitize_folder_name("a<b>:c"), "a_b__c");
    assert_eq!(DawApp::sanitize_folder_name(" x/y\\z|?* "), "x_y_z___");
    assert_eq!(DawApp::sanitize_folder_name("   "), "LingStationProject");
    assert_eq!(DawApp::sanitize_folder_name(""), "LingStationProject");
}

#[test]
fn normalize_and_compare_windows_paths() {
    assert_eq!(DawApp::normalize_windows_path("\\\\?\\C:\\Music"), "C:\\Music");
    assert_eq!(DawApp::normalize_windows_path("C:\\Music"), "C:\\Music");
    assert!(DawApp::paths_equal("\\\\?\\C:\\Music\\Song", "c:\\music\\SONG"));
    assert!(!DawApp::paths_equal("C:\\Music\\A", "C:\\Music\\B"));
}

#[test]
fn recent_projects_move_to_front_without_case_duplicates() {
    let mut a = app(Vec::new());
    a.settings.recent_projects = vec!["C:\\B".to_string(), "c:\\a".to_string(), "C:\\D".to_string()];
    a.register_recent_project_path("\\\\?\\C:\\A");
    assert_eq!(a.settings.recent_projects, vec!["C:\\A".to_string(), "C:\\B".to_string(), "C:\\D".to_string()]);
}

#[test]
fn recent_projects_keep_ten_entries() {
    let mut a = app(Vec::new());
    a.settings.recent_projects = (0..12).map(|i| format!("P{i}")).collect();
    a.register_recent_project_path("New");
    assert_eq!(a.settings.recent_projects.len(), 10);
    assert_eq!(a.settings.recent_projects[0], "New");
    assert_eq!(a.settings.recent_projects[9], "P8");
}

#[test]
fn recent_projects_ignore_blank_folder() {
    let mut a = app(Vec::new());
    a.settings.recent_projects = vec!["X".to_string()];
    a.register_recent_project_path("  ");
    assert_eq!(a.settings.recent_projects, vec!["X".to_string()]);
}

#[test]
fn registering_twice_equals_registering_once() {
    let mut a = app(Vec::new());
    a.settings.recent_projects = (0..11).map(|i| format!("P{i}")).collect();
    a.register_recent_project_path("p3");
    let once = a.settings.recent_projects.clone();
    a.register_recent_project_path("p3");
    assert_eq!(a.settings.recent_projects, once);
}

#[test]
fn rename_project_takes_trimmed_name() {
    let mut a = app(Vec::new());
    a.begin_rename_project();
    assert!(a.show_rename_project);
    assert_eq!(a.project_name_buffer, "Demo");
    a.project_name_buffer = "  New Name ".to_string();
    a.apply_rename_project();
    assert_eq!(a.project_name, "New Name");
    assert!(a.dirty);
    assert_eq!(a.status, "Project renamed");
}

#[test]
fn rename_project_ignores_blank_name() {
    let mut a = app(Vec::new());
    a.project_name_buffer = "   ".to_string();
    a.apply_rename_project();
    assert_eq!(a.project_name, "Demo");
    assert!(!a.dirty);
}

#[test]
fn render_base_name_prefers_artist_and_title() {
    let mut a = app(Vec::new());
    a.metadata_artist = " Ann ".to_string();
    a.metadata_title = "Tune?".to_string();
    assert_eq!(a.render_base_name(), "Ann - Tune_");
    a.metadata_artist.clear();
    assert_eq!(a.render_base_name(), "Tune_");
    a.metadata_title.clear();
    assert_eq!(a.render_base_name(), "Demo");
    a.project_name = " ".to_string();
    assert_eq!(a.render_base_name(), "render");
}

#[test]
fn render_license_comment_by_license() {
    let mut a = app(Vec::new());
    assert_eq!(a.render_license_comment(), Some("Made with LingStation[Unlicensed]".to_string()));
    a.license_status = "Registered (Education)".to_string();
    assert_eq!(a.render_license_comment(), Some("Made with an Educational License".to_string()));
    a.license_status = "Registered (Pro)".to_string();
    assert_eq!(a.render_license_comment(), None);
    a.license_status = "Unregistered".to_string();
    a.settings.registered_to = "ann".to_string();
    assert_eq!(a.render_license_comment(), None);
}

#[test]
fn registered_user_and_wallpaper() {
    let mut a = app(Vec::new());
    assert!(!a.is_registered_user());
    a.settings.wallpaper_path = "w.png".to_string();
    assert!(!a.wallpaper_enabled());
    a.license_status = "Registered".to_string();
    assert!(a.is_registered_user());
    assert!(a.wallpaper_enabled());
}

#[test]
fn save_targets() {
    let mut a = app(Vec::new());
    assert_eq!(a.save_project(None), Err("Default project folder unavailable".to_string()));
    assert_eq!(a.save_project_or_prompt(Some("/d".to_string())), Ok("/d".to_string()));
    a.project_path = "/p".to_string();
    assert_eq!(a.save_project(Some("/d".to_string())), Ok("/p".to_string()));
    assert_eq!(a.load_project(), "/p");
}

#[test]
fn ensure_project_folder_adopts_default() {
    let mut a = app(Vec::new());
    assert_eq!(
        a.ensure_project_folder(None, Ok(())),
        Err("Default project folder unavailable".to_string())
    );
    assert_eq!(
        a.ensure_project_folder(Some("/d".to_string()), Err("denied".to_string())),
        Err("denied".to_string())
    );
    assert_eq!(a.project_path, "");
    assert_eq!(a.ensure_project_folder(Some("/d".to_string()), Ok(())), Ok("/d".to_string()));
    assert_eq!(a.project_path, "/d");
    a.project_path = " /e ".to_string();
    assert_eq!(a.project_folder_target(None), Ok("/e".to_string()));
}

#[test]
fn open_missing_project_drops_it_from_recent() {
    let mut a = app(Vec::new());
    a.settings.recent_projects = vec!["/A".to_string(), "/b".to_string()];
    assert_eq!(a.open_project_from_path("/a", false), Err("Project folder not found".to_string()));
    assert_eq!(a.settings.recent_projects, vec!["/b".to_string()]);
    assert_eq!(a.open_project_from_path("/b", true), Ok(()));
}

#[test]
fn new_version_plan_from_folder() {
    let mut a = app(Vec::new());
    assert_eq!(a.save_project_new_version().err(), Some("No project path to version".to_string()));
    a.project_path = " /projects/Song v2 ".to_string();
    let plan = a.save_project_new_version().ok().unwrap();
    assert_eq!(plan.parent, "/projects");
    assert_eq!(plan.base, "Song");
    assert_eq!(plan.first, 3);
    a.project_path = "/projects/Song".to_string();
    assert_eq!(a.save_project_new_version().ok().unwrap().first, 2);
    let err = DawApp::new_version_plan(Some("/p".to_string()), Some(" v3".to_string())).err();
    assert_eq!(err, Some("Project name unavailable".to_string()));
    let err = DawApp::new_version_plan(None, Some("x".to_string())).err();
    assert_eq!(err, Some("Project folder has no parent".to_string()));
    let err = DawApp::new_version_plan(Some("/p".to_string()), None).err();
    assert_eq!(err, Some("Project folder name unavailable".to_string()));
}

#[test]
fn version_numbers_and_names() {
    assert_eq!(DawApp::version_folder_name("Song", 12), "Song v12");
    assert_eq!(DawApp::next_version_number(5), Some(6));
    assert_eq!(DawApp::next_version_number(9998), Some(9999));
    assert_eq!(DawApp::next_version_number(9999), None);
    assert_eq!(DawApp::next_version_number(u32::MAX), None);
}

#[test]
fn resolve_sample_paths_against_root() {
    let mut ts = TreeSynthState {
        folder: Some("samples".to_string()),
        sample_paths: vec!["kick.wav".to_string(), "/abs/snare.wav".to_string()],
    };
    DawApp::resolve_treesynth_paths_from_project_root(&mut ts, "/root/p");
    assert_eq!(ts.folder, Some("/root/p/samples".to_string()));
    assert_eq!(ts.sample_paths[0], "/root/p/kick.wav");
    assert_eq!(ts.sample_paths[1], "/abs/snare.wav");
    let mut dm = DrumMachineState { pad_paths: vec![None, Some("hat.wav".to_string())] };
    DawApp::resolve_drummachine_paths_from_project_root(&mut dm, "/r");
    assert_eq!(dm.pad_paths, vec![None, Some("/r/hat.wav".to_string())]);
}

#[test]
fn plugin_paths_are_classified() {
    assert!(DawApp::is_native_plugin_path("native:treesynth"));
    assert!(DawApp::is_treesynth_path("NATIVE:TreeSynth"));
    assert!(DawApp::is_drummachine_path("native:drummachine"));
    assert!(!DawApp::is_drummachine_path("native:drum"));
    assert!(DawApp::is_bundled_plugin_path("Synths\\Cat.vst3"));
    assert!(DawApp::is_bundled_plugin_path("C:/app/synths/Cat.vst3"));
    assert!(DawApp::is_bundled_plugin_path("synths"));
    assert!(!DawApp::is_bundled_plugin_path("C:/VST3/Cat.vst3"));
    assert_eq!(DawApp::categorize_plugin_path("native:x"), PluginCategory::Native);
    assert_eq!(DawApp::categorize_plugin_path("synths/x.vst3"), PluginCategory::Bundled);
    assert_eq!(DawApp::categorize_plugin_path("x.vst3"), PluginCategory::System);
}

#[test]
fn plugin_kind_by_extension() {
    assert_eq!(DawApp::plugin_kind_from_path("native:drummachine"), PluginKind::Native);
    assert_eq!(DawApp::plugin_kind_from_path("Surge.CLAP"), PluginKind::Clap);
    assert_eq!(DawApp::plugin_kind_from_path("Surge.vst3"), PluginKind::Vst3);
    assert_eq!(DawApp::plugin_kind_from_path("Surge"), PluginKind::Vst3);
    assert_eq!(DawApp::plugin_kind_for_extension("x", &Some("Clap".to_string())), PluginKind::Clap);
    assert_eq!(DawApp::plugin_kind_for_extension("x", &None), PluginKind::Vst3);
}

#[test]
fn drag_kind_by_extension() {
    assert_eq!(DawApp::fs_drag_kind_for_path("a.MID"), Some(FsDragKind::Midi));
    assert_eq!(DawApp::fs_drag_kind_for_path("a.flac"), Some(FsDragKind::Audio));
    assert_eq!(DawApp::fs_drag_kind_for_path("a.txt"), None);
    assert_eq!(DawApp::fs_drag_kind_for_path("noext"), None);
    assert_eq!(DawApp::fs_drag_kind_for_extension(&Some("Aif".to_string())), Some(FsDragKind::Audio));
}

#[test]
fn project_name_from_folder_name() {
    let mut a = app(Vec::new());
    a.project_path = "/music/My_Song".to_string();
    assert_eq!(a.project_name_from_path(), Some("My Song".to_string()));
    a.project_path = "Plain_Name".to_string();
    assert_eq!(a.project_name_from_path(), Some("Plain Name".to_string()));
    assert_eq!(DawApp::project_name_from_file_name(&None), None);
    assert_eq!(DawApp::fs_key("/x/y"), "/x/y");
}

#[test]
fn search_roots() {
    let a = app(Vec::new());
    assert_eq!(a.vst3_search_roots(), vec!["C:\\Program Files\\Common Files\\VST3".to_string(), "synths".to_string()]);
    assert_eq!(a.clap_search_roots(), vec!["C:\\Program Files\\Common Files\\CLAP".to_string(), "synths".to_string()]);
}

#[test]
fn browser_lists_folders_then_files_by_name() {
    let a = app(Vec::new());
    let e = |name: &str, dir: bool| FsEntry { name: name.to_string(), path: format!("/p/{name}"), is_dir: dir };
    let listed = a.list_project_entries(vec![e("b.wav", false), e("zeta", true), e("a.wav", false), e("Alpha", true)]);
    let names: Vec<String> = listed.iter().map(|x| x.name.clone()).collect();
    assert_eq!(names, vec!["Alpha", "zeta", "a.wav", "b.wav"]);
}

#[test]
fn device_id_is_hex_sha256_of_fingerprint_and_salt() {
    assert_eq!(
        DawApp::hash_device_id("fp", "s"),
        "5b068d5873900da70edb6e878adb6d87c6fe500bee28ea30eb609b2ab4625b31"
    );
    assert_eq!(hex_lower_string(&[0x00, 0xab, 0x7f]), "00ab7f");
}

#[test]
fn ensure_device_id_uses_stored_salt() {
    let mut a = app(Vec::new());
    a.settings.device_salt = "c2FsdA==".to_string();
    assert!(a.ensure_device_id("HOST|USER|CPU"));
    assert_eq!(a.settings.device_id, "57affe912b3d232e482185d460eac10f75d3b8e1706f219ad07029bf52999ae8");
    assert!(!a.ensure_device_id("other"));
    assert_eq!(a.settings.device_id, "57affe912b3d232e482185d460eac10f75d3b8e1706f219ad07029bf52999ae8");
}

#[test]
fn ensure_device_id_creates_salt() {
    let mut a = app(Vec::new());
    assert!(a.ensure_device_id("fp"));
    assert_eq!(a.settings.device_salt.len(), 24);
    assert!(a.settings.device_salt.ends_with("=="));
    assert_eq!(a.settings.device_id.len(), 64);
    let salt = DawApp::generate_device_salt().unwrap();
    assert_eq!(salt.len(), 24);
}

const PUBLIC: [u8; 32] = [
    0xd7, 0x5a, 0x98, 0x01, 0x82, 0xb1, 0x0a, 0xb7, 0xd5, 0x4b, 0xfe, 0xd3, 0xc9, 0x64, 0x07, 0x3a, 0x0e, 0xe1, 0x72,
    0xf3, 0xda, 0xa6, 0x23, 0x25, 0xaf, 0x02, 0x1a, 0x68, 0xf7, 0x07, 0x51, 0x1a,
];

#[test]
fn decode_public_key_forms() {
    assert_eq!(DawApp::decode_public_key("11qYAYKxCrfVS_7TyWQHOg7hcvPapiMlrwIaaPcHURo="), Ok(PUBLIC));
    let pem = "-----BEGIN PUBLIC KEY-----\r\nMCowBQYDK2VwAyEA11qYAYKxCrfVS_7TyWQHOg7hcvPapiMlrwIaaPcHURo=\n-----END PUBLIC KEY-----\n";
    assert_eq!(DawApp::decode_public_key(pem), Ok(PUBLIC));
    assert_eq!(DawApp::decode_public_key("MC4CAQAwBQYDK2VwBCIEIJ1hsZ3v_VpguoRK9JLsLMREScVpezJpGXA7rAMcrn9g"), Ok(PUBLIC));
}

#[test]
fn decode_public_key_errors() {
    assert_eq!(DawApp::decode_public_key("YWJj"), Err("Public key must be 32 bytes".to_string()));
    let err = DawApp::decode_public_key("not base64!").unwrap_err();
    assert!(err.starts_with("Public key decode error: "));
    assert_eq!(DawApp::public_key_from_raw(&vec![1u8; 40]), Err("Public key must be 32 bytes".to_string()));
}

#[test]
fn license_status_from_verified_file() {
    let mut a = app(Vec::new());
    a.settings.license_remaining_activations = Some(4);
    a.refresh_license_status(Err("unused".to_string()));
    assert_eq!(a.license_status, "Unregistered");
    assert_eq!(a.settings.license_remaining_activations, None);
    a.settings.license_file = "{}".to_string();
    let info = LicensePayloadInfo {
        registered_to: Some("ann".to_string()),
        license_type: Some("Pro".to_string()),
        max_activations: Some(3),
        monthly_activations: Some(2),
    };
    a.refresh_license_status(Ok(info));
    assert_eq!(a.license_status, "Registered (Pro)");
    assert_eq!(a.settings.registered_to, "ann");
    assert_eq!(a.settings.license_monthly_activations, Some(2));
    a.refresh_license_status(Err("bad signature".to_string()));
    assert_eq!(a.license_status, "License error: bad signature");
}

#[test]
fn finished_license_request_is_taken_in() {
    let mut a = app(Vec::new());
    let result = LicenseJobResult {
        status: Ok("Activated.".to_string()),
        token: Some("tok".to_string()),
        license_file: None,
        registered_to: Some("bob".to_string()),
        remaining_activations: Some(5),
    };
    a.poll_license_job(result, Err("unused".to_string()));
    assert_eq!(a.status, "Activated. You have 5 activations remaining this month.");
    assert_eq!(a.settings.auth_token, "tok");
    assert_eq!(a.settings.registered_to, "bob");
    assert_eq!(a.settings.license_remaining_activations, Some(5));
    let failed = LicenseJobResult {
        status: Err("Download failed".to_string()),
        token: None,
        license_file: Some("data".to_string()),
        registered_to: None,
        remaining_activations: Some(1),
    };
    let info = LicensePayloadInfo { registered_to: None, license_type: None, max_activations: None, monthly_activations: None };
    a.poll_license_job(failed, Ok(info));
    assert_eq!(a.status, "Download failed");
    assert_eq!(a.license_status, "Registered");
    assert_eq!(a.settings.license_file, "data");
}

#[test]
fn midi_device_defaults_are_enabled() {
    let d = MidiDeviceConfig::default();
    assert!(d.enabled);
    assert!(d.name.is_empty());
}

#[test]
fn duplicate_names_and_plan() {
    assert_eq!(DawApp::duplicate_file_name("kick", "wav", 1), "kick copy.wav");
    assert_eq!(DawApp::duplicate_file_name("kick", "wav", 3), "kick copy 3.wav");
    assert_eq!(DawApp::duplicate_file_name("notes", "", 1), "notes copy");
    let plan = DawApp::duplicate_fs_path("/s/kick.wav", false).ok().unwrap();
    assert_eq!(plan.parent, "/s");
    assert_eq!(plan.stem, "kick");
    assert_eq!(plan.ext, "wav");
    assert_eq!(DawApp::duplicate_fs_path("/s", true).err(), Some("Duplicate only supports files".to_string()));
    assert_eq!(
        DawApp::duplicate_plan_for(false, None, None, None).err(),
        Some("Missing parent folder".to_string())
    );
    let plan = DawApp::duplicate_plan_for(false, Some("/p".to_string()), None, None).ok().unwrap();
    assert_eq!((plan.stem.as_str(), plan.ext.as_str()), ("copy", ""));
}

#[test]
fn project_assets_to_copy() {
    assert!(DawApp::copy_project_assets_if_needed(false, "/a", "/b").is_empty());
    assert!(DawApp::copy_project_assets_if_needed(true, "/A", "/a").is_empty());
    let pairs = DawApp::copy_project_assets_if_needed(true, "/a", "/b");
    assert_eq!(pairs, vec![
        ("/a/audio".to_string(), "/b/audio".to_string()),
        ("/a/samples".to_string(), "/b/samples".to_string())
    ]);
}

#[test]
fn templates_sorted_by_name() {
    let a = app(Vec::new());
    let listed = a.list_templates(vec![
        TemplateFolder { file_name: Some("Lo_Fi".to_string()), path: "\\\\?\\C:\\t\\Lo_Fi".to_string() },
        TemplateFolder { file_name: None, path: "/t/x".to_string() },
        TemplateFolder { file_name: Some("Ambient".to_string()), path: "/t/Ambient".to_string() },
    ]);
    assert_eq!(listed, vec![
        ("Ambient".to_string(), "/t/Ambient".to_string()),
        ("Lo Fi".to_string(), "C:\\t\\Lo_Fi".to_string()),
        ("Template".to_string(), "/t/x".to_string()),
    ]);
}

#[test]
fn license_fetch_needs_serial() {
    let mut a = app(Vec::new());
    assert!(a.start_license_fetch_file(false).is_none());
    assert_eq!(a.status, "Enter serial");
    a.license_serial = " ABC ".to_string();
    a.settings.auth_token = "t".to_string();
    assert!(a.start_license_fetch_file(true).is_none());
    assert_eq!(a.status, "License request already running");
    let fetch = a.start_license_fetch_file(false).unwrap();
    assert_eq!((fetch.serial.as_str(), fetch.token.as_str()), ("ABC", "t"));
}

#[test]
fn license_fetch_results() {
    let r = DawApp::license_fetch_result(FetchOutcome::SendFailed("timeout".to_string()), None, None);
    assert_eq!(r.status, Err("Download failed: timeout".to_string()));
    let body = Some(JsonValue::Object(vec![JsonMember {
        key: "license_file".to_string(),
        value: JsonValue::Str("file".to_string()),
    }]));
    let r = DawApp::license_fetch_result(
        FetchOutcome::Answered(false, "404 Not Found".to_string(), "nope".to_string()),
        None,
        None,
    );
    assert_eq!(r.status, Err("Download failed (404 Not Found): nope".to_string()));
    assert!(r.license_file.is_none());
    let info = LicensePayloadInfo {
        registered_to: Some("ann".to_string()),
        license_type: None,
        max_activations: None,
        monthly_activations: None,
    };
    let r = DawApp::license_fetch_result(
        FetchOutcome::Answered(true, "200 OK".to_string(), "{}".to_string()),
        body,
        Some(Ok(info)),
    );
    assert_eq!(r.status, Ok("License file downloaded".to_string()));
    assert_eq!(r.license_file, Some("file".to_string()));
    assert_eq!(r.registered_to, Some("ann".to_string()));
    let r = DawApp::license_fetch_result(FetchOutcome::ClientFailed("tls".to_string()), None, None);
    assert_eq!(r.status, Err("tls".to_string()));
}
