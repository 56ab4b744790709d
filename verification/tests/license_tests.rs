use std::collections::HashMap;
use std::collections::HashSet;

use base64::Engine;
use ed25519_dalek::Signer;
use lingstation::json::{JsonMember, JsonNumber, JsonValue};
use lingstation::license::{FetchOutcome, LicensePayloadInfo};
use lingstation::model::{DawApp, RecordingBuffers, SettingsState, Track};

fn settings() -> SettingsState {
    SettingsState {
        buffer_size: 512,
        triple_buffer: false,
        sample_rate: 48000,
        recent_projects: Vec::new(),
        midi_input: String::new(),
        midi_devices: Vec::new(),
        device_id: String::new(),
        device_salt: String::new(),
        registered_to: String::new(),
        wallpaper_path: String::new(),
        browser_folders: Vec::new(),
        auth_token: String::new(),
        license_file: String::new(),
        license_monthly_activations: None,
        license_remaining_activations: None,
        output_device: String::new(),
    }
}

fn app(tracks: Vec<Track>) -> DawApp {
    DawApp {
        project_name: "Demo".to_string(),
        project_path: String::new(),
        metadata_artist: String::new(),
        metadata_title: String::new(),
        metadata_album: String::new(),
        metadata_genre: String::new(),
        metadata_year: String::new(),
        metadata_comment: String::new(),
        tracks,
        selected_track: None,
        selected_clip: None,
        performance_clip_settings: HashMap::new(),
        performance_selected_clip: None,
        node_routes: Vec::new(),
        rename_buffer: String::new(),
        show_rename_track: false,
        rename_clip_buffer: String::new(),
        rename_clip_target: None,
        show_rename_clip: false,
        project_name_buffer: String::new(),
        show_rename_project: false,
        status: String::new(),
        dirty: false,
        automation_active: None,
        automation_rows_expanded: HashSet::new(),
        midi_learn: None,
        recording: RecordingBuffers {
            active: false,
            track_index: usize::MAX,
            record_performance: false,
            performance_active: HashMap::new(),
            performance_takes: Vec::new(),
            start_beat: 0,
            record_audio: false,
            record_midi: false,
            record_automation: false,
            midi_active: HashMap::new(),
            midi_notes: Vec::new(),
            automation_points: Vec::new(),
        },
        is_recording: false,
        settings: settings(),
        settings_path: "settings.json".to_string(),
        buffer_override: None,
        license_status: String::new(),
        arrangement_playback: true,
        audio_running: false,
        last_params_track: None,
        license_serial: String::new(),
        wallpaper_texture_path: String::new(),
        record_audio: false,
        record_midi: true,
        record_automation: false,
        record_performance: false,
        record_started_audio: false,
        license_identifier: String::new(),
        license_password: String::new(),
        license_device_label: String::new(),
        fs_expanded: Vec::new(),
        fs_selected: None,
        browser_expanded: Vec::new(),
        browser_selected: None,
    }
}

fn text(s: &str) -> JsonValue {
    JsonValue::Str(s.to_string())
}

fn num(n: u64) -> JsonValue {
    JsonValue::Number(JsonNumber { text: n.to_string(), as_u64: Some(n) })
}

fn obj(members: Vec<(&str, JsonValue)>) -> JsonValue {
    JsonValue::Object(members.into_iter().map(|(k, v)| JsonMember { key: k.to_string(), value: v }).collect())
}

fn b64(bytes: &[u8]) -> String {
    base64::engine::general_purpose::URL_SAFE.encode(bytes)
}

fn signer() -> ed25519_dalek::SigningKey {
    ed25519_dalek::SigningKey::from_bytes(&[7u8; 32])
}

fn public_key_text() -> String {
    b64(&signer().verifying_key().to_bytes())
}

fn payload(status: &str) -> JsonValue {
    obj(vec![
        ("status", text(status)),
        ("license_type", text("Pro")),
        ("account", obj(vec![("username", text("ann"))])),
        ("limits", obj(vec![("monthly_activations", num(2)), ("max_activations", num(3))])),
        ("product_code", text("LS")),
    ])
}

fn signed_file(p: JsonValue) -> JsonValue {
    let canonical = DawApp::canonical_json(&p);
    let sig = signer().sign(canonical.as_bytes()).to_bytes();
    obj(vec![("payload", p), ("signature", text(&b64(&sig)))])
}

fn info(name: &str) -> LicensePayloadInfo {
    LicensePayloadInfo {
        registered_to: Some(name.to_string()),
        license_type: None,
        max_activations: None,
        monthly_activations: None,
    }
}

#[test]
fn canonical_json_sorts_keys() {
    let v = obj(vec![
        ("b", num(1)),
        ("a", JsonValue::Array(vec![JsonValue::Bool(true), JsonValue::Null, text("x\"y")])),
        ("c", obj(vec![("z", JsonValue::Bool(false)), ("y", JsonValue::Array(Vec::new()))])),
    ]);
    assert_eq!(DawApp::canonical_json(&v), r#"{"a":[true,null,"x\"y"],"b":1,"c":{"y":[],"z":false}}"#);
    assert_eq!(DawApp::canonical_json(&obj(Vec::new())), "{}");
}

#[test]
fn values_found_by_key_path() {
    let v = obj(vec![
        ("account", obj(vec![("email", text("e@x"))])),
        ("limits", obj(vec![("max_activations", num(3))])),
        ("neg", JsonValue::Number(JsonNumber { text: "-1".to_string(), as_u64: None })),
    ]);
    assert_eq!(DawApp::get_value_string(&v, &["account", "email"]), Some("e@x".to_string()));
    assert_eq!(DawApp::get_value_string(&v, &["account", "username"]), None);
    assert_eq!(DawApp::get_value_string(&v, &["account"]), None);
    assert_eq!(DawApp::get_value_u64(&v, &["limits", "max_activations"]), Some(3));
    assert_eq!(DawApp::get_value_u64(&v, &["limits"]), None);
    assert_eq!(DawApp::get_value_u64(&v, &["neg"]), None);
    assert_eq!(DawApp::get_value_string(&text("root"), &[]), Some("root".to_string()));
    assert_eq!(DawApp::get_value_string(&text("root"), &["a"]), None);
}

#[test]
fn signed_license_is_accepted() {
    let key = public_key_text();
    let r = DawApp::verify_license_file(Ok(signed_file(payload("Active"))), &key, "LS");
    let info = r.ok().unwrap();
    assert_eq!(info.registered_to, Some("ann".to_string()));
    assert_eq!(info.license_type, Some("Pro".to_string()));
    assert_eq!(info.max_activations, Some(3));
    assert_eq!(info.monthly_activations, Some(2));
}

#[test]
fn license_terms_checked_after_signature() {
    let key = public_key_text();
    let r = DawApp::verify_license_file(Ok(signed_file(payload("Active"))), &key, "XX");
    assert_eq!(r.err(), Some("Product mismatch (LS)".to_string()));
    let r = DawApp::verify_license_file(Ok(signed_file(payload("revoked"))), &key, "LS");
    assert_eq!(r.err(), Some("License inactive (revoked)".to_string()));
    let r = DawApp::verify_license_file(Ok(signed_file(obj(vec![("x", num(1))]))), &key, "LS");
    assert_eq!(r.err(), Some("License missing status".to_string()));
}

#[test]
fn tampered_or_malformed_license_refused() {
    let key = public_key_text();
    let file = signed_file(payload("Active"));
    let sig = match &file {
        JsonValue::Object(m) => match &m[1].value {
            JsonValue::Str(s) => s.clone(),
            _ => panic!("signature"),
        },
        _ => panic!("file"),
    };
    let forged = obj(vec![("payload", payload("active")), ("signature", text(&sig))]);
    let r = DawApp::verify_license_file(Ok(forged), &key, "LS");
    assert_eq!(r.err(), Some("License signature invalid".to_string()));
    let short = obj(vec![("payload", payload("Active")), ("signature", text(&b64(&[1u8; 10])))]);
    let r = DawApp::verify_license_file(Ok(short), &key, "LS");
    assert_eq!(r.err(), Some("Signature error: signature error".to_string()));
    let r = DawApp::verify_license_file(Ok(obj(vec![("signature", text("a"))])), &key, "LS");
    assert_eq!(r.err(), Some("License missing payload".to_string()));
    let r = DawApp::verify_license_file(Ok(obj(vec![("payload", num(1)), ("signature", num(2))])), &key, "LS");
    assert_eq!(r.err(), Some("License missing signature".to_string()));
    let r = DawApp::verify_license_file(Err("EOF while parsing".to_string()), &key, "LS");
    assert_eq!(r.err(), Some("License JSON error: EOF while parsing".to_string()));
    let bad_sig = obj(vec![("payload", payload("Active")), ("signature", text("%%"))]);
    let r = DawApp::verify_license_file(Ok(bad_sig), &key, "LS");
    assert!(r.err().unwrap().starts_with("Signature decode error: "));
    let r = DawApp::verify_license_file(Ok(signed_file(payload("Active"))), "YWJj", "LS");
    assert_eq!(r.err(), Some("Public key must be 32 bytes".to_string()));
}

#[test]
fn license_file_found_in_answer() {
    assert_eq!(DawApp::license_file_from_response(&Some(obj(vec![("license_file", text("TEXT"))]))), Some("TEXT".to_string()));
    let nested = obj(vec![("license_file", obj(vec![("payload", obj(vec![("a", num(1))])), ("signature", text("s"))]))]);
    assert_eq!(
        DawApp::license_file_from_response(&Some(nested)),
        Some(r#"{"payload":{"a":1},"signature":"s"}"#.to_string())
    );
    let whole = obj(vec![("payload", num(5)), ("signature", text("s"))]);
    assert_eq!(DawApp::license_file_from_response(&Some(whole)), Some(r#"{"payload":5,"signature":"s"}"#.to_string()));
    assert_eq!(DawApp::license_file_from_response(&Some(obj(vec![("license_file", num(1))]))), None);
    assert_eq!(DawApp::license_file_from_response(&None), None);
}

#[test]
fn remaining_activations_in_answer() {
    assert_eq!(DawApp::license_remaining_from_response(&Some(obj(vec![("remaining_activations", num(4))]))), Some(4));
    let nested = obj(vec![("limits", obj(vec![("remaining_activations", num(2))])), ("remaining_activations", text("4"))]);
    assert_eq!(DawApp::license_remaining_from_response(&Some(nested)), Some(2));
    assert_eq!(DawApp::license_remaining_from_response(&None), None);
}

#[test]
fn login_request_and_result() {
    let mut a = app(Vec::new());
    a.license_identifier = "  ".to_string();
    a.license_password = "pw".to_string();
    assert!(a.start_license_login(false).is_none());
    assert_eq!(a.status, "Enter identifier + password");
    a.license_identifier = " me ".to_string();
    a.license_device_label = " PC ".to_string();
    assert!(a.start_license_login(true).is_none());
    assert_eq!(a.status, "License request already running");
    a.status = String::new();
    let q = a.start_license_login(false).unwrap();
    assert_eq!((q.identifier.as_str(), q.password.as_str(), q.label.as_str()), ("me", "pw", "PC"));
    assert_eq!(a.status, "");
    let ok = FetchOutcome::Answered(true, "200 OK".to_string(), String::new());
    let r = DawApp::license_login_result(ok, Some(obj(vec![("access_token", text("T"))])));
    assert_eq!(r.status, Ok("Login OK".to_string()));
    assert_eq!(r.token, Some("T".to_string()));
    let ok = FetchOutcome::Answered(true, "200 OK".to_string(), String::new());
    let r = DawApp::license_login_result(ok, None);
    assert_eq!(r.status, Err("Login response missing access_token".to_string()));
    let r = DawApp::license_login_result(FetchOutcome::SendFailed("dns".to_string()), None);
    assert_eq!(r.status, Err("Login failed: dns".to_string()));
    assert!(r.token.is_none());
}

#[test]
fn claim_and_activate_results() {
    let refused = FetchOutcome::Answered(false, "403 Forbidden".to_string(), "no".to_string());
    let r = DawApp::license_claim_result(refused, None, None);
    assert_eq!(r.status, Err("Claim failed (403 Forbidden): no".to_string()));
    let ok = FetchOutcome::Answered(true, "200 OK".to_string(), String::new());
    let body = obj(vec![("license_file", text("F")), ("remaining_activations", num(3))]);
    let r = DawApp::license_activate_result(ok, Some(body), Some(Ok(info("bob"))));
    assert_eq!(r.status, Ok("Device activated".to_string()));
    assert_eq!(r.license_file, Some("F".to_string()));
    assert_eq!(r.registered_to, Some("bob".to_string()));
    assert_eq!(r.remaining_activations, Some(3));
    let ok = FetchOutcome::Answered(true, "200 OK".to_string(), String::new());
    let body = obj(vec![("license_file", text("F")), ("remaining_activations", num(3))]);
    let r = DawApp::license_claim_result(ok, Some(body), Some(Err("bad".to_string())));
    assert_eq!(r.status, Ok("License claimed".to_string()));
    assert_eq!(r.registered_to, None);
    assert_eq!(r.remaining_activations, None);
}

#[test]
fn claim_and_activate_requests() {
    let mut a = app(Vec::new());
    assert!(a.start_license_claim(false).is_none());
    assert_eq!(a.status, "Enter serial");
    a.license_serial = " S-1 ".to_string();
    assert!(a.start_license_activate(false).is_none());
    assert_eq!(a.status, "Device id missing");
    a.settings.device_id = "dev".to_string();
    a.settings.auth_token = "tok".to_string();
    a.license_device_label = " Laptop ".to_string();
    assert!(a.start_license_activate(true).is_none());
    assert_eq!(a.status, "License request already running");
    let q = a.start_license_activate(false).unwrap();
    assert_eq!(
        (q.serial.as_str(), q.device_id.as_str(), q.device_label.as_str(), q.token.as_str()),
        ("S-1", "dev", "Laptop", "tok")
    );
    let c = a.start_license_claim(false).unwrap();
    assert_eq!((c.serial.as_str(), c.token.as_str()), ("S-1", "tok"));
    assert!(a.start_license_job(false));
    assert!(!a.start_license_job(true));
    assert_eq!(DawApp::license_api_url("https://lic.example", "/api/auth/token"), "https://lic.example/api/auth/token");
}

#[test]
fn license_text_read_and_checked() {
    let key = public_key_text();
    let file = DawApp::canonical_json(&signed_file(payload("Active")));
    let info = DawApp::verify_license_text(&file, &key, "LS").ok().unwrap();
    assert_eq!(info.registered_to, Some("ann".to_string()));
    assert_eq!(info.monthly_activations, Some(2));
    let bad = DawApp::verify_license_text("{not json", &key, "LS");
    assert!(bad.err().unwrap().starts_with("License JSON error: "));
    let r = DawApp::verify_license_text(r#"{"payload":1}"#, &key, "LS");
    assert_eq!(r.err(), Some("License missing signature".to_string()));
}

#[test]
fn canonical_json_escapes_strings() {
    let v = JsonValue::Str("q\"b\\n\n\t\r\u{8}\u{c}\u{1}\u{1f}é".to_string());
    assert_eq!(DawApp::canonical_json(&v), "\"q\\\"b\\\\n\\n\\t\\r\\b\\f\\u0001\\u001fé\"");
}
