//! The license state: what a verified license file and a finished license
//! request do to the settings and to the status shown to the user.
use vstd::prelude::*;
use vstd::utf8::encode_utf8;
use crate::device::{base64_url_decode, base64_url_decoded, ed25519_verdict, ed25519_verify, public_key_of, SignatureCheck, SignatureVerdict};
use crate::json::{json_parsed, json_text, parse_json, member, member_value, path_keys, string_at, u64_at, write_json, JsonValue};
use crate::model::{DawApp, SettingsState};
use crate::text::{concat, decimal, decimal_string, eq_ignore_ascii_case, eq_ignore_case, is_blank, owned, same_text, trim, trimmed};

verus! {

/// What a verified license file says.
pub struct LicensePayloadInfo {
    pub registered_to: Option<String>,
    pub license_type: Option<String>,
    pub max_activations: Option<u64>,
    pub monthly_activations: Option<u64>,
}

/// The value of a `LicensePayloadInfo`.
pub struct PayloadInfoView {
    pub registered_to: Option<Seq<char>>,
    pub license_type: Option<Seq<char>>,
    pub max_activations: Option<u64>,
    pub monthly_activations: Option<u64>,
}

impl DeepView for LicensePayloadInfo {
    type V = PayloadInfoView;

    open spec fn deep_view(&self) -> PayloadInfoView {
        PayloadInfoView {
            registered_to: self.registered_to.deep_view(),
            license_type: self.license_type.deep_view(),
            max_activations: self.max_activations,
            monthly_activations: self.monthly_activations,
        }
    }
}

/// `a`, or `b` when `a` is nothing.
pub open spec fn or_else<T>(a: Option<T>, b: Option<T>) -> Option<T> {
    if a is Some {
        a
    } else {
        b
    }
}

/// The name a license is registered to: the account's user name or e-mail,
/// else the user's, else the `registered_to` field.
pub open spec fn registered_name(payload: JsonValue) -> Option<Seq<char>> {
    or_else(
        string_at(payload, seq!["account"@, "username"@]),
        or_else(
            string_at(payload, seq!["account"@, "email"@]),
            or_else(
                string_at(payload, seq!["user"@, "username"@]),
                or_else(string_at(payload, seq!["user"@, "email"@]), string_at(payload, seq!["registered_to"@])),
            ),
        ),
    )
}

/// What a license's payload says.
pub open spec fn payload_info(payload: JsonValue) -> PayloadInfoView {
    PayloadInfoView {
        registered_to: registered_name(payload),
        license_type: string_at(payload, seq!["license_type"@]),
        max_activations: u64_at(payload, seq!["limits"@, "max_activations"@]),
        monthly_activations: u64_at(payload, seq!["limits"@, "monthly_activations"@]),
    }
}

/// The product code a payload names, if any.
pub open spec fn payload_product(payload: JsonValue) -> Option<Seq<char>> {
    or_else(string_at(payload, seq!["product"@, "code"@]), string_at(payload, seq!["product_code"@]))
}

/// The terms of a payload whose signature holds: it must be active (in any
/// ASCII case) and, when it names a product, be for `product_code`.
pub open spec fn payload_terms(payload: JsonValue, product_code: Seq<char>) -> Result<PayloadInfoView, Seq<char>> {
    match string_at(payload, seq!["status"@]) {
        None => Err("License missing status"@),
        Some(status) => if !eq_ignore_case(status, "active"@) {
            Err("License inactive ("@ + status + ")"@)
        } else {
            match payload_product(payload) {
                Some(p) if p != product_code => Err("Product mismatch ("@ + p + ")"@),
                _ => Ok(payload_info(payload)),
            }
        },
    }
}

/// A payload checked against its base64 `signature` and the public key
/// `public_key`: the signature must sign the payload's canonical text.
pub open spec fn payload_verdict(
    payload: JsonValue,
    signature: Seq<char>,
    public_key: Seq<char>,
    product_code: Seq<char>,
) -> Result<PayloadInfoView, Seq<char>> {
    match base64_url_decoded(signature) {
        Err(e) => Err("Signature decode error: "@ + e),
        Ok(sig) => match public_key_of(public_key) {
            Err(e) => Err(e),
            Ok(key) => match ed25519_verdict(key, encode_utf8(json_text(payload, true)), sig) {
                SignatureVerdict::KeyRejected(e) => Err("Public key error: "@ + e),
                SignatureVerdict::SignatureRejected(e) => Err("Signature error: "@ + e),
                SignatureVerdict::Invalid => Err("License signature invalid"@),
                SignatureVerdict::Valid => payload_terms(payload, product_code),
            },
        },
    }
}

/// What a license file, parsed to `parsed` (or the parser's error), comes
/// to: it must hold a `payload` and a string `signature` that holds.
pub open spec fn license_verdict(
    parsed: Result<JsonValue, String>,
    public_key: Seq<char>,
    product_code: Seq<char>,
) -> Result<PayloadInfoView, Seq<char>> {
    match parsed {
        Err(e) => Err("License JSON error: "@ + e@),
        Ok(v) => match member_value(v, "payload"@) {
            None => Err("License missing payload"@),
            Some(payload) => match member_value(v, "signature"@) {
                Some(JsonValue::Str(sig)) => payload_verdict(payload, sig@, public_key, product_code),
                _ => Err("License missing signature"@),
            },
        },
    }
}

/// What a finished request to the license service brought back.
pub struct LicenseJobResult {
    /// The message for the status line: `Ok` on success, `Err` on failure.
    pub status: Result<String, String>,
    pub token: Option<String>,
    pub license_file: Option<String>,
    pub registered_to: Option<String>,
    pub remaining_activations: Option<u64>,
}

/// What asking the license service for a license file came to.
pub enum FetchOutcome {
    /// No HTTP client could be made; the error text.
    ClientFailed(String),
    /// The request could not be sent; the error text.
    SendFailed(String),
    /// The service answered: whether with success, the status line, the body.
    Answered(bool, String, String),
}

/// A license file download to start: the serial and the account token.
pub struct LicenseFetch {
    pub serial: String,
    pub token: String,
}

/// The license status line for a verified license of type `license_type`.
pub open spec fn registered_status(license_type: Option<Seq<char>>) -> Seq<char> {
    match license_type {
        Some(t) => "Registered ("@ + t + ")"@,
        None => "Registered"@,
    }
}

/// The status line after a request, given the activations it reported.
pub open spec fn status_with_remaining(message: Seq<char>, remaining: u64) -> Seq<char> {
    message + " You have "@ + decimal(remaining as nat) + " activations remaining this month."@
}

/// The value of a `LicenseJobResult`.
pub struct JobResultView {
    pub status: Result<Seq<char>, Seq<char>>,
    pub token: Option<Seq<char>>,
    pub license_file: Option<Seq<char>>,
    pub registered_to: Option<Seq<char>>,
    pub remaining_activations: Option<u64>,
}

impl LicenseJobResult {
    pub open spec fn view(&self) -> JobResultView {
        JobResultView {
            status: match self.status {
                Ok(m) => Ok(m@),
                Err(m) => Err(m@),
            },
            token: self.token.deep_view(),
            license_file: self.license_file.deep_view(),
            registered_to: self.registered_to.deep_view(),
            remaining_activations: self.remaining_activations,
        }
    }
}

/// A result that carries only a failure message.
pub open spec fn failed_job(message: Seq<char>) -> JobResultView {
    JobResultView {
        status: Err(message),
        token: None,
        license_file: None,
        registered_to: None,
        remaining_activations: None,
    }
}

/// The failure message of a request for `action` ("Login", "Claim", ...):
/// the client's error, the send error, or the service's refusal with its
/// status and body; nothing when the service answered with success.
pub open spec fn request_failure(outcome: FetchOutcome, action: Seq<char>) -> Option<Seq<char>> {
    match outcome {
        FetchOutcome::ClientFailed(e) => Some(e@),
        FetchOutcome::SendFailed(e) => Some(action + " failed: "@ + e@),
        FetchOutcome::Answered(ok, code, body) => if ok {
            None
        } else {
            Some(action + " failed ("@ + code@ + "): "@ + body@)
        },
    }
}

/// Both `payload` and `signature` are members of `v`.
pub open spec fn signed_document(v: JsonValue) -> bool {
    member_value(v, "payload"@) is Some && member_value(v, "signature"@) is Some
}

/// The license file an answer (its body parsed to `body`) holds: the text
/// of its `license_file` member, or the compact text of that member when it
/// is a signed document, else of the whole answer when that is one.
pub open spec fn license_file_in(body: Option<JsonValue>) -> Option<Seq<char>> {
    match body {
        None => None,
        Some(v) => {
            let inner = match member_value(v, "license_file"@) {
                Some(JsonValue::Str(t)) => Some(t@),
                Some(l) => if signed_document(l) {
                    Some(json_text(l, false))
                } else {
                    None
                },
                None => None,
            };
            if inner is Some {
                inner
            } else if signed_document(v) {
                Some(json_text(v, false))
            } else {
                None
            }
        },
    }
}

/// The remaining activations an answer reports, at its top level or under
/// `limits`.
pub open spec fn remaining_in(body: Option<JsonValue>) -> Option<u64> {
    match body {
        None => None,
        Some(v) => or_else(
            u64_at(v, seq!["remaining_activations"@]),
            u64_at(v, seq!["limits"@, "remaining_activations"@]),
        ),
    }
}

/// The access token a login answer holds.
pub open spec fn access_token_in(body: Option<JsonValue>) -> Option<Seq<char>> {
    match body {
        Some(v) => match member_value(v, "access_token"@) {
            Some(JsonValue::Str(t)) => Some(t@),
            _ => None,
        },
        None => None,
    }
}

/// The result of a request for `action` that brings a license file: the
/// failure, or `success` with the file the answer holds, the name of the
/// registration when that file's check (`verified`) passed, and, when
/// `with_remaining`, the activations left.
pub open spec fn fetched_result(
    outcome: FetchOutcome,
    body: Option<JsonValue>,
    verified: Option<Result<LicensePayloadInfo, String>>,
    action: Seq<char>,
    success: Seq<char>,
    with_remaining: bool,
) -> JobResultView {
    match request_failure(outcome, action) {
        Some(m) => failed_job(m),
        None => {
            let file = license_file_in(body);
            JobResultView {
                status: Ok(success),
                token: None,
                license_file: file,
                registered_to: match verified {
                    Some(Ok(info)) if file is Some => info.registered_to.deep_view(),
                    _ => None,
                },
                remaining_activations: if with_remaining {
                    remaining_in(body)
                } else {
                    None
                },
            }
        },
    }
}

/// A login to start: the identifier, the password and the device label.
pub struct LoginRequest {
    pub identifier: String,
    pub password: String,
    pub label: String,
}

/// A device activation to start: the serial, the device id and label, and
/// the account token.
pub struct ActivateRequest {
    pub serial: String,
    pub device_id: String,
    pub device_label: String,
    pub token: String,
}

impl DawApp {
    /// Updates the license status from the stored license file, whose
    /// verification gave `verified`: "Unregistered" (and no activation
    /// counts) when no file is stored, the registration from a valid file,
    /// the error for an invalid one.
    #[verifier::rlimit(60)]
    pub fn refresh_license_status(&mut self, verified: Result<LicensePayloadInfo, String>)
        ensures
            trimmed(old(self).settings.license_file@).len() == 0 ==> {
                &&& final(self).license_status@ == "Unregistered"@
                &&& final(self).settings.license_monthly_activations.is_none()
                &&& final(self).settings.license_remaining_activations.is_none()
                &&& final(self).settings.registered_to@ == old(self).settings.registered_to@
            },
            trimmed(old(self).settings.license_file@).len() > 0 ==> match verified {
                Ok(info) => {
                    &&& final(self).license_status@ == registered_status(info.license_type.deep_view())
                    &&& final(self).settings.license_monthly_activations == info.monthly_activations
                    &&& final(self).settings.license_remaining_activations
                        == old(self).settings.license_remaining_activations
                    &&& final(self).settings.registered_to@ == (match info.registered_to {
                        Some(n) => n@,
                        None => old(self).settings.registered_to@,
                    })
                },
                Err(e) => {
                    &&& final(self).license_status@ == "License error: "@ + e@
                    &&& final(self).settings.license_monthly_activations
                        == old(self).settings.license_monthly_activations
                    &&& final(self).settings.license_remaining_activations
                        == old(self).settings.license_remaining_activations
                    &&& final(self).settings.registered_to@ == old(self).settings.registered_to@
                },
            },
            final(self).settings.license_file@ == old(self).settings.license_file@,
            final(self).settings.auth_token@ == old(self).settings.auth_token@,
            final(self).status@ == old(self).status@,
            final(self).tracks.deep_view() == old(self).tracks.deep_view(),
            trimmed(old(self).settings.license_file@).len() > 0 && verified is Err ==> *final(self) == (DawApp {
                license_status: final(self).license_status,
                ..*old(self)
            }),
            trimmed(old(self).settings.license_file@).len() == 0 ==> *final(self) == (DawApp {
                license_status: final(self).license_status,
                settings: SettingsState {
                    license_monthly_activations: None,
                    license_remaining_activations: None,
                    ..old(self).settings
                },
                ..*old(self)
            }),
            trimmed(old(self).settings.license_file@).len() > 0 && verified is Ok ==> *final(self) == (DawApp {
                license_status: final(self).license_status,
                settings: SettingsState {
                    license_monthly_activations: final(self).settings.license_monthly_activations,
                    registered_to: final(self).settings.registered_to,
                    ..old(self).settings
                },
                ..*old(self)
            }),
    {
        if is_blank(self.settings.license_file.as_str()) {
            self.license_status = owned("Unregistered");
            self.settings.license_monthly_activations = None;
            self.settings.license_remaining_activations = None;
            return;
        }
        match verified {
            Ok(info) => {
                let status = match &info.license_type {
                    Some(t) => {
                        let head = concat("Registered (", t.as_str());
                        concat(head.as_str(), ")")
                    },
                    None => owned("Registered"),
                };
                self.license_status = status;
                self.settings.license_monthly_activations = info.monthly_activations;
                if let Some(name) = info.registered_to {
                    self.settings.registered_to = name;
                }
            },
            Err(e) => {
                self.license_status = concat("License error: ", e.as_str());
            },
        }
    }

    /// Takes in the result of a finished license request: its message
    /// becomes the status line, and the token, license file (checked again,
    /// its verification being `verified`), registration name and remaining
    /// activations it brought are stored, in that order. On success the
    /// remaining activations are added to the message.
    pub fn poll_license_job(&mut self, result: LicenseJobResult, verified: Result<LicensePayloadInfo, String>)
        ensures
            final(self).status@ == ({
                let message = match result.status {
                    Ok(m) => m@,
                    Err(m) => m@,
                };
                match result.remaining_activations {
                    Some(n) if result.status is Ok => status_with_remaining(message, n),
                    _ => message,
                }
            }),
            final(self).settings.auth_token@ == (match result.token {
                Some(t) => t@,
                None => old(self).settings.auth_token@,
            }),
            final(self).settings.license_file@ == (match result.license_file {
                Some(f) => f@,
                None => old(self).settings.license_file@,
            }),
            result.registered_to matches Some(n) ==> final(self).settings.registered_to@ == n@,
            result.remaining_activations is Some ==> final(self).settings.license_remaining_activations
                == result.remaining_activations,
            result.license_file is None ==> {
                &&& final(self).license_status@ == old(self).license_status@
                &&& final(self).settings.license_monthly_activations == old(self).settings.license_monthly_activations
                &&& (result.remaining_activations is None ==> final(self).settings.license_remaining_activations
                    == old(self).settings.license_remaining_activations)
                &&& (result.registered_to is None ==> final(self).settings.registered_to@
                    == old(self).settings.registered_to@)
            },
            result.license_file matches Some(f) ==> trimmed(f@).len() == 0 ==> final(self).license_status@
                == "Unregistered"@,
            result.license_file matches Some(f) ==> trimmed(f@).len() > 0 ==> match verified {
                Ok(info) => final(self).license_status@ == registered_status(info.license_type.deep_view()),
                Err(e) => final(self).license_status@ == "License error: "@ + e@,
            },
            final(self).tracks.deep_view() == old(self).tracks.deep_view(),
    {
        let status_ok = result.status.is_ok();
        match result.status {
            Ok(message) => {
                self.status = message;
            },
            Err(message) => {
                self.status = message;
            },
        }
        if let Some(token) = result.token {
            self.settings.auth_token = token;
        }
        if let Some(file) = result.license_file {
            self.settings.license_file = file;
            self.refresh_license_status(verified);
        }
        if let Some(name) = result.registered_to {
            self.settings.registered_to = name;
        }
        if let Some(remaining) = result.remaining_activations {
            self.settings.license_remaining_activations = Some(remaining);
            if status_ok {
                let head = concat(self.status.as_str(), " You have ");
                let count = decimal_string(remaining);
                let head = concat(head.as_str(), count.as_str());
                self.status = concat(head.as_str(), " activations remaining this month.");
            }
        }
    }
    /// Starts downloading the license file of the serial typed in: refused
    /// (with a status) when the serial is blank or a request is already
    /// running (`job_running`); otherwise the trimmed serial and the token
    /// to send.
    pub fn start_license_fetch_file(&mut self, job_running: bool) -> (r: Option<LicenseFetch>)
        ensures
            trimmed(old(self).license_serial@).len() == 0 ==> r.is_none() && final(self).status@ == "Enter serial"@,
            trimmed(old(self).license_serial@).len() > 0 && job_running ==> r.is_none() && final(self).status@
                == "License request already running"@,
            trimmed(old(self).license_serial@).len() > 0 && !job_running ==> (r matches Some(f) && f.serial@ == trimmed(
                old(self).license_serial@,
            ) && f.token@ == old(self).settings.auth_token@ && final(self).status@ == old(self).status@),
            final(self).settings.auth_token@ == old(self).settings.auth_token@,
    {
        let serial = trim(self.license_serial.as_str());
        if is_blank(self.license_serial.as_str()) {
            self.status = owned("Enter serial");
            return None;
        }
        let token = self.settings.auth_token.clone();
        if !self.start_license_job(job_running) {
            return None;
        }
        Some(LicenseFetch { serial, token })
    }

    /// The result of a license file download (see `fetched_result`).
    pub fn license_fetch_result(
        outcome: FetchOutcome,
        body: Option<JsonValue>,
        verified: Option<Result<LicensePayloadInfo, String>>,
    ) -> (r: LicenseJobResult)
        ensures
            r.view() == fetched_result(outcome, body, verified, "Download"@, "License file downloaded"@, false),
    {
        Self::license_file_job_result(outcome, body, verified, "Download", "License file downloaded", false)
    }
}

impl DawApp {
    /// Checks the text of a license file (read as JSON, see `parse_json`)
    /// against the public key `public_key` and the product `product_code`
    /// (see `license_verdict`).
    pub fn verify_license_text(text: &str, public_key: &str, product_code: &str) -> (r: Result<LicensePayloadInfo, String>)
        ensures
            match r {
                Ok(info) => license_verdict(json_parsed(text@), public_key@, product_code@) == Ok::<
                    PayloadInfoView,
                    Seq<char>,
                >(info.deep_view()),
                Err(e) => license_verdict(json_parsed(text@), public_key@, product_code@) == Err::<
                    PayloadInfoView,
                    Seq<char>,
                >(e@),
            },
    {
        let parsed = parse_json(text);
        Self::verify_license_file(parsed, public_key, product_code)
    }

    /// Checks a license file, parsed to `parsed` (or the parser's error),
    /// against the public key `public_key` (raw base64 or PEM) and the
    /// product `product_code` (see `license_verdict`).
    pub fn verify_license_file(
        parsed: Result<JsonValue, String>,
        public_key: &str,
        product_code: &str,
    ) -> (r: Result<LicensePayloadInfo, String>)
        ensures
            match r {
                Ok(info) => license_verdict(parsed, public_key@, product_code@) == Ok::<PayloadInfoView, Seq<char>>(
                    info.deep_view(),
                ),
                Err(e) => license_verdict(parsed, public_key@, product_code@) == Err::<PayloadInfoView, Seq<char>>(
                    e@,
                ),
            },
    {
        let value = match parsed {
            Err(e) => {
                return Err(concat("License JSON error: ", e.as_str()));
            },
            Ok(v) => v,
        };
        let payload = match member(&value, "payload") {
            None => {
                return Err(owned("License missing payload"));
            },
            Some(p) => p,
        };
        let signature = match member(&value, "signature") {
            Some(JsonValue::Str(s)) => s,
            _ => {
                return Err(owned("License missing signature"));
            },
        };
        let canonical = Self::canonical_json(payload);
        let sig_bytes = match base64_url_decode(signature.as_str()) {
            Err(e) => {
                return Err(concat("Signature decode error: ", e.as_str()));
            },
            Ok(b) => b,
        };
        let key_bytes = match Self::decode_public_key(public_key) {
            Err(e) => {
                return Err(e);
            },
            Ok(k) => k,
        };
        match ed25519_verify(&key_bytes, canonical.as_str().as_bytes(), sig_bytes.as_slice()) {
            SignatureCheck::KeyRejected(e) => {
                return Err(concat("Public key error: ", e.as_str()));
            },
            SignatureCheck::SignatureRejected(e) => {
                return Err(concat("Signature error: ", e.as_str()));
            },
            SignatureCheck::Invalid => {
                return Err(owned("License signature invalid"));
            },
            SignatureCheck::Valid => {},
        }
        Self::payload_terms_of(payload, product_code)
    }

    /// The terms of a payload whose signature holds (see `payload_terms`).
    fn payload_terms_of(payload: &JsonValue, product_code: &str) -> (r: Result<LicensePayloadInfo, String>)
        ensures
            match r {
                Ok(info) => payload_terms(*payload, product_code@) == Ok::<PayloadInfoView, Seq<char>>(info.deep_view()),
                Err(e) => payload_terms(*payload, product_code@) == Err::<PayloadInfoView, Seq<char>>(e@),
            },
    {
        let status_path: &[&str] = &["status"];
        let product_code_path: &[&str] = &["product", "code"];
        let product_field_path: &[&str] = &["product_code"];
        let account_name_path: &[&str] = &["account", "username"];
        let account_email_path: &[&str] = &["account", "email"];
        let user_name_path: &[&str] = &["user", "username"];
        let user_email_path: &[&str] = &["user", "email"];
        let registered_path: &[&str] = &["registered_to"];
        let type_path: &[&str] = &["license_type"];
        let max_path: &[&str] = &["limits", "max_activations"];
        let monthly_path: &[&str] = &["limits", "monthly_activations"];
        assert(path_keys(status_path@) =~= seq!["status"@]);
        assert(path_keys(product_code_path@) =~= seq!["product"@, "code"@]);
        assert(path_keys(product_field_path@) =~= seq!["product_code"@]);
        assert(path_keys(account_name_path@) =~= seq!["account"@, "username"@]);
        assert(path_keys(account_email_path@) =~= seq!["account"@, "email"@]);
        assert(path_keys(user_name_path@) =~= seq!["user"@, "username"@]);
        assert(path_keys(user_email_path@) =~= seq!["user"@, "email"@]);
        assert(path_keys(registered_path@) =~= seq!["registered_to"@]);
        assert(path_keys(type_path@) =~= seq!["license_type"@]);
        assert(path_keys(max_path@) =~= seq!["limits"@, "max_activations"@]);
        assert(path_keys(monthly_path@) =~= seq!["limits"@, "monthly_activations"@]);
        let status = match Self::get_value_string(payload, status_path) {
            None => {
                return Err(owned("License missing status"));
            },
            Some(s) => s,
        };
        if !eq_ignore_ascii_case(status.as_str(), "active") {
            let head = concat("License inactive (", status.as_str());
            return Err(concat(head.as_str(), ")"));
        }
        let product = match Self::get_value_string(payload, product_code_path) {
            Some(p) => Some(p),
            None => Self::get_value_string(payload, product_field_path),
        };
        if let Some(p) = &product {
            if !same_text(p.as_str(), product_code) {
                let head = concat("Product mismatch (", p.as_str());
                return Err(concat(head.as_str(), ")"));
            }
        }
        let registered_to = match Self::get_value_string(payload, account_name_path) {
            Some(n) => Some(n),
            None => match Self::get_value_string(payload, account_email_path) {
                Some(n) => Some(n),
                None => match Self::get_value_string(payload, user_name_path) {
                    Some(n) => Some(n),
                    None => match Self::get_value_string(payload, user_email_path) {
                        Some(n) => Some(n),
                        None => Self::get_value_string(payload, registered_path),
                    },
                },
            },
        };
        Ok(LicensePayloadInfo {
            registered_to,
            license_type: Self::get_value_string(payload, type_path),
            max_activations: Self::get_value_u64(payload, max_path),
            monthly_activations: Self::get_value_u64(payload, monthly_path),
        })
    }
}

impl DawApp {
    /// The failure message of a request for `action` (see `request_failure`).
    fn request_failure_message(outcome: &FetchOutcome, action: &str) -> (r: Option<String>)
        ensures
            r.deep_view() == request_failure(*outcome, action@),
    {
        match outcome {
            FetchOutcome::ClientFailed(e) => Some(e.clone()),
            FetchOutcome::SendFailed(e) => {
                let head = concat(action, " failed: ");
                Some(concat(head.as_str(), e.as_str()))
            },
            FetchOutcome::Answered(ok, code, body) => {
                if *ok {
                    None
                } else {
                    let a = concat(action, " failed (");
                    let b = concat(a.as_str(), code.as_str());
                    let c = concat(b.as_str(), "): ");
                    Some(concat(c.as_str(), body.as_str()))
                }
            },
        }
    }

    /// A result that carries only a failure message.
    fn failed_job_result(message: String) -> (r: LicenseJobResult)
        ensures
            r.view() == failed_job(message@),
    {
        LicenseJobResult {
            status: Err(message),
            token: None,
            license_file: None,
            registered_to: None,
            remaining_activations: None,
        }
    }

    /// Whether `v` holds both a `payload` and a `signature`.
    fn is_signed_document(v: &JsonValue) -> (r: bool)
        ensures
            r == signed_document(*v),
    {
        member(v, "payload").is_some() && member(v, "signature").is_some()
    }

    /// The license file an answer holds (see `license_file_in`); `body` is
    /// the answer parsed, nothing when it is not JSON.
    pub fn license_file_from_response(body: &Option<JsonValue>) -> (r: Option<String>)
        ensures
            r.deep_view() == license_file_in(*body),
    {
        let value = match body {
            None => {
                return None;
            },
            Some(v) => v,
        };
        if let Some(license) = member(value, "license_file") {
            if let JsonValue::Str(text) = license {
                return Some(text.clone());
            }
            if Self::is_signed_document(license) {
                return Some(write_json(license, false));
            }
        }
        if Self::is_signed_document(value) {
            return Some(write_json(value, false));
        }
        None
    }

    /// The remaining activations an answer reports (see `remaining_in`).
    pub fn license_remaining_from_response(body: &Option<JsonValue>) -> (r: Option<u64>)
        ensures
            r == remaining_in(*body),
    {
        let value = match body {
            None => {
                return None;
            },
            Some(v) => v,
        };
        let top: &[&str] = &["remaining_activations"];
        let nested: &[&str] = &["limits", "remaining_activations"];
        assert(path_keys(top@) =~= seq!["remaining_activations"@]);
        assert(path_keys(nested@) =~= seq!["limits"@, "remaining_activations"@]);
        match Self::get_value_u64(value, top) {
            Some(n) => Some(n),
            None => Self::get_value_u64(value, nested),
        }
    }

    /// The result of a request that brings a license file (see
    /// `fetched_result`).
    fn license_file_job_result(
        outcome: FetchOutcome,
        body: Option<JsonValue>,
        verified: Option<Result<LicensePayloadInfo, String>>,
        action: &str,
        success: &str,
        with_remaining: bool,
    ) -> (r: LicenseJobResult)
        ensures
            r.view() == fetched_result(outcome, body, verified, action@, success@, with_remaining),
    {
        if let Some(message) = Self::request_failure_message(&outcome, action) {
            return Self::failed_job_result(message);
        }
        let license_file = Self::license_file_from_response(&body);
        let registered_to = match verified {
            Some(Ok(info)) => if license_file.is_some() {
                info.registered_to
            } else {
                None
            },
            _ => None,
        };
        let remaining_activations = if with_remaining {
            Self::license_remaining_from_response(&body)
        } else {
            None
        };
        LicenseJobResult {
            status: Ok(owned(success)),
            token: None,
            license_file,
            registered_to,
            remaining_activations,
        }
    }

    /// The result of a login: the failure, the token of the answer
    /// ("Login OK"), or "Login response missing access_token".
    pub fn license_login_result(outcome: FetchOutcome, body: Option<JsonValue>) -> (r: LicenseJobResult)
        ensures
            r.view() == match request_failure(outcome, "Login"@) {
                Some(m) => failed_job(m),
                None => match access_token_in(body) {
                    Some(t) => JobResultView {
                        status: Ok("Login OK"@),
                        token: Some(t),
                        license_file: None,
                        registered_to: None,
                        remaining_activations: None,
                    },
                    None => failed_job("Login response missing access_token"@),
                },
            },
    {
        if let Some(message) = Self::request_failure_message(&outcome, "Login") {
            return Self::failed_job_result(message);
        }
        let token = match &body {
            Some(v) => match member(v, "access_token") {
                Some(JsonValue::Str(t)) => Some(t.clone()),
                _ => None,
            },
            None => None,
        };
        match token {
            Some(t) => LicenseJobResult {
                status: Ok(owned("Login OK")),
                token: Some(t),
                license_file: None,
                registered_to: None,
                remaining_activations: None,
            },
            None => Self::failed_job_result(owned("Login response missing access_token")),
        }
    }

    /// The result of claiming a serial (see `fetched_result`).
    pub fn license_claim_result(
        outcome: FetchOutcome,
        body: Option<JsonValue>,
        verified: Option<Result<LicensePayloadInfo, String>>,
    ) -> (r: LicenseJobResult)
        ensures
            r.view() == fetched_result(outcome, body, verified, "Claim"@, "License claimed"@, false),
    {
        Self::license_file_job_result(outcome, body, verified, "Claim", "License claimed", false)
    }

    /// The result of activating this device (see `fetched_result`).
    pub fn license_activate_result(
        outcome: FetchOutcome,
        body: Option<JsonValue>,
        verified: Option<Result<LicensePayloadInfo, String>>,
    ) -> (r: LicenseJobResult)
        ensures
            r.view() == fetched_result(outcome, body, verified, "Activate"@, "Device activated"@, true),
    {
        Self::license_file_job_result(outcome, body, verified, "Activate", "Device activated", true)
    }

    /// Whether a license request may start: not while one is running
    /// (`job_running`), which the status then says.
    pub fn start_license_job(&mut self, job_running: bool) -> (start: bool)
        ensures
            start == !job_running,
            job_running ==> final(self).status@ == "License request already running"@,
            !job_running ==> final(self).status@ == old(self).status@,
            final(self).settings.auth_token@ == old(self).settings.auth_token@,
            final(self).settings.device_id@ == old(self).settings.device_id@,
            final(self).license_serial@ == old(self).license_serial@,
            final(self).license_identifier@ == old(self).license_identifier@,
            final(self).license_password@ == old(self).license_password@,
            final(self).license_device_label@ == old(self).license_device_label@,
    {
        if job_running {
            self.status = owned("License request already running");
            return false;
        }
        true
    }

    /// Starts a login with the identifier and password typed in: refused
    /// (with a status) when either is empty or a request is running;
    /// otherwise the trimmed identifier, the password and the trimmed device
    /// label.
    pub fn start_license_login(&mut self, job_running: bool) -> (r: Option<LoginRequest>)
        ensures
            ({
                let id = trimmed(old(self).license_identifier@);
                if id.len() == 0 || old(self).license_password@.len() == 0 {
                    r.is_none() && final(self).status@ == "Enter identifier + password"@
                } else if job_running {
                    r.is_none() && final(self).status@ == "License request already running"@
                } else {
                    &&& r matches Some(q)
                    &&& q.identifier@ == id
                    &&& q.password@ == old(self).license_password@
                    &&& q.label@ == trimmed(old(self).license_device_label@)
                    &&& final(self).status@ == old(self).status@
                }
            }),
    {
        let identifier = trim(self.license_identifier.as_str());
        let password = self.license_password.clone();
        let label = trim(self.license_device_label.as_str());
        if is_blank(self.license_identifier.as_str()) || crate::text::is_empty_text(password.as_str()) {
            self.status = owned("Enter identifier + password");
            return None;
        }
        if !self.start_license_job(job_running) {
            return None;
        }
        Some(LoginRequest { identifier, password, label })
    }

    /// Starts claiming the serial typed in: refused (with a status) when it
    /// is blank or a request is running; otherwise the trimmed serial and
    /// the account token.
    pub fn start_license_claim(&mut self, job_running: bool) -> (r: Option<LicenseFetch>)
        ensures
            trimmed(old(self).license_serial@).len() == 0 ==> r.is_none() && final(self).status@ == "Enter serial"@,
            trimmed(old(self).license_serial@).len() > 0 && job_running ==> r.is_none() && final(self).status@
                == "License request already running"@,
            trimmed(old(self).license_serial@).len() > 0 && !job_running ==> (r matches Some(f) && f.serial@ == trimmed(
                old(self).license_serial@,
            ) && f.token@ == old(self).settings.auth_token@ && final(self).status@ == old(self).status@),
    {
        let serial = trim(self.license_serial.as_str());
        let token = self.settings.auth_token.clone();
        if is_blank(self.license_serial.as_str()) {
            self.status = owned("Enter serial");
            return None;
        }
        if !self.start_license_job(job_running) {
            return None;
        }
        Some(LicenseFetch { serial, token })
    }

    /// Starts activating this device with the serial typed in: refused (with
    /// a status) when the serial is blank, the device has no id, or a
    /// request is running; otherwise the trimmed serial, the device id, the
    /// trimmed device label and the account token.
    pub fn start_license_activate(&mut self, job_running: bool) -> (r: Option<ActivateRequest>)
        ensures
            ({
                let serial = trimmed(old(self).license_serial@);
                if serial.len() == 0 {
                    r.is_none() && final(self).status@ == "Enter serial"@
                } else if old(self).settings.device_id@.len() == 0 {
                    r.is_none() && final(self).status@ == "Device id missing"@
                } else if job_running {
                    r.is_none() && final(self).status@ == "License request already running"@
                } else {
                    &&& r matches Some(q)
                    &&& q.serial@ == serial
                    &&& q.device_id@ == old(self).settings.device_id@
                    &&& q.device_label@ == trimmed(old(self).license_device_label@)
                    &&& q.token@ == old(self).settings.auth_token@
                    &&& final(self).status@ == old(self).status@
                }
            }),
    {
        let serial = trim(self.license_serial.as_str());
        let device_id = self.settings.device_id.clone();
        let device_label = trim(self.license_device_label.as_str());
        let token = self.settings.auth_token.clone();
        if is_blank(self.license_serial.as_str()) {
            self.status = owned("Enter serial");
            return None;
        }
        if crate::text::is_empty_text(device_id.as_str()) {
            self.status = owned("Device id missing");
            return None;
        }
        if !self.start_license_job(job_running) {
            return None;
        }
        Some(ActivateRequest { serial, device_id, device_label, token })
    }

    /// The address of `path` on the license service at `base`.
    pub fn license_api_url(base: &str, path: &str) -> (r: String)
        ensures
            r@ == base@ + path@,
    {
        concat(base, path)
    }
}

/// An active payload naming a product under `product.code` that is not
/// `product_code` is refused with a product mismatch naming that product,
/// whatever its `product_code` member says.
pub proof fn law_foreign_product_refused(payload: JsonValue, product_code: Seq<char>, status: Seq<char>, p: Seq<char>)
    requires
        string_at(payload, seq!["status"@]) == Some(status),
        eq_ignore_case(status, "active"@),
        string_at(payload, seq!["product"@, "code"@]) == Some(p),
        p != product_code,
    ensures
        payload_terms(payload, product_code) == Err::<PayloadInfoView, Seq<char>>("Product mismatch ("@ + p + ")"@),
{
}

/// A payload's terms are accepted only when its status is "active" (in any
/// ASCII case) and the product it names, under `product.code` or, lacking
/// that, under `product_code`, is `product_code`; the accepted terms are the
/// payload's information.
pub proof fn law_accepted_payload_terms(payload: JsonValue, product_code: Seq<char>)
    ensures
        payload_terms(payload, product_code) is Ok ==> {
            &&& string_at(payload, seq!["status"@]) matches Some(status) && eq_ignore_case(status, "active"@)
            &&& string_at(payload, seq!["product"@, "code"@]) matches Some(p) ==> p == product_code
            &&& string_at(payload, seq!["product"@, "code"@]) is None ==> (string_at(payload, seq!["product_code"@]) matches Some(
                q,
            ) ==> q == product_code)
            &&& payload_terms(payload, product_code) == Ok::<PayloadInfoView, Seq<char>>(payload_info(payload))
        },
        string_at(payload, seq!["status"@]) is None ==> payload_terms(payload, product_code) == Err::<
            PayloadInfoView,
            Seq<char>,
        >("License missing status"@),
        forall|status: Seq<char>|
            string_at(payload, seq!["status"@]) == Some(status) && !#[trigger] eq_ignore_case(status, "active"@) ==> payload_terms(
                payload,
                product_code,
            ) == Err::<PayloadInfoView, Seq<char>>("License inactive ("@ + status + ")"@),
{
}
} // verus!
