//! The machine's device id and the license public key: hashing, salts and
//! key decoding, with SHA-256, base64 and Ed25519 from their crates.
use sha2::Digest;
use vstd::prelude::*;
use vstd::utf8::encode_utf8;
use crate::model::DawApp;
use crate::text::{chars_of, concat, has_prefix, is_empty_text, owned, push_char, string_from_chars, trim, trimmed};

verus! {

/// The SHA-256 digest of `data`.
pub uninterp spec fn sha256_digest(data: Seq<u8>) -> Seq<u8>;

/// What base64 with the URL-safe alphabet and padding decodes `text` to, or
/// the text of the decoding error.
pub uninterp spec fn base64_url_decoded(text: Seq<char>) -> Result<Seq<u8>, Seq<char>>;

/// The base64 text, URL-safe alphabet with padding, of `bytes`.
pub uninterp spec fn base64_url_encoded(bytes: Seq<u8>) -> Seq<char>;

/// The Ed25519 public key of the secret key `seed`.
pub uninterp spec fn ed25519_public_key(seed: Seq<u8>) -> Seq<u8>;

/// SHA-256 of `data` (sha2 `Sha256::digest`).
///
/// Claimed: the result is `sha256_digest` of the bytes, 32 bytes long.
#[verifier::external_body]
fn sha256_of(data: &[u8]) -> (r: Vec<u8>)
    ensures
        r@ == sha256_digest(data@),
        r@.len() == 32,
{
    sha2::Sha256::digest(data).to_vec()
}

/// Decodes base64 text with the URL-safe alphabet and padding (base64
/// `URL_SAFE.decode`); a failure is returned as the error's text.
///
/// Claimed: the outcome is `base64_url_decoded` of the text.
#[verifier::external_body]
pub(crate) fn base64_url_decode(text: &str) -> (r: Result<Vec<u8>, String>)
    ensures
        match r {
            Ok(b) => base64_url_decoded(text@) == Ok::<Seq<u8>, Seq<char>>(b@),
            Err(e) => base64_url_decoded(text@) == Err::<Seq<u8>, Seq<char>>(e@),
        },
{
    match base64::Engine::decode(&base64::engine::general_purpose::URL_SAFE, text.as_bytes()) {
        Ok(bytes) => Ok(bytes),
        Err(e) => Err(e.to_string()),
    }
}

/// Encodes bytes as base64 text with the URL-safe alphabet and padding
/// (base64 `URL_SAFE.encode`).
///
/// Claimed: the result is `base64_url_encoded` of the bytes, four
/// characters for every three bytes or part of them (padding is on). `bytes`
/// is at most 16 bytes here, far below the length at which the encoder
/// panics.
#[verifier::external_body]
fn base64_url_encode(bytes: &[u8]) -> (r: String)
    requires
        bytes@.len() <= 16,
    ensures
        r@ == base64_url_encoded(bytes@),
        r@.len() == 4 * ((bytes@.len() + 2) / 3),
{
    base64::Engine::encode(&base64::engine::general_purpose::URL_SAFE, bytes)
}

/// The Ed25519 public key of a secret key (ed25519-dalek
/// `SigningKey::from_bytes`, `verifying_key`, `to_bytes`).
///
/// Claimed: the result is `ed25519_public_key` of the secret key.
#[verifier::external_body]
fn ed25519_public_of(seed: &[u8; 32]) -> (r: [u8; 32])
    ensures
        r@ == ed25519_public_key(seed@),
{
    ed25519_dalek::SigningKey::from_bytes(seed).verifying_key().to_bytes()
}

/// What checking an Ed25519 signature came to.
pub enum SignatureCheck {
    /// The public key bytes are not a key; the error's text.
    KeyRejected(String),
    /// The signature bytes are not a signature; the error's text.
    SignatureRejected(String),
    /// The signature does not sign the message under the key.
    Invalid,
    Valid,
}

/// The value of a `SignatureCheck`.
pub enum SignatureVerdict {
    KeyRejected(Seq<char>),
    SignatureRejected(Seq<char>),
    Invalid,
    Valid,
}

impl SignatureCheck {
    pub open spec fn verdict(&self) -> SignatureVerdict {
        match self {
            SignatureCheck::KeyRejected(e) => SignatureVerdict::KeyRejected(e@),
            SignatureCheck::SignatureRejected(e) => SignatureVerdict::SignatureRejected(e@),
            SignatureCheck::Invalid => SignatureVerdict::Invalid,
            SignatureCheck::Valid => SignatureVerdict::Valid,
        }
    }
}

/// What checking `signature` over `message` under the Ed25519 public key
/// `key` comes to.
pub uninterp spec fn ed25519_verdict(key: Seq<u8>, message: Seq<u8>, signature: Seq<u8>) -> SignatureVerdict;

/// Checks an Ed25519 signature (ed25519-dalek `VerifyingKey::from_bytes`,
/// `Signature::from_slice`, then `Verifier::verify`), each step's error
/// returned as its text.
///
/// Claimed: the outcome is `ed25519_verdict` of the key, message and
/// signature bytes; once the key is accepted, the signature bytes are refused
/// exactly when they are not 64 bytes long, with the text "signature error".
#[verifier::external_body]
pub(crate) fn ed25519_verify(key: &[u8; 32], message: &[u8], signature: &[u8]) -> (r: SignatureCheck)
    ensures
        r.verdict() == ed25519_verdict(key@, message@, signature@),
        !(r is KeyRejected) ==> ((r is SignatureRejected) <==> signature@.len() != 64),
        r matches SignatureCheck::SignatureRejected(e) ==> e@ == "signature error"@,
{
    let verifying_key = match ed25519_dalek::VerifyingKey::from_bytes(key) {
        Ok(k) => k,
        Err(e) => return SignatureCheck::KeyRejected(e.to_string()),
    };
    let sig = match ed25519_dalek::Signature::from_slice(signature) {
        Ok(s) => s,
        Err(e) => return SignatureCheck::SignatureRejected(e.to_string()),
    };
    match ed25519_dalek::Verifier::verify(&verifying_key, message, &sig) {
        Ok(()) => SignatureCheck::Valid,
        Err(_) => SignatureCheck::Invalid,
    }
}

/// Sixteen bytes from the operating system's random source (rand `OsRng`,
/// `try_fill_bytes`); `None` when the operating system cannot supply them.
///
/// Nothing is claimed of the bytes or of when the source fails.
#[verifier::external_body]
fn os_random_16() -> (r: Option<[u8; 16]>) {
    let mut bytes = [0u8; 16];
    match rand::RngCore::try_fill_bytes(&mut rand::rngs::OsRng, &mut bytes) {
        Ok(()) => Some(bytes),
        Err(_) => None,
    }
}

/// The lower-case hexadecimal digit of `n < 16`.
pub open spec fn hex_digit(n: int) -> char {
    if n < 10 {
        (n + 48) as char
    } else {
        (n + 87) as char
    }
}

/// `bytes` written as lower-case hexadecimal, two digits per byte.
pub open spec fn hex_lower(bytes: Seq<u8>) -> Seq<char>
    decreases bytes.len(),
{
    if bytes.len() == 0 {
        Seq::empty()
    } else {
        hex_lower(bytes.drop_last()) + seq![hex_digit((bytes.last() / 16) as int), hex_digit((bytes.last() % 16) as int)]
    }
}

/// A lower-case hexadecimal digit.
pub open spec fn is_hex_lower(c: char) -> bool {
    ('0' <= c && c <= '9') || ('a' <= c && c <= 'f')
}

/// Hexadecimal text has two digits per byte, all lower-case hexadecimal.
pub proof fn lemma_hex_lower(bytes: Seq<u8>)
    ensures
        hex_lower(bytes).len() == 2 * bytes.len(),
        forall|i: int| 0 <= i < hex_lower(bytes).len() ==> is_hex_lower(#[trigger] hex_lower(bytes)[i]),
    decreases bytes.len(),
{
    if bytes.len() > 0 {
        lemma_hex_lower(bytes.drop_last());
        let b = bytes.last();
        let hi = (b / 16) as int;
        let lo = (b % 16) as int;
        assert(is_hex_lower(hex_digit(hi)) && is_hex_lower(hex_digit(lo))) by {
            assert(0 <= hi < 16 && 0 <= lo < 16);
        }
        let prev = hex_lower(bytes.drop_last());
        assert forall|i: int| 0 <= i < hex_lower(bytes).len() implies is_hex_lower(#[trigger] hex_lower(bytes)[i]) by {
            if i < prev.len() {
                assert(hex_lower(bytes)[i] == prev[i]);
            }
        }
    }
}

/// The device id of a machine: the SHA-256 digest of its fingerprint, a `|`
/// and the salt, in lower-case hexadecimal.
pub open spec fn device_id_of(fingerprint: Seq<char>, salt: Seq<char>) -> Seq<char> {
    hex_lower(sha256_digest(encode_utf8(fingerprint) + seq![124u8] + encode_utf8(salt)))
}

/// `s` with every occurrence of `pat` removed, scanning from the left (std
/// `str::replace` with an empty replacement).
pub open spec fn remove_all(s: Seq<char>, pat: Seq<char>) -> Seq<char>
    decreases s.len(),
{
    if s.len() == 0 {
        s
    } else if pat.len() > 0 && has_prefix(s, pat) {
        remove_all(s.skip(pat.len() as int), pat)
    } else {
        seq![s[0]] + remove_all(s.skip(1), pat)
    }
}

pub open spec fn pem_begin() -> Seq<char> {
    "-----BEGIN PUBLIC KEY-----"@
}

pub open spec fn pem_end() -> Seq<char> {
    "-----END PUBLIC KEY-----"@
}

/// The base64 text of a public key: the PEM markers and line breaks taken
/// out, then trimmed.
pub open spec fn key_text_cleaned(key: Seq<char>) -> Seq<char> {
    trimmed(remove_all(remove_all(remove_all(remove_all(key, pem_begin()), pem_end()), seq!['\n']), seq!['\r']))
}

/// The DER header of an Ed25519 SubjectPublicKeyInfo.
pub open spec fn spki_prefix() -> Seq<u8> {
    seq![0x30u8, 0x2a, 0x30, 0x05, 0x06, 0x03, 0x2b, 0x65, 0x70, 0x03, 0x21, 0x00]
}

/// The DER header of an Ed25519 PKCS#8 private key.
pub open spec fn pkcs8_prefix() -> Seq<u8> {
    seq![0x30u8, 0x2e, 0x02, 0x01, 0x00, 0x30, 0x05, 0x06, 0x03, 0x2b, 0x65, 0x70, 0x04, 0x22, 0x04, 0x20]
}

/// The 32-byte public key that decoded key bytes stand for: the bytes
/// themselves, the key inside an SPKI structure, or the public key of the
/// secret key inside a PKCS#8 structure; anything else is refused.
pub open spec fn key_from_raw(raw: Seq<u8>) -> Result<Seq<u8>, Seq<char>> {
    if raw.len() == 32 {
        Ok(raw)
    } else if raw.len() == 44 && raw.take(12) == spki_prefix() {
        Ok(raw.skip(12))
    } else if raw.len() == 48 && raw.take(16) == pkcs8_prefix() {
        Ok(ed25519_public_key(raw.skip(16)))
    } else {
        Err("Public key must be 32 bytes"@)
    }
}

/// The public key that `key` (raw base64 or PEM) holds.
pub open spec fn public_key_of(key: Seq<char>) -> Result<Seq<u8>, Seq<char>> {
    match base64_url_decoded(key_text_cleaned(key)) {
        Err(e) => Err("Public key decode error: "@ + e),
        Ok(raw) => key_from_raw(raw),
    }
}

/// `s` without the occurrences of `pat`.
fn remove_text(s: &str, pat: &str) -> (r: String)
    requires
        pat@.len() > 0,
    ensures
        r@ == remove_all(s@, pat@),
{
    let v = chars_of(s);
    let p = chars_of(pat);
    let mut out: Vec<char> = Vec::new();
    let mut i: usize = 0;
    assert(s@.skip(0) == s@);
    assert(out@ + remove_all(s@, pat@) == remove_all(s@, pat@));
    while i < v.len()
        invariant
            i <= v.len(),
            v@ == s@,
            p@ == pat@,
            p@.len() > 0,
            out@ + remove_all(s@.skip(i as int), pat@) == remove_all(s@, pat@),
        decreases v.len() - i,
    {
        let ghost rest = s@.skip(i as int);
        if crate::text::matches_at(&v, &p, i) {
            assert(rest.take(pat@.len() as int) == s@.subrange(i as int, i + pat@.len()));
            assert(rest.skip(pat@.len() as int) == s@.skip(i + pat@.len()));
            i = i + p.len();
        } else {
            assert(!has_prefix(rest, pat@)) by {
                if has_prefix(rest, pat@) {
                    assert(rest.take(pat@.len() as int) == s@.subrange(i as int, i + pat@.len()));
                }
            }
            assert(rest.skip(1) == s@.skip(i + 1));
            assert(rest[0] == v@[i as int]);
            let ghost before = out@;
            out.push(v[i]);
            assert(out@ + remove_all(s@.skip(i + 1), pat@) =~= before + (seq![rest[0]] + remove_all(rest.skip(1), pat@)));
            i = i + 1;
        }
    }
    assert(remove_all(s@.skip(i as int), pat@) == Seq::<char>::empty());
    assert(out@ + Seq::<char>::empty() == out@);
    string_from_chars(&out)
}

/// The lower-case hexadecimal digit of `n < 16`.
fn hex_char(n: u8) -> (c: char)
    requires
        n < 16,
    ensures
        c == hex_digit(n as int),
{
    if n < 10 {
        ((n + 48) as u8) as char
    } else {
        ((n + 87) as u8) as char
    }
}

/// `bytes` as lower-case hexadecimal.
pub fn hex_lower_string(bytes: &[u8]) -> (r: String)
    ensures
        r@ == hex_lower(bytes@),
{
    let mut out = String::new();
    let mut i: usize = 0;
    while i < bytes.len()
        invariant
            i <= bytes@.len(),
            out@ == hex_lower(bytes@.take(i as int)),
        decreases bytes@.len() - i,
    {
        let b = bytes[i];
        assert(bytes@.take(i + 1).drop_last() == bytes@.take(i as int));
        assert(bytes@.take(i + 1).last() == b);
        push_char(&mut out, hex_char(b / 16));
        push_char(&mut out, hex_char(b % 16));
        assert(out@ =~= hex_lower(bytes@.take(i as int)) + seq![hex_digit((b / 16) as int), hex_digit((b % 16) as int)]);
        i = i + 1;
    }
    assert(bytes@.take(bytes@.len() as int) == bytes@);
    out
}

/// The 32 bytes of `v`, which has exactly that many.
fn array32(v: &Vec<u8>, from: usize) -> (r: [u8; 32])
    requires
        from + 32 == v@.len(),
    ensures
        r@ == v@.skip(from as int),
{
    let mut bytes = [0u8; 32];
    let mut i: usize = 0;
    let n = v.len();
    while i < 32
        invariant
            i <= 32,
            n == v@.len(),
            from + 32 == v@.len(),
            forall|k: int| 0 <= k < i ==> bytes@[k] == v@[from + k],
        decreases 32 - i,
    {
        bytes[i] = v[from + i];
        i = i + 1;
    }
    assert(bytes@ =~= v@.skip(from as int));
    bytes
}

/// Whether `v` starts with the bytes of `prefix`.
fn starts_with_bytes(v: &Vec<u8>, prefix: &[u8]) -> (r: bool)
    ensures
        r == (prefix@.len() <= v@.len() && v@.take(prefix@.len() as int) == prefix@),
{
    if prefix.len() > v.len() {
        return false;
    }
    let mut i: usize = 0;
    while i < prefix.len()
        invariant
            i <= prefix@.len() <= v@.len(),
            forall|k: int| 0 <= k < i ==> v@[k] == prefix@[k],
        decreases prefix@.len() - i,
    {
        if v[i] != prefix[i] {
            assert(v@.take(prefix@.len() as int)[i as int] != prefix@[i as int]);
            return false;
        }
        i = i + 1;
    }
    assert(v@.take(prefix@.len() as int) =~= prefix@);
    true
}

impl DawApp {
    /// The device id of a machine with `fingerprint` and `salt` (see `device_id_of`).
    pub fn hash_device_id(fingerprint: &str, salt: &str) -> (r: String)
        ensures
            r@ == device_id_of(fingerprint@, salt@),
            r@.len() == 64,
            forall|i: int| 0 <= i < r@.len() ==> is_hex_lower(#[trigger] r@[i]),
    {
        let mut data: Vec<u8> = Vec::new();
        let fb = fingerprint.as_bytes();
        let sb = salt.as_bytes();
        let mut i: usize = 0;
        while i < fb.len()
            invariant
                i <= fb@.len(),
                data@ == fb@.take(i as int),
            decreases fb@.len() - i,
        {
            data.push(fb[i]);
            assert(fb@.take(i + 1) == fb@.take(i as int).push(fb@[i as int]));
            i = i + 1;
        }
        assert(fb@.take(fb@.len() as int) == fb@);
        data.push(124u8);
        let ghost head = data@;
        let mut j: usize = 0;
        while j < sb.len()
            invariant
                j <= sb@.len(),
                data@ == head + sb@.take(j as int),
            decreases sb@.len() - j,
        {
            data.push(sb[j]);
            assert(sb@.take(j + 1) == sb@.take(j as int).push(sb@[j as int]));
            j = j + 1;
        }
        assert(sb@.take(sb@.len() as int) == sb@);
        assert(data@ == encode_utf8(fingerprint@) + seq![124u8] + encode_utf8(salt@));
        let digest = sha256_of(data.as_slice());
        proof {
            lemma_hex_lower(digest@);
        }
        hex_lower_string(digest.as_slice())
    }

    /// A fresh salt for the device id: sixteen random bytes in base64;
    /// `None` when the operating system gives no random bytes.
    pub fn generate_device_salt() -> (r: Option<String>)
        ensures
            r matches Some(t) ==> (exists|b: Seq<u8>| b.len() == 16 && t@ == base64_url_encoded(b)) && t@.len() == 24,
    {
        match os_random_16() {
            Some(bytes) => Some(base64_url_encode(bytes.as_slice())),
            None => None,
        }
    }

    /// Gives the settings a device id when they have none, from the
    /// machine's `fingerprint` and the stored salt (a fresh salt when none is
    /// stored). Returns whether the settings changed; they do not when an id
    /// is stored, nor when a fresh salt is needed and the operating system
    /// gives no random bytes.
    #[verifier::rlimit(60)]
    pub fn ensure_device_id(&mut self, fingerprint: &str) -> (changed: bool)
        ensures
            old(self).settings.device_id@.len() > 0 ==> !changed,
            old(self).settings.device_id@.len() == 0 && old(self).settings.device_salt@.len() > 0 ==> changed,
            !changed ==> *final(self) == *old(self),
            changed ==> {
                &&& final(self).settings.device_id@ == device_id_of(fingerprint@, final(self).settings.device_salt@)
                &&& final(self).settings.device_id@.len() == 64
                &&& final(self).settings.device_salt@.len() > 0
                &&& old(self).settings.device_salt@.len() > 0 ==> final(self).settings.device_salt@
                    == old(self).settings.device_salt@
                &&& old(self).settings.device_salt@.len() == 0 ==> exists|b: Seq<u8>|
                    b.len() == 16 && final(self).settings.device_salt@ == base64_url_encoded(b)
                &&& *final(self) == (DawApp {
                    settings: crate::model::SettingsState {
                        device_id: final(self).settings.device_id,
                        device_salt: final(self).settings.device_salt,
                        ..old(self).settings
                    },
                    ..*old(self)
                })
            },
    {
        if !is_empty_text(self.settings.device_id.as_str()) {
            return false;
        }
        if is_empty_text(self.settings.device_salt.as_str()) {
            match Self::generate_device_salt() {
                Some(salt) => {
                    self.store_device_salt(salt);
                },
                None => {
                    return false;
                },
            }
        }
        let id = Self::hash_device_id(fingerprint, self.settings.device_salt.as_str());
        self.store_device_id(id);
        true
    }

    /// Stores `salt` as the device salt.
    fn store_device_salt(&mut self, salt: String)
        ensures
            *final(self) == (DawApp {
                settings: crate::model::SettingsState { device_salt: salt, ..old(self).settings },
                ..*old(self)
            }),
    {
        self.settings.device_salt = salt;
    }

    /// Stores `id` as the device id.
    fn store_device_id(&mut self, id: String)
        ensures
            *final(self) == (DawApp {
                settings: crate::model::SettingsState { device_id: id, ..old(self).settings },
                ..*old(self)
            }),
    {
        self.settings.device_id = id;
    }

    /// The public key held by already-decoded key bytes (see `key_from_raw`).
    pub fn public_key_from_raw(raw: &Vec<u8>) -> (r: Result<[u8; 32], String>)
        ensures
            match r {
                Ok(k) => key_from_raw(raw@) == Ok::<Seq<u8>, Seq<char>>(k@),
                Err(e) => key_from_raw(raw@) == Err::<Seq<u8>, Seq<char>>(e@),
            },
    {
        if raw.len() == 32 {
            let k = array32(raw, 0);
            assert(raw@.skip(0) == raw@);
            return Ok(k);
        }
        let spki: [u8; 12] = [0x30, 0x2a, 0x30, 0x05, 0x06, 0x03, 0x2b, 0x65, 0x70, 0x03, 0x21, 0x00];
        assert(spki@ =~= spki_prefix());
        if raw.len() == 44 && starts_with_bytes(raw, spki.as_slice()) {
            return Ok(array32(raw, 12));
        }
        let pkcs8: [u8; 16] = [
            0x30, 0x2e, 0x02, 0x01, 0x00, 0x30, 0x05, 0x06, 0x03, 0x2b, 0x65, 0x70, 0x04, 0x22, 0x04, 0x20,
        ];
        assert(pkcs8@ =~= pkcs8_prefix());
        if raw.len() == 48 && starts_with_bytes(raw, pkcs8.as_slice()) {
            let seed = array32(raw, 16);
            return Ok(ed25519_public_of(&seed));
        }
        Err(owned("Public key must be 32 bytes"))
    }

    /// The public key that `key_text` (raw base64 or PEM) holds (see `public_key_of`).
    pub fn decode_public_key(key_text: &str) -> (r: Result<[u8; 32], String>)
        ensures
            match r {
                Ok(k) => public_key_of(key_text@) == Ok::<Seq<u8>, Seq<char>>(k@),
                Err(e) => public_key_of(key_text@) == Err::<Seq<u8>, Seq<char>>(e@),
            },
    {
        proof {
            reveal_strlit("\n");
            reveal_strlit("\r");
            reveal_strlit("-----BEGIN PUBLIC KEY-----");
            reveal_strlit("-----END PUBLIC KEY-----");
        }
        let a = remove_text(key_text, "-----BEGIN PUBLIC KEY-----");
        let b = remove_text(a.as_str(), "-----END PUBLIC KEY-----");
        let c = remove_text(b.as_str(), "\n");
        let d = remove_text(c.as_str(), "\r");
        let cleaned = trim(d.as_str());
        assert("\n"@ =~= seq!['\n']);
        assert("\r"@ =~= seq!['\r']);
        assert(cleaned@ == key_text_cleaned(key_text@));
        match base64_url_decode(cleaned.as_str()) {
            Err(e) => Err(concat("Public key decode error: ", e.as_str())),
            Ok(raw) => Self::public_key_from_raw(&raw),
        }
    }
}

} // verus!
