//! The user's settings: their defaults, and API keys kept encrypted with a key
//! derived from the machine and the user, then written as base64 text.
use vstd::prelude::*;
use vstd::utf8::*;
use aes_gcm::aead::Aead;
use aes_gcm::KeyInit;
use base64::Engine;
use sha2::Digest;
use crate::models::enums::TranslationEngineType;
use crate::models::settings::AppSettings;
use crate::string_map::StringMap;
use crate::text::{concat2, has_prefix, trim, trim_text};

verus! {

broadcast use vstd::seq_lib::group_seq_properties;

#[verifier::external_type_specification]
#[verifier::external_body]
pub struct ExDecodeError(base64::DecodeError);

/// What `sha2::Sha256::digest` gives for the bytes.
pub uninterp spec fn sha256_of(data: Seq<u8>) -> Seq<u8>;

/// What AES-256-GCM encryption of `plaintext` under `key` and `nonce` gives,
/// without associated data: the ciphertext followed by its tag.
pub uninterp spec fn aes_gcm_sealed(key: Seq<u8>, nonce: Seq<u8>, plaintext: Seq<u8>) -> Seq<u8>;

/// What the standard, padded base64 encoding of the bytes gives.
pub uninterp spec fn base64_text(data: Seq<u8>) -> Seq<char>;

/// The longest plaintext that AES-GCM encrypts, in bytes.
pub open spec fn aes_gcm_max_plaintext() -> int {
    0x10_0000_0000
}

/// Calls `sha2::Sha256::digest`: the result is named `sha256_of` of the
/// input and is 32 bytes long.
#[verifier::external_body]
fn sha256(data: &[u8]) -> (r: Vec<u8>)
    ensures
        r@ == sha256_of(data@),
        r@.len() == 32,
{
    sha2::Sha256::digest(data).to_vec()
}

/// Calls `Aead::encrypt` of `aes_gcm::Aes256Gcm`. As the crate's source
/// shows, it refuses a plaintext longer than 2^36 bytes and otherwise returns
/// the sealed text, named `aes_gcm_sealed`; a refusal comes back as the text
/// of the crate's error.
#[verifier::external_body]
fn aes_gcm_encrypt(key: &[u8], nonce: &[u8], data: &[u8]) -> (r: Result<Vec<u8>, String>)
    requires
        key@.len() == 32,
        nonce@.len() == 12,
    ensures
        r is Ok <==> data@.len() <= aes_gcm_max_plaintext(),
        r matches Ok(c) ==> c@ == aes_gcm_sealed(key@, nonce@, data@),
{
    let cipher = aes_gcm::Aes256Gcm::new(aes_gcm::Key::<aes_gcm::Aes256Gcm>::from_slice(key));
    match cipher.encrypt(aes_gcm::Nonce::from_slice(nonce), data) {
        Ok(c) => Ok(c),
        Err(e) => Err(e.to_string()),
    }
}

/// Calls `Aead::decrypt` of `aes_gcm::Aes256Gcm`. As the crate's source
/// shows, it accepts a sealed text exactly when its tag matches, and then
/// returns the one plaintext that seals to it; the sealing of any plaintext
/// of at most 2^36 bytes is accepted. A refusal comes back as the text of the
/// crate's error.
#[verifier::external_body]
fn aes_gcm_decrypt(key: &[u8], nonce: &[u8], data: &[u8]) -> (r: Result<Vec<u8>, String>)
    requires
        key@.len() == 32,
        nonce@.len() == 12,
    ensures
        r matches Ok(p) ==> aes_gcm_sealed(key@, nonce@, p@) == data@,
        r matches Ok(p) ==> forall|x: Seq<u8>| #[trigger]
            aes_gcm_sealed(key@, nonce@, x) == data@ ==> x == p@,
        r is Err ==> forall|x: Seq<u8>|
            x.len() <= aes_gcm_max_plaintext() ==> #[trigger] aes_gcm_sealed(key@, nonce@, x)
                != data@,
{
    let cipher = aes_gcm::Aes256Gcm::new(aes_gcm::Key::<aes_gcm::Aes256Gcm>::from_slice(key));
    match cipher.decrypt(aes_gcm::Nonce::from_slice(nonce), data) {
        Ok(p) => Ok(p),
        Err(e) => Err(e.to_string()),
    }
}

/// Calls `Engine::encode` of `base64::engine::general_purpose::STANDARD`;
/// the result is named `base64_text` of the input.
#[verifier::external_body]
fn base64_encode(data: &[u8]) -> (r: String)
    ensures
        r@ == base64_text(data@),
{
    base64::engine::general_purpose::STANDARD.encode(data)
}

/// Calls `Engine::decode` of `base64::engine::general_purpose::STANDARD`,
/// which requires canonical padding and no trailing bits: it accepts exactly
/// the texts that encoding produces, and gives back the one input that
/// encodes to the text.
#[verifier::external_body]
fn base64_decode(text: &str) -> (r: Result<Vec<u8>, base64::DecodeError>)
    ensures
        r matches Ok(b) ==> base64_text(b@) == text@,
        r matches Ok(b) ==> forall|x: Seq<u8>| #[trigger] base64_text(x) == text@ ==> x == b@,
        r is Err ==> forall|x: Seq<u8>| #[trigger] base64_text(x) != text@,
{
    base64::engine::general_purpose::STANDARD.decode(text)
}

/// What the machine and the user are called, where the environment says so.
#[derive(Debug, Clone)]
pub struct MachineIdentity {
    pub computer_name: Option<String>,
    pub user_domain: Option<String>,
    pub user_name: Option<String>,
}

/// The text of an optional value, or `default` where it is absent.
pub open spec fn text_or(o: Option<String>, default: Seq<char>) -> Seq<char> {
    match o {
        Some(v) => v@,
        None => default,
    }
}

/// The bytes the local encryption key is derived from: the machine name, the
/// user domain and the user name (each with a fixed stand-in), then the
/// application's salt.
pub open spec fn key_material(id: MachineIdentity) -> Seq<u8> {
    encode_utf8(text_or(id.computer_name, "fixed_comp"@)) + encode_utf8(
        text_or(id.user_domain, "fixed_domain"@),
    ) + encode_utf8(text_or(id.user_name, "fixed_user"@)) + encode_utf8(
        "factoriomodtranslator_salt_2026"@,
    )
}

/// The local encryption key: the SHA-256 digest of the key material.
pub open spec fn local_key(id: MachineIdentity) -> Seq<u8> {
    sha256_of(key_material(id))
}

/// The fixed nonce: the bytes of `unique_nonce`.
pub open spec fn nonce_bytes() -> Seq<u8> {
    seq![0x75u8, 0x6e, 0x69, 0x71, 0x75, 0x65, 0x5f, 0x6e, 0x6f, 0x6e, 0x63, 0x65]
}

/// How an API key is stored: its UTF-8 bytes sealed with the local key, as
/// base64 text.
pub open spec fn stored_form(id: MachineIdentity, key: Seq<char>) -> Seq<char> {
    base64_text(aes_gcm_sealed(local_key(id), nonce_bytes(), encode_utf8(key)))
}

/// A key short enough to be sealed.
pub open spec fn sealable(key: Seq<char>) -> bool {
    encode_utf8(key).len() <= aes_gcm_max_plaintext()
}

/// What reading a stored text back may give: a key whose stored form it is,
/// and the only sealable one, or nothing when no sealable key has it as
/// stored form.
pub open spec fn reads_back(id: MachineIdentity, stored: Seq<char>, r: Option<Seq<char>>) -> bool {
    &&& r matches Some(k) ==> stored_form(id, k) == stored
    &&& r matches Some(k) ==> forall|t: Seq<char>|
        sealable(t) && #[trigger] stored_form(id, t) == stored ==> t == k
    &&& r is None ==> forall|t: Seq<char>| sealable(t) ==> #[trigger] stored_form(id, t) != stored
}

/// What loading the key of `engine` from stored keys may give.
pub open spec fn loads_key(
    id: MachineIdentity,
    keys: Map<Seq<char>, Seq<char>>,
    engine: Seq<char>,
    r: Option<Seq<char>>,
) -> bool {
    if keys.contains_key(engine) {
        reads_back(id, keys[engine], r)
    } else {
        r is None
    }
}

/// The text of an optional string.
pub open spec fn opt_text(o: Option<String>) -> Option<Seq<char>> {
    match o {
        Some(v) => Some(v@),
        None => None,
    }
}

/// The settings file of an application data folder.
pub struct SettingsService {
    app_data_dir: String,
}

impl SettingsService {
    /// The folder that holds the settings file.
    pub closed spec fn data_dir(&self) -> Seq<char> {
        self.app_data_dir@
    }

    /// The service for the settings file of the given folder.
    pub fn new(app_data_dir: &str) -> (r: Self)
        ensures
            r.data_dir() == app_data_dir@,
    {
        SettingsService { app_data_dir: app_data_dir.to_owned() }
    }

    /// The folder that holds the settings file.
    pub fn app_data_dir(&self) -> (r: &str)
        ensures
            r@ == self.data_dir(),
    {
        self.app_data_dir.as_str()
    }

    /// The name of the settings file in that folder.
    pub fn settings_file_name() -> (r: String)
        ensures
            r@ == "settings.json"@,
    {
        "settings.json".to_string()
    }

    /// The settings used when none were saved or they cannot be read.
    pub fn default_settings() -> (r: AppSettings)
        ensures
            r.selected_engine == TranslationEngineType::DeepL,
            r.factorio_install_path@ == "C:\\Program Files\\Factorio"@,
            r.ui_language@ == "ja"@,
            r.last_mod_path@.len() == 0,
            r.default_source_lang@ == "en"@,
            r.default_target_lang@ == "ja"@,
            r.window_width == 1200,
            r.window_height == 800,
            r.api_keys@ == Map::<Seq<char>, Seq<char>>::empty(),
    {
        AppSettings {
            selected_engine: TranslationEngineType::DeepL,
            factorio_install_path: "C:\\Program Files\\Factorio".to_string(),
            ui_language: "ja".to_string(),
            last_mod_path: String::new(),
            default_source_lang: "en".to_string(),
            default_target_lang: "ja".to_string(),
            window_width: 1200,
            window_height: 800,
            api_keys: StringMap::new(),
        }
    }

    /// The local encryption key of this machine and user.
    pub fn get_encryption_key(identity: &MachineIdentity) -> (r: Vec<u8>)
        ensures
            r@ == local_key(*identity),
            r@.len() == 32,
    {
        let mut material: Vec<u8> = Vec::new();
        let computer = match &identity.computer_name {
            Some(c) => c.as_str(),
            None => "fixed_comp",
        };
        let domain = match &identity.user_domain {
            Some(d) => d.as_str(),
            None => "fixed_domain",
        };
        let user = match &identity.user_name {
            Some(u) => u.as_str(),
            None => "fixed_user",
        };
        push_bytes(&mut material, computer.as_bytes());
        push_bytes(&mut material, domain.as_bytes());
        push_bytes(&mut material, user.as_bytes());
        push_bytes(&mut material, "factoriomodtranslator_salt_2026".as_bytes());
        sha256(material.as_slice())
    }

    /// The fixed nonce.
    fn nonce() -> (r: Vec<u8>)
        ensures
            r@ == nonce_bytes(),
    {
        let r: Vec<u8> = vec![0x75u8, 0x6e, 0x69, 0x71, 0x75, 0x65, 0x5f, 0x6e, 0x6f, 0x6e, 0x63, 0x65];
        assert(r@ =~= nonce_bytes());
        r
    }

    /// Seals bytes with the local key.
    fn encrypt_local(identity: &MachineIdentity, data: &[u8]) -> (r: Result<Vec<u8>, String>)
        ensures
            r is Ok <==> data@.len() <= aes_gcm_max_plaintext(),
            r matches Ok(c) ==> c@ == aes_gcm_sealed(local_key(*identity), nonce_bytes(), data@),
            r matches Err(e) ==> has_prefix(e@, "Encryption failure: "@),
    {
        let key = Self::get_encryption_key(identity);
        let nonce = Self::nonce();
        match aes_gcm_encrypt(key.as_slice(), nonce.as_slice(), data) {
            Ok(c) => Ok(c),
            Err(e) => {
                let msg = concat2("Encryption failure: ", e.as_str());
                assert(msg@.take("Encryption failure: "@.len() as int) =~= "Encryption failure: "@);
                Err(msg)
            },
        }
    }

    /// Opens bytes sealed with the local key.
    fn decrypt_local(identity: &MachineIdentity, data: &[u8]) -> (r: Result<Vec<u8>, String>)
        ensures
            r matches Ok(p) ==> aes_gcm_sealed(local_key(*identity), nonce_bytes(), p@) == data@,
            r matches Ok(p) ==> forall|x: Seq<u8>| #[trigger]
                aes_gcm_sealed(local_key(*identity), nonce_bytes(), x) == data@ ==> x == p@,
            r is Err ==> forall|x: Seq<u8>|
                x.len() <= aes_gcm_max_plaintext() ==> #[trigger] aes_gcm_sealed(
                    local_key(*identity),
                    nonce_bytes(),
                    x,
                ) != data@,
            r matches Err(e) ==> has_prefix(e@, "Decryption failure: "@),
    {
        let key = Self::get_encryption_key(identity);
        let nonce = Self::nonce();
        match aes_gcm_decrypt(key.as_slice(), nonce.as_slice(), data) {
            Ok(p) => Ok(p),
            Err(e) => {
                let msg = concat2("Decryption failure: ", e.as_str());
                assert(msg@.take("Decryption failure: "@.len() as int) =~= "Decryption failure: "@);
                Err(msg)
            },
        }
    }

    /// The stored form of an API key: the key is trimmed, refused when
    /// nothing is left, then sealed with the local key and written as base64.
    pub fn encode_api_key(identity: &MachineIdentity, key: &str) -> (r: Result<String, String>)
        ensures
            trim(key@).len() == 0 ==> (r matches Err(e) && e@ == "API key cannot be empty"@),
            trim(key@).len() > 0 && sealable(trim(key@)) ==> (r matches Ok(s) && s@ == stored_form(
                *identity,
                trim(key@),
            )),
            trim(key@).len() > 0 && !sealable(trim(key@)) ==> (r matches Err(e) && has_prefix(
                e@,
                "Encryption failure: "@,
            )),
    {
        let trimmed = trim_text(key);
        if trimmed.as_str().is_empty() {
            return Err("API key cannot be empty".to_string());
        }
        let encrypted = Self::encrypt_local(identity, trimmed.as_str().as_bytes());
        match encrypted {
            Ok(c) => Ok(base64_encode(c.as_slice())),
            Err(e) => Err(e),
        }
    }

    /// The API key of a stored text, when it is the stored form of one.
    pub fn decode_api_key(identity: &MachineIdentity, stored: &str) -> (r: Option<String>)
        ensures
            reads_back(*identity, stored@, opt_text(r)),
    {
        let ghost id = *identity;
        let decoded = base64_decode(stored);
        let bytes = match decoded {
            Ok(b) => b,
            Err(_) => {
                return None;
            },
        };
        let opened = Self::decrypt_local(identity, bytes.as_slice());
        let plain = match opened {
            Ok(p) => p,
            Err(_) => {
                assert forall|t: Seq<char>| sealable(t) implies #[trigger] stored_form(id, t)
                    != stored@ by {
                    if stored_form(id, t) == stored@ {
                        assert(base64_text(aes_gcm_sealed(local_key(id), nonce_bytes(), encode_utf8(t)))
                            == stored@);
                    }
                }
                return None;
            },
        };
        match core::str::from_utf8(plain.as_slice()) {
            Ok(s) => {
                let k = s.to_owned();
                proof {
                    decode_utf8_encode_utf8(plain@);
                    assert forall|t: Seq<char>| sealable(t) && #[trigger] stored_form(id, t)
                        == stored@ implies t == k@ by {
                        let st = aes_gcm_sealed(local_key(id), nonce_bytes(), encode_utf8(t));
                        assert(base64_text(st) == stored@);
                        assert(encode_utf8(t) == plain@);
                        encode_utf8_decode_utf8(t);
                    }
                }
                Some(k)
            },
            Err(_) => {
                proof {
                    assert forall|t: Seq<char>| sealable(t) implies #[trigger] stored_form(id, t)
                        != stored@ by {
                        if stored_form(id, t) == stored@ {
                            let st = aes_gcm_sealed(local_key(id), nonce_bytes(), encode_utf8(t));
                            assert(base64_text(st) == stored@);
                            assert(encode_utf8(t) == plain@);
                            encode_utf8_valid_utf8(t);
                        }
                    }
                }
                None
            },
        }
    }

    /// Keeps the stored form of an engine's API key in the settings.
    pub fn store_api_key(settings: &mut AppSettings, engine: &str, stored: String)
        ensures
            final(settings).api_keys@ == old(settings).api_keys@.insert(engine@, stored@),
            final(settings).selected_engine == old(settings).selected_engine,
            final(settings).factorio_install_path == old(settings).factorio_install_path,
            final(settings).ui_language == old(settings).ui_language,
            final(settings).last_mod_path == old(settings).last_mod_path,
            final(settings).default_source_lang == old(settings).default_source_lang,
            final(settings).default_target_lang == old(settings).default_target_lang,
            final(settings).window_width == old(settings).window_width,
            final(settings).window_height == old(settings).window_height,
    {
        settings.api_keys.insert(engine.to_owned(), stored);
    }

    /// Keeps an engine's API key in the settings, trimmed and encrypted. An
    /// empty key, or one too long to encrypt, is refused and the settings are
    /// left as they were.
    pub fn save_api_key(
        settings: &mut AppSettings,
        identity: &MachineIdentity,
        engine: &str,
        key: &str,
    ) -> (r: Result<(), String>)
        ensures
            r is Ok <==> trim(key@).len() > 0 && sealable(trim(key@)),
            r is Ok ==> final(settings).api_keys@ == old(settings).api_keys@.insert(
                engine@,
                stored_form(*identity, trim(key@)),
            ),
            r is Err ==> final(settings).api_keys@ == old(settings).api_keys@,
            trim(key@).len() == 0 ==> (r matches Err(e) && e@ == "API key cannot be empty"@),
            trim(key@).len() > 0 && !sealable(trim(key@)) ==> (r matches Err(e) && has_prefix(
                e@,
                "Encryption failure: "@,
            )),
            final(settings).selected_engine == old(settings).selected_engine,
            final(settings).factorio_install_path == old(settings).factorio_install_path,
            final(settings).ui_language == old(settings).ui_language,
            final(settings).last_mod_path == old(settings).last_mod_path,
            final(settings).default_source_lang == old(settings).default_source_lang,
            final(settings).default_target_lang == old(settings).default_target_lang,
            final(settings).window_width == old(settings).window_width,
            final(settings).window_height == old(settings).window_height,
    {
        match Self::encode_api_key(identity, key) {
            Ok(stored) => {
                Self::store_api_key(settings, engine, stored);
                Ok(())
            },
            Err(e) => Err(e),
        }
    }

    /// The API key of an engine, read back from the settings.
    pub fn load_api_key(settings: &AppSettings, identity: &MachineIdentity, engine: &str) -> (r:
        Option<String>)
        ensures
            loads_key(*identity, settings.api_keys@, engine@, opt_text(r)),
    {
        match settings.api_keys.get(engine) {
            Some(stored) => Self::decode_api_key(identity, stored.as_str()),
            None => None,
        }
    }
}

/// Appends bytes.
fn push_bytes(out: &mut Vec<u8>, b: &[u8])
    ensures
        final(out)@ == old(out)@ + b@,
{
    let mut i: usize = 0;
    while i < b.len()
        invariant
            i <= b@.len(),
            out@ == old(out)@ + b@.take(i as int),
        decreases b@.len() - i,
    {
        out.push(b[i]);
        assert(b@.take(i + 1) =~= b@.take(i as int).push(b@[i as int]));
        i = i + 1;
    }
    assert(b@.take(i as int) =~= b@);
}

/// An API key that was saved loads back as it was given, trimmed: whatever
/// loading the engine's key gives, after the key's stored form was kept
/// under the engine, is the trimmed key.
pub proof fn lemma_saved_key_loads_back(
    id: MachineIdentity,
    keys: Map<Seq<char>, Seq<char>>,
    engine: Seq<char>,
    key: Seq<char>,
    loaded: Option<Seq<char>>,
)
    requires
        trim(key).len() > 0,
        sealable(trim(key)),
        loads_key(id, keys.insert(engine, stored_form(id, trim(key))), engine, loaded),
    ensures
        loaded == Some(trim(key)),
{
    let m = keys.insert(engine, stored_form(id, trim(key)));
    assert(m.contains_key(engine) && m[engine] == stored_form(id, trim(key)));
    match loaded {
        Some(k) => {
            assert(sealable(trim(key)) && stored_form(id, trim(key)) == m[engine]);
        },
        None => {
            assert(stored_form(id, trim(key)) != m[engine]);
        },
    }
}

} // verus!
