//! The rules of the translation engines: how each names itself, which
//! endpoint and parameters a request uses, how DeepL's language codes are
//! written, when a failed DeepL request is tried again, and what an answer
//! gives.
use vstd::prelude::*;
use crate::services::formatter::{FactorioStringFormatter, escape_safe, keep_wrapped, unwrapped};
use crate::text::{
    concat2, has_prefix, has_suffix, lowercase, lowercased, owned, same_text, starts_with_text,
    ends_with_text, trim, trim_text, uppercase, uppercased,
};

verus! {

#[verifier::external_type_specification]
#[verifier::external_body]
pub struct ExClient(reqwest::Client);

/// Calls `reqwest::ClientBuilder::build` on a builder with the given user
/// agent; where building fails, the text of the crate's error. Nothing is
/// claimed of the client, nor of when building fails.
#[verifier::external_body]
fn client_with_user_agent(user_agent: &str) -> (r: Result<reqwest::Client, String>) {
    match reqwest::Client::builder().user_agent(user_agent).build() {
        Ok(c) => Ok(c),
        Err(e) => Err(e.to_string()),
    }
}

/// Calls `reqwest::ClientBuilder::build` on a default builder (what
/// `Client::new` does, without its panic); where building fails, the text of
/// the crate's error. Nothing is claimed of the client, nor of when building
/// fails.
#[verifier::external_body]
fn default_client() -> (r: Result<reqwest::Client, String>) {
    match reqwest::Client::builder().build() {
        Ok(c) => Ok(c),
        Err(e) => Err(e.to_string()),
    }
}

/// A machine translation engine.
pub trait TranslationEngine {
    /// The engine's name, as kept in history records.
    fn name(&self) -> String;
}

/// An HTTP request to an engine: a POST to `url` with the parameters, sent as
/// a form body or as the query string, and the authorization header if any.
#[derive(Debug, Clone)]
pub struct EngineRequest {
    pub url: String,
    pub authorization: Option<String>,
    pub params: Vec<(String, String)>,
    pub params_in_query: bool,
}

/// The texts of request parameters.
pub open spec fn param_views(ps: Seq<(String, String)>) -> Seq<(Seq<char>, Seq<char>)> {
    ps.map_values(|p: (String, String)| (p.0@, p.1@))
}

/// The endpoint of DeepL's free plan.
pub open spec fn deepl_free_url() -> Seq<char> {
    "https://api-free.deepl.com/v2/translate"@
}

/// The endpoint of DeepL's paid plan.
pub open spec fn deepl_pro_url() -> Seq<char> {
    "https://api.deepl.com/v2/translate"@
}

/// A key of DeepL's free plan ends in `:fx`, once trimmed.
pub open spec fn is_free_key(api_key: Seq<char>) -> bool {
    has_suffix(trim(api_key), ":fx"@)
}

/// How DeepL writes a language code, uppercased: English as `EN-US` when it
/// is the target, simplified Chinese as `ZH`, Portuguese as `PT` when it is
/// the source, and any Spanish variant as `ES`.
pub open spec fn deepl_lang(lang: Seq<char>, is_target: bool) -> Seq<char> {
    let u = uppercased(lang);
    if u == "EN"@ {
        if is_target {
            "EN-US"@
        } else {
            "EN"@
        }
    } else if u == "ZH-CN"@ {
        "ZH"@
    } else if u == "PT-BR"@ || u == "PT-PT"@ {
        if is_target {
            u
        } else {
            "PT"@
        }
    } else if has_prefix(u, "ES-"@) {
        "ES"@
    } else {
        u
    }
}

/// Only English and the Portuguese variants are written differently as
/// source and as target: for every other code, the direction of the
/// translation does not change what DeepL is sent.
pub proof fn lemma_deepl_lang_direction(lang: Seq<char>)
    requires
        uppercased(lang) != "EN"@,
        uppercased(lang) != "PT-BR"@,
        uppercased(lang) != "PT-PT"@,
    ensures
        deepl_lang(lang, true) == deepl_lang(lang, false),
{
}

/// Simplified Chinese, in any letter case, is sent to DeepL as `ZH`, as
/// source and as target alike.
pub proof fn lemma_deepl_lang_simplified_chinese(lang: Seq<char>, is_target: bool)
    requires
        uppercased(lang) == "ZH-CN"@,
    ensures
        deepl_lang(lang, is_target) == "ZH"@,
        deepl_lang(lang, is_target) == deepl_lang(lang, !is_target),
{
    reveal_strlit("ZH-CN");
    reveal_strlit("EN");
    reveal_strlit("PT-BR");
    reveal_strlit("PT-PT");
}

/// The text DeepL is sent: the empty text as it is, any other text escaped
/// with its protected parts wrapped.
pub open spec fn deepl_text(text: Seq<char>) -> Seq<char> {
    if text.len() == 0 {
        text
    } else {
        keep_wrapped(escape_safe(text))
    }
}

/// The text DeepL's answer gives: the empty text as it is, any other text
/// unwrapped and decoded.
pub open spec fn deepl_answer(text: Seq<char>) -> Seq<char> {
    if text.len() == 0 {
        text
    } else {
        unwrapped(text)
    }
}

/// The most retries of a DeepL request after which a server error is still
/// tried again.
pub open spec fn max_retries() -> nat {
    5
}

/// The most retries of a DeepL request after which a network error is still
/// tried again.
pub open spec fn max_network_retries() -> nat {
    3
}

/// The wait before the retry that follows `n` retries, in milliseconds: one
/// second, doubled each time.
pub open spec fn retry_delay(n: nat) -> nat
    decreases n,
{
    if n == 0 {
        1000
    } else {
        2 * retry_delay((n - 1) as nat)
    }
}

/// How many times a DeepL request was tried again, and the wait before the
/// next retry.
#[derive(Debug, Clone, Copy)]
pub struct RetryState {
    retry_count: u32,
    delay_ms: u64,
}

impl RetryState {
    /// Retries made so far.
    pub closed spec fn count(self) -> nat {
        self.retry_count as nat
    }

    /// The wait before the next retry, in milliseconds.
    pub closed spec fn delay(self) -> nat {
        self.delay_ms as nat
    }

    /// At most five retries, and the wait doubles from one second.
    #[verifier::type_invariant]
    spec fn inv(self) -> bool {
        self.retry_count <= max_retries() && self.delay_ms == retry_delay(self.retry_count as nat)
    }

    /// No retry made yet.
    pub fn initial() -> (r: Self)
        ensures
            r.count() == 0,
            r.delay() == 1000,
    {
        RetryState { retry_count: 0, delay_ms: 1000 }
    }

    /// Retries made so far.
    pub fn retry_count(&self) -> (r: u32)
        ensures
            r == self.count(),
            r <= max_retries(),
    {
        proof {
            use_type_invariant(self);
        }
        self.retry_count
    }

    /// The wait before the next retry, in milliseconds.
    pub fn delay_ms(&self) -> (r: u64)
        ensures
            r == self.delay(),
            r == retry_delay(self.count()),
    {
        proof {
            use_type_invariant(self);
        }
        self.delay_ms
    }
}

/// How a request to an engine went.
#[derive(Debug, Clone)]
pub enum AttemptOutcome {
    /// The engine answered with a success status.
    Success,
    /// The engine answered with another status: its code and its text, such
    /// as `429 Too Many Requests`.
    Status { code: u16, text: String },
    /// The request did not get an answer; the error's text.
    Network(String),
}

/// What to do after a request to DeepL.
#[derive(Debug, Clone)]
pub enum RetryDecision {
    /// Read the answer's body.
    ReadBody,
    /// Wait this long, then try again from the next state.
    Retry { delay_ms: u64, next: RetryState },
    /// Give up with this error.
    Fail(String),
}

/// A status worth trying again: a server error.
pub open spec fn is_retryable_status(code: u16) -> bool {
    500 <= code && code <= 599
}

/// The DeepL engine.
pub struct DeepLTranslationEngine {
    api_key: String,
    client: reqwest::Client,
}

impl DeepLTranslationEngine {
    /// The key the engine was made with.
    pub closed spec fn key(&self) -> Seq<char> {
        self.api_key@
    }

    /// The HTTP client the engine was made with.
    pub closed spec fn http_client(&self) -> reqwest::Client {
        self.client
    }

    /// The engine for an API key, with an HTTP client of its own user agent,
    /// or the default client where that one cannot be built; the error of
    /// building the default client where neither can be built.
    pub fn new(api_key: String) -> (r: Result<Self, String>)
        ensures
            r matches Ok(e) ==> e.key() == api_key@,
    {
        let client = match client_with_user_agent("FactorioModTranslator/0.1.0") {
            Ok(c) => c,
            Err(_) => match default_client() {
                Ok(c) => c,
                Err(e) => {
                    return Err(e);
                },
            },
        };
        Ok(DeepLTranslationEngine { api_key, client })
    }

    /// The key the engine was made with.
    pub fn api_key(&self) -> (r: &str)
        ensures
            r@ == self.key(),
    {
        self.api_key.as_str()
    }

    /// The HTTP client to send requests with: the one the engine was made
    /// with.
    pub fn client(&self) -> (r: &reqwest::Client)
        ensures
            *r == self.http_client(),
    {
        &self.client
    }

    /// How DeepL writes a language code, as the source or as the target.
    pub fn map_lang(lang: &str, is_target: bool) -> (r: String)
        ensures
            r@ == deepl_lang(lang@, is_target),
    {
        let u = uppercase(lang);
        if same_text(u.as_str(), "EN") {
            if is_target {
                "EN-US".to_string()
            } else {
                "EN".to_string()
            }
        } else if same_text(u.as_str(), "ZH-CN") {
            "ZH".to_string()
        } else if same_text(u.as_str(), "PT-BR") || same_text(u.as_str(), "PT-PT") {
            if is_target {
                u
            } else {
                "PT".to_string()
            }
        } else if starts_with_text(u.as_str(), "ES-") {
            "ES".to_string()
        } else {
            u
        }
    }

    /// The endpoint the key belongs to: the free plan's for a key ending in
    /// `:fx`, once trimmed, else the paid plan's.
    pub fn endpoint(&self) -> (r: String)
        ensures
            is_free_key(self.key()) ==> r@ == deepl_free_url(),
            !is_free_key(self.key()) ==> r@ == deepl_pro_url(),
    {
        let trimmed = trim_text(self.api_key.as_str());
        if ends_with_text(trimmed.as_str(), ":fx") {
            "https://api-free.deepl.com/v2/translate".to_string()
        } else {
            "https://api.deepl.com/v2/translate".to_string()
        }
    }

    /// The request that translates a text: the wrapped text, the mapped
    /// languages, XML tag handling that leaves `keep` tags alone, and the
    /// trimmed key in the authorization header.
    pub fn request(&self, text: &str, source_lang: &str, target_lang: &str) -> (r: EngineRequest)
        ensures
            is_free_key(self.key()) ==> r.url@ == deepl_free_url(),
            !is_free_key(self.key()) ==> r.url@ == deepl_pro_url(),
            r.authorization matches Some(a) && a@ == "DeepL-Auth-Key "@ + trim(self.key()),
            !r.params_in_query,
            param_views(r.params@) == seq![
                ("text"@, deepl_text(text@)),
                ("source_lang"@, deepl_lang(source_lang@, false)),
                ("target_lang"@, deepl_lang(target_lang@, true)),
                ("tag_handling"@, "xml"@),
                ("ignore_tags"@, "keep"@),
            ],
    {
        let wrapped = FactorioStringFormatter::wrap_tags(text);
        let trimmed = trim_text(self.api_key.as_str());
        let auth = concat2("DeepL-Auth-Key ", trimmed.as_str());
        let mut params: Vec<(String, String)> = Vec::new();
        params.push(("text".to_string(), wrapped));
        params.push(("source_lang".to_string(), Self::map_lang(source_lang, false)));
        params.push(("target_lang".to_string(), Self::map_lang(target_lang, true)));
        params.push(("tag_handling".to_string(), "xml".to_string()));
        params.push(("ignore_tags".to_string(), "keep".to_string()));
        let r = EngineRequest {
            url: self.endpoint(),
            authorization: Some(auth),
            params,
            params_in_query: false,
        };
        assert(param_views(r.params@) =~= seq![
            ("text"@, deepl_text(text@)),
            ("source_lang"@, deepl_lang(source_lang@, false)),
            ("target_lang"@, deepl_lang(target_lang@, true)),
            ("tag_handling"@, "xml"@),
            ("ignore_tags"@, "keep"@),
        ]);
        r
    }

    /// What to do after a request: read the answer on success; try again
    /// after the current wait on a server error while fewer than five retries
    /// were made, or on a network error while fewer than three were; else
    /// give up with the status
    /// (a refused key or too many requests among them, which are the user's
    /// to act on) or the network error.
    pub fn decide(state: &RetryState, outcome: &AttemptOutcome) -> (r: RetryDecision)
        ensures
            outcome is Success <==> r is ReadBody,
            (outcome matches AttemptOutcome::Status { code, .. } && is_retryable_status(*code))
                ==> (state.count() < max_retries() <==> r is Retry),
            outcome is Network ==> (state.count() < max_network_retries() <==> r is Retry),
            r matches RetryDecision::Retry { delay_ms, next } ==> delay_ms == state.delay()
                && next.count() == state.count() + 1 && next.delay() == 2 * state.delay(),
            outcome matches AttemptOutcome::Status { code, text } ==> (r is Fail <==> !(
            is_retryable_status(*code) && state.count() < max_retries())),
            outcome matches AttemptOutcome::Status { text, .. } ==> (r matches RetryDecision::Fail(
                e,
            ) ==> e@ == "DeepL API error: "@ + text@),
            outcome matches AttemptOutcome::Network(msg) ==> (r matches RetryDecision::Fail(e)
                ==> e@ == msg@),
    {
        proof {
            use_type_invariant(state);
        }
        match outcome {
            AttemptOutcome::Success => RetryDecision::ReadBody,
            AttemptOutcome::Status { code, text } => {
                if 500 <= *code && *code <= 599 && state.retry_count < 5 {
                    Self::retry_from(state)
                } else {
                    RetryDecision::Fail(concat2("DeepL API error: ", text.as_str()))
                }
            },
            AttemptOutcome::Network(msg) => {
                if state.retry_count < 3 {
                    Self::retry_from(state)
                } else {
                    RetryDecision::Fail(msg.clone())
                }
            },
        }
    }

    /// A retry after the current wait, from a state with fewer than five
    /// retries.
    fn retry_from(state: &RetryState) -> (r: RetryDecision)
        requires
            state.count() < max_retries(),
        ensures
            r matches RetryDecision::Retry { delay_ms, next } && delay_ms == state.delay()
                && next.count() == state.count() + 1 && next.delay() == 2 * state.delay(),
    {
        proof {
            use_type_invariant(state);
            assert(retry_delay((state.retry_count + 1) as nat) == 2 * retry_delay(
                state.retry_count as nat,
            ));
            lemma_retry_delay_bound(state.retry_count as nat);
        }
        let next = RetryState { retry_count: state.retry_count + 1, delay_ms: state.delay_ms * 2 };
        RetryDecision::Retry { delay_ms: state.delay_ms, next }
    }

    /// The translation in DeepL's answer: its first text, unwrapped.
    pub fn finish(texts: &Vec<String>) -> (r: Result<String, String>)
        ensures
            texts@.len() == 0 ==> (r matches Err(e) && e@ == "No translations returned"@),
            texts@.len() > 0 ==> (r matches Ok(t) && t@ == deepl_answer(texts@[0]@)),
    {
        if texts.len() == 0 {
            return Err("No translations returned".to_string());
        }
        Ok(FactorioStringFormatter::unwrap_tags(texts[0].as_str()))
    }
}

impl TranslationEngine for DeepLTranslationEngine {
    /// `DeepL`.
    fn name(&self) -> (r: String)
        ensures
            r@ == "DeepL"@,
    {
        "DeepL".to_string()
    }
}

/// The waits stay far below the range of a `u64`.
proof fn lemma_retry_delay_bound(n: nat)
    requires
        n < max_retries(),
    ensures
        retry_delay(n + 1) <= 32000,
    decreases n,
{
    reveal_with_fuel(retry_delay, 7);
}

/// The endpoint of Google's translation service.
pub open spec fn google_url() -> Seq<char> {
    "https://translation.googleapis.com/language/translate/v2"@
}

/// The Google engine.
pub struct GoogleTranslationEngine {
    api_key: String,
    client: reqwest::Client,
}

impl GoogleTranslationEngine {
    /// The key the engine was made with.
    pub closed spec fn key(&self) -> Seq<char> {
        self.api_key@
    }

    /// The HTTP client the engine was made with.
    pub closed spec fn http_client(&self) -> reqwest::Client {
        self.client
    }

    /// The engine for an API key, with a default HTTP client; the error of
    /// building that client where it cannot be built.
    pub fn new(api_key: String) -> (r: Result<Self, String>)
        ensures
            r matches Ok(e) ==> e.key() == api_key@,
    {
        match default_client() {
            Ok(client) => Ok(GoogleTranslationEngine { api_key, client }),
            Err(e) => Err(e),
        }
    }

    /// The key the engine was made with.
    pub fn api_key(&self) -> (r: &str)
        ensures
            r@ == self.key(),
    {
        self.api_key.as_str()
    }

    /// The HTTP client to send requests with: the one the engine was made
    /// with.
    pub fn client(&self) -> (r: &reqwest::Client)
        ensures
            *r == self.http_client(),
    {
        &self.client
    }

    /// The request that translates a text: the key, the text as it is, the
    /// lowercased languages and plain-text format, in the query string.
    pub fn request(&self, text: &str, source_lang: &str, target_lang: &str) -> (r: EngineRequest)
        ensures
            r.url@ == google_url(),
            r.authorization is None,
            r.params_in_query,
            param_views(r.params@) == seq![
                ("key"@, self.key()),
                ("q"@, text@),
                ("source"@, lowercased(source_lang@)),
                ("target"@, lowercased(target_lang@)),
                ("format"@, "text"@),
            ],
    {
        let mut params: Vec<(String, String)> = Vec::new();
        params.push(("key".to_string(), self.api_key.clone()));
        params.push(("q".to_string(), owned(text)));
        params.push(("source".to_string(), lowercase(source_lang)));
        params.push(("target".to_string(), lowercase(target_lang)));
        params.push(("format".to_string(), "text".to_string()));
        let r = EngineRequest {
            url: "https://translation.googleapis.com/language/translate/v2".to_string(),
            authorization: None,
            params,
            params_in_query: true,
        };
        assert(param_views(r.params@) =~= seq![
            ("key"@, self.key()),
            ("q"@, text@),
            ("source"@, lowercased(source_lang@)),
            ("target"@, lowercased(target_lang@)),
            ("format"@, "text"@),
        ]);
        r
    }

    /// The error for an answer with a status other than success.
    pub fn status_error(status_text: &str) -> (r: String)
        ensures
            r@ == "Google API error: "@ + status_text@,
    {
        concat2("Google API error: ", status_text)
    }

    /// The translation in Google's answer: its first text, as it is.
    pub fn finish(texts: &Vec<String>) -> (r: Result<String, String>)
        ensures
            texts@.len() == 0 ==> (r matches Err(e) && e@ == "No translations returned"@),
            texts@.len() > 0 ==> (r matches Ok(t) && t@ == texts@[0]@),
    {
        if texts.len() == 0 {
            return Err("No translations returned".to_string());
        }
        Ok(texts[0].clone())
    }
}

impl TranslationEngine for GoogleTranslationEngine {
    /// `Google Translate`.
    fn name(&self) -> (r: String)
        ensures
            r@ == "Google Translate"@,
    {
        "Google Translate".to_string()
    }
}

} // verus!
