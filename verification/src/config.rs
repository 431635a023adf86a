//! Runtime configuration: built-in defaults, overrides taken from the
//! environment, the API-key check and the topic-scope whitelist.
use vstd::prelude::*;
use crate::pattern::{compile, is_match, regex_compiles, regex_finds};
use crate::text::{
    chars_of, contains, eq_ascii_case, eq_ignore_ascii_case, has_prefix, lowercase, owned,
    parse_u32, parse_usize, parsed_uint, split_at_char, split_on, starts_with_chars, str_contains,
    str_eq, to_lower, trim, trimmed,
};

verus! {

/// How the topic-scope restriction is enforced.
#[derive(Debug, Clone, Copy, PartialEq, Eq, Structural)]
pub enum ScopeMode {
    /// The system prompt states the scope policy and the model keeps to it.
    Prompt,
    /// The service refuses off-topic questions itself, before any model call.
    Hard,
}

impl Default for ScopeMode {
    fn default() -> (res: Self)
        ensures
            res == ScopeMode::Prompt,
    {
        ScopeMode::Prompt
    }
}

impl ScopeMode {
    /// `hard` (in any case, surrounding white space ignored) selects
    /// [`ScopeMode::Hard`]; anything else [`ScopeMode::Prompt`].
    pub fn from_str(s: &str) -> (res: Self)
        ensures
            res == (if lowercase(trim(s@)) == "hard"@ {
                ScopeMode::Hard
            } else {
                ScopeMode::Prompt
            }),
    {
        let t = trimmed(s);
        let l = to_lower(t.as_str());
        if str_eq(l.as_str(), "hard") {
            ScopeMode::Hard
        } else {
            ScopeMode::Prompt
        }
    }
}

/// Runtime configuration (the two floating-point thresholds, the RAG minimum
/// score and the semantic cache similarity, are kept by the service).
#[derive(Clone)]
pub struct Config {
    /// Base URL of the OpenAI-compatible API.
    pub llm_base_url: String,
    /// API key; empty means offline mode.
    pub llm_api_key: String,
    /// Chat model name.
    pub llm_model: String,
    /// Embedding model name.
    pub embed_model: String,
    /// Allowed front-end origin(s).
    pub cors_origin: String,
    /// Cache version; changing it drops the answer cache.
    pub cache_version: String,
    /// Assistant / product name.
    pub product_name: String,
    /// Organisation name.
    pub org_name: String,
    /// Most documents handed to the model.
    pub rag_top_k: usize,
    /// Most characters in one message.
    pub max_message_chars: usize,
    /// Most messages in one request.
    pub max_messages: usize,
    /// Whether the topic scope is restricted.
    pub scope_guard_enabled: bool,
    /// How the restriction is enforced.
    pub scope_guard_mode: ScopeMode,
    /// Substrings that put a query in scope.
    pub scope_allow_keywords: Vec<String>,
    /// Regular expressions that put a query in scope.
    pub scope_allow_patterns: Vec<String>,
    /// Refusal for off-topic Chinese queries.
    pub scope_refuse_reply_zh: String,
    /// Refusal for off-topic English queries.
    pub scope_refuse_reply_en: String,
    /// Requests per client per minute (0 = unlimited).
    pub rate_limit_per_min: u32,
    /// Requests per client per day (0 = unlimited).
    pub rate_limit_per_day: u32,
    /// Rate-limit message for Chinese clients.
    pub rate_limit_reply_zh: String,
    /// Rate-limit message for English clients.
    pub rate_limit_reply_en: String,
}

/// The contents of a [`Config`].
pub struct ConfigView {
    pub llm_base_url: Seq<char>,
    pub llm_api_key: Seq<char>,
    pub llm_model: Seq<char>,
    pub embed_model: Seq<char>,
    pub cors_origin: Seq<char>,
    pub cache_version: Seq<char>,
    pub product_name: Seq<char>,
    pub org_name: Seq<char>,
    pub rag_top_k: usize,
    pub max_message_chars: usize,
    pub max_messages: usize,
    pub scope_guard_enabled: bool,
    pub scope_guard_mode: ScopeMode,
    pub scope_allow_keywords: Seq<Seq<char>>,
    pub scope_allow_patterns: Seq<Seq<char>>,
    pub scope_refuse_reply_zh: Seq<char>,
    pub scope_refuse_reply_en: Seq<char>,
    pub rate_limit_per_min: u32,
    pub rate_limit_per_day: u32,
    pub rate_limit_reply_zh: Seq<char>,
    pub rate_limit_reply_en: Seq<char>,
}

impl View for Config {
    type V = ConfigView;

    open spec fn view(&self) -> ConfigView {
        ConfigView {
            llm_base_url: self.llm_base_url@,
            llm_api_key: self.llm_api_key@,
            llm_model: self.llm_model@,
            embed_model: self.embed_model@,
            cors_origin: self.cors_origin@,
            cache_version: self.cache_version@,
            product_name: self.product_name@,
            org_name: self.org_name@,
            rag_top_k: self.rag_top_k,
            max_message_chars: self.max_message_chars,
            max_messages: self.max_messages,
            scope_guard_enabled: self.scope_guard_enabled,
            scope_guard_mode: self.scope_guard_mode,
            scope_allow_keywords: self.scope_allow_keywords.deep_view(),
            scope_allow_patterns: self.scope_allow_patterns.deep_view(),
            scope_refuse_reply_zh: self.scope_refuse_reply_zh@,
            scope_refuse_reply_en: self.scope_refuse_reply_en@,
            rate_limit_per_min: self.rate_limit_per_min,
            rate_limit_per_day: self.rate_limit_per_day,
            rate_limit_reply_zh: self.rate_limit_reply_zh@,
            rate_limit_reply_en: self.rate_limit_reply_en@,
        }
    }
}

// ---------------------------------------------------------------------------
// Defaults
// ---------------------------------------------------------------------------

/// The built-in scope keywords.
pub open spec fn default_keywords() -> Seq<Seq<char>> {
    seq![
        "zero"@, "zerolabs"@, "labs"@, "flutter agent kit"@, "flutteragentkit"@, "flutter"@,
        "zero inspector kit"@, "inspector"@, "wizardplayer"@, "invoice zero"@, "invoice"@,
        "zerobuddy"@, "buddy"@, "kit"@, "sdk"@, "api"@, "文档"@, "部署"@, "配置"@, "安装"@,
        "教程"@, "使用"@, "功能"@, "报价"@, "价格"@, "license"@, "licence"@, "开源"@, "仓库"@,
        "github"@, "support"@, "联系"@,
    ]
}

/// The built-in scope patterns.
pub open spec fn default_patterns() -> Seq<Seq<char>> {
    seq![
        r"(?i)zero[\s-]?(inspector|flutter[\s-]?agent|invoice)?[\s-]?kit"@,
        r"(?i)wizard[\s-]?player"@,
        r"(?i)invoice[\s-]?zero"@,
        r"(?i)zero[\s-]?buddy"@,
        r"(?i)zerolabsco\.com"@,
        r"(?i)github\.com/zero-labsco"@,
        r"(?i)support@zerolabsco\.com"@,
        r"(?i)\b(dart|rust|next\.?js|react|axum|tokio|cors|llm|embedding|rag|openai)\b"@,
    ]
}

/// The built-in configuration.
pub open spec fn default_config() -> ConfigView {
    ConfigView {
        llm_base_url: "https://api.openai.com/v1"@,
        llm_api_key: Seq::empty(),
        llm_model: "gpt-4o-mini"@,
        embed_model: "text-embedding-3-small"@,
        cors_origin: "http://localhost:3040"@,
        cache_version: "v1"@,
        product_name: "ZeroBuddy"@,
        org_name: "Zero Labs"@,
        rag_top_k: 3,
        max_message_chars: 4000,
        max_messages: 50,
        scope_guard_enabled: true,
        scope_guard_mode: ScopeMode::Prompt,
        scope_allow_keywords: default_keywords(),
        scope_allow_patterns: default_patterns(),
        scope_refuse_reply_zh: "抱歉，我只能回答与 Zero Labs 产品（如 Zero Inspector Kit、Flutter Agent Kit、WizardPlayer、Invoice Zero）相关的问题。其他话题请联系 support@zerolabsco.com。"@,
        scope_refuse_reply_en: "Sorry, I can only help with questions about Zero Labs products (e.g. Zero Inspector Kit, Flutter Agent Kit, WizardPlayer, Invoice Zero). For anything else, please contact support@zerolabsco.com."@,
        rate_limit_per_min: 10,
        rate_limit_per_day: 500,
        rate_limit_reply_zh: "您请求过于频繁，请稍后再试（每分钟/每天上限）。如需更高额度请联系 support@zerolabsco.com。"@,
        rate_limit_reply_en: "Too many requests. Please slow down (per-minute / per-day limit reached). For higher limits contact support@zerolabsco.com."@,
    }
}

fn default_allow_keywords() -> (res: Vec<String>)
    ensures
        res.deep_view() == default_keywords(),
{
    let mut v: Vec<String> = Vec::new();
    v.push(owned("zero"));
    v.push(owned("zerolabs"));
    v.push(owned("labs"));
    v.push(owned("flutter agent kit"));
    v.push(owned("flutteragentkit"));
    v.push(owned("flutter"));
    v.push(owned("zero inspector kit"));
    v.push(owned("inspector"));
    v.push(owned("wizardplayer"));
    v.push(owned("invoice zero"));
    v.push(owned("invoice"));
    v.push(owned("zerobuddy"));
    v.push(owned("buddy"));
    v.push(owned("kit"));
    v.push(owned("sdk"));
    v.push(owned("api"));
    v.push(owned("文档"));
    v.push(owned("部署"));
    v.push(owned("配置"));
    v.push(owned("安装"));
    v.push(owned("教程"));
    v.push(owned("使用"));
    v.push(owned("功能"));
    v.push(owned("报价"));
    v.push(owned("价格"));
    v.push(owned("license"));
    v.push(owned("licence"));
    v.push(owned("开源"));
    v.push(owned("仓库"));
    v.push(owned("github"));
    v.push(owned("support"));
    v.push(owned("联系"));
    assert(v.deep_view() =~= default_keywords());
    v
}

fn default_allow_patterns() -> (res: Vec<String>)
    ensures
        res.deep_view() == default_patterns(),
{
    let mut v: Vec<String> = Vec::new();
    v.push(owned(r"(?i)zero[\s-]?(inspector|flutter[\s-]?agent|invoice)?[\s-]?kit"));
    v.push(owned(r"(?i)wizard[\s-]?player"));
    v.push(owned(r"(?i)invoice[\s-]?zero"));
    v.push(owned(r"(?i)zero[\s-]?buddy"));
    v.push(owned(r"(?i)zerolabsco\.com"));
    v.push(owned(r"(?i)github\.com/zero-labsco"));
    v.push(owned(r"(?i)support@zerolabsco\.com"));
    v.push(
        owned(r"(?i)\b(dart|rust|next\.?js|react|axum|tokio|cors|llm|embedding|rag|openai)\b"),
    );
    assert(v.deep_view() =~= default_patterns());
    v
}

impl Default for Config {
    /// The built-in defaults, which cover local development; environment
    /// variables override them one by one.
    fn default() -> (res: Self)
        ensures
            res@ == default_config(),
    {
        Config {
            llm_base_url: owned("https://api.openai.com/v1"),
            llm_api_key: String::new(),
            llm_model: owned("gpt-4o-mini"),
            embed_model: owned("text-embedding-3-small"),
            cors_origin: owned("http://localhost:3040"),
            cache_version: owned("v1"),
            product_name: owned("ZeroBuddy"),
            org_name: owned("Zero Labs"),
            rag_top_k: 3,
            max_message_chars: 4000,
            max_messages: 50,
            scope_guard_enabled: true,
            scope_guard_mode: ScopeMode::Prompt,
            scope_allow_keywords: default_allow_keywords(),
            scope_allow_patterns: default_allow_patterns(),
            scope_refuse_reply_zh: owned(
                "抱歉，我只能回答与 Zero Labs 产品（如 Zero Inspector Kit、Flutter Agent Kit、WizardPlayer、Invoice Zero）相关的问题。其他话题请联系 support@zerolabsco.com。",
            ),
            scope_refuse_reply_en: owned(
                "Sorry, I can only help with questions about Zero Labs products (e.g. Zero Inspector Kit, Flutter Agent Kit, WizardPlayer, Invoice Zero). For anything else, please contact support@zerolabsco.com.",
            ),
            rate_limit_per_min: 10,
            rate_limit_per_day: 500,
            rate_limit_reply_zh: owned(
                "您请求过于频繁，请稍后再试（每分钟/每天上限）。如需更高额度请联系 support@zerolabsco.com。",
            ),
            rate_limit_reply_en: owned(
                "Too many requests. Please slow down (per-minute / per-day limit reached). For higher limits contact support@zerolabsco.com.",
            ),
        }
    }
}

// ---------------------------------------------------------------------------
// Overrides from the environment
// ---------------------------------------------------------------------------

/// The raw values of the configuration variables (`None` when a variable is
/// unset or not valid Unicode).
pub struct EnvSettings {
    pub llm_base_url: Option<String>,
    pub llm_api_key: Option<String>,
    pub llm_model: Option<String>,
    pub embed_model: Option<String>,
    pub cors_origin: Option<String>,
    pub cache_version: Option<String>,
    pub product_name: Option<String>,
    pub org_name: Option<String>,
    pub rag_top_k: Option<String>,
    pub max_message_chars: Option<String>,
    pub max_messages: Option<String>,
    pub scope_guard_enabled: Option<String>,
    pub scope_guard_mode: Option<String>,
    pub scope_allow_keywords: Option<String>,
    pub scope_allow_patterns: Option<String>,
    pub scope_refuse_reply_zh: Option<String>,
    pub scope_refuse_reply_en: Option<String>,
    pub rate_limit_per_min: Option<String>,
    pub rate_limit_per_day: Option<String>,
    pub rate_limit_reply_zh: Option<String>,
    pub rate_limit_reply_en: Option<String>,
}

/// A non-empty value replaces the default.
pub open spec fn text_or(v: Option<Seq<char>>, d: Seq<char>) -> Seq<char> {
    match v {
        Some(x) => if x.len() > 0 {
            x
        } else {
            d
        },
        None => d,
    }
}

/// A value that parses as an unsigned integer of at most `max` replaces the
/// default.
pub open spec fn number_or(v: Option<Seq<char>>, max: nat, d: nat) -> nat {
    match v {
        Some(x) => match parsed_uint(x, max) {
            Some(n) => n,
            None => d,
        },
        None => d,
    }
}

/// The keyword list of `SCOPE_ALLOW_KEYWORDS`: comma-separated, each item
/// trimmed and lowercased, empty items dropped.
pub open spec fn keyword_list(x: Seq<char>) -> Seq<Seq<char>> {
    split_on(x, ',').map_values(|p: Seq<char>| lowercase(trim(p))).filter(
        |k: Seq<char>| k.len() > 0,
    )
}

/// The pattern list of `SCOPE_ALLOW_PATTERNS`: `|`-separated, each item
/// trimmed, empty items dropped.
pub open spec fn pattern_list(x: Seq<char>) -> Seq<Seq<char>> {
    split_on(x, '|').map_values(|p: Seq<char>| trim(p)).filter(|k: Seq<char>| k.len() > 0)
}

/// A non-empty list replaces the default.
pub open spec fn list_or(
    v: Option<Seq<char>>,
    f: spec_fn(Seq<char>) -> Seq<Seq<char>>,
    d: Seq<Seq<char>>,
) -> Seq<Seq<char>> {
    match v {
        Some(x) => if f(x).len() > 0 {
            f(x)
        } else {
            d
        },
        None => d,
    }
}

/// `SCOPE_GUARD_ENABLED`: when set and non-empty, `1` or `true` (any case)
/// enables the guard and anything else disables it.
pub open spec fn flag_or(v: Option<Seq<char>>, d: bool) -> bool {
    match v {
        Some(x) => if x.len() > 0 {
            x == "1"@ || eq_ascii_case(x, "true"@)
        } else {
            d
        },
        None => d,
    }
}

/// `SCOPE_GUARD_MODE`, when set and non-empty.
pub open spec fn mode_or(v: Option<Seq<char>>, d: ScopeMode) -> ScopeMode {
    match v {
        Some(x) => if x.len() > 0 {
            if lowercase(trim(x)) == "hard"@ {
                ScopeMode::Hard
            } else {
                ScopeMode::Prompt
            }
        } else {
            d
        },
        None => d,
    }
}

/// The configuration the environment selects: each set, non-empty (or, for
/// numbers, parsable) variable replaces its default; the API key is taken as
/// it is, empty when unset.
pub open spec fn env_config(env: EnvSettings) -> ConfigView {
    let d = default_config();
    ConfigView {
        llm_base_url: text_or(env.llm_base_url.deep_view(), d.llm_base_url),
        llm_api_key: match env.llm_api_key.deep_view() {
            Some(k) => k,
            None => Seq::empty(),
        },
        llm_model: text_or(env.llm_model.deep_view(), d.llm_model),
        embed_model: text_or(env.embed_model.deep_view(), d.embed_model),
        cors_origin: text_or(env.cors_origin.deep_view(), d.cors_origin),
        cache_version: text_or(env.cache_version.deep_view(), d.cache_version),
        product_name: text_or(env.product_name.deep_view(), d.product_name),
        org_name: text_or(env.org_name.deep_view(), d.org_name),
        rag_top_k: number_or(env.rag_top_k.deep_view(), usize::MAX as nat, 3) as usize,
        max_message_chars: number_or(
            env.max_message_chars.deep_view(),
            usize::MAX as nat,
            4000,
        ) as usize,
        max_messages: number_or(env.max_messages.deep_view(), usize::MAX as nat, 50) as usize,
        scope_guard_enabled: flag_or(env.scope_guard_enabled.deep_view(), true),
        scope_guard_mode: mode_or(env.scope_guard_mode.deep_view(), ScopeMode::Prompt),
        scope_allow_keywords: list_or(
            env.scope_allow_keywords.deep_view(),
            |x: Seq<char>| keyword_list(x),
            d.scope_allow_keywords,
        ),
        scope_allow_patterns: list_or(
            env.scope_allow_patterns.deep_view(),
            |x: Seq<char>| pattern_list(x),
            d.scope_allow_patterns,
        ),
        scope_refuse_reply_zh: text_or(env.scope_refuse_reply_zh.deep_view(), d.scope_refuse_reply_zh),
        scope_refuse_reply_en: text_or(env.scope_refuse_reply_en.deep_view(), d.scope_refuse_reply_en),
        rate_limit_per_min: number_or(env.rate_limit_per_min.deep_view(), u32::MAX as nat, 10) as u32,
        rate_limit_per_day: number_or(env.rate_limit_per_day.deep_view(), u32::MAX as nat, 500) as u32,
        rate_limit_reply_zh: text_or(env.rate_limit_reply_zh.deep_view(), d.rate_limit_reply_zh),
        rate_limit_reply_en: text_or(env.rate_limit_reply_en.deep_view(), d.rate_limit_reply_en),
    }
}

/// The base URL is an `http://` or `https://` URL.
pub open spec fn base_url_ok(u: Seq<char>) -> bool {
    has_prefix(u, "http://"@) || has_prefix(u, "https://"@)
}

/// Why a configuration was refused.
#[derive(Debug, Clone, Copy, PartialEq, Eq, Structural)]
pub enum ConfigError {
    /// `LLM_BASE_URL` does not start with `http://` or `https://`.
    InvalidBaseUrl,
}

impl ConfigError {
    /// The error message.
    pub fn message(&self) -> (res: String)
        ensures
            res@ == "LLM_BASE_URL must start with http:// or https://"@,
    {
        owned("LLM_BASE_URL must start with http:// or https://")
    }
}

/// A non-empty value, or the default.
fn text_value(v: &Option<String>, d: String) -> (res: String)
    ensures
        res@ == text_or(v.deep_view(), d@),
{
    match v {
        Some(x) => if !x.as_str().is_empty() {
            x.clone()
        } else {
            d
        },
        None => d,
    }
}

/// A parsable `usize`, or the default.
fn usize_value(v: &Option<String>, d: usize) -> (res: usize)
    ensures
        res as nat == number_or(v.deep_view(), usize::MAX as nat, d as nat),
{
    match v {
        Some(x) => match parse_usize(x.as_str()) {
            Some(n) => n,
            None => d,
        },
        None => d,
    }
}

/// A parsable `u32`, or the default.
fn u32_value(v: &Option<String>, d: u32) -> (res: u32)
    ensures
        res as nat == number_or(v.deep_view(), u32::MAX as nat, d as nat),
{
    match v {
        Some(x) => match parse_u32(x.as_str()) {
            Some(n) => n,
            None => d,
        },
        None => d,
    }
}

/// The trimmed (and, when `lower`, lowercased) non-empty pieces.
fn clean_pieces(parts: &Vec<String>, lower: bool) -> (res: Vec<String>)
    ensures
        lower ==> res.deep_view() == parts.deep_view().map_values(
            |p: Seq<char>| lowercase(trim(p)),
        ).filter(|k: Seq<char>| k.len() > 0),
        !lower ==> res.deep_view() == parts.deep_view().map_values(|p: Seq<char>| trim(p)).filter(
            |k: Seq<char>| k.len() > 0,
        ),
{
    let ghost f = if lower {
        |p: Seq<char>| lowercase(trim(p))
    } else {
        |p: Seq<char>| trim(p)
    };
    let ghost keep = |k: Seq<char>| k.len() > 0;
    let mut out: Vec<String> = Vec::new();
    let mut i: usize = 0;
    proof {
        reveal_with_fuel(Seq::<_>::filter, 1);
    }
    while i < parts.len()
        invariant
            i <= parts.len(),
            f == (if lower {
                |p: Seq<char>| lowercase(trim(p))
            } else {
                |p: Seq<char>| trim(p)
            }),
            keep == (|k: Seq<char>| k.len() > 0),
            out.deep_view() == parts.deep_view().take(i as int).map_values(f).filter(keep),
        decreases parts.len() - i,
    {
        proof {
            reveal_with_fuel(Seq::<_>::filter, 1);
            let t = parts.deep_view().take(i + 1);
            assert(t.drop_last() == parts.deep_view().take(i as int));
            assert(t.map_values(f).drop_last() == t.drop_last().map_values(f));
            assert(t.map_values(f).last() == f(parts@[i as int]@));
        }
        let t = trimmed(parts[i].as_str());
        let piece = if lower {
            to_lower(t.as_str())
        } else {
            t
        };
        if !piece.as_str().is_empty() {
            out.push(piece);
        }
        i = i + 1;
    }
    assert(parts.deep_view().take(parts.len() as int) == parts.deep_view());
    out
}

impl Config {
    /// The configuration selected by the environment (see [`env_config`]),
    /// or an error when the resulting base URL is not an `http(s)://` URL.
    pub fn from_env_settings(env: &EnvSettings) -> (res: Result<Config, ConfigError>)
        ensures
            match res {
                Ok(c) => c@ == env_config(*env) && base_url_ok(c@.llm_base_url),
                Err(e) => e == ConfigError::InvalidBaseUrl && !base_url_ok(
                    env_config(*env).llm_base_url,
                ),
            },
    {
        let d = Config::default();
        let keywords = match &env.scope_allow_keywords {
            Some(x) => {
                let k = clean_pieces(&split_at_char(x.as_str(), ','), true);
                if k.len() > 0 {
                    k
                } else {
                    d.scope_allow_keywords
                }
            },
            None => d.scope_allow_keywords,
        };
        let patterns = match &env.scope_allow_patterns {
            Some(x) => {
                let k = clean_pieces(&split_at_char(x.as_str(), '|'), false);
                if k.len() > 0 {
                    k
                } else {
                    d.scope_allow_patterns
                }
            },
            None => d.scope_allow_patterns,
        };
        let enabled = match &env.scope_guard_enabled {
            Some(x) => if !x.as_str().is_empty() {
                str_eq(x.as_str(), "1") || eq_ignore_ascii_case(x.as_str(), "true")
            } else {
                true
            },
            None => true,
        };
        let mode = match &env.scope_guard_mode {
            Some(x) => if !x.as_str().is_empty() {
                ScopeMode::from_str(x.as_str())
            } else {
                ScopeMode::Prompt
            },
            None => ScopeMode::Prompt,
        };
        let cfg = Config {
            llm_base_url: text_value(&env.llm_base_url, d.llm_base_url),
            llm_api_key: match &env.llm_api_key {
                Some(k) => k.clone(),
                None => String::new(),
            },
            llm_model: text_value(&env.llm_model, d.llm_model),
            embed_model: text_value(&env.embed_model, d.embed_model),
            cors_origin: text_value(&env.cors_origin, d.cors_origin),
            cache_version: text_value(&env.cache_version, d.cache_version),
            product_name: text_value(&env.product_name, d.product_name),
            org_name: text_value(&env.org_name, d.org_name),
            rag_top_k: usize_value(&env.rag_top_k, d.rag_top_k),
            max_message_chars: usize_value(&env.max_message_chars, d.max_message_chars),
            max_messages: usize_value(&env.max_messages, d.max_messages),
            scope_guard_enabled: enabled,
            scope_guard_mode: mode,
            scope_allow_keywords: keywords,
            scope_allow_patterns: patterns,
            scope_refuse_reply_zh: text_value(&env.scope_refuse_reply_zh, d.scope_refuse_reply_zh),
            scope_refuse_reply_en: text_value(&env.scope_refuse_reply_en, d.scope_refuse_reply_en),
            rate_limit_per_min: u32_value(&env.rate_limit_per_min, d.rate_limit_per_min),
            rate_limit_per_day: u32_value(&env.rate_limit_per_day, d.rate_limit_per_day),
            rate_limit_reply_zh: text_value(&env.rate_limit_reply_zh, d.rate_limit_reply_zh),
            rate_limit_reply_en: text_value(&env.rate_limit_reply_en, d.rate_limit_reply_en),
        };
        assert(cfg@ == env_config(*env));
        let url = chars_of(cfg.llm_base_url.as_str());
        let ok = starts_with_chars(&url, &chars_of("http://")) || starts_with_chars(
            &url,
            &chars_of("https://"),
        );
        if !ok {
            return Err(ConfigError::InvalidBaseUrl);
        }
        Ok(cfg)
    }

    /// Whether a usable API key is configured: non-empty and not the
    /// `sk-your-key-here` placeholder.
    pub fn has_valid_key(&self) -> (res: bool)
        ensures
            res == (self.llm_api_key@.len() > 0 && self.llm_api_key@ != "sk-your-key-here"@),
    {
        !self.llm_api_key.as_str().is_empty() && !str_eq(
            self.llm_api_key.as_str(),
            "sk-your-key-here",
        )
    }

    /// Whether a query is within the allowed topic scope (used in hard mode):
    /// it contains one of the keywords once lowercased, or one of the
    /// patterns compiles and matches it; with no keywords and no patterns
    /// every query is in scope.
    pub fn in_scope(&self, query: &str) -> (res: bool)
        ensures
            res == in_scope_of(self@, query@),
    {
        if self.scope_allow_keywords.len() == 0 && self.scope_allow_patterns.len() == 0 {
            return true;
        }
        let q = to_lower(query);
        let mut i: usize = 0;
        while i < self.scope_allow_keywords.len()
            invariant
                i <= self.scope_allow_keywords.len(),
                q@ == lowercase(query@),
                forall|k: int|
                    0 <= k < i ==> !contains(q@, #[trigger] self@.scope_allow_keywords[k]),
            decreases self.scope_allow_keywords.len() - i,
        {
            if str_contains(q.as_str(), self.scope_allow_keywords[i].as_str()) {
                assert(self@.scope_allow_keywords[i as int] == self.scope_allow_keywords@[i as int]@);
                return true;
            }
            i = i + 1;
        }
        let mut j: usize = 0;
        while j < self.scope_allow_patterns.len()
            invariant
                j <= self.scope_allow_patterns.len(),
                forall|k: int|
                    0 <= k < self.scope_allow_keywords@.len() ==> !contains(
                        lowercase(query@),
                        #[trigger] self@.scope_allow_keywords[k],
                    ),
                forall|k: int|
                    0 <= k < j ==> !pattern_admits(#[trigger] self@.scope_allow_patterns[k], query@),
            decreases self.scope_allow_patterns.len() - j,
        {
            let hit = match compile(self.scope_allow_patterns[j].as_str()) {
                Ok(re) => is_match(&re, query),
                Err(_) => false,
            };
            if hit {
                assert(self@.scope_allow_patterns[j as int] == self.scope_allow_patterns@[j as int]@);
                return true;
            }
            j = j + 1;
        }
        false
    }
}

/// A scope pattern lets a query through when it compiles and matches it.
pub open spec fn pattern_admits(pattern: Seq<char>, query: Seq<char>) -> bool {
    regex_compiles(pattern) && regex_finds(pattern, query)
}

/// Whether a query is within the configured topic scope.
pub open spec fn in_scope_of(c: ConfigView, query: Seq<char>) -> bool {
    ||| (c.scope_allow_keywords.len() == 0 && c.scope_allow_patterns.len() == 0)
    ||| exists|k: int|
        0 <= k < c.scope_allow_keywords.len() && contains(
            lowercase(query),
            #[trigger] c.scope_allow_keywords[k],
        )
    ||| exists|k: int|
        0 <= k < c.scope_allow_patterns.len() && pattern_admits(
            #[trigger] c.scope_allow_patterns[k],
            query,
        )
}

/// With no allow-keyword and no allow-pattern configured the scope guard
/// lets every query through.
pub proof fn law_scope_unconfigured_admits_all(c: ConfigView, query: Seq<char>)
    requires
        c.scope_allow_keywords.len() == 0,
        c.scope_allow_patterns.len() == 0,
    ensures
        in_scope_of(c, query),
{
}

/// A query is in scope only when the guard is unconfigured, a keyword
/// occurs in its lowercase form, or a pattern admits it.
pub proof fn law_scope_needs_a_reason(c: ConfigView, query: Seq<char>)
    requires
        c.scope_allow_keywords.len() + c.scope_allow_patterns.len() > 0,
        forall|k: int|
            0 <= k < c.scope_allow_keywords.len() ==> !contains(
                lowercase(query),
                #[trigger] c.scope_allow_keywords[k],
            ),
        forall|k: int|
            0 <= k < c.scope_allow_patterns.len() ==> !pattern_admits(
                #[trigger] c.scope_allow_patterns[k],
                query,
            ),
    ensures
        !in_scope_of(c, query),
{
}

/// Keyword matching of the scope check ignores letter case: a query whose
/// lowercase form contains an allow-keyword is in scope, whatever case the
/// query is written in.
pub proof fn law_scope_keyword_any_case(c: ConfigView, query: Seq<char>, k: int)
    requires
        0 <= k < c.scope_allow_keywords.len(),
        contains(lowercase(query), c.scope_allow_keywords[k]),
    ensures
        in_scope_of(c, query),
{
}

/// Two queries that differ only in letter case (the same lowercase form)
/// are equally in scope, unless a pattern tells them apart: the keywords
/// never do.
pub proof fn law_scope_ignores_case(c: ConfigView, q1: Seq<char>, q2: Seq<char>)
    requires
        lowercase(q1) == lowercase(q2),
        forall|k: int|
            0 <= k < c.scope_allow_patterns.len() ==> pattern_admits(
                #[trigger] c.scope_allow_patterns[k],
                q1,
            ) == pattern_admits(c.scope_allow_patterns[k], q2),
    ensures
        in_scope_of(c, q1) == in_scope_of(c, q2),
{
    if exists|k: int|
        0 <= k < c.scope_allow_patterns.len() && pattern_admits(
            #[trigger] c.scope_allow_patterns[k],
            q1,
        ) {
        let k = choose|k: int|
            0 <= k < c.scope_allow_patterns.len() && pattern_admits(
                #[trigger] c.scope_allow_patterns[k],
                q1,
            );
        assert(pattern_admits(c.scope_allow_patterns[k], q2));
    }
    if exists|k: int|
        0 <= k < c.scope_allow_patterns.len() && pattern_admits(
            #[trigger] c.scope_allow_patterns[k],
            q2,
        ) {
        let k = choose|k: int|
            0 <= k < c.scope_allow_patterns.len() && pattern_admits(
                #[trigger] c.scope_allow_patterns[k],
                q2,
            );
        assert(pattern_admits(c.scope_allow_patterns[k], q1));
    }
}

/// The origins a browser may call from: `None` for any origin (`*`), else
/// the comma-separated entries, each trimmed.
pub open spec fn origins_of(v: Seq<char>) -> Option<Seq<Seq<char>>> {
    if v == "*"@ {
        None
    } else {
        Some(split_on(v, ',').map_values(|p: Seq<char>| trim(p)))
    }
}

impl Config {
    /// The origins allowed to call the service.
    pub fn allowed_origins(&self) -> (res: Option<Vec<String>>)
        ensures
            res.deep_view() == origins_of(self.cors_origin@),
    {
        if str_eq(self.cors_origin.as_str(), "*") {
            return None;
        }
        let parts = split_at_char(self.cors_origin.as_str(), ',');
        let mut out: Vec<String> = Vec::new();
        let mut i: usize = 0;
        while i < parts.len()
            invariant
                i <= parts.len(),
                parts.deep_view() == split_on(self.cors_origin@, ','),
                out.deep_view() == parts.deep_view().take(i as int).map_values(
                    |p: Seq<char>| trim(p),
                ),
            decreases parts.len() - i,
        {
            let t = trimmed(parts[i].as_str());
            let ghost before = out.deep_view();
            out.push(t);
            assert(parts.deep_view().take(i + 1) == parts.deep_view().take(i as int).push(
                parts@[i as int]@,
            ));
            assert(out.deep_view() == before.push(trim(parts@[i as int]@)));
            i = i + 1;
        }
        assert(parts.deep_view().take(parts.len() as int) == parts.deep_view());
        Some(out)
    }
}

/// The timeout (seconds) selected by `REQUEST_TIMEOUT_SECS`: its value when
/// it parses as a `u64`, else 30.
pub fn request_timeout_from(v: Option<&str>) -> (res: u64)
    ensures
        res as nat == match v {
            Some(x) => match parsed_uint(x@, u64::MAX as nat) {
                Some(n) => n,
                None => 30,
            },
            None => 30,
        },
{
    match v {
        Some(x) => match crate::text::parse_u64(x) {
            Some(n) => n,
            None => 30,
        },
        None => 30,
    }
}

} // verus!
