use zero_buddy::config::{request_timeout_from, Config, ConfigError, EnvSettings, ScopeMode};

fn no_env() -> EnvSettings {
    EnvSettings {
        llm_base_url: None,
        llm_api_key: None,
        llm_model: None,
        embed_model: None,
        cors_origin: None,
        cache_version: None,
        product_name: None,
        org_name: None,
        rag_top_k: None,
        max_message_chars: None,
        max_messages: None,
        scope_guard_enabled: None,
        scope_guard_mode: None,
        scope_allow_keywords: None,
        scope_allow_patterns: None,
        scope_refuse_reply_zh: None,
        scope_refuse_reply_en: None,
        rate_limit_per_min: None,
        rate_limit_per_day: None,
        rate_limit_reply_zh: None,
        rate_limit_reply_en: None,
    }
}

#[test]
fn defaults_when_nothing_is_set() {
    let c = Config::from_env_settings(&no_env()).unwrap();
    let d = Config::default();
    assert_eq!(c.llm_base_url, "https://api.openai.com/v1");
    assert_eq!(c.llm_model, d.llm_model);
    assert_eq!(c.product_name, "ZeroBuddy");
    assert_eq!(c.org_name, "Zero Labs");
    assert_eq!(c.rag_top_k, 3);
    assert_eq!(c.max_message_chars, 4000);
    assert_eq!(c.max_messages, 50);
    assert!(c.scope_guard_enabled);
    assert_eq!(c.scope_guard_mode, ScopeMode::Prompt);
    assert_eq!(c.rate_limit_per_min, 10);
    assert_eq!(c.rate_limit_per_day, 500);
    assert_eq!(c.scope_allow_keywords.len(), 32);
    assert_eq!(c.scope_allow_patterns.len(), 8);
    assert_eq!(c.llm_api_key, "");
    assert!(!c.has_valid_key());
}

#[test]
fn environment_overrides_defaults() {
    let mut env = no_env();
    env.llm_base_url = Some("http://localhost:11434/v1".to_string());
    env.llm_api_key = Some("sk-real".to_string());
    env.rag_top_k = Some("5".to_string());
    env.max_messages = Some("not a number".to_string());
    env.scope_guard_enabled = Some("TRUE".to_string());
    env.scope_guard_mode = Some(" Hard ".to_string());
    env.scope_allow_keywords = Some(" Alpha , ,beta".to_string());
    env.scope_allow_patterns = Some("a+| |b".to_string());
    env.rate_limit_per_day = Some("0".to_string());
    env.product_name = Some(String::new());
    let c = Config::from_env_settings(&env).unwrap();
    assert_eq!(c.llm_base_url, "http://localhost:11434/v1");
    assert!(c.has_valid_key());
    assert_eq!(c.rag_top_k, 5);
    assert_eq!(c.max_messages, 50);
    assert!(c.scope_guard_enabled);
    assert_eq!(c.scope_guard_mode, ScopeMode::Hard);
    assert_eq!(c.scope_allow_keywords, vec!["alpha", "beta"]);
    assert_eq!(c.scope_allow_patterns, vec!["a+", "b"]);
    assert_eq!(c.rate_limit_per_day, 0);
    assert_eq!(c.product_name, "ZeroBuddy");
}

#[test]
fn guard_flag_other_values_disable() {
    let mut env = no_env();
    env.scope_guard_enabled = Some("yes".to_string());
    assert!(!Config::from_env_settings(&env).unwrap().scope_guard_enabled);
    env.scope_guard_enabled = Some("1".to_string());
    assert!(Config::from_env_settings(&env).unwrap().scope_guard_enabled);
}

#[test]
fn invalid_base_url_is_refused() {
    let mut env = no_env();
    env.llm_base_url = Some("ftp://example.com".to_string());
    let e = Config::from_env_settings(&env).err().unwrap();
    assert_eq!(e, ConfigError::InvalidBaseUrl);
    assert_eq!(e.message(), "LLM_BASE_URL must start with http:// or https://");
}

#[test]
fn placeholder_key_is_not_valid() {
    let mut env = no_env();
    env.llm_api_key = Some("sk-your-key-here".to_string());
    assert!(!Config::from_env_settings(&env).unwrap().has_valid_key());
}

#[test]
fn scope_mode_from_str() {
    assert_eq!(ScopeMode::from_str("hard"), ScopeMode::Hard);
    assert_eq!(ScopeMode::from_str("  HARD\n"), ScopeMode::Hard);
    assert_eq!(ScopeMode::from_str("prompt"), ScopeMode::Prompt);
    assert_eq!(ScopeMode::from_str("anything"), ScopeMode::Prompt);
    assert_eq!(ScopeMode::default(), ScopeMode::Prompt);
}

#[test]
fn in_scope_by_keyword_or_pattern() {
    let c = Config::default();
    assert!(c.in_scope("How do I deploy ZERO buddy?"));
    assert!(c.in_scope("如何安装"));
    assert!(c.in_scope("Is it written in Rust?"));
    assert!(!c.in_scope("What's the weather today?"));
    let mut open = Config::default();
    open.scope_allow_keywords = Vec::new();
    open.scope_allow_patterns = Vec::new();
    assert!(open.in_scope("What's the weather today?"));
    let mut broken = Config::default();
    broken.scope_allow_keywords = Vec::new();
    broken.scope_allow_patterns = vec!["(unclosed".to_string(), "weather".to_string()];
    assert!(broken.in_scope("weather"));
    assert!(!broken.in_scope("(unclosed"));
}

#[test]
fn request_timeout_parses_or_defaults() {
    assert_eq!(request_timeout_from(None), 30);
    assert_eq!(request_timeout_from(Some("45")), 45);
    assert_eq!(request_timeout_from(Some("soon")), 30);
}

#[test]
fn allowed_origins_split_and_trim() {
    let mut c = Config::default();
    assert_eq!(c.allowed_origins(), Some(vec!["http://localhost:3040".to_string()]));
    c.cors_origin = "*".to_string();
    assert_eq!(c.allowed_origins(), None);
    c.cors_origin = " http://a.com , http://b.com".to_string();
    assert_eq!(
        c.allowed_origins(),
        Some(vec!["http://a.com".to_string(), "http://b.com".to_string()])
    );
}
