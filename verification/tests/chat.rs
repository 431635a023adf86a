use zero_buddy::chat::{
    check_knowledge, check_request, degraded_reply, gather_context, is_auth_or_quota_error,
    is_cjk, is_unhelpful, offline_reply, rate_limited, Admission, ChatError, Context, Link,
    OfflineCause, Source,
};
use zero_buddy::config::{Config, ScopeMode};
use zero_buddy::knowledge::Document;
use zero_buddy::models::ChatMessage;
use zero_buddy::prompt::llm_messages;

fn msg(role: &str, content: &str) -> ChatMessage {
    ChatMessage::new(role.to_string(), content.to_string())
}

fn doc(title: &str, content: &str, url: Option<&str>) -> Document {
    Document {
        id: title.to_lowercase(),
        project: String::new(),
        title: title.to_string(),
        content: content.to_string(),
        url: url.map(|u| u.to_string()),
    }
}

const WEB_HEAD: &str = "Retrieved from Zero Labs official website / GitHub / Invoice Zero site:\n";

#[test]
fn cjk_detection() {
    assert!(is_cjk("你好"));
    assert!(is_cjk("abc 中 def"));
    assert!(is_cjk("\u{3400}"));
    assert!(!is_cjk("hello"));
    assert!(!is_cjk("こんにちは"));
    assert!(!is_cjk(""));
}

#[test]
fn unhelpful_replies() {
    assert!(is_unhelpful("Sorry, I DON'T KNOW."));
    assert!(is_unhelpful("抱歉，我不知道"));
    assert!(is_unhelpful("I cannot help with that"));
    assert!(!is_unhelpful("Install it with cargo."));
}

#[test]
fn auth_and_quota_errors() {
    assert!(is_auth_or_quota_error("chat request failed: 401 Unauthorized"));
    assert!(is_auth_or_quota_error("chat request failed: 402 Payment Required"));
    assert!(is_auth_or_quota_error("Insufficient balance"));
    assert!(is_auth_or_quota_error("FORBIDDEN"));
    assert!(!is_auth_or_quota_error("chat request failed: 429 Too Many Requests"));
    assert!(!is_auth_or_quota_error("connection reset"));
}

#[test]
fn error_messages() {
    assert_eq!(ChatError::EmptyMessages.message(), "messages must not be empty");
    assert_eq!(ChatError::TooManyMessages(50).message(), "too many messages (max 50)");
    assert_eq!(
        ChatError::MessageTooLong(4000).message(),
        "message too long (max 4000 chars)"
    );
    assert_eq!(ChatError::EmptyQuery.message(), "last message content is empty");
    assert_eq!(ChatError::EmptyKnowledge.message(), "knowledge base is empty");
}

#[test]
fn source_names() {
    assert_eq!(Source::RateLimit.name(), "rate-limit");
    assert_eq!(Source::ScopeGuard.name(), "scope-guard");
    assert_eq!(Source::Faq.name(), "faq");
    assert_eq!(Source::Cache.name(), "cache");
    assert_eq!(Source::Offline.name(), "offline");
    assert_eq!(Source::Llm.name(), "llm");
}

#[test]
fn request_checks_in_order() {
    let mut cfg = Config::default();
    cfg.max_messages = 2;
    cfg.max_message_chars = 5;
    assert_eq!(check_request(&cfg, &vec![]).err(), Some(ChatError::EmptyMessages));
    let three = vec![msg("user", "a"), msg("assistant", "b"), msg("user", "c")];
    assert_eq!(check_request(&cfg, &three).err(), Some(ChatError::TooManyMessages(2)));
    let long = vec![msg("user", "toolong"), msg("user", "   ")];
    assert_eq!(check_request(&cfg, &long).err(), Some(ChatError::MessageTooLong(5)));
    // five characters (fifteen bytes) are within the limit
    let five = vec![msg("user", "你好你好你")];
    assert!(check_request(&cfg, &five).is_ok());
    let blank = vec![msg("user", " \t ")];
    assert_eq!(check_request(&cfg, &blank).err(), Some(ChatError::EmptyQuery));
}

#[test]
fn request_passes_with_trimmed_query() {
    let cfg = Config::default();
    match check_request(&cfg, &vec![msg("user", "  what is zero?  ")]) {
        Ok(Admission::Proceed(q)) => assert_eq!(q, "what is zero?"),
        _ => panic!("expected the query to proceed"),
    }
}

#[test]
fn hard_scope_guard_refuses_off_topic() {
    let mut cfg = Config::default();
    cfg.scope_guard_mode = ScopeMode::Hard;
    match check_request(&cfg, &vec![msg("user", "what's the weather?")]) {
        Ok(Admission::Refused(r)) => {
            assert_eq!(r.reply, cfg.scope_refuse_reply_en);
            assert_eq!(r.source, Source::ScopeGuard);
            assert!(matches!(r.url, Link::Absent));
        }
        _ => panic!("expected a refusal"),
    }
    match check_request(&cfg, &vec![msg("user", "今天天气怎么样")]) {
        Ok(Admission::Refused(r)) => assert_eq!(r.reply, cfg.scope_refuse_reply_zh),
        _ => panic!("expected a refusal"),
    }
    assert!(matches!(
        check_request(&cfg, &vec![msg("user", "install zero buddy")]),
        Ok(Admission::Proceed(_))
    ));
    // the prompt mode never refuses here
    cfg.scope_guard_mode = ScopeMode::Prompt;
    assert!(matches!(
        check_request(&cfg, &vec![msg("user", "what's the weather?")]),
        Ok(Admission::Proceed(_))
    ));
}

#[test]
fn rate_limit_reply_follows_language() {
    let cfg = Config::default();
    let r = rate_limited(&cfg, &vec![msg("user", "你好")]);
    assert_eq!(r.reply, cfg.rate_limit_reply_zh);
    assert_eq!(r.source, Source::RateLimit);
    let r = rate_limited(&cfg, &vec![msg("user", "你好"), msg("user", "hello")]);
    assert_eq!(r.reply, cfg.rate_limit_reply_en);
    let r = rate_limited(&cfg, &vec![]);
    assert_eq!(r.reply, cfg.rate_limit_reply_en);
}

#[test]
fn knowledge_must_not_be_empty() {
    assert_eq!(check_knowledge(&[]), Err(ChatError::EmptyKnowledge));
    assert_eq!(check_knowledge(&[doc("A", "a", None)]), Ok(()));
}

#[test]
fn context_joins_documents_and_web_text() {
    let docs = vec![doc("A", "alpha", None), doc("B", "beta", Some("https://b"))];
    let c = gather_context(&docs, &[0, 1], "");
    assert_eq!(c.text, "# A\nalpha\n---\n# B\nbeta");
    assert!(!c.from_web);
    assert_eq!(c.url, Some("https://b".to_string()));
    let c = gather_context(&docs, &[1], "WEB");
    assert_eq!(c.text, format!("# B\nbeta\n\n---\n{}WEB", WEB_HEAD));
    assert!(c.from_web);
    let c = gather_context(&docs, &[], "WEB");
    assert_eq!(c.text, format!("{}WEB", WEB_HEAD));
    assert_eq!(c.url, None);
    let c = gather_context(&docs, &[], "");
    assert_eq!(c.text, "");
}

#[test]
fn offline_replies() {
    let empty = Context { text: String::new(), from_web: false, url: None };
    let r = offline_reply("hello", &empty, OfflineCause::NoKey);
    assert_eq!(
        r.reply,
        "Sorry, I couldn't find anything relevant. Please ask in Chinese or English and I'll do my best to help."
    );
    assert!(matches!(r.url, Link::Absent));
    let r = offline_reply("你好", &empty, OfflineCause::KeyFailed);
    assert_eq!(r.reply, "抱歉，我暂时没有找到相关内容。请使用中文或英文提问，我会尽力为你解答。");
    let ctx = Context { text: "# A\nalpha".to_string(), from_web: false, url: None };
    let r = offline_reply("hello", &ctx, OfflineCause::NoKey);
    assert_eq!(
        r.reply,
        "# A\nalpha\n\n(Offline mode: showing raw knowledge. Set LLM_API_KEY to enable AI answers.)"
    );
    assert!(matches!(r.url, Link::Null));
    assert_eq!(r.source, Source::Offline);
    let ctx = Context { text: "# A\nalpha".to_string(), from_web: false, url: Some("https://a".to_string()) };
    let r = offline_reply("你好", &ctx, OfflineCause::KeyFailed);
    assert_eq!(r.reply, "# A\nalpha\n\n（离线模式：展示原始知识片段。LLM 密钥已失效或额度用尽。）");
    assert!(matches!(r.url, Link::To(ref u) if u == "https://a"));
    let r = offline_reply("你好", &ctx, OfflineCause::NoKey);
    assert_eq!(r.reply, "# A\nalpha\n\n（离线模式：展示原始知识片段。配置 LLM_API_KEY 可启用 AI 回答。）");
    let r = offline_reply("hi", &ctx, OfflineCause::KeyFailed);
    assert_eq!(
        r.reply,
        "# A\nalpha\n\n(Offline mode: showing raw knowledge. LLM key expired or quota exceeded.)"
    );
}

#[test]
fn degraded_only_on_auth_errors() {
    let ctx = Context { text: "# A\nalpha".to_string(), from_web: false, url: None };
    assert!(degraded_reply("429 Too Many Requests", "q", &ctx).is_none());
    let r = degraded_reply("chat request failed: 401 Unauthorized", "q", &ctx).unwrap();
    assert!(r.reply.ends_with("LLM key expired or quota exceeded.)"));
}

fn plain_system(product: &str, org: &str, scope: bool) -> String {
    let scope_policy = if scope {
        format!(
            " Scope policy: ONLY answer questions about the {} / {} project. \
             For anything outside this scope, politely say you can only help with {} topics \
             and suggest contacting support.",
            product, org, product
        )
    } else {
        String::new()
    };
    format!(
        "You are {}, assistant for the {} project. \
         Reply in the same language the user wrote in: if they write Chinese, answer in Chinese; \
         if they write English, answer in English; for any other language, reply in English.{}",
        product, org, scope_policy
    )
}

fn context_system(product: &str, org: &str, scope: bool, kind: &str, ctx: &str) -> String {
    let scope_policy = if scope {
        format!(
            "Scope policy: ONLY answer questions related to the {} / {} project (its features, usage, API, \
             deployment, and the provided knowledge base). For anything outside this scope, politely reply that \
             you can only help with {} topics and suggest contacting support. Never answer {} questions.\n",
            product, org, product, kind
        )
    } else {
        String::new()
    };
    format!(
        "You are {}, a helpful assistant for the {} project. \
         Use the provided context to answer the user's question concisely and accurately.\n\
         Language policy: reply in the SAME language as the user's question. \
         If the question is in Chinese, answer in Chinese; if in any other non-English language, default to English.\n\
         {}\
         If the context does not contain the answer, say you don't know and suggest contacting support.\n\n\
         Context:\n{}",
        product, org, scope_policy, ctx
    )
}

#[test]
fn model_messages_without_context() {
    let cfg = Config::default();
    let conv = vec![msg("user", "hi"), msg("assistant", "hello!"), msg("user", " what? ")];
    let empty = Context { text: String::new(), from_web: false, url: None };
    let m = llm_messages(&cfg, &conv, "what?", &empty, false);
    assert_eq!(m.len(), 4);
    assert_eq!(m[0].role, "system");
    assert_eq!(m[0].content, plain_system("ZeroBuddy", "Zero Labs", true));
    assert_eq!((m[1].role.as_str(), m[1].content.as_str()), ("user", "hi"));
    assert_eq!((m[2].role.as_str(), m[2].content.as_str()), ("assistant", "hello!"));
    assert_eq!((m[3].role.as_str(), m[3].content.as_str()), ("user", "what?"));
    let web_only = Context { text: String::new(), from_web: true, url: None };
    let m = llm_messages(&cfg, &conv, "what?", &web_only, true);
    assert_eq!(m[0].content, plain_system("ZeroBuddy", "Zero Labs", false));
}

#[test]
fn model_messages_with_context() {
    let cfg = Config::default();
    let conv = vec![msg("user", "q")];
    let ctx = Context { text: "CTX".to_string(), from_web: true, url: None };
    let m = llm_messages(&cfg, &conv, "q", &ctx, false);
    assert_eq!(m.len(), 2);
    assert_eq!(m[0].content, context_system("ZeroBuddy", "Zero Labs", true, "off-topic", "CTX"));
    let m = llm_messages(&cfg, &conv, "q", &ctx, true);
    assert_eq!(m[0].content, context_system("ZeroBuddy", "Zero Labs", false, "off-site", "CTX"));
    let local = Context { text: "CTX".to_string(), from_web: false, url: None };
    let m = llm_messages(&cfg, &conv, "q", &local, true);
    assert_eq!(m[0].content, context_system("ZeroBuddy", "Zero Labs", true, "off-site", "CTX"));
    let mut off = Config::default();
    off.scope_guard_enabled = false;
    let m = llm_messages(&off, &conv, "q", &local, false);
    assert_eq!(m[0].content, context_system("ZeroBuddy", "Zero Labs", false, "off-topic", "CTX"));
    assert_eq!((m[1].role.as_str(), m[1].content.as_str()), ("user", "q"));
}
