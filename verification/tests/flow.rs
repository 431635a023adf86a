use zero_buddy::chat::{Link, Source};
use zero_buddy::config::Config;
use zero_buddy::flow::{ChatFlow, Finish, FlowAction, FlowEvent, Store};
use zero_buddy::knowledge::Document;
use zero_buddy::models::ChatMessage;

fn msg(role: &str, content: &str) -> ChatMessage {
    ChatMessage::new(role.to_string(), content.to_string())
}

fn doc(title: &str, content: &str, url: Option<&str>) -> Document {
    Document {
        id: title.to_lowercase(),
        project: String::new(),
        title: title.to_string(),
        content: content.to_string(),
        url: url.map(|u| u.to_string()),
    }
}

fn finished(a: FlowAction) -> Finish {
    match a {
        FlowAction::Finish(f) => f,
        _ => panic!("expected the request to finish"),
    }
}

/// Runs a request up to the point where it asks whether the model may be
/// used, with one matching document and no web text.
fn up_to_mode(cfg: &Config, streaming: bool) -> ChatFlow {
    let mut f = ChatFlow::new(vec![msg("user", "earlier"), msg("user", " what is alpha? ")], streaming);
    assert!(matches!(f.pending(cfg), FlowAction::CheckRate));
    assert!(matches!(f.step(cfg, FlowEvent::RateChecked(true)), FlowAction::LookUpFaq(ref q) if q == "what is alpha?"));
    assert!(matches!(f.step(cfg, FlowEvent::FaqChecked(Ok(None))), FlowAction::LookUpCache(_)));
    assert!(matches!(f.step(cfg, FlowEvent::CacheChecked(None)), FlowAction::LoadKnowledge));
    let docs = vec![doc("Alpha", "alpha content", Some("https://alpha")), doc("Beta", "beta", None)];
    assert!(matches!(f.step(cfg, FlowEvent::KnowledgeLoaded(Ok(docs))), FlowAction::Rank(_)));
    assert!(matches!(f.step(cfg, FlowEvent::Ranked(vec![(0, true), (1, false)])), FlowAction::FetchWeb));
    assert!(matches!(f.step(cfg, FlowEvent::WebFetched(String::new())), FlowAction::CheckMode));
    f
}

#[test]
fn rate_limited_request_gets_the_limit_reply() {
    let cfg = Config::default();
    let mut f = ChatFlow::new(vec![msg("user", "你好")], false);
    let fin = finished(f.step(&cfg, FlowEvent::RateChecked(false)));
    let r = fin.outcome.ok().unwrap();
    assert_eq!(r.reply, cfg.rate_limit_reply_zh);
    assert_eq!(r.source, Source::RateLimit);
    assert!(matches!(fin.store, Store::Nothing));
    assert!(!fin.go_offline);
    assert!(matches!(f.pending(&cfg), FlowAction::Idle));
}

#[test]
fn malformed_request_fails() {
    let cfg = Config::default();
    let mut f = ChatFlow::new(vec![], false);
    let fin = finished(f.step(&cfg, FlowEvent::RateChecked(true)));
    assert_eq!(fin.outcome.err(), Some("messages must not be empty".to_string()));
}

#[test]
fn faq_answer_is_cached_plainly() {
    let cfg = Config::default();
    let mut f = ChatFlow::new(vec![msg("user", "hi")], false);
    f.step(&cfg, FlowEvent::RateChecked(true));
    let fin = finished(f.step(
        &cfg,
        FlowEvent::FaqChecked(Ok(Some(("Hello!".to_string(), Some("https://x".to_string()))))),
    ));
    let r = fin.outcome.ok().unwrap();
    assert_eq!(r.reply, "Hello!");
    assert_eq!(r.source, Source::Faq);
    assert!(matches!(r.url, Link::To(ref u) if u == "https://x"));
    assert!(matches!(fin.store, Store::Plain { ref query, ref reply } if query == "hi" && reply == "Hello!"));
}

#[test]
fn unreadable_faq_file_fails() {
    let cfg = Config::default();
    let mut f = ChatFlow::new(vec![msg("user", "hi")], true);
    f.step(&cfg, FlowEvent::RateChecked(true));
    let fin = finished(f.step(&cfg, FlowEvent::FaqChecked(Err("failed to read FAQ file: x".to_string()))));
    assert_eq!(fin.outcome.err(), Some("failed to read FAQ file: x".to_string()));
}

#[test]
fn cache_hit_is_answered_as_is() {
    let cfg = Config::default();
    let mut f = ChatFlow::new(vec![msg("user", "hi")], false);
    f.step(&cfg, FlowEvent::RateChecked(true));
    f.step(&cfg, FlowEvent::FaqChecked(Ok(None)));
    let fin = finished(f.step(&cfg, FlowEvent::CacheChecked(Some("cached".to_string()))));
    let r = fin.outcome.ok().unwrap();
    assert_eq!((r.reply.as_str(), r.source), ("cached", Source::Cache));
    assert!(matches!(r.url, Link::Absent));
    assert!(matches!(fin.store, Store::Nothing));
}

#[test]
fn empty_knowledge_base_fails() {
    let cfg = Config::default();
    let mut f = ChatFlow::new(vec![msg("user", "hi")], false);
    f.step(&cfg, FlowEvent::RateChecked(true));
    f.step(&cfg, FlowEvent::FaqChecked(Ok(None)));
    f.step(&cfg, FlowEvent::CacheChecked(None));
    let fin = finished(f.step(&cfg, FlowEvent::KnowledgeLoaded(Ok(vec![]))));
    assert_eq!(fin.outcome.err(), Some("knowledge base is empty".to_string()));
}

#[test]
fn offline_mode_shows_the_context() {
    let cfg = Config::default();
    let mut f = up_to_mode(&cfg, false);
    assert_eq!(f.context_link(), Some("https://alpha".to_string()));
    let fin = finished(f.step(&cfg, FlowEvent::ModeKnown(false)));
    let r = fin.outcome.ok().unwrap();
    assert_eq!(
        r.reply,
        "# Alpha\nalpha content\n\n(Offline mode: showing raw knowledge. Set LLM_API_KEY to enable AI answers.)"
    );
    assert_eq!(r.source, Source::Offline);
    assert!(matches!(fin.store, Store::Plain { ref reply, .. } if *reply == r.reply));
}

#[test]
fn online_mode_asks_the_model_and_caches_its_answer() {
    let cfg = Config::default();
    let mut f = up_to_mode(&cfg, false);
    let asked = f.step(&cfg, FlowEvent::ModeKnown(true));
    match &asked {
        FlowAction::AskModel(m) => {
            assert_eq!(m.len(), 3);
            assert_eq!(m[0].role, "system");
            assert!(m[0].content.ends_with("Context:\n# Alpha\nalpha content"));
            assert_eq!((m[1].role.as_str(), m[1].content.as_str()), ("user", "earlier"));
            assert_eq!((m[2].role.as_str(), m[2].content.as_str()), ("user", "what is alpha?"));
        }
        _ => panic!("expected a model call"),
    }
    let fin = finished(f.step(&cfg, FlowEvent::ModelAnswered(Ok("Alpha is a thing.".to_string()))));
    let r = fin.outcome.ok().unwrap();
    assert_eq!((r.reply.as_str(), r.source), ("Alpha is a thing.", Source::Llm));
    assert!(matches!(r.url, Link::To(ref u) if u == "https://alpha"));
    assert!(matches!(fin.store, Store::WithEmbedding { ref query, .. } if query == "what is alpha?"));
}

#[test]
fn non_answers_are_not_cached() {
    let cfg = Config::default();
    let mut f = up_to_mode(&cfg, false);
    f.step(&cfg, FlowEvent::ModeKnown(true));
    let fin = finished(f.step(&cfg, FlowEvent::ModelAnswered(Ok("I don't know.".to_string()))));
    assert!(matches!(fin.store, Store::Nothing));
}

#[test]
fn refused_key_degrades_to_offline() {
    let cfg = Config::default();
    let mut f = up_to_mode(&cfg, false);
    f.step(&cfg, FlowEvent::ModeKnown(true));
    let fin = finished(f.step(
        &cfg,
        FlowEvent::ModelAnswered(Err("chat request failed: 401 Unauthorized".to_string())),
    ));
    assert!(fin.go_offline);
    let r = fin.outcome.ok().unwrap();
    assert!(r.reply.ends_with("(Offline mode: showing raw knowledge. LLM key expired or quota exceeded.)"));
    // a streamed request reports the error instead, and goes offline too
    let mut s = up_to_mode(&cfg, true);
    s.step(&cfg, FlowEvent::ModeKnown(true));
    let fin = finished(s.step(
        &cfg,
        FlowEvent::ModelAnswered(Err("chat request failed: 401 Unauthorized".to_string())),
    ));
    assert!(fin.go_offline);
    assert_eq!(fin.outcome.err(), Some("chat request failed: 401 Unauthorized".to_string()));
}

#[test]
fn passing_faults_are_reported() {
    let cfg = Config::default();
    let mut f = up_to_mode(&cfg, false);
    f.step(&cfg, FlowEvent::ModeKnown(true));
    let fin = finished(f.step(
        &cfg,
        FlowEvent::ModelAnswered(Err("chat request failed: 429 Too Many Requests".to_string())),
    ));
    assert!(!fin.go_offline);
    assert_eq!(fin.outcome.err(), Some("chat request failed: 429 Too Many Requests".to_string()));
}

#[test]
fn unexpected_events_change_nothing() {
    let cfg = Config::default();
    let mut f = ChatFlow::new(vec![msg("user", "hi")], false);
    assert!(matches!(f.step(&cfg, FlowEvent::ModeKnown(true)), FlowAction::CheckRate));
    f.step(&cfg, FlowEvent::RateChecked(true));
    assert!(matches!(f.step(&cfg, FlowEvent::CacheChecked(None)), FlowAction::LookUpFaq(ref q) if q == "hi"));
}
