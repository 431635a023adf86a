use zero_buddy::faq::{pattern_hit, FaqRule, FaqStore};

fn rule(id: &str, match_type: &str, patterns: &[&str], reply: &str) -> FaqRule {
    FaqRule {
        id: id.to_string(),
        match_type: match_type.to_string(),
        patterns: patterns.iter().map(|s| s.to_string()).collect(),
        reply: reply.to_string(),
        url: None,
    }
}

fn store() -> FaqStore {
    FaqStore::new(vec![
        rule(
            "greeting-en",
            "contains",
            &["hello", "hi", "hey", "yo", "sup"],
            "Hi there!",
        ),
        rule(
            "thanks-en",
            "contains",
            &["thank", "thanks", "ty"],
            "You're welcome!",
        ),
        rule(
            "install-en",
            "contains",
            &[
                "how to install zero inspector kit",
                "setup zero inspector kit",
            ],
            "Install steps here",
        ),
        rule("goodbye-en", "starts_with", &["bye", "goodbye"], "See you!"),
        rule("greeting-zh", "contains", &["你好", "哈喽"], "你好呀！"),
    ])
}

#[test]
fn hi_does_not_match_substring_inside_other_words() {
    assert!(!pattern_hit("which product does zero labs make", "hi"));
    assert!(!pattern_hit("describe the architecture of zero buddy", "hi"));
    assert!(!pattern_hit("caching layers", "hi"));
}

#[test]
fn hi_matches_standalone_word() {
    assert!(pattern_hit("hi there", "hi"));
    assert!(pattern_hit("just say hi to the team", "hi"));
}

#[test]
fn sup_does_not_match_support() {
    assert!(!pattern_hit("customer support email", "sup"));
    assert!(pattern_hit("sup how are you", "sup"));
}

#[test]
fn ty_does_not_match_city() {
    assert!(!pattern_hit("what is the city of invoice zero", "ty"));
    assert!(pattern_hit("ty for your help", "ty"));
}

#[test]
fn multiword_phrase_still_substring() {
    assert!(pattern_hit(
        "please tell me how to install zero inspector kit",
        "how to install zero inspector kit"
    ));
}

#[test]
fn greeting_does_not_hijack_technical_questions() {
    let s = store();
    assert!(s
        .answer("What does Zero Buddy's architecture look like?")
        .is_none());
    assert!(s.answer("Which products does Zero Labs make?").is_none());
}

#[test]
fn greeting_matches_real_hello() {
    let s = store();
    let got = s.answer("Hi, are you there?");
    assert_eq!(got.as_ref().map(|(r, _)| r.as_str()), Some("Hi there!"));
}

#[test]
fn install_phrase_matches() {
    let s = store();
    let got = s.answer("How to install Zero Inspector Kit?");
    assert_eq!(
        got.as_ref().map(|(r, _)| r.as_str()),
        Some("Install steps here")
    );
}

#[test]
fn starts_with_matches_first_word() {
    let s = store();
    let got = s.answer("Goodbye my friend");
    assert_eq!(got.as_ref().map(|(r, _)| r.as_str()), Some("See you!"));
}

#[test]
fn cjk_patterns_still_match() {
    let s = store();
    let got = s.answer("你好，Zero Buddy 在吗？");
    assert_eq!(got.as_ref().map(|(r, _)| r.as_str()), Some("你好呀！"));
}

// ---- further cases ----

#[test]
fn faq_url_is_returned_only_when_not_blank() {
    let mut with_link = rule("contact", "contains", &["email"], "Write to us.");
    with_link.url = Some("mailto:hi@example.com".to_string());
    let mut blank_link = rule("blank", "contains", &["phone"], "Call us.");
    blank_link.url = Some("   ".to_string());
    let s = FaqStore::new(vec![with_link, blank_link]);
    assert_eq!(
        s.answer("what is your email"),
        Some((
            "Write to us.".to_string(),
            Some("mailto:hi@example.com".to_string())
        ))
    );
    assert_eq!(s.answer("phone number?"), Some(("Call us.".to_string(), None)));
}

#[test]
fn faq_prefers_rules_in_the_language_of_the_query() {
    let s = FaqStore::new(vec![
        rule("en", "contains", &["zero"], "English answer"),
        rule("zh", "contains", &["zero"], "中文回答"),
    ]);
    assert_eq!(
        s.answer("zero 是什么").map(|(r, _)| r),
        Some("中文回答".to_string())
    );
    assert_eq!(
        s.answer("what is zero").map(|(r, _)| r),
        Some("English answer".to_string())
    );
}

#[test]
fn faq_falls_back_to_other_language_rules() {
    let s = FaqStore::new(vec![rule("zh", "contains", &["zero"], "中文回答")]);
    assert_eq!(
        s.answer("what is zero").map(|(r, _)| r),
        Some("中文回答".to_string())
    );
}

#[test]
fn faq_regex_kind_matches_like_contains() {
    let s = FaqStore::new(vec![rule("r", "regex", &["price"], "Free.")]);
    assert_eq!(s.answer("What is the PRICE?").map(|(r, _)| r), Some("Free.".to_string()));
    assert!(s.answer("nothing here").is_none());
}

#[test]
fn faq_starts_with_needs_the_whole_first_word() {
    let s = FaqStore::new(vec![rule("bye", "starts_with", &["bye"], "See you!")]);
    assert!(s.answer("byebye now").is_none());
    assert_eq!(s.answer("  BYE").map(|(r, _)| r), Some("See you!".to_string()));
    assert_eq!(s.answer("bye now").map(|(r, _)| r), Some("See you!".to_string()));
}

#[test]
fn default_match_is_contains() {
    assert_eq!(zero_buddy::faq::default_match(), "contains");
}
