use zero_buddy::knowledge::{first_doc_link, retrieve, Document};
use zero_buddy::rag::{keyword_overlap, tokenize, top_indices};

fn doc(id: &str, title: &str, content: &str) -> Document {
    Document {
        id: id.to_string(),
        project: String::new(),
        title: title.to_string(),
        content: content.to_string(),
        url: None,
    }
}

fn score_keyword(content: &str, query: &str) -> f32 {
    let (inter, total) = keyword_overlap(content, query);
    if total == 0 {
        0.0
    } else {
        inter as f32 / total as f32
    }
}

#[test]
fn retrieve_formats_matched_docs_in_order() {
    let docs = vec![
        doc("a", "Alpha", "alpha content"),
        doc("b", "Beta", "beta content"),
        doc("c", "Gamma", "gamma content"),
    ];
    let out = retrieve(&docs, &[0, 2]);
    assert_eq!(out.len(), 2);
    assert_eq!(out[0], "# Alpha\nalpha content");
    assert_eq!(out[1], "# Gamma\ngamma content");
}

#[test]
fn retrieve_skips_out_of_range_indices() {
    let docs = vec![doc("a", "Alpha", "alpha content")];
    let out = retrieve(&docs, &[0, 99]);
    assert_eq!(out.len(), 1);
}

#[test]
fn retrieve_empty_indices_yields_empty() {
    let docs = vec![doc("a", "Alpha", "alpha content")];
    assert!(retrieve(&docs, &[]).is_empty());
}

#[test]
fn tokenize_lowercases_and_filters_short() {
    let t = tokenize("Hello Flutter and Dart");
    assert!(t.contains("hello"));
    assert!(t.contains("flutter"));
    assert!(t.contains("dart"));
    assert!(t.contains("and"), "3 字母词 'and' 应被保留");
    assert!(!t.contains("he"), "2 字母短词应被过滤");
}

#[test]
fn score_keyword_overlap_ratio() {
    assert_eq!(score_keyword("zero buddy install", "zero buddy install"), 1.0);
    let s = score_keyword("zero buddy deploy", "zero buddy install");
    assert!((s - 2.0 / 3.0).abs() < 1e-6, "实际 = {s}");
    assert_eq!(score_keyword("abc def", "xyz qrs"), 0.0);
}

#[test]
fn score_keyword_empty_query_is_zero() {
    assert_eq!(score_keyword("anything here", ""), 0.0);
}

// ---- further cases ----

#[test]
fn keyword_overlap_counts_distinct_tokens() {
    assert_eq!(keyword_overlap("zero buddy deploy", "zero buddy install"), (2, 3));
    assert_eq!(keyword_overlap("zero zero zero", "zero ZERO zero"), (1, 1));
    assert_eq!(keyword_overlap("anything here", ""), (0, 0));
}

#[test]
fn tokenize_counts_bytes_not_chars() {
    // "中文" is two characters but six bytes, so it is kept; "ab" is dropped.
    let t = tokenize("中文 ab xyz");
    assert!(t.contains("中文"));
    assert!(!t.contains("ab"));
    assert!(t.contains("xyz"));
    assert_eq!(t.len(), 2);
}

#[test]
fn tokenize_splits_on_punctuation() {
    let t = tokenize("zero-buddy's API_key");
    assert!(t.contains("zero"));
    assert!(t.contains("buddy"));
    assert!(t.contains("api"));
    assert!(t.contains("key"));
    assert!(!t.contains("s"));
}

#[test]
fn top_indices_keeps_passing_in_rank_order() {
    let ranked = vec![(4, true), (1, false), (7, true), (2, true)];
    assert_eq!(top_indices(&ranked, 2), vec![4, 7]);
    assert_eq!(top_indices(&ranked, 10), vec![4, 7, 2]);
    assert_eq!(top_indices(&ranked, 0), Vec::<usize>::new());
}

#[test]
fn first_link_skips_missing_and_empty_links() {
    let mut a = doc("a", "A", "a");
    a.url = Some(String::new());
    let b = doc("b", "B", "b");
    let mut c = doc("c", "C", "c");
    c.url = Some("https://example.com/c".to_string());
    let docs = vec![a, b, c];
    assert_eq!(first_doc_link(&docs, &[0, 1, 2]), Some("https://example.com/c".to_string()));
    assert_eq!(first_doc_link(&docs, &[0, 1, 9]), None);
}
