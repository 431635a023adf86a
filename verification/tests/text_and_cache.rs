use zero_buddy::cache::{normalize, AnswerCache, CacheEntry};
use zero_buddy::text::{
    decimal_string, is_white_space, join, parse_u32, parse_u64, split_at_char, trimmed,
};

#[test]
fn white_space_agrees_with_std_on_every_char() {
    for u in 0u32..=0x10FFFF {
        if let Some(c) = char::from_u32(u) {
            assert_eq!(is_white_space(c), c.is_whitespace(), "char {u:#x}");
        }
    }
}

#[test]
fn trimmed_matches_str_trim() {
    for s in ["  a b  ", "\u{3000}中文\u{3000}", "", "   ", "x", "\t\nline\r\n"] {
        assert_eq!(trimmed(s), s.trim());
    }
}

#[test]
fn decimal_string_writes_numbers() {
    assert_eq!(decimal_string(0), "0");
    assert_eq!(decimal_string(4000), "4000");
    assert_eq!(decimal_string(u64::MAX), u64::MAX.to_string());
}

#[test]
fn parse_numbers_like_str_parse() {
    assert_eq!(parse_u64("42"), Some(42));
    assert_eq!(parse_u64("+7"), Some(7));
    assert_eq!(parse_u64("18446744073709551615"), Some(u64::MAX));
    assert_eq!(parse_u64("18446744073709551616"), None);
    assert_eq!(parse_u64(" 1"), None);
    assert_eq!(parse_u64(""), None);
    assert_eq!(parse_u64("-1"), None);
    assert_eq!(parse_u32("4294967296"), None);
    assert_eq!(parse_u32("500"), Some(500));
}

#[test]
fn split_and_join_like_std() {
    assert_eq!(split_at_char("a,,b", ','), vec!["a", "", "b"]);
    assert_eq!(split_at_char("", ','), vec![""]);
    let parts = vec!["x".to_string(), "y".to_string(), "z".to_string()];
    assert_eq!(join(&parts, "\n---\n"), "x\n---\ny\n---\nz");
    assert_eq!(join(&Vec::new(), "-"), "");
}

#[test]
fn normalize_lowercases_and_collapses_white_space() {
    assert_eq!(normalize("  HeLLo \t  World\n"), "hello world");
    assert_eq!(normalize("ÄÖÜ"), "äöü");
    assert_eq!(normalize(""), "");
}

#[test]
fn cache_read_after_write() {
    let mut c = AnswerCache::with_version("v1");
    assert_eq!(c.get_exact("How to install?"), None);
    c.put_offline("How to install?", "Run the installer.");
    assert_eq!(c.get_exact("  how TO   install? "), Some("Run the installer.".to_string()));
    c.put_offline("HOW to install?", "Use cargo.");
    assert_eq!(c.get_exact("how to install?"), Some("Use cargo.".to_string()));
    assert_eq!(c.len(), 1);
    assert_eq!(c.entries()[0].query, "HOW to install?");
}

#[test]
fn cache_write_keeps_other_answers() {
    let mut c = AnswerCache::with_version("v1");
    c.put_offline("alpha", "A");
    c.put_offline("beta", "B");
    assert_eq!(c.get_exact("ALPHA"), Some("A".to_string()));
    assert_eq!(c.get_exact("beta"), Some("B".to_string()));
    assert_eq!(c.len(), 2);
}

#[test]
fn cache_file_of_another_version_is_ignored() {
    let entries = vec![CacheEntry { query: "Q".to_string(), reply: "R".to_string() }];
    let c = AnswerCache::from_file("v2", "v1", entries);
    assert_eq!(c.len(), 0);
    assert_eq!(c.version(), "v2");
    let entries = vec![
        CacheEntry { query: "Q".to_string(), reply: "R1".to_string() },
        CacheEntry { query: " q ".to_string(), reply: "R2".to_string() },
    ];
    let c = AnswerCache::from_file("v1", "v1", entries);
    assert_eq!(c.len(), 1);
    assert_eq!(c.get_exact("q"), Some("R2".to_string()));
}

#[test]
fn empty_cache_has_no_version() {
    let c = AnswerCache::empty();
    assert_eq!(c.version(), "");
    assert_eq!(c.len(), 0);
}

#[test]
fn saved_entries_reload_the_same_cache() {
    let mut c = AnswerCache::with_version("v3");
    c.put_offline("Alpha?", "A");
    c.put_offline("beta", "B");
    c.put_offline("ALPHA?", "A2");
    let saved = c.entries();
    assert_eq!(saved.len(), 2);
    let reloaded = AnswerCache::from_file("v3", "v3", saved);
    for q in ["alpha?", "BETA", "gamma"] {
        assert_eq!(reloaded.get_exact(q), c.get_exact(q));
    }
    assert_eq!(reloaded.len(), c.len());
}
