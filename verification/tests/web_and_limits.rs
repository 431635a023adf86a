use zero_buddy::ratelimit::RateLimiter;
use zero_buddy::response::{ok_empty, ApiCode, ApiError, ApiResult};
use zero_buddy::web::{
    cached_context_usable, fallback_disabled, fallback_targets, fallback_ttl_secs,
    find_case_insensitive, remove_blocks, replace_all, strip_html, WebContext,
};

#[test]
fn strip_html_keeps_visible_text() {
    let html = "<html><HEAD><title>T</title></head><body><script>var x = 1;</script>\
                <h1>Zero&nbsp;Buddy</h1><p>Fast &amp; small</p><!-- hidden --><div>a<br>b</div>\
                <style>p{}</style></body></html>";
    assert_eq!(strip_html(html), "Zero Buddy Fast & small a b");
    assert_eq!(strip_html("  plain   text \n"), "plain text");
    assert_eq!(strip_html("<p>&lt;tag&gt; &quot;q&quot; &#39;s&apos;</p>"), "<tag> \"q\" 's'");
    // each entity is decoded once
    assert_eq!(strip_html("<p>5 &amp;lt; 6</p>"), "5 &lt; 6");
    assert_eq!(strip_html("a &amp;amp; b &nbsp;&amp"), "a &amp; b &amp");
}

#[test]
fn remove_blocks_cuts_open_blocks_to_the_end() {
    assert_eq!(remove_blocks("a<SCRIPT>x</script>b", "<script", "</script>"), "ab");
    assert_eq!(remove_blocks("a<script>never closed", "<script", "</script>"), "a");
    assert_eq!(remove_blocks("no blocks", "<svg", "</svg>"), "no blocks");
}

#[test]
fn case_insensitive_find() {
    assert_eq!(find_case_insensitive("Hello WORLD", "world"), Some(6));
    assert_eq!(find_case_insensitive("abc", "d"), None);
    assert_eq!(find_case_insensitive("abc", ""), Some(0));
    // the offset is a byte offset, as `str::find` gives it
    assert_eq!(find_case_insensitive("中文 Zero", "zero"), Some(7));
    // the offset is into the haystack itself, whose first character here
    // lowercases to a longer text
    assert_eq!(find_case_insensitive("\u{130}X", "x"), Some(2));
}

#[test]
fn replace_all_like_str_replace() {
    assert_eq!(replace_all("a<p>b<p>", "<p", " "), "a >b >");
    assert_eq!(replace_all("aaa", "aa", "b"), "ba");
}

#[test]
fn fallback_switches() {
    assert!(fallback_disabled(Some("0")));
    assert!(fallback_disabled(Some("FALSE")));
    assert!(!fallback_disabled(Some("no")));
    assert!(!fallback_disabled(None));
    assert_eq!(fallback_ttl_secs(None), 3600);
    assert_eq!(fallback_ttl_secs(Some("60")), 60);
    assert_eq!(fallback_ttl_secs(Some("x")), 3600);
    assert!(cached_context_usable(60, 59));
    assert!(!cached_context_usable(60, 60));
    assert!(!cached_context_usable(0, 0));
    let t = fallback_targets();
    assert_eq!(t, vec!["https://zerolabsco.com", "https://github.com/zero-labsco", "https://invoicezero.net"]);
}

#[test]
fn web_context_sections_and_limits() {
    let mut w = WebContext::new();
    assert!(w.add_page("https://a", "   "));
    assert_eq!(w.finish(), "");
    assert!(w.add_page("https://a", "  hello  "));
    assert_eq!(w.finish(), "\n---\nSource: https://a\nhello\n");
    let big = "x".repeat(5000);
    assert!(w.add_page("https://b", &big));
    let more = w.add_page("https://c", &big);
    assert!(!more);
    assert_eq!(w.finish().chars().count(), 8000);
}

#[test]
fn web_context_counts_characters() {
    // a page of 5000 CJK characters keeps its first 4000 characters
    let page = "中".repeat(5000);
    let mut w = WebContext::new();
    assert!(w.add_page("u", &page));
    let expected = format!("\n---\nSource: u\n{}\n", "中".repeat(4000));
    assert_eq!(w.finish(), expected);
    assert!(!w.add_page("v", &page));
    let all = w.finish();
    assert_eq!(all.chars().count(), 8000);
    assert!(all.starts_with(&expected));
}

#[test]
fn rate_limiter_window_and_day() {
    let mut l = RateLimiter::new();
    let t = 1_000_000u64;
    assert!(l.check_and_record_at("1.2.3.4", 2, 3, t, 7));
    assert!(l.check_and_record_at("1.2.3.4", 2, 3, t + 1, 7));
    assert!(!l.check_and_record_at("1.2.3.4", 2, 3, t + 2, 7));
    // another client is unaffected
    assert!(l.check_and_record_at("5.6.7.8", 2, 3, t + 2, 7));
    // a minute later the window has room again, but the day allows one more only
    assert!(l.check_and_record_at("1.2.3.4", 2, 3, t + 60_001, 7));
    assert!(!l.check_and_record_at("1.2.3.4", 2, 3, t + 120_002, 7));
    // a new day resets the daily count
    assert!(l.check_and_record_at("1.2.3.4", 2, 3, t + 180_003, 8));
}

#[test]
fn rate_limiter_unlimited_passes() {
    let mut l = RateLimiter::new();
    for i in 0..100u64 {
        assert!(l.check_and_record_at("ip", 0, 0, i, 0));
    }
}

#[test]
fn rate_limiter_on_the_clock() {
    let mut l = RateLimiter::new();
    assert!(l.check_and_record("9.9.9.9", 1, 0));
    assert!(!l.check_and_record("9.9.9.9", 1, 0));
}

#[test]
fn envelopes() {
    assert_eq!(ApiCode::Success.code(), 200);
    assert_eq!(ApiCode::BadRequest.code(), 400);
    assert_eq!(ApiCode::Unauthorized.code(), 401);
    assert_eq!(ApiCode::NotFound.code(), 404);
    assert_eq!(ApiCode::Internal.code(), 500);
    assert_eq!(ApiCode::Success.default_message(), "success");
    assert_eq!(ApiCode::BadRequest.default_message(), "参数错误");
    assert_eq!(ApiCode::Internal.default_message(), "服务器内部错误");
    let e = ApiError::with_msg(ApiCode::BadRequest, "too many messages (max 50)".to_string());
    assert_eq!(e.api_code(), ApiCode::BadRequest);
    assert_eq!(e.message(), "too many messages (max 50)");
    let r: ApiResult<u8> = e.to_result();
    assert_eq!((r.code, r.message.as_str(), r.body), (400, "too many messages (max 50)", None));
    let ok = ApiResult::ok(7u8);
    assert_eq!((ok.code, ok.message.as_str(), ok.body), (200, "success", Some(7)));
    let empty = ok_empty();
    assert_eq!((empty.code, empty.message.as_str(), empty.body.is_none()), (200, "success", true));
}

/// Block removal written directly with `str` byte offsets.
fn direct_remove_blocks(s: &str, open: &str, close: &str) -> String {
    let find = |h: &str, n: &str| h.to_lowercase().find(&n.to_lowercase());
    let mut result = String::new();
    let mut rest = s;
    while let Some(start) = find(rest, open) {
        result.push_str(&rest[..start]);
        if let Some(rel_close) = find(&rest[start..], close) {
            rest = &rest[start + rel_close + close.len()..];
        } else {
            rest = "";
            break;
        }
    }
    result.push_str(rest);
    result
}

#[test]
fn blocks_are_removed_whole() {
    // lowercasing changes the byte length of these characters; the block
    // is still removed from its open tag to the end of its close tag
    assert_eq!(remove_blocks("\u{130}<script>x</script>y", "<script", "</script>"), "\u{130}y");
    assert_eq!(remove_blocks("\u{23A}<script>x</script>b", "<script", "</script>"), "\u{23A}b");
    assert_eq!(remove_blocks("\u{212A}<script>x</script>b", "<script", "</script>"), "\u{212A}b");
    assert_eq!(strip_html("\u{212A}<script>x</script>b"), "\u{212A}b");
    // where lowercasing keeps every offset, it agrees with searching the
    // lowercased text
    for s in ["<SCRIPT>a</Script>b<script>c", "x<!-- y -->z<!--", "\u{212A}\u{212A}", "中文<svg>图</svg>尾"] {
        assert_eq!(remove_blocks(s, "<script", "</script>"), direct_remove_blocks(s, "<script", "</script>"));
        assert_eq!(remove_blocks(s, "<!--", "-->"), direct_remove_blocks(s, "<!--", "-->"));
        assert_eq!(remove_blocks(s, "<svg", "</svg>"), direct_remove_blocks(s, "<svg", "</svg>"));
    }
    // the close tag is searched from where the open tag starts
    assert_eq!(remove_blocks("a<!-->b", "<!--", "-->"), "ab");
}
