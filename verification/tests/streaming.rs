use zero_buddy::sse::SseLines;
use zero_buddy::stream::{chunk_chars, done_signal, error_signal, read_signal, Signal, PIECE_CHARS};

#[test]
fn pieces_rebuild_the_text() {
    let text = "你好，Zero Buddy 在吗？";
    let p = chunk_chars(text, PIECE_CHARS);
    assert_eq!(p, vec!["你好，Z", "ero ", "Budd", "y 在吗", "？"]);
    assert_eq!(p.concat(), text);
    assert!(chunk_chars("", 4).is_empty());
    assert_eq!(chunk_chars("abcd", 4), vec!["abcd"]);
    assert_eq!(chunk_chars("abc", 1), vec!["a", "b", "c"]);
}

#[test]
fn control_signals_round_trip() {
    assert!(matches!(read_signal(&done_signal()), Signal::Done));
    match read_signal(&error_signal("401 Unauthorized")) {
        Signal::Failed(m) => assert_eq!(m, "401 Unauthorized"),
        _ => panic!("expected a failure"),
    }
    match read_signal("hello") {
        Signal::Delta(t) => assert_eq!(t, "hello"),
        _ => panic!("expected a token"),
    }
    assert!(matches!(read_signal("__CTL__PING"), Signal::Ignored));
    assert_eq!(done_signal(), "__CTL__DONE");
    assert_eq!(error_signal("x"), "__CTL__ERRx");
}

#[test]
fn sse_lines_across_chunks() {
    let mut r = SseLines::new();
    let got = r.push("data: {\"a\":1}\n\nda");
    assert_eq!(got, vec!["{\"a\":1}"]);
    let got = r.push("ta: {\"b\":2}\r\ndata: [DONE]\n");
    assert_eq!(got, vec!["{\"b\":2}"]);
    assert_eq!(r.remainder(), None);
}

#[test]
fn sse_skips_other_lines_and_empty_payloads() {
    let mut r = SseLines::new();
    let got = r.push(": comment\nevent: x\ndata:\ndata:   \ndata:ok\n");
    assert_eq!(got, vec!["ok"]);
    assert_eq!(r.remainder(), None);
}

#[test]
fn plain_json_body_is_the_remainder() {
    let mut r = SseLines::new();
    assert!(r.push("{\"choices\":").is_empty());
    assert!(r.push(" [] }  ").is_empty());
    assert_eq!(r.remainder(), Some("{\"choices\": [] }".to_string()));
    let mut blank = SseLines::new();
    blank.push("  \n ");
    assert_eq!(blank.remainder(), None);
}

#[test]
fn remainder_is_dropped_after_sse() {
    let mut r = SseLines::new();
    r.push("data: x\n{\"tail\":1}");
    assert_eq!(r.remainder(), None);
}

#[test]
fn chunk_boundaries_do_not_matter() {
    let body = "data: {\"x\":1}\n\ndata: {\"y\":2}\ndata: [DONE]\n";
    let mut whole = SseLines::new();
    let all = whole.push(body);
    for cut in 0..=body.len() {
        if !body.is_char_boundary(cut) {
            continue;
        }
        let mut r = SseLines::new();
        let mut got = r.push(&body[..cut]);
        got.extend(r.push(&body[cut..]));
        assert_eq!(got, all, "cut at {cut}");
        assert_eq!(r.remainder(), whole.remainder());
    }
    assert_eq!(all, vec!["{\"x\":1}", "{\"y\":2}"]);
}
