//! Reading a streamed chat completion: the response body arrives in
//! arbitrary chunks, is split into lines, and every `data:` line carries one
//! JSON event (`[DONE]` ends the stream). A body without any `data:` line is
//! a plain JSON response, read once the body is complete.
use vstd::prelude::*;
use crate::text::{
    chars_eq, chars_of, find_from, first_occurrence, has_prefix, lemma_first_occurrence_is,
    lemma_first_occurrence_suffix, lemma_least_occurrence,
    occurs_at, starts_with_chars, string_of, trim, trim_bounds,
};

verus! {

/// The lines completed in `s` (each without its `\n`) and the unfinished
/// rest after the last `\n`.
#[verifier::opaque]
pub open spec fn drain_lines(s: Seq<char>) -> (Seq<Seq<char>>, Seq<char>)
    decreases s.len(),
{
    match first_occurrence(s, seq!['\n'], 0) {
        Some(i) => if 0 <= i < s.len() {
            let (lines, rest) = drain_lines(s.skip(i + 1));
            (seq![s.take(i)] + lines, rest)
        } else {
            (seq![], s)
        },
        None => (seq![], s),
    }
}

/// One step of [`drain_lines`].
proof fn lemma_drain_unfold(s: Seq<char>)
    ensures
        drain_lines(s) == match first_occurrence(s, seq!['\n'], 0) {
            Some(i) => if 0 <= i < s.len() {
                let (lines, rest) = drain_lines(s.skip(i + 1));
                (seq![s.take(i)] + lines, rest)
            } else {
                (seq![], s)
            },
            None => (seq![], s),
        },
{
    reveal_with_fuel(drain_lines, 1);
}

/// A trimmed line that starts with `data:`.
pub open spec fn is_data_line(line: Seq<char>) -> bool {
    has_prefix(trim(line), "data:"@)
}

/// The event payload a line carries: the trimmed text after `data:`, unless
/// it is empty or the `[DONE]` marker.
pub open spec fn line_payload(line: Seq<char>) -> Option<Seq<char>> {
    if is_data_line(line) {
        let p = trim(trim(line).skip(5));
        if p.len() == 0 || p == "[DONE]"@ {
            None
        } else {
            Some(p)
        }
    } else {
        None
    }
}

/// The payloads carried by a list of lines, in order.
pub open spec fn payloads(lines: Seq<Seq<char>>) -> Seq<Seq<char>>
    decreases lines.len(),
{
    if lines.len() == 0 {
        seq![]
    } else {
        let r = payloads(lines.drop_last());
        match line_payload(lines.last()) {
            Some(p) => r.push(p),
            None => r,
        }
    }
}

/// Payloads of a concatenation of line lists.
proof fn lemma_payloads_concat(a: Seq<Seq<char>>, b: Seq<Seq<char>>)
    ensures
        payloads(a + b) == payloads(a) + payloads(b),
    decreases b.len(),
{
    if b.len() == 0 {
        assert(a + b == a);
        assert(payloads(a) + seq![] == payloads(a));
    } else {
        lemma_payloads_concat(a, b.drop_last());
        assert((a + b).drop_last() == a + b.drop_last());
        assert((a + b).last() == b.last());
    }
}

/// The state of a streamed body being read.
pub struct SseLines {
    buf: Vec<char>,
    saw_sse: bool,
}

/// The contents of an [`SseLines`]: the unfinished line and whether a
/// `data:` line has been seen.
pub struct SseLinesView {
    pub buf: Seq<char>,
    pub saw_sse: bool,
}

impl View for SseLines {
    type V = SseLinesView;

    closed spec fn view(&self) -> SseLinesView {
        SseLinesView { buf: self.buf@, saw_sse: self.saw_sse }
    }
}

/// Some line of `lines` is a `data:` line.
pub open spec fn any_data_line(lines: Seq<Seq<char>>) -> bool {
    exists|k: int| 0 <= k < lines.len() && is_data_line(#[trigger] lines[k])
}

/// The characters `v[from..to]` as a vector of their own.
fn sub_chars(v: &Vec<char>, from: usize, to: usize) -> (res: Vec<char>)
    requires
        from <= to <= v.len(),
    ensures
        res@ == v@.subrange(from as int, to as int),
{
    let mut out: Vec<char> = Vec::new();
    let mut i = from;
    while i < to
        invariant
            from <= i <= to <= v.len(),
            out@ == v@.subrange(from as int, i as int),
        decreases to - i,
    {
        out.push(v[i]);
        i = i + 1;
        assert(v@.subrange(from as int, i as int) == v@.subrange(from as int, (i - 1) as int).push(
            v@[i - 1],
        ));
    }
    out
}

/// Whether `line` is a `data:` line, and the payload it carries.
fn payload_of(line: &Vec<char>) -> (res: (bool, Option<String>))
    ensures
        res.0 == is_data_line(line@),
        res.1.deep_view() == line_payload(line@),
{
    let (a, b) = trim_bounds(line);
    let t = sub_chars(line, a, b);
    let prefix = chars_of("data:");
    proof {
        reveal_strlit("data:");
    }
    if !starts_with_chars(&t, &prefix) {
        return (false, None);
    }
    let rest = sub_chars(&t, 5, t.len());
    assert(rest@ == trim(line@).skip(5));
    let (c, d) = trim_bounds(&rest);
    let p = sub_chars(&rest, c, d);
    let done = chars_of("[DONE]");
    proof {
        reveal_strlit("[DONE]");
    }
    if p.len() == 0 || chars_eq(&p, &done) {
        (true, None)
    } else {
        (true, Some(string_of(&rest, c, d)))
    }
}

/// What `first_occurrence` promises of its result.
proof fn lemma_first_occurrence_facts(h: Seq<char>, n: Seq<char>, from: int)
    ensures
        first_occurrence(h, n, from) matches Some(i) ==> from <= i && occurs_at(h, n, i) && forall|
            j: int,
        | from <= j < i ==> !occurs_at(h, n, j),
        first_occurrence(h, n, from) is None ==> forall|j: int| from <= j ==> !occurs_at(h, n, j),
{
    reveal(first_occurrence);
    if exists|i: int| from <= i && occurs_at(h, n, i) {
        let w = lemma_least_occurrence(h, n, from);
        lemma_first_occurrence_is(h, n, from, w);
    }
}

/// Draining a longer text: the lines completed in `s` come first, then those
/// completed once the rest of `s` is followed by `t`.
proof fn lemma_drain_concat(s: Seq<char>, t: Seq<char>)
    ensures
        drain_lines(s + t) == (
            drain_lines(s).0 + drain_lines(drain_lines(s).1 + t).0,
            drain_lines(drain_lines(s).1 + t).1,
        ),
    decreases s.len(),
{
    let nl = seq!['\n'];
    lemma_drain_unfold(s);
    lemma_drain_unfold(s + t);
    lemma_first_occurrence_facts(s, nl, 0);
    match first_occurrence(s, nl, 0) {
        Some(i) => {
            assert(s.subrange(i, i + 1) == (s + t).subrange(i, i + 1));
            assert forall|j: int| 0 <= j < i implies !occurs_at(s + t, nl, j) by {
                assert(!occurs_at(s, nl, j));
                assert(s.subrange(j, j + 1) == (s + t).subrange(j, j + 1));
            }
            lemma_first_occurrence_is(s + t, nl, 0, i);
            assert((s + t).take(i) == s.take(i));
            assert((s + t).skip(i + 1) == s.skip(i + 1) + t);
            lemma_drain_concat(s.skip(i + 1), t);
            let (l1, r1) = drain_lines(s.skip(i + 1));
            assert(seq![s.take(i)] + (l1 + drain_lines(r1 + t).0) == (seq![s.take(i)] + l1)
                + drain_lines(r1 + t).0);
        },
        None => {
            assert(drain_lines(s) == (Seq::<Seq<char>>::empty(), s));
            assert(Seq::<Seq<char>>::empty() + drain_lines(s + t).0 == drain_lines(s + t).0);
        },
    }
}

/// A data line among two lists is a data line in one of them.
proof fn lemma_any_data_concat(a: Seq<Seq<char>>, b: Seq<Seq<char>>)
    ensures
        any_data_line(a + b) == (any_data_line(a) || any_data_line(b)),
{
    if any_data_line(a + b) {
        let k = choose|k: int| 0 <= k < (a + b).len() && is_data_line(#[trigger] (a + b)[k]);
        if k < a.len() {
            assert(a[k] == (a + b)[k]);
        } else {
            assert(b[k - a.len()] == (a + b)[k]);
        }
    }
    if any_data_line(a) {
        let k = choose|k: int| 0 <= k < a.len() && is_data_line(#[trigger] a[k]);
        assert((a + b)[k] == a[k]);
    }
    if any_data_line(b) {
        let k = choose|k: int| 0 <= k < b.len() && is_data_line(#[trigger] b[k]);
        assert((a + b)[a.len() + k] == b[k]);
    }
}

/// How a body is cut into chunks does not matter: reading `buf + a` and
/// then `b` yields the same payloads, the same unfinished rest and the same
/// sighting of `data:` lines as reading `buf + a + b` at once.
pub proof fn law_chunking_invisible(buf: Seq<char>, a: Seq<char>, b: Seq<char>)
    ensures
        drain_lines(drain_lines(buf + a).1 + b).1 == drain_lines(buf + a + b).1,
        payloads(drain_lines(buf + a).0) + payloads(drain_lines(drain_lines(buf + a).1 + b).0)
            == payloads(drain_lines(buf + a + b).0),
        (any_data_line(drain_lines(buf + a).0) || any_data_line(
            drain_lines(drain_lines(buf + a).1 + b).0,
        )) == any_data_line(drain_lines(buf + a + b).0),
{
    lemma_drain_concat(buf + a, b);
    let l1 = drain_lines(buf + a).0;
    let l2 = drain_lines(drain_lines(buf + a).1 + b).0;
    lemma_payloads_concat(l1, l2);
    lemma_any_data_concat(l1, l2);
}

impl SseLines {
    /// A reader that has seen nothing yet.
    pub fn new() -> (res: SseLines)
        ensures
            res@.buf == Seq::<char>::empty(),
            !res@.saw_sse,
    {
        SseLines { buf: Vec::new(), saw_sse: false }
    }

    /// Takes the next chunk of the body: every line it completes is split
    /// off, and the payloads of its `data:` lines come back in order. The
    /// unfinished rest is kept for the next chunk.
    pub fn push(&mut self, text: &str) -> (res: Vec<String>)
        ensures
            final(self)@.buf == drain_lines(old(self)@.buf + text@).1,
            final(self)@.saw_sse == (old(self)@.saw_sse || any_data_line(
                drain_lines(old(self)@.buf + text@).0,
            )),
            res.deep_view() == payloads(drain_lines(old(self)@.buf + text@).0),
    {
        let mut all: Vec<char> = Vec::new();
        std::mem::swap(&mut all, &mut self.buf);
        let mut t = chars_of(text);
        all.append(&mut t);
        let ghost whole = all@;
        assert(whole == old(self)@.buf + text@);
        let nl = vec!['\n'];
        let mut out: Vec<String> = Vec::new();
        let mut pos: usize = 0;
        let mut saw = self.saw_sse;
        let ghost mut consumed: Seq<Seq<char>> = seq![];
        assert(whole.skip(0) == whole);
        loop
            invariant
                all@ == whole,
                nl@ == seq!['\n'],
                pos <= all.len(),
                drain_lines(whole).0 == consumed + drain_lines(whole.skip(pos as int)).0,
                drain_lines(whole).1 == drain_lines(whole.skip(pos as int)).1,
                out.deep_view() == payloads(consumed),
                saw == (old(self)@.saw_sse || any_data_line(consumed)),
            ensures
                pos <= all.len(),
                drain_lines(whole).0 == consumed,
                drain_lines(whole).1 == whole.skip(pos as int),
            decreases all.len() - pos,
        {
            let ghost s = whole.skip(pos as int);
            proof {
                lemma_first_occurrence_suffix(whole, nl@, pos as int);
                lemma_drain_unfold(s);
            }
            match find_from(&all, &nl, pos) {
                None => {
                    assert(drain_lines(s) == (Seq::<Seq<char>>::empty(), s));
                    assert(consumed + Seq::<Seq<char>>::empty() == consumed);
                    break;
                },
                Some(i) => {
                    let line = sub_chars(&all, pos, i);
                    let (is_data, payload) = payload_of(&line);
                    proof {
                        assert(occurs_at(whole, nl@, i as int));
                        assert(whole.subrange(i as int, i + 1)[0] == '\n');
                        assert(s.take(i - pos) == line@);
                        assert(s.skip(i - pos + 1) == whole.skip(i + 1));
                        assert(consumed + (seq![line@] + drain_lines(whole.skip(i + 1)).0) == consumed.push(line@) + drain_lines(whole.skip(i + 1)).0);
                        assert(consumed.push(line@).drop_last() == consumed);
                        assert(consumed.push(line@).last() == line@);
                        if any_data_line(consumed) {
                            let k = choose|k: int| 0 <= k < consumed.len() && is_data_line(#[trigger] consumed[k]);
                            assert(consumed.push(line@)[k] == consumed[k]);
                        }
                        if is_data_line(line@) {
                            assert(consumed.push(line@)[consumed.len() as int] == line@);
                        }
                        if any_data_line(consumed.push(line@)) {
                            let k = choose|k: int| 0 <= k < consumed.len() + 1 && is_data_line(#[trigger] consumed.push(line@)[k]);
                            if k < consumed.len() {
                                assert(consumed.push(line@)[k] == consumed[k]);
                            }
                        }
                    }
                    if is_data {
                        saw = true;
                    }
                    match payload {
                        Some(p) => out.push(p),
                        None => {},
                    }
                    proof {
                        consumed = consumed.push(line@);
                    }
                    pos = i + 1;
                },
            }
        }
        let rest = sub_chars(&all, pos, all.len());
        assert(rest@ == whole.skip(pos as int));
        self.buf = rest;
        self.saw_sse = saw;
        out
    }

    /// What is left once the body has ended: the whole unfinished text,
    /// trimmed, when no `data:` line was ever seen and the text is not
    /// blank (a plain JSON response); nothing otherwise.
    pub fn remainder(&self) -> (res: Option<String>)
        ensures
            res.deep_view() == (if !self@.saw_sse && trim(self@.buf).len() > 0 {
                Some(trim(self@.buf))
            } else {
                None
            }),
    {
        let (a, b) = trim_bounds(&self.buf);
        if !self.saw_sse && a < b {
            Some(string_of(&self.buf, a, b))
        } else {
            None
        }
    }
}

} // verus!
