//! The web fallback: turning fetched HTML pages into plain text, assembling
//! the pages into one bounded context, and the switches that govern
//! fetching (enabled flag, cache lifetime).
use vstd::prelude::*;
use vstd::utf8::{encode_scalar, encode_utf8};
use crate::text::{
    chars_of, eq_ascii_case, eq_ignore_ascii_case, find_from, first_occurrence, has_prefix,
    lemma_encode_concat_len, lemma_first_occurrence_is, lemma_first_occurrence_none,
    lemma_first_occurrence_suffix, lemma_occurs_shift, lowercase, occurs_at, parse_u64,
    parsed_uint, push_chars, push_str, str_eq, string_of, to_lower, trim, trim_bounds,
    utf8_width, white_space, is_white_space, trim_start, trim_end,
};

verus! {

// ---------------------------------------------------------------------------
// Case-insensitive search and block removal
// ---------------------------------------------------------------------------

/// The number of bytes the first `i` characters of `v` take, when all of
/// `v` takes at most `bound` bytes.
fn byte_offset(v: &Vec<char>, i: usize, bound: usize) -> (res: usize)
    requires
        i <= v.len(),
        byte_len(v@) <= bound,
    ensures
        res == byte_len(v@.take(i as int)),
{
    let mut total: usize = 0;
    let mut k: usize = 0;
    assert(v@.take(0) == Seq::<char>::empty());
    while k < i
        invariant
            k <= i <= v.len(),
            byte_len(v@) <= bound,
            total == byte_len(v@.take(k as int)),
        decreases i - k,
    {
        let w = utf8_width(v[k]);
        proof {
            let a = v@.take(k as int);
            assert(v@.take(k + 1) == a + seq![v@[k as int]]);
            lemma_encode_concat_len(a, seq![v@[k as int]]);
            assert(encode_utf8(seq![v@[k as int]]) == encode_scalar(v@[k as int] as u32)
                + encode_utf8(seq![v@[k as int]].drop_first()));
            if k + 1 < v.len() {
                lemma_byte_len_prefix(v@, k + 1, v.len() as int);
            }
            assert(v@.take(v.len() as int) == v@);
        }
        total = total + w;
        k = k + 1;
    }
    total
}

/// `needle` occurs at position `i` of `s` with case ignored: the characters
/// of `s` from `i` on, as many as the needle has, lowercase to what the
/// needle lowercases to.
pub open spec fn ci_at(s: Seq<char>, needle: Seq<char>, i: int) -> bool {
    &&& 0 <= i
    &&& i + needle.len() <= s.len()
    &&& lowercase(s.subrange(i, i + needle.len())) == lowercase(needle)
}

/// The first position at or after `from` where `needle` occurs in `s` with
/// case ignored.
#[verifier::opaque]
pub open spec fn first_ci(s: Seq<char>, needle: Seq<char>, from: int) -> Option<int> {
    if exists|i: int| from <= i && ci_at(s, needle, i) {
        Some(
            choose|i: int|
                from <= i && ci_at(s, needle, i) && forall|j: int|
                    from <= j < i ==> !ci_at(s, needle, j),
        )
    } else {
        None
    }
}

/// If `needle` occurs at or after `from`, there is a first such occurrence.
proof fn lemma_least_ci(s: Seq<char>, needle: Seq<char>, from: int) -> (i: int)
    requires
        exists|i: int| from <= i && ci_at(s, needle, i),
    ensures
        from <= i,
        ci_at(s, needle, i),
        forall|j: int| from <= j < i ==> !ci_at(s, needle, j),
    decreases s.len() - from,
{
    if ci_at(s, needle, from) {
        from
    } else {
        let w = choose|i: int| from <= i && ci_at(s, needle, i);
        assert(from + 1 <= w);
        lemma_least_ci(s, needle, from + 1)
    }
}

/// The least occurrence at or after `from` is the first one.
proof fn lemma_first_ci_is(s: Seq<char>, needle: Seq<char>, from: int, i: int)
    requires
        from <= i,
        ci_at(s, needle, i),
        forall|j: int| from <= j < i ==> !ci_at(s, needle, j),
    ensures
        first_ci(s, needle, from) == Some(i),
{
    reveal(first_ci);
    let w = choose|w: int|
        from <= w && ci_at(s, needle, w) && forall|j: int| from <= j < w ==> !ci_at(s, needle, j);
    assert(from <= w && ci_at(s, needle, w));
    if w < i {
        assert(!ci_at(s, needle, w));
    } else if w > i {
        assert(!ci_at(s, needle, i));
    }
}

/// Without occurrences at or after `from` there is no first one.
proof fn lemma_first_ci_none(s: Seq<char>, needle: Seq<char>, from: int)
    requires
        forall|j: int| from <= j ==> !ci_at(s, needle, j),
    ensures
        first_ci(s, needle, from) is None,
{
    reveal(first_ci);
}

/// `s` with every block removed that runs from an occurrence of `open` to
/// the end of the next occurrence of `close` at or after it (case ignored
/// in both searches); an unclosed block runs to the end of the text.
#[verifier::opaque]
pub open spec fn without_blocks(s: Seq<char>, open: Seq<char>, close: Seq<char>) -> Seq<char>
    decreases s.len(),
{
    match first_ci(s, open, 0) {
        None => s,
        Some(k) => match first_ci(s, close, k) {
            None => s.take(k),
            Some(j) => if 0 <= k && 0 < j + close.len() <= s.len() {
                s.take(k) + without_blocks(s.skip(j + close.len()), open, close)
            } else {
                s.take(k)
            },
        },
    }
}

/// One step of [`without_blocks`].
proof fn lemma_without_blocks_unfold(s: Seq<char>, open: Seq<char>, close: Seq<char>)
    ensures
        without_blocks(s, open, close) == match first_ci(s, open, 0) {
            None => s,
            Some(k) => match first_ci(s, close, k) {
                None => s.take(k),
                Some(j) => if 0 <= k && 0 < j + close.len() <= s.len() {
                    s.take(k) + without_blocks(s.skip(j + close.len()), open, close)
                } else {
                    s.take(k)
                },
            },
        },
{
    reveal_with_fuel(without_blocks, 1);
}

/// Finds the first position at or after `from` where `n` occurs in `h` with
/// case ignored; `nl` is the lowercased needle.
fn ci_find_from(h: &Vec<char>, n: &Vec<char>, nl: &str, from: usize) -> (res: Option<usize>)
    requires
        nl@ == lowercase(n@),
    ensures
        match res {
            Some(i) => first_ci(h@, n@, from as int) == Some(i as int) && from <= i && ci_at(
                h@,
                n@,
                i as int,
            ),
            None => first_ci(h@, n@, from as int) is None,
        },
{
    if n.len() > h.len() {
        proof {
            lemma_first_ci_none(h@, n@, from as int);
        }
        return None;
    }
    let last = h.len() - n.len();
    if from > last {
        proof {
            lemma_first_ci_none(h@, n@, from as int);
        }
        return None;
    }
    let mut i = from;
    loop
        invariant
            last == h.len() - n.len(),
            n.len() <= h.len(),
            from <= i <= last,
            nl@ == lowercase(n@),
            forall|j: int| from <= j < i ==> !ci_at(h@, n@, j),
        decreases last - i,
    {
        let w = string_of(h, i, i + n.len());
        let wl = to_lower(w.as_str());
        if str_eq(wl.as_str(), nl) {
            proof {
                lemma_first_ci_is(h@, n@, from as int, i as int);
            }
            return Some(i);
        }
        if i == last {
            proof {
                lemma_first_ci_none(h@, n@, from as int);
            }
            return None;
        }
        i = i + 1;
    }
}

/// The byte offset in `haystack` where `needle` first occurs with case
/// ignored (see [`ci_at`]).
pub open spec fn ci_offset(haystack: Seq<char>, needle: Seq<char>) -> Option<int> {
    match first_ci(haystack, needle, 0) {
        Some(i) => Some(byte_len(haystack.take(i))),
        None => None,
    }
}

/// Finds `needle` in `haystack`, ignoring case: the byte offset of the
/// match in `haystack`.
pub fn find_case_insensitive(haystack: &str, needle: &str) -> (res: Option<usize>)
    ensures
        res matches Some(b) ==> ci_offset(haystack@, needle@) == Some(b as int),
        res is None ==> ci_offset(haystack@, needle@) is None,
{
    let hv = chars_of(haystack);
    let nv = chars_of(needle);
    let nl = to_lower(needle);
    let bound = haystack.as_bytes().len();
    match ci_find_from(&hv, &nv, nl.as_str(), 0) {
        Some(i) => Some(byte_offset(&hv, i, bound)),
        None => None,
    }
}

/// Removes every block from `open` to the next `close` (see
/// [`without_blocks`]).
pub fn remove_blocks(s: &str, open: &str, close: &str) -> (res: String)
    requires
        close@.len() > 0,
    ensures
        res@ == without_blocks(s@, open@, close@),
{
    let v = chars_of(s);
    let ov = chars_of(open);
    let cv = chars_of(close);
    let ol = to_lower(open);
    let cl = to_lower(close);
    let mut result = String::new();
    let mut pos: usize = 0;
    assert(v@.skip(0) == v@);
    loop
        invariant
            v@ == s@,
            ov@ == open@,
            cv@ == close@,
            ol@ == lowercase(open@),
            cl@ == lowercase(close@),
            close@.len() > 0,
            pos <= v.len(),
            without_blocks(s@, open@, close@) == result@ + without_blocks(
                v@.skip(pos as int),
                open@,
                close@,
            ),
        decreases v.len() - pos,
    {
        let rest = chars_of(string_of(&v, pos, v.len()).as_str());
        assert(rest@ == v@.skip(pos as int));
        proof {
            lemma_without_blocks_unfold(rest@, open@, close@);
        }
        match ci_find_from(&rest, &ov, ol.as_str(), 0) {
            None => {
                push_chars(&mut result, &v, pos, v.len());
                assert(v@.subrange(pos as int, v.len() as int) == rest@);
                return result;
            },
            Some(k) => {
                push_chars(&mut result, &v, pos, pos + k);
                assert(v@.subrange(pos as int, pos + k) == rest@.take(k as int));
                match ci_find_from(&rest, &cv, cl.as_str(), k) {
                    None => {
                        return result;
                    },
                    Some(j) => {
                        assert(rest@.skip(j + cv.len()) == v@.skip(pos + j + cv.len()));
                        pos = pos + j + cv.len();
                    },
                }
            },
        }
    }
}

// ---------------------------------------------------------------------------
// Replacing substrings
// ---------------------------------------------------------------------------

/// `s` with every occurrence of `from`, scanning left to right without
/// overlap, replaced by `to` (what `str::replace` does for a non-empty
/// pattern).
#[verifier::opaque]
pub open spec fn replaced(s: Seq<char>, from: Seq<char>, to: Seq<char>) -> Seq<char>
    decreases s.len(),
{
    if from.len() == 0 {
        s
    } else {
        match first_occurrence(s, from, 0) {
            None => s,
            Some(i) => if 0 <= i && i + from.len() <= s.len() {
                s.take(i) + to + replaced(s.skip(i + from.len()), from, to)
            } else {
                s
            },
        }
    }
}

/// One step of [`replaced`].
proof fn lemma_replaced_unfold(s: Seq<char>, from: Seq<char>, to: Seq<char>)
    requires
        from.len() > 0,
    ensures
        replaced(s, from, to) == match first_occurrence(s, from, 0) {
            None => s,
            Some(i) => if 0 <= i && i + from.len() <= s.len() {
                s.take(i) + to + replaced(s.skip(i + from.len()), from, to)
            } else {
                s
            },
        },
{
    reveal_with_fuel(replaced, 1);
}

/// [`replaced`] on a suffix without further occurrences is the suffix.
proof fn lemma_replaced_none(v: Seq<char>, f: Seq<char>, to: Seq<char>, pos: int)
    requires
        0 <= pos <= v.len(),
        f.len() > 0,
        first_occurrence(v, f, pos) is None,
    ensures
        replaced(v.skip(pos), f, to) == v.skip(pos),
{
    lemma_first_occurrence_suffix(v, f, pos);
    lemma_replaced_unfold(v.skip(pos), f, to);
}

/// One step of [`replaced`] on the suffix of `v` from `pos`, whose first
/// occurrence is at `i`.
proof fn lemma_replaced_some(v: Seq<char>, f: Seq<char>, to: Seq<char>, pos: int, i: int)
    requires
        0 <= pos <= i,
        f.len() > 0,
        first_occurrence(v, f, pos) == Some(i),
        occurs_at(v, f, i),
    ensures
        replaced(v.skip(pos), f, to) == v.subrange(pos, i) + to + replaced(
            v.skip(i + f.len()),
            f,
            to,
        ),
{
    let u = v.skip(pos);
    lemma_first_occurrence_suffix(v, f, pos);
    assert(first_occurrence(u, f, 0) == Some(i - pos));
    lemma_occurs_shift(v, f, pos, i - pos);
    assert(occurs_at(u, f, i - pos));
    let k = i - pos;
    assert(0 <= k && k + f.len() <= u.len());
    lemma_replaced_unfold(u, f, to);
    assert(replaced(u, f, to) == u.take(k) + to + replaced(u.skip(k + f.len()), f, to));
    assert(u.take(k) == v.subrange(pos, i));
    assert(u.skip(k + f.len()) == v.skip(i + f.len()));
}

/// Replaces every occurrence of `from` in `s` by `to`.
pub fn replace_all(s: &str, from: &str, to: &str) -> (res: String)
    requires
        from@.len() > 0,
    ensures
        res@ == replaced(s@, from@, to@),
{
    let v = chars_of(s);
    let f = chars_of(from);
    let mut out = String::new();
    let mut pos: usize = 0;
    assert(v@.skip(0) == v@);
    loop
        invariant
            v@ == s@,
            f@ == from@,
            f.len() > 0,
            pos <= v.len(),
            replaced(s@, from@, to@) == out@ + replaced(v@.skip(pos as int), from@, to@),
        decreases v.len() - pos,
    {
        match find_from(&v, &f, pos) {
            None => {
                proof {
                    lemma_replaced_none(v@, f@, to@, pos as int);
                }
                push_chars(&mut out, &v, pos, v.len());
                assert(v@.subrange(pos as int, v.len() as int) == v@.skip(pos as int));
                return out;
            },
            Some(i) => {
                proof {
                    lemma_replaced_some(v@, f@, to@, pos as int, i as int);
                }
                push_chars(&mut out, &v, pos, i);
                push_str(&mut out, to);
                pos = i + f.len();
            },
        }
    }
}

// ---------------------------------------------------------------------------
// Tags, entities and white space
// ---------------------------------------------------------------------------

/// Whether the scan is inside a tag after reading `s`: the last `<` or `>`
/// seen was a `<`.
pub open spec fn in_tag_after(s: Seq<char>) -> bool
    decreases s.len(),
{
    if s.len() == 0 {
        false
    } else if s.last() == '<' {
        true
    } else if s.last() == '>' {
        false
    } else {
        in_tag_after(s.drop_last())
    }
}

/// `s` without its tags: `<` and `>` are dropped, and so is every
/// character read while inside a tag.
pub open spec fn without_tags(s: Seq<char>) -> Seq<char>
    decreases s.len(),
{
    if s.len() == 0 {
        seq![]
    } else {
        let r = without_tags(s.drop_last());
        let c = s.last();
        if c == '<' || c == '>' || in_tag_after(s.drop_last()) {
            r
        } else {
            r.push(c)
        }
    }
}

/// Drops all tags (see [`without_tags`]).
fn strip_tags(v: &Vec<char>) -> (res: String)
    ensures
        res@ == without_tags(v@),
{
    let mut out = String::new();
    let mut in_tag = false;
    let mut i: usize = 0;
    while i < v.len()
        invariant
            i <= v.len(),
            out@ == without_tags(v@.take(i as int)),
            in_tag == in_tag_after(v@.take(i as int)),
        decreases v.len() - i,
    {
        let ghost t = v@.take(i + 1);
        assert(t.drop_last() == v@.take(i as int));
        assert(t.last() == v@[i as int]);
        let c = v[i];
        if c == '<' {
            in_tag = true;
        } else if c == '>' {
            in_tag = false;
        } else if !in_tag {
            out.push(c);
        }
        i = i + 1;
    }
    assert(v@.take(v.len() as int) == v@);
    out
}

/// `s` with each white space run turned into one space.
pub open spec fn collapse_ws(s: Seq<char>) -> Seq<char>
    decreases s.len(),
{
    if s.len() == 0 {
        seq![]
    } else {
        let r = collapse_ws(s.drop_last());
        let c = s.last();
        if white_space(c) {
            if s.len() >= 2 && white_space(s[s.len() - 2]) {
                r
            } else {
                r.push(' ')
            }
        } else {
            r.push(c)
        }
    }
}

/// Collapses white space runs (see [`collapse_ws`]).
fn collapse_white_space(v: &Vec<char>) -> (res: Vec<char>)
    ensures
        res@ == collapse_ws(v@),
{
    let mut out: Vec<char> = Vec::new();
    let mut prev_ws = false;
    let mut i: usize = 0;
    while i < v.len()
        invariant
            i <= v.len(),
            out@ == collapse_ws(v@.take(i as int)),
            prev_ws == (i >= 1 && white_space(v@[i - 1])),
        decreases v.len() - i,
    {
        let ghost t = v@.take(i + 1);
        assert(t.drop_last() == v@.take(i as int));
        assert(t.last() == v@[i as int]);
        proof {
            if i >= 1 {
                assert(t[t.len() - 2] == v@[i - 1]);
            }
        }
        let c = v[i];
        if is_white_space(c) {
            if !prev_ws {
                out.push(' ');
            }
            prev_ws = true;
        } else {
            out.push(c);
            prev_ws = false;
        }
        i = i + 1;
    }
    assert(v@.take(v.len() as int) == v@);
    out
}

/// The text of the `&amp;` entity.
pub open spec fn entity_amp() -> Seq<char> { seq!['&', 'a', 'm', 'p', ';'] }

/// The text of the `&lt;` entity.
pub open spec fn entity_lt() -> Seq<char> { seq!['&', 'l', 't', ';'] }

/// The text of the `&gt;` entity.
pub open spec fn entity_gt() -> Seq<char> { seq!['&', 'g', 't', ';'] }

/// The text of the `&quot;` entity.
pub open spec fn entity_quot() -> Seq<char> { seq!['&', 'q', 'u', 'o', 't', ';'] }

/// The text of the `&#39;` entity.
pub open spec fn entity_39() -> Seq<char> { seq!['&', '#', '3', '9', ';'] }

/// The text of the `&nbsp;` entity.
pub open spec fn entity_nbsp() -> Seq<char> { seq!['&', 'n', 'b', 's', 'p', ';'] }

/// The text of the `&apos;` entity.
pub open spec fn entity_apos() -> Seq<char> { seq!['&', 'a', 'p', 'o', 's', ';'] }

/// The entity `s` starts with, and the character it stands for.
pub open spec fn leading_entity(s: Seq<char>) -> Option<(Seq<char>, char)> {
    if has_prefix(s, entity_amp()) {
        Some((entity_amp(), '&'))
    } else if has_prefix(s, entity_lt()) {
        Some((entity_lt(), '<'))
    } else if has_prefix(s, entity_gt()) {
        Some((entity_gt(), '>'))
    } else if has_prefix(s, entity_quot()) {
        Some((entity_quot(), '"'))
    } else if has_prefix(s, entity_39()) {
        Some((entity_39(), '\''))
    } else if has_prefix(s, entity_nbsp()) {
        Some((entity_nbsp(), ' '))
    } else if has_prefix(s, entity_apos()) {
        Some((entity_apos(), '\''))
    } else {
        None
    }
}

/// `s` with the common entities (`&amp;`, `&lt;`, `&gt;`, `&quot;`,
/// `&#39;`, `&nbsp;`, `&apos;`) decoded in one left-to-right pass: each
/// entity of the text becomes its character once, and what a decoding
/// produces is not decoded again.
pub open spec fn entities_decoded(s: Seq<char>) -> Seq<char>
    decreases s.len(),
{
    if s.len() == 0 {
        seq![]
    } else {
        match leading_entity(s) {
            Some((e, c)) => if 0 < e.len() <= s.len() {
                seq![c] + entities_decoded(s.skip(e.len() as int))
            } else {
                seq![s[0]] + entities_decoded(s.drop_first())
            },
            None => seq![s[0]] + entities_decoded(s.drop_first()),
        }
    }
}

/// Whether `v` has `e` at position `i`.
fn has_at(v: &Vec<char>, e: &Vec<char>, i: usize) -> (res: bool)
    requires
        i <= v.len(),
    ensures
        res == has_prefix(v@.skip(i as int), e@),
{
    if e.len() > v.len() - i {
        return false;
    }
    let r = crate::text::matches_at(v, e, i);
    assert(v@.skip(i as int).take(e.len() as int) == v@.subrange(i as int, i + e.len()));
    r
}

/// Decodes the common entities of `v` (see [`entities_decoded`]).
fn decode_entities(v: &Vec<char>) -> (res: String)
    ensures
        res@ == entities_decoded(v@),
{
    let amp = vec!['&', 'a', 'm', 'p', ';'];
    let lt = vec!['&', 'l', 't', ';'];
    let gt = vec!['&', 'g', 't', ';'];
    let quot = vec!['&', 'q', 'u', 'o', 't', ';'];
    let n39 = vec!['&', '#', '3', '9', ';'];
    let nbsp = vec!['&', 'n', 'b', 's', 'p', ';'];
    let apos = vec!['&', 'a', 'p', 'o', 's', ';'];
    let mut out = String::new();
    let mut i: usize = 0;
    assert(v@.skip(0) == v@);
    while i < v.len()
        invariant
            i <= v.len(),
            amp@ == entity_amp(),
            lt@ == entity_lt(),
            gt@ == entity_gt(),
            quot@ == entity_quot(),
            n39@ == entity_39(),
            nbsp@ == entity_nbsp(),
            apos@ == entity_apos(),
            entities_decoded(v@) == out@ + entities_decoded(v@.skip(i as int)),
        decreases v.len() - i,
    {
        let ghost rest = v@.skip(i as int);
        let (c, n): (char, usize) = if has_at(v, &amp, i) {
            ('&', 5)
        } else if has_at(v, &lt, i) {
            ('<', 4)
        } else if has_at(v, &gt, i) {
            ('>', 4)
        } else if has_at(v, &quot, i) {
            ('"', 6)
        } else if has_at(v, &n39, i) {
            ('\'', 5)
        } else if has_at(v, &nbsp, i) {
            (' ', 6)
        } else if has_at(v, &apos, i) {
            ('\'', 6)
        } else {
            (v[i], 1)
        };
        proof {
            assert(rest.len() > 0);
            assert(rest[0] == v@[i as int]);
            assert(rest.drop_first() == v@.skip(i + 1));
            assert(rest.skip(n as int) == v@.skip(i + n));
            assert(entities_decoded(rest) == seq![c] + entities_decoded(v@.skip(i + n)));
        }
        let ghost before = out@;
        out.push(c);
        assert(out@ == before + seq![c]);
        i = i + n;
    }
    assert(v@.skip(i as int).len() == 0);
    assert(out@ + Seq::<char>::empty() == out@);
    out
}

/// Block-level tag openings turned into spaces, in this order.
pub open spec fn breaks_spaced(s: Seq<char>) -> Seq<char> {
    let s1 = replaced(s, "<br"@, " "@);
    let s2 = replaced(s1, "<p"@, " "@);
    let s3 = replaced(s2, "<div"@, " "@);
    let s4 = replaced(s3, "<li"@, " "@);
    let s5 = replaced(s4, "<tr"@, " "@);
    let s6 = replaced(s5, "<td"@, " "@);
    let s7 = replaced(s6, "<th"@, " "@);
    let s8 = replaced(s7, "<h1"@, " "@);
    let s9 = replaced(s8, "<h2"@, " "@);
    let s10 = replaced(s9, "<h3"@, " "@);
    let s11 = replaced(s10, "<h4"@, " "@);
    let s12 = replaced(s11, "<h5"@, " "@);
    replaced(s12, "<h6"@, " "@)
}

/// Scripts, styles, the head, SVG images and comments removed, in this
/// order.
pub open spec fn blocks_removed(s: Seq<char>) -> Seq<char> {
    let s1 = without_blocks(s, "<script"@, "</script>"@);
    let s2 = without_blocks(s1, "<style"@, "</style>"@);
    let s3 = without_blocks(s2, "<head"@, "</head>"@);
    let s4 = without_blocks(s3, "<svg"@, "</svg>"@);
    without_blocks(s4, "<!--"@, "-->"@)
}

/// The plain text of an HTML page: non-content blocks removed, block tags
/// turned into spaces, remaining tags dropped, common entities decoded,
/// white space collapsed and trimmed.
pub open spec fn html_text(html: Seq<char>) -> Seq<char> {
    trim(collapse_ws(entities_decoded(without_tags(breaks_spaced(blocks_removed(html))))))
}

/// Extracts the plain text of an HTML page (see [`html_text`]).
pub fn strip_html(html: &str) -> (res: String)
    ensures
        res@ == html_text(html@),
{
    proof {
        reveal_strlit("</script>");
        reveal_strlit("</style>");
        reveal_strlit("</head>");
        reveal_strlit("</svg>");
        reveal_strlit("-->");
        reveal_strlit("<br");
        reveal_strlit("<p");
        reveal_strlit("<div");
        reveal_strlit("<li");
        reveal_strlit("<tr");
        reveal_strlit("<td");
        reveal_strlit("<th");
        reveal_strlit("<h1");
        reveal_strlit("<h2");
        reveal_strlit("<h3");
        reveal_strlit("<h4");
        reveal_strlit("<h5");
        reveal_strlit("<h6");
    }
    let s = remove_blocks(html, "<script", "</script>");
    let s = remove_blocks(s.as_str(), "<style", "</style>");
    let s = remove_blocks(s.as_str(), "<head", "</head>");
    let s = remove_blocks(s.as_str(), "<svg", "</svg>");
    let s = remove_blocks(s.as_str(), "<!--", "-->");
    let s = replace_all(s.as_str(), "<br", " ");
    let s = replace_all(s.as_str(), "<p", " ");
    let s = replace_all(s.as_str(), "<div", " ");
    let s = replace_all(s.as_str(), "<li", " ");
    let s = replace_all(s.as_str(), "<tr", " ");
    let s = replace_all(s.as_str(), "<td", " ");
    let s = replace_all(s.as_str(), "<th", " ");
    let s = replace_all(s.as_str(), "<h1", " ");
    let s = replace_all(s.as_str(), "<h2", " ");
    let s = replace_all(s.as_str(), "<h3", " ");
    let s = replace_all(s.as_str(), "<h4", " ");
    let s = replace_all(s.as_str(), "<h5", " ");
    let s = replace_all(s.as_str(), "<h6", " ");
    let tagged = chars_of(s.as_str());
    let s = strip_tags(&tagged);
    let v = chars_of(s.as_str());
    let s = decode_entities(&v);
    let v = chars_of(s.as_str());
    let c = collapse_white_space(&v);
    let (a, b) = trim_bounds(&c);
    string_of(&c, a, b)
}

// ---------------------------------------------------------------------------
// Block tags keep words apart
// ---------------------------------------------------------------------------

/// A word of plain text: not empty, without white space and without any of
/// `<`, `>` and `&`.
pub open spec fn plain_word(w: Seq<char>) -> bool {
    &&& w.len() > 0
    &&& forall|i: int|
        #![trigger w[i]]
        0 <= i < w.len() ==> w[i] != '<' && w[i] != '>' && w[i] != '&' && !white_space(w[i])
}

/// The markup of a list of two items, `a` and `b`.
pub open spec fn two_item_list(a: Seq<char>, b: Seq<char>) -> Seq<char> {
    seq!['<', 'u', 'l', '>', '<', 'l', 'i', '>'] + a + seq!['<', '/', 'l', 'i', '>', '<', 'l', 'i', '>']
        + b + seq!['<', '/', 'l', 'i', '>', '<', '/', 'u', 'l', '>']
}

/// Every `<` of `s` is followed by a character that `ok` accepts.
spec fn lt_followed(s: Seq<char>, ok: spec_fn(char) -> bool) -> bool {
    forall|i: int| #![trigger s[i]] 0 <= i < s.len() && s[i] == '<' ==> i + 1 < s.len() && ok(s[i + 1])
}

/// [`lt_followed`] holds of a concatenation when it holds of both parts.
proof fn lemma_lt_followed_concat(u: Seq<char>, v: Seq<char>, ok: spec_fn(char) -> bool)
    requires
        lt_followed(u, ok),
        lt_followed(v, ok),
    ensures
        lt_followed(u + v, ok),
{
    let w = u + v;
    assert forall|i: int| #![trigger w[i]] 0 <= i < w.len() && w[i] == '<' implies i + 1 < w.len()
        && ok(w[i + 1]) by {
        if i < u.len() {
            assert(w[i] == u[i]);
            assert(w[i + 1] == u[i + 1]);
        } else {
            assert(w[i] == v[i - u.len()]);
            assert(w[i + 1] == v[i + 1 - u.len()]);
        }
    }
}

/// A text without `<` satisfies [`lt_followed`] for any `ok`.
proof fn lemma_lt_followed_none(s: Seq<char>, ok: spec_fn(char) -> bool)
    requires
        forall|i: int| 0 <= i < s.len() ==> #[trigger] s[i] != '<',
    ensures
        lt_followed(s, ok),
{
}

/// A pattern `<x..` does not occur where no `<` is followed by `x`, so
/// replacing it changes nothing.
proof fn lemma_replaced_absent(s: Seq<char>, n: Seq<char>, to: Seq<char>, ok: spec_fn(char) -> bool)
    requires
        n.len() >= 2,
        n[0] == '<',
        lt_followed(s, ok),
        !ok(n[1]),
    ensures
        replaced(s, n, to) == s,
{
    assert forall|j: int| 0 <= j implies !occurs_at(s, n, j) by {
        if occurs_at(s, n, j) {
            assert(s.subrange(j, j + n.len())[0] == s[j]);
            assert(s.subrange(j, j + n.len())[1] == s[j + 1]);
        }
    }
    lemma_first_occurrence_none(s, n, 0);
    lemma_replaced_unfold(s, n, to);
}

/// Replacing a pattern `<x..` in `x + n + y`, where every `<` of `x` is
/// followed (inside `x`) by a character other than `x`.
proof fn lemma_replaced_first(
    s: Seq<char>,
    x: Seq<char>,
    n: Seq<char>,
    y: Seq<char>,
    to: Seq<char>,
    ok: spec_fn(char) -> bool,
)
    requires
        s == x + n + y,
        n.len() >= 2,
        n[0] == '<',
        lt_followed(x, ok),
        !ok(n[1]),
    ensures
        replaced(s, n, to) == x + to + replaced(y, n, to),
{
    assert forall|j: int| 0 <= j < x.len() implies !occurs_at(s, n, j) by {
        assert(s[j] == x[j]);
        if occurs_at(s, n, j) {
            assert(s.subrange(j, j + n.len())[0] == s[j]);
            assert(s.subrange(j, j + n.len())[1] == s[j + 1]);
            assert(s[j + 1] == x[j + 1]);
        }
    }
    assert(s.subrange(x.len() as int, (x.len() + n.len()) as int) =~= n);
    assert(occurs_at(s, n, x.len() as int));
    lemma_first_occurrence_is(s, n, 0, x.len() as int);
    lemma_replaced_unfold(s, n, to);
    assert(s.take(x.len() as int) =~= x);
    assert(s.skip((x.len() + n.len()) as int) =~= y);
}

/// The markup of a tag: `<`, its name and attributes, `>`.
pub open spec fn tag(name: Seq<char>) -> Seq<char> {
    seq!['<'] + name + seq!['>']
}

/// A tag whose name starts with a character `ok` accepts satisfies
/// [`lt_followed`].
proof fn lemma_lt_followed_tag(name: Seq<char>, ok: spec_fn(char) -> bool)
    requires
        name.len() > 0,
        ok(name[0]),
        forall|i: int| 0 <= i < name.len() ==> #[trigger] name[i] != '<',
    ensures
        lt_followed(tag(name), ok),
{
    let t = tag(name);
    assert forall|i: int| #![trigger t[i]] 0 <= i < t.len() && t[i] == '<' implies i + 1 < t.len()
        && ok(t[i + 1]) by {
        if i == 0 {
            assert(t[1] == name[0]);
        } else if i <= name.len() {
            assert(t[i] == name[i - 1]);
        } else {
            assert(t[i] == '>');
        }
    }
}

/// Adding one character to the text read so far: whether the scan is then
/// inside a tag, and what it keeps.
proof fn lemma_tags_push(x: Seq<char>, c: char)
    ensures
        in_tag_after(x.push(c)) == (c == '<' || (c != '>' && in_tag_after(x))),
        without_tags(x.push(c)) == if c == '<' || c == '>' || in_tag_after(x) {
            without_tags(x)
        } else {
            without_tags(x).push(c)
        },
{
    assert(x.push(c).drop_last() =~= x);
}

/// Text without `<` and `>` is kept outside tags and dropped inside them.
proof fn lemma_tags_plain(x: Seq<char>, y: Seq<char>)
    requires
        forall|i: int| 0 <= i < y.len() ==> #[trigger] y[i] != '<' && y[i] != '>',
    ensures
        in_tag_after(x + y) == in_tag_after(x),
        without_tags(x + y) == if in_tag_after(x) {
            without_tags(x)
        } else {
            without_tags(x) + y
        },
    decreases y.len(),
{
    if y.len() == 0 {
        assert(x + y =~= x);
        assert(without_tags(x) + y =~= without_tags(x));
    } else {
        let y0 = y.drop_last();
        lemma_tags_plain(x, y0);
        assert(x + y =~= (x + y0).push(y.last()));
        lemma_tags_push(x + y0, y.last());
        assert(without_tags(x) + y =~= (without_tags(x) + y0).push(y.last()));
    }
}

/// A whole tag keeps nothing and leaves the scan outside tags.
proof fn lemma_tags_tag(x: Seq<char>, name: Seq<char>)
    requires
        forall|i: int| 0 <= i < name.len() ==> #[trigger] name[i] != '<' && name[i] != '>',
    ensures
        !in_tag_after(x + tag(name)),
        without_tags(x + tag(name)) == without_tags(x),
{
    let x1 = x.push('<');
    lemma_tags_push(x, '<');
    lemma_tags_plain(x1, name);
    lemma_tags_push(x1 + name, '>');
    assert(x + tag(name) =~= (x1 + name).push('>'));
}

/// Text without `&` has no entity to decode.
proof fn lemma_no_entities(s: Seq<char>)
    requires
        forall|i: int| 0 <= i < s.len() ==> #[trigger] s[i] != '&',
    ensures
        entities_decoded(s) == s,
    decreases s.len(),
{
    if s.len() > 0 {
        assert(s[0] != '&');
        assert(leading_entity(s) is None) by {
            if has_prefix(s, entity_amp()) { assert(s.take(5)[0] == s[0]); }
            if has_prefix(s, entity_lt()) { assert(s.take(4)[0] == s[0]); }
            if has_prefix(s, entity_gt()) { assert(s.take(4)[0] == s[0]); }
            if has_prefix(s, entity_quot()) { assert(s.take(6)[0] == s[0]); }
            if has_prefix(s, entity_39()) { assert(s.take(5)[0] == s[0]); }
            if has_prefix(s, entity_nbsp()) { assert(s.take(6)[0] == s[0]); }
            if has_prefix(s, entity_apos()) { assert(s.take(6)[0] == s[0]); }
        }
        lemma_no_entities(s.drop_first());
        assert(seq![s[0]] + s.drop_first() =~= s);
    }
}

/// Text whose only white space is single spaces is left as it is by
/// [`collapse_ws`].
proof fn lemma_collapse_single_spaces(s: Seq<char>)
    requires
        forall|i: int|
            #![trigger s[i]]
            0 <= i < s.len() && white_space(s[i]) ==> s[i] == ' ' && (i > 0 ==> !white_space(
                s[i - 1],
            )),
    ensures
        collapse_ws(s) == s,
    decreases s.len(),
{
    if s.len() > 0 {
        let s0 = s.drop_last();
        assert forall|i: int|
            #![trigger s0[i]]
            0 <= i < s0.len() && white_space(s0[i]) implies s0[i] == ' ' && (i > 0
                ==> !white_space(s0[i - 1])) by {
            assert(s0[i] == s[i]);
            if i > 0 {
                assert(s0[i - 1] == s[i - 1]);
            }
        }
        lemma_collapse_single_spaces(s0);
        let c = s.last();
        if white_space(c) {
            assert(s[s.len() - 1] == c);
            if s.len() >= 2 {
                assert(!white_space(s[s.len() - 2]));
            }
        }
        assert(s0.push(c) =~= s);
    }
}

/// The two-item list after the block tags became spaces: `<li` turned into
/// a space before each item.
spec fn spaced_two_items(a: Seq<char>, b: Seq<char>) -> Seq<char> {
    tag(seq!['u', 'l']) + seq![' ', '>'] + a + tag(seq!['/', 'l', 'i']) + seq![' ', '>'] + b + tag(
        seq!['/', 'l', 'i'],
    ) + tag(seq!['/', 'u', 'l'])
}

/// What [`breaks_spaced`] makes of a list of two items.
proof fn lemma_breaks_two_items(a: Seq<char>, b: Seq<char>)
    requires
        plain_word(a),
        plain_word(b),
    ensures
        breaks_spaced(two_item_list(a, b)) == spaced_two_items(a, b),
{
    reveal_strlit("<br");
    reveal_strlit("<p");
    reveal_strlit("<div");
    reveal_strlit("<li");
    reveal_strlit("<tr");
    reveal_strlit("<td");
    reveal_strlit("<th");
    reveal_strlit("<h1");
    reveal_strlit("<h2");
    reveal_strlit("<h3");
    reveal_strlit("<h4");
    reveal_strlit("<h5");
    reveal_strlit("<h6");
    reveal_strlit(" ");
    let ul = seq!['u', 'l'];
    let li = seq!['l', 'i'];
    let cli = seq!['/', 'l', 'i'];
    let cul = seq!['/', 'u', 'l'];
    let gt = seq!['>'];
    let sp = seq![' '];
    let s0 = two_item_list(a, b);
    assert(s0 =~= tag(ul) + tag(li) + a + tag(cli) + tag(li) + b + tag(cli) + tag(cul));
    // Before `<li` is replaced, every `<` is followed by `u`, `l` or `/`.
    let pre = |c: char| c == 'u' || c == 'l' || c == '/';
    lemma_lt_followed_tag(ul, pre);
    lemma_lt_followed_tag(li, pre);
    lemma_lt_followed_tag(cli, pre);
    lemma_lt_followed_tag(cul, pre);
    lemma_lt_followed_none(a, pre);
    lemma_lt_followed_none(b, pre);
    lemma_lt_followed_concat(tag(ul), tag(li), pre);
    lemma_lt_followed_concat(tag(ul) + tag(li), a, pre);
    lemma_lt_followed_concat(tag(ul) + tag(li) + a, tag(cli), pre);
    lemma_lt_followed_concat(tag(ul) + tag(li) + a + tag(cli), tag(li), pre);
    lemma_lt_followed_concat(tag(ul) + tag(li) + a + tag(cli) + tag(li), b, pre);
    lemma_lt_followed_concat(tag(ul) + tag(li) + a + tag(cli) + tag(li) + b, tag(cli), pre);
    lemma_lt_followed_concat(
        tag(ul) + tag(li) + a + tag(cli) + tag(li) + b + tag(cli),
        tag(cul),
        pre,
    );
    assert(lt_followed(s0, pre));
    lemma_replaced_absent(s0, "<br"@, " "@, pre);
    lemma_replaced_absent(s0, "<p"@, " "@, pre);
    lemma_replaced_absent(s0, "<div"@, " "@, pre);
    // `<li` is replaced twice; afterwards every `<` is followed by `u` or `/`.
    let post = |c: char| c == 'u' || c == '/';
    let n = "<li"@;
    assert(n =~= seq!['<', 'l', 'i']);
    let x = tag(ul);
    let xp = gt + a + tag(cli);
    let yp = gt + b + tag(cli) + tag(cul);
    let y = xp + n + yp;
    assert(s0 =~= x + n + y);
    lemma_lt_followed_tag(ul, post);
    lemma_lt_followed_tag(cli, post);
    lemma_lt_followed_tag(cul, post);
    lemma_lt_followed_none(a, post);
    lemma_lt_followed_none(b, post);
    lemma_lt_followed_none(gt, post);
    lemma_lt_followed_none(sp, post);
    lemma_lt_followed_concat(gt, a, post);
    lemma_lt_followed_concat(gt + a, tag(cli), post);
    lemma_lt_followed_concat(gt, b, post);
    lemma_lt_followed_concat(gt + b, tag(cli), post);
    lemma_lt_followed_concat(gt + b + tag(cli), tag(cul), post);
    lemma_replaced_first(s0, x, n, y, " "@, post);
    lemma_replaced_first(y, xp, n, yp, " "@, post);
    lemma_replaced_absent(yp, n, " "@, post);
    let t = x + sp + (xp + sp + yp);
    assert(replaced(s0, n, " "@) =~= t);
    lemma_lt_followed_concat(x, sp, post);
    lemma_lt_followed_concat(xp, sp, post);
    lemma_lt_followed_concat(xp + sp, yp, post);
    lemma_lt_followed_concat(x + sp, xp + sp + yp, post);
    assert(lt_followed(t, post));
    lemma_replaced_absent(t, "<tr"@, " "@, post);
    lemma_replaced_absent(t, "<td"@, " "@, post);
    lemma_replaced_absent(t, "<th"@, " "@, post);
    lemma_replaced_absent(t, "<h1"@, " "@, post);
    lemma_replaced_absent(t, "<h2"@, " "@, post);
    lemma_replaced_absent(t, "<h3"@, " "@, post);
    lemma_replaced_absent(t, "<h4"@, " "@, post);
    lemma_replaced_absent(t, "<h5"@, " "@, post);
    lemma_replaced_absent(t, "<h6"@, " "@, post);
    assert(t =~= spaced_two_items(a, b));
}

/// The last stages of [`html_text`] on two plain words separated by a
/// space, with or without a space in front: nothing to decode, white space
/// already single, and trimming leaves the two words and the space between.
proof fn lemma_words_spaced(a: Seq<char>, b: Seq<char>)
    requires
        plain_word(a),
        plain_word(b),
    ensures
        trim(collapse_ws(entities_decoded(seq![' '] + a + seq![' '] + b))) == a + seq![' '] + b,
        trim(collapse_ws(entities_decoded(a + seq![' '] + b))) == a + seq![' '] + b,
{
    let sp = seq![' '];
    let r = sp + a + sp + b;
    // No entity to decode, white space already single.
    assert forall|i: int| 0 <= i < r.len() implies #[trigger] r[i] != '&' by {
        if 1 <= i <= a.len() {
            assert(r[i] == a[i - 1]);
        } else if i > a.len() + 1 {
            assert(r[i] == b[i - a.len() - 2]);
        }
    }
    lemma_no_entities(r);
    assert forall|i: int|
        #![trigger r[i]]
        0 <= i < r.len() && white_space(r[i]) implies r[i] == ' ' && (i > 0 ==> !white_space(
            r[i - 1],
        )) by {
        if 1 <= i <= a.len() {
            assert(r[i] == a[i - 1]);
        } else if i > a.len() + 1 {
            assert(r[i] == b[i - a.len() - 2]);
        } else if i == a.len() + 1 {
            assert(r[i - 1] == a[a.len() - 1]);
        }
    }
    lemma_collapse_single_spaces(r);
    // Trimming drops the leading space only.
    let w = a + sp + b;
    assert(r.drop_first() =~= w);
    assert(white_space(r[0]));
    assert(trim_start(r) == trim_start(w));
    assert(w[0] == a[0]);
    assert(trim_start(w) == w);
    assert(w.last() == b[b.len() - 1]);
    assert(trim_end(w) == w);
    // The same without the leading space.
    assert forall|i: int| 0 <= i < w.len() implies #[trigger] w[i] != '&' by {
        if i < a.len() {
            assert(w[i] == a[i]);
        } else if i > a.len() {
            assert(w[i] == b[i - a.len() - 1]);
        }
    }
    lemma_no_entities(w);
    assert forall|i: int|
        #![trigger w[i]]
        0 <= i < w.len() && white_space(w[i]) implies w[i] == ' ' && (i > 0 ==> !white_space(
            w[i - 1],
        )) by {
        if i < a.len() {
            assert(w[i] == a[i]);
        } else if i > a.len() {
            assert(w[i] == b[i - a.len() - 1]);
        } else {
            assert(w[i - 1] == a[a.len() - 1]);
        }
    }
    lemma_collapse_single_spaces(w);
    assert(trim_start(w) == w);
}

/// Block tags keep words apart: a page that is, once its non-content
/// blocks (scripts, styles, the head, SVG images, comments) are removed, a
/// list of two items gives as its text the two items as separate words, in
/// order; the list tags never glue the items together.
pub proof fn law_list_items_stay_apart(html: Seq<char>, a: Seq<char>, b: Seq<char>)
    requires
        plain_word(a),
        plain_word(b),
        blocks_removed(html) == two_item_list(a, b),
    ensures
        html_text(html) == a + seq![' '] + b,
{
    lemma_breaks_two_items(a, b);
    let ul = seq!['u', 'l'];
    let cli = seq!['/', 'l', 'i'];
    let cul = seq!['/', 'u', 'l'];
    let gt = seq!['>'];
    let sp = seq![' '];
    assert forall|i: int| 0 <= i < a.len() implies #[trigger] a[i] != '<' && a[i] != '>' by {}
    assert forall|i: int| 0 <= i < b.len() implies #[trigger] b[i] != '<' && b[i] != '>' by {}
    // Dropping the tags leaves a space before each item.
    let e = Seq::<char>::empty();
    let x1 = tag(ul);
    assert(e + tag(ul) =~= x1);
    lemma_tags_tag(e, ul);
    let x2 = x1 + sp;
    lemma_tags_plain(x1, sp);
    let x3 = x2 + gt;
    assert(x2.push('>') =~= x3);
    lemma_tags_push(x2, '>');
    let x4 = x3 + a;
    lemma_tags_plain(x3, a);
    let x5 = x4 + tag(cli);
    lemma_tags_tag(x4, cli);
    let x6 = x5 + sp;
    lemma_tags_plain(x5, sp);
    let x7 = x6 + gt;
    assert(x6.push('>') =~= x7);
    lemma_tags_push(x6, '>');
    let x8 = x7 + b;
    lemma_tags_plain(x7, b);
    let x9 = x8 + tag(cli);
    lemma_tags_tag(x8, cli);
    let x10 = x9 + tag(cul);
    lemma_tags_tag(x9, cul);
    assert(spaced_two_items(a, b) =~= x10);
    let r = sp + a + sp + b;
    assert(without_tags(x10) =~= r);
    lemma_words_spaced(a, b);
}

/// Every `<` of `s` is followed by two characters that `ok` accepts as a
/// pair.
spec fn lt_followed2(s: Seq<char>, ok: spec_fn(char, char) -> bool) -> bool {
    forall|i: int|
        #![trigger s[i]]
        0 <= i < s.len() && s[i] == '<' ==> i + 2 < s.len() && ok(s[i + 1], s[i + 2])
}

/// [`lt_followed2`] holds of a concatenation when it holds of both parts.
proof fn lemma_lt_followed2_concat(u: Seq<char>, v: Seq<char>, ok: spec_fn(char, char) -> bool)
    requires
        lt_followed2(u, ok),
        lt_followed2(v, ok),
    ensures
        lt_followed2(u + v, ok),
{
    let w = u + v;
    assert forall|i: int| #![trigger w[i]] 0 <= i < w.len() && w[i] == '<' implies i + 2 < w.len()
        && ok(w[i + 1], w[i + 2]) by {
        if i < u.len() {
            assert(w[i] == u[i]);
            assert(w[i + 1] == u[i + 1]);
            assert(w[i + 2] == u[i + 2]);
        } else {
            assert(w[i] == v[i - u.len()]);
            assert(w[i + 1] == v[i + 1 - u.len()]);
            assert(w[i + 2] == v[i + 2 - u.len()]);
        }
    }
}

/// The two characters that follow the `<` of a tag: the name's first
/// character and the next one (or the closing `>`).
spec fn tag_pair(name: Seq<char>) -> (char, char) {
    (name[0], if name.len() > 1 { name[1] } else { '>' })
}

/// A tag whose leading pair `ok` accepts satisfies [`lt_followed2`].
proof fn lemma_lt_followed2_tag(name: Seq<char>, ok: spec_fn(char, char) -> bool)
    requires
        name.len() > 0,
        ok(tag_pair(name).0, tag_pair(name).1),
        forall|i: int| 0 <= i < name.len() ==> #[trigger] name[i] != '<',
    ensures
        lt_followed2(tag(name), ok),
{
    let t = tag(name);
    assert forall|i: int| #![trigger t[i]] 0 <= i < t.len() && t[i] == '<' implies i + 2 < t.len()
        && ok(t[i + 1], t[i + 2]) by {
        if i == 0 {
            assert(t[1] == name[0]);
            if name.len() > 1 {
                assert(t[2] == name[1]);
            } else {
                assert(t[2] == '>');
            }
        } else if i <= name.len() {
            assert(t[i] == name[i - 1]);
        } else {
            assert(t[i] == '>');
        }
    }
}

/// A pattern `<..` occurs nowhere when no `<` of `s` is followed by the
/// pattern's next characters, so replacing it changes nothing.
proof fn lemma_replaced_absent2(
    s: Seq<char>,
    n: Seq<char>,
    to: Seq<char>,
    ok: spec_fn(char, char) -> bool,
)
    requires
        n.len() >= 2,
        n[0] == '<',
        lt_followed2(s, ok),
        forall|c1: char, c2: char| #[trigger] ok(c1, c2) ==> !(c1 == n[1] && (n.len() >= 3 ==> c2 == n[2])),
    ensures
        replaced(s, n, to) == s,
{
    assert forall|j: int| 0 <= j implies !occurs_at(s, n, j) by {
        if occurs_at(s, n, j) {
            let w = s.subrange(j, j + n.len());
            assert(w[0] == s[j]);
            assert(w[1] == s[j + 1]);
            assert(ok(s[j + 1], s[j + 2]));
            if n.len() >= 3 {
                assert(w[2] == s[j + 2]);
            }
        }
    }
    lemma_first_occurrence_none(s, n, 0);
    lemma_replaced_unfold(s, n, to);
}

/// The names of the block-level tags whose openings become spaces, other
/// than the void `br`.
pub open spec fn block_tag_name(x: Seq<char>) -> bool {
    x == seq!['p']
        || x == seq!['d', 'i', 'v']
        || x == seq!['l', 'i']
        || x == seq!['t', 'r']
        || x == seq!['t', 'd']
        || x == seq!['t', 'h']
        || x == seq!['h', '1']
        || x == seq!['h', '2']
        || x == seq!['h', '3']
        || x == seq!['h', '4']
        || x == seq!['h', '5']
        || x == seq!['h', '6']
}

/// The markup of two consecutive block elements named `x`, holding `a`
/// and `b`.
pub open spec fn two_blocks(x: Seq<char>, a: Seq<char>, b: Seq<char>) -> Seq<char> {
    tag(x) + a + tag(seq!['/'] + x) + tag(x) + b + tag(seq!['/'] + x)
}

/// The two block elements after their openings became spaces.
spec fn spaced_two_blocks(x: Seq<char>, a: Seq<char>, b: Seq<char>) -> Seq<char> {
    seq![' ', '>'] + a + tag(seq!['/'] + x) + seq![' ', '>'] + b + tag(seq!['/'] + x)
}

/// The pairs that follow a `<` in [`two_blocks`]: the start of the name, or
/// the `/` of a closing tag.
spec fn block_pair_ok(x: Seq<char>) -> spec_fn(char, char) -> bool {
    |c1: char, c2: char| (c1 == tag_pair(x).0 && c2 == tag_pair(x).1) || c1 == '/'
}

/// Only closing tags are left.
spec fn closing_only() -> spec_fn(char) -> bool {
    |c: char| c == '/'
}

/// The shape of [`two_blocks`] before and after the openings are replaced,
/// and what dropping the tags leaves of the replaced text.
proof fn lemma_two_blocks_shape(x: Seq<char>, a: Seq<char>, b: Seq<char>)
    requires
        x.len() > 0,
        x[0] != '/',
        forall|i: int| 0 <= i < x.len() ==> #[trigger] x[i] != '<' && x[i] != '>' && x[i] != '/',
        plain_word(a),
        plain_word(b),
    ensures
        lt_followed2(two_blocks(x, a, b), block_pair_ok(x)),
        replaced(two_blocks(x, a, b), seq!['<'] + x, seq![' ']) == spaced_two_blocks(x, a, b),
        lt_followed(spaced_two_blocks(x, a, b), closing_only()),
        without_tags(spaced_two_blocks(x, a, b)) == seq![' '] + a + seq![' '] + b,
{
    let cx = seq!['/'] + x;
    let gt = seq!['>'];
    let sp = seq![' '];
    let m = seq!['<'] + x;
    let ok = block_pair_ok(x);
    let post = closing_only();
    assert forall|i: int| 0 <= i < cx.len() implies #[trigger] cx[i] != '<' && cx[i] != '>' by {
        if i > 0 {
            assert(cx[i] == x[i - 1]);
        }
    }
    assert forall|i: int| 0 <= i < a.len() implies #[trigger] a[i] != '<' && a[i] != '>' by {}
    assert forall|i: int| 0 <= i < b.len() implies #[trigger] b[i] != '<' && b[i] != '>' by {}
    // Before: every `<` opens `x` or a closing tag.
    assert(cx[0] == '/');
    assert(tag_pair(cx).0 == '/');
    lemma_lt_followed2_tag(x, ok);
    lemma_lt_followed2_tag(cx, ok);
    let s0 = two_blocks(x, a, b);
    lemma_lt_followed2_concat(tag(x), a, ok);
    lemma_lt_followed2_concat(tag(x) + a, tag(cx), ok);
    lemma_lt_followed2_concat(tag(x) + a + tag(cx), tag(x), ok);
    lemma_lt_followed2_concat(tag(x) + a + tag(cx) + tag(x), b, ok);
    lemma_lt_followed2_concat(tag(x) + a + tag(cx) + tag(x) + b, tag(cx), ok);
    // The openings are replaced.
    let xp = gt + a + tag(cx);
    let yp = gt + b + tag(cx);
    let y = xp + m + yp;
    let e = Seq::<char>::empty();
    assert(s0 =~= e + m + y);
    lemma_lt_followed_none(e, post);
    assert(m[1] == x[0]);
    lemma_replaced_first(s0, e, m, y, sp, post);
    lemma_lt_followed_tag(cx, post);
    lemma_lt_followed_none(a, post);
    lemma_lt_followed_none(b, post);
    lemma_lt_followed_none(gt, post);
    lemma_lt_followed_none(sp, post);
    lemma_lt_followed_concat(gt, a, post);
    lemma_lt_followed_concat(gt + a, tag(cx), post);
    lemma_lt_followed_concat(gt, b, post);
    lemma_lt_followed_concat(gt + b, tag(cx), post);
    lemma_replaced_first(y, xp, m, yp, sp, post);
    lemma_replaced_absent(yp, m, sp, post);
    let t = spaced_two_blocks(x, a, b);
    assert(e + sp + (xp + sp + yp) =~= t);
    lemma_lt_followed_concat(sp, xp, post);
    lemma_lt_followed_concat(sp + xp, sp, post);
    lemma_lt_followed_concat(sp + xp + sp, yp, post);
    assert(sp + xp + sp + yp =~= t);
    // Dropping the tags leaves a space before each item.
    let x2 = sp;
    lemma_tags_plain(e, sp);
    assert(e + sp =~= x2);
    let x3 = x2 + gt;
    assert(x2.push('>') =~= x3);
    lemma_tags_push(x2, '>');
    let x4 = x3 + a;
    lemma_tags_plain(x3, a);
    let x5 = x4 + tag(cx);
    lemma_tags_tag(x4, cx);
    let x6 = x5 + sp;
    lemma_tags_plain(x5, sp);
    let x7 = x6 + gt;
    assert(x6.push('>') =~= x7);
    lemma_tags_push(x6, '>');
    let x8 = x7 + b;
    lemma_tags_plain(x7, b);
    let x9 = x8 + tag(cx);
    lemma_tags_tag(x8, cx);
    assert(t =~= x9);
    assert(without_tags(x9) =~= sp + a + sp + b);
}

/// Block-level tags keep words apart: a page that is, once its non-content
/// blocks are removed, two consecutive block elements of one kind
/// (paragraphs, divisions, list items, table rows and cells, headings)
/// gives as its text their two contents as separate words, in order.
pub proof fn law_block_items_stay_apart(html: Seq<char>, x: Seq<char>, a: Seq<char>, b: Seq<char>)
    requires
        block_tag_name(x),
        plain_word(a),
        plain_word(b),
        blocks_removed(html) == two_blocks(x, a, b),
    ensures
        html_text(html) == a + seq![' '] + b,
{
    reveal_strlit("<br");
    reveal_strlit("<p");
    reveal_strlit("<div");
    reveal_strlit("<li");
    reveal_strlit("<tr");
    reveal_strlit("<td");
    reveal_strlit("<th");
    reveal_strlit("<h1");
    reveal_strlit("<h2");
    reveal_strlit("<h3");
    reveal_strlit("<h4");
    reveal_strlit("<h5");
    reveal_strlit("<h6");
    reveal_strlit(" ");
    assert(" "@ =~= seq![' ']);
    assert(x.len() > 0 && x[0] != '/');
    assert forall|i: int| 0 <= i < x.len() implies #[trigger] x[i] != '<' && x[i] != '>' && x[i]
        != '/' by {
        if i > 0 {
            assert(x.len() > 1);
        }
    }
    lemma_two_blocks_shape(x, a, b);
    let s0 = two_blocks(x, a, b);
    let t = spaced_two_blocks(x, a, b);
    let ok = block_pair_ok(x);
    let post = closing_only();
    if x == seq!['p'] {
        lemma_replaced_absent2(s0, "<br"@, " "@, ok);
        assert("<p"@ =~= seq!['<'] + x);
        lemma_replaced_absent(t, "<div"@, " "@, post);
        lemma_replaced_absent(t, "<li"@, " "@, post);
        lemma_replaced_absent(t, "<tr"@, " "@, post);
        lemma_replaced_absent(t, "<td"@, " "@, post);
        lemma_replaced_absent(t, "<th"@, " "@, post);
        lemma_replaced_absent(t, "<h1"@, " "@, post);
        lemma_replaced_absent(t, "<h2"@, " "@, post);
        lemma_replaced_absent(t, "<h3"@, " "@, post);
        lemma_replaced_absent(t, "<h4"@, " "@, post);
        lemma_replaced_absent(t, "<h5"@, " "@, post);
        lemma_replaced_absent(t, "<h6"@, " "@, post);
    } else if x == seq!['d', 'i', 'v'] {
        lemma_replaced_absent2(s0, "<br"@, " "@, ok);
        lemma_replaced_absent2(s0, "<p"@, " "@, ok);
        assert("<div"@ =~= seq!['<'] + x);
        lemma_replaced_absent(t, "<li"@, " "@, post);
        lemma_replaced_absent(t, "<tr"@, " "@, post);
        lemma_replaced_absent(t, "<td"@, " "@, post);
        lemma_replaced_absent(t, "<th"@, " "@, post);
        lemma_replaced_absent(t, "<h1"@, " "@, post);
        lemma_replaced_absent(t, "<h2"@, " "@, post);
        lemma_replaced_absent(t, "<h3"@, " "@, post);
        lemma_replaced_absent(t, "<h4"@, " "@, post);
        lemma_replaced_absent(t, "<h5"@, " "@, post);
        lemma_replaced_absent(t, "<h6"@, " "@, post);
    } else if x == seq!['l', 'i'] {
        lemma_replaced_absent2(s0, "<br"@, " "@, ok);
        lemma_replaced_absent2(s0, "<p"@, " "@, ok);
        lemma_replaced_absent2(s0, "<div"@, " "@, ok);
        assert("<li"@ =~= seq!['<'] + x);
        lemma_replaced_absent(t, "<tr"@, " "@, post);
        lemma_replaced_absent(t, "<td"@, " "@, post);
        lemma_replaced_absent(t, "<th"@, " "@, post);
        lemma_replaced_absent(t, "<h1"@, " "@, post);
        lemma_replaced_absent(t, "<h2"@, " "@, post);
        lemma_replaced_absent(t, "<h3"@, " "@, post);
        lemma_replaced_absent(t, "<h4"@, " "@, post);
        lemma_replaced_absent(t, "<h5"@, " "@, post);
        lemma_replaced_absent(t, "<h6"@, " "@, post);
    } else if x == seq!['t', 'r'] {
        lemma_replaced_absent2(s0, "<br"@, " "@, ok);
        lemma_replaced_absent2(s0, "<p"@, " "@, ok);
        lemma_replaced_absent2(s0, "<div"@, " "@, ok);
        lemma_replaced_absent2(s0, "<li"@, " "@, ok);
        assert("<tr"@ =~= seq!['<'] + x);
        lemma_replaced_absent(t, "<td"@, " "@, post);
        lemma_replaced_absent(t, "<th"@, " "@, post);
        lemma_replaced_absent(t, "<h1"@, " "@, post);
        lemma_replaced_absent(t, "<h2"@, " "@, post);
        lemma_replaced_absent(t, "<h3"@, " "@, post);
        lemma_replaced_absent(t, "<h4"@, " "@, post);
        lemma_replaced_absent(t, "<h5"@, " "@, post);
        lemma_replaced_absent(t, "<h6"@, " "@, post);
    } else if x == seq!['t', 'd'] {
        lemma_replaced_absent2(s0, "<br"@, " "@, ok);
        lemma_replaced_absent2(s0, "<p"@, " "@, ok);
        lemma_replaced_absent2(s0, "<div"@, " "@, ok);
        lemma_replaced_absent2(s0, "<li"@, " "@, ok);
        lemma_replaced_absent2(s0, "<tr"@, " "@, ok);
        assert("<td"@ =~= seq!['<'] + x);
        lemma_replaced_absent(t, "<th"@, " "@, post);
        lemma_replaced_absent(t, "<h1"@, " "@, post);
        lemma_replaced_absent(t, "<h2"@, " "@, post);
        lemma_replaced_absent(t, "<h3"@, " "@, post);
        lemma_replaced_absent(t, "<h4"@, " "@, post);
        lemma_replaced_absent(t, "<h5"@, " "@, post);
        lemma_replaced_absent(t, "<h6"@, " "@, post);
    } else if x == seq!['t', 'h'] {
        lemma_replaced_absent2(s0, "<br"@, " "@, ok);
        lemma_replaced_absent2(s0, "<p"@, " "@, ok);
        lemma_replaced_absent2(s0, "<div"@, " "@, ok);
        lemma_replaced_absent2(s0, "<li"@, " "@, ok);
        lemma_replaced_absent2(s0, "<tr"@, " "@, ok);
        lemma_replaced_absent2(s0, "<td"@, " "@, ok);
        assert("<th"@ =~= seq!['<'] + x);
        lemma_replaced_absent(t, "<h1"@, " "@, post);
        lemma_replaced_absent(t, "<h2"@, " "@, post);
        lemma_replaced_absent(t, "<h3"@, " "@, post);
        lemma_replaced_absent(t, "<h4"@, " "@, post);
        lemma_replaced_absent(t, "<h5"@, " "@, post);
        lemma_replaced_absent(t, "<h6"@, " "@, post);
    } else if x == seq!['h', '1'] {
        lemma_replaced_absent2(s0, "<br"@, " "@, ok);
        lemma_replaced_absent2(s0, "<p"@, " "@, ok);
        lemma_replaced_absent2(s0, "<div"@, " "@, ok);
        lemma_replaced_absent2(s0, "<li"@, " "@, ok);
        lemma_replaced_absent2(s0, "<tr"@, " "@, ok);
        lemma_replaced_absent2(s0, "<td"@, " "@, ok);
        lemma_replaced_absent2(s0, "<th"@, " "@, ok);
        assert("<h1"@ =~= seq!['<'] + x);
        lemma_replaced_absent(t, "<h2"@, " "@, post);
        lemma_replaced_absent(t, "<h3"@, " "@, post);
        lemma_replaced_absent(t, "<h4"@, " "@, post);
        lemma_replaced_absent(t, "<h5"@, " "@, post);
        lemma_replaced_absent(t, "<h6"@, " "@, post);
    } else if x == seq!['h', '2'] {
        lemma_replaced_absent2(s0, "<br"@, " "@, ok);
        lemma_replaced_absent2(s0, "<p"@, " "@, ok);
        lemma_replaced_absent2(s0, "<div"@, " "@, ok);
        lemma_replaced_absent2(s0, "<li"@, " "@, ok);
        lemma_replaced_absent2(s0, "<tr"@, " "@, ok);
        lemma_replaced_absent2(s0, "<td"@, " "@, ok);
        lemma_replaced_absent2(s0, "<th"@, " "@, ok);
        lemma_replaced_absent2(s0, "<h1"@, " "@, ok);
        assert("<h2"@ =~= seq!['<'] + x);
        lemma_replaced_absent(t, "<h3"@, " "@, post);
        lemma_replaced_absent(t, "<h4"@, " "@, post);
        lemma_replaced_absent(t, "<h5"@, " "@, post);
        lemma_replaced_absent(t, "<h6"@, " "@, post);
    } else if x == seq!['h', '3'] {
        lemma_replaced_absent2(s0, "<br"@, " "@, ok);
        lemma_replaced_absent2(s0, "<p"@, " "@, ok);
        lemma_replaced_absent2(s0, "<div"@, " "@, ok);
        lemma_replaced_absent2(s0, "<li"@, " "@, ok);
        lemma_replaced_absent2(s0, "<tr"@, " "@, ok);
        lemma_replaced_absent2(s0, "<td"@, " "@, ok);
        lemma_replaced_absent2(s0, "<th"@, " "@, ok);
        lemma_replaced_absent2(s0, "<h1"@, " "@, ok);
        lemma_replaced_absent2(s0, "<h2"@, " "@, ok);
        assert("<h3"@ =~= seq!['<'] + x);
        lemma_replaced_absent(t, "<h4"@, " "@, post);
        lemma_replaced_absent(t, "<h5"@, " "@, post);
        lemma_replaced_absent(t, "<h6"@, " "@, post);
    } else if x == seq!['h', '4'] {
        lemma_replaced_absent2(s0, "<br"@, " "@, ok);
        lemma_replaced_absent2(s0, "<p"@, " "@, ok);
        lemma_replaced_absent2(s0, "<div"@, " "@, ok);
        lemma_replaced_absent2(s0, "<li"@, " "@, ok);
        lemma_replaced_absent2(s0, "<tr"@, " "@, ok);
        lemma_replaced_absent2(s0, "<td"@, " "@, ok);
        lemma_replaced_absent2(s0, "<th"@, " "@, ok);
        lemma_replaced_absent2(s0, "<h1"@, " "@, ok);
        lemma_replaced_absent2(s0, "<h2"@, " "@, ok);
        lemma_replaced_absent2(s0, "<h3"@, " "@, ok);
        assert("<h4"@ =~= seq!['<'] + x);
        lemma_replaced_absent(t, "<h5"@, " "@, post);
        lemma_replaced_absent(t, "<h6"@, " "@, post);
    } else if x == seq!['h', '5'] {
        lemma_replaced_absent2(s0, "<br"@, " "@, ok);
        lemma_replaced_absent2(s0, "<p"@, " "@, ok);
        lemma_replaced_absent2(s0, "<div"@, " "@, ok);
        lemma_replaced_absent2(s0, "<li"@, " "@, ok);
        lemma_replaced_absent2(s0, "<tr"@, " "@, ok);
        lemma_replaced_absent2(s0, "<td"@, " "@, ok);
        lemma_replaced_absent2(s0, "<th"@, " "@, ok);
        lemma_replaced_absent2(s0, "<h1"@, " "@, ok);
        lemma_replaced_absent2(s0, "<h2"@, " "@, ok);
        lemma_replaced_absent2(s0, "<h3"@, " "@, ok);
        lemma_replaced_absent2(s0, "<h4"@, " "@, ok);
        assert("<h5"@ =~= seq!['<'] + x);
        lemma_replaced_absent(t, "<h6"@, " "@, post);
    } else if x == seq!['h', '6'] {
        lemma_replaced_absent2(s0, "<br"@, " "@, ok);
        lemma_replaced_absent2(s0, "<p"@, " "@, ok);
        lemma_replaced_absent2(s0, "<div"@, " "@, ok);
        lemma_replaced_absent2(s0, "<li"@, " "@, ok);
        lemma_replaced_absent2(s0, "<tr"@, " "@, ok);
        lemma_replaced_absent2(s0, "<td"@, " "@, ok);
        lemma_replaced_absent2(s0, "<th"@, " "@, ok);
        lemma_replaced_absent2(s0, "<h1"@, " "@, ok);
        lemma_replaced_absent2(s0, "<h2"@, " "@, ok);
        lemma_replaced_absent2(s0, "<h3"@, " "@, ok);
        lemma_replaced_absent2(s0, "<h4"@, " "@, ok);
        lemma_replaced_absent2(s0, "<h5"@, " "@, ok);
        assert("<h6"@ =~= seq!['<'] + x);
    }
    assert(breaks_spaced(s0) == t);
    lemma_words_spaced(a, b);
}

/// A line break keeps words apart: a page that is, once its non-content
/// blocks are removed, two words around a `<br>` gives as its text the two
/// words separated by a space.
pub proof fn law_line_break_keeps_words_apart(html: Seq<char>, a: Seq<char>, b: Seq<char>)
    requires
        plain_word(a),
        plain_word(b),
        blocks_removed(html) == a + tag(seq!['b', 'r']) + b,
    ensures
        html_text(html) == a + seq![' '] + b,
{
    reveal_strlit("<br");
    reveal_strlit("<p");
    reveal_strlit("<div");
    reveal_strlit("<li");
    reveal_strlit("<tr");
    reveal_strlit("<td");
    reveal_strlit("<th");
    reveal_strlit("<h1");
    reveal_strlit("<h2");
    reveal_strlit("<h3");
    reveal_strlit("<h4");
    reveal_strlit("<h5");
    reveal_strlit("<h6");
    reveal_strlit(" ");
    let sp = seq![' '];
    let gt = seq!['>'];
    let post = closing_only();
    assert(" "@ =~= sp);
    assert forall|i: int| 0 <= i < a.len() implies #[trigger] a[i] != '<' && a[i] != '>' by {}
    assert forall|i: int| 0 <= i < b.len() implies #[trigger] b[i] != '<' && b[i] != '>' by {}
    let s0 = a + tag(seq!['b', 'r']) + b;
    let n = "<br"@;
    assert(n =~= seq!['<', 'b', 'r']);
    assert(s0 =~= a + n + (gt + b));
    lemma_lt_followed_none(a, post);
    lemma_lt_followed_none(gt + b, post);
    lemma_replaced_first(s0, a, n, gt + b, sp, post);
    lemma_replaced_absent(gt + b, n, sp, post);
    let t = a + sp + (gt + b);
    assert(forall|i: int| 0 <= i < t.len() ==> #[trigger] t[i] != '<') by {
        assert forall|i: int| 0 <= i < t.len() implies #[trigger] t[i] != '<' by {
            if i < a.len() {
                assert(t[i] == a[i]);
            } else if i > a.len() + 1 {
                assert(t[i] == b[i - a.len() - 2]);
            }
        }
    }
    lemma_lt_followed_none(t, post);
    lemma_replaced_absent(t, "<p"@, " "@, post);
    lemma_replaced_absent(t, "<div"@, " "@, post);
    lemma_replaced_absent(t, "<li"@, " "@, post);
    lemma_replaced_absent(t, "<tr"@, " "@, post);
    lemma_replaced_absent(t, "<td"@, " "@, post);
    lemma_replaced_absent(t, "<th"@, " "@, post);
    lemma_replaced_absent(t, "<h1"@, " "@, post);
    lemma_replaced_absent(t, "<h2"@, " "@, post);
    lemma_replaced_absent(t, "<h3"@, " "@, post);
    lemma_replaced_absent(t, "<h4"@, " "@, post);
    lemma_replaced_absent(t, "<h5"@, " "@, post);
    lemma_replaced_absent(t, "<h6"@, " "@, post);
    assert(breaks_spaced(s0) == t);
    // Dropping the tags leaves the words and the space.
    let e = Seq::<char>::empty();
    lemma_tags_plain(e, a);
    assert(e + a =~= a);
    lemma_tags_plain(a, sp);
    let x3 = a + sp + gt;
    assert((a + sp).push('>') =~= x3);
    lemma_tags_push(a + sp, '>');
    lemma_tags_plain(x3, b);
    assert(x3 + b =~= t);
    assert(without_tags(t) =~= a + sp + b);
    lemma_words_spaced(a, b);
}

// ---------------------------------------------------------------------------
// Assembling the fallback context// ---------------------------------------------------------------------------
// Assembling the fallback context
// ---------------------------------------------------------------------------

/// Most characters kept of one page.
pub const MAX_CHARS_PER_PAGE: usize = 4000;

/// Most characters of the whole fallback context.
pub const MAX_TOTAL_CHARS: usize = 8000;

/// The pages fetched for the fallback context, in order.
pub fn fallback_targets() -> (res: Vec<&'static str>)
    ensures
        res@.len() == 3,
        res@[0]@ == "https://zerolabsco.com"@,
        res@[1]@ == "https://github.com/zero-labsco"@,
        res@[2]@ == "https://invoicezero.net"@,
{
    let mut v: Vec<&'static str> = Vec::new();
    v.push("https://zerolabsco.com");
    v.push("https://github.com/zero-labsco");
    v.push("https://invoicezero.net");
    v
}

/// The number of bytes `s` takes in UTF-8.
pub open spec fn byte_len(s: Seq<char>) -> int {
    encode_utf8(s).len() as int
}

/// Byte lengths grow with the prefix.
proof fn lemma_byte_len_prefix(s: Seq<char>, a: int, b: int)
    requires
        0 <= a < b <= s.len(),
    ensures
        byte_len(s.take(a)) < byte_len(s.take(b)),
{
    assert(s.take(b) == s.take(a) + s.take(b).skip(a));
    lemma_encode_concat_len(s.take(a), s.take(b).skip(a));
    let r = s.take(b).skip(a);
    assert(encode_utf8(r) == encode_scalar(r[0] as u32) + encode_utf8(r.drop_first()));
}

/// The first `n` characters of `s` (all of it when it is shorter).
pub open spec fn first_chars(s: Seq<char>, n: int) -> Seq<char> {
    if s.len() <= n {
        s
    } else {
        s.take(n)
    }
}

/// The text one page adds to the context: a separator, its source and the
/// first 4000 characters of its trimmed text.
pub open spec fn page_section(url: Seq<char>, text: Seq<char>) -> Seq<char> {
    "\n---\nSource: "@ + url + "\n"@ + first_chars(trim(text), MAX_CHARS_PER_PAGE as int) + "\n"@
}

/// The fallback context built page by page.
pub struct WebContext {
    text: String,
}

impl View for WebContext {
    type V = Seq<char>;

    closed spec fn view(&self) -> Seq<char> {
        self.text@
    }
}

impl WebContext {
    /// An empty context.
    pub fn new() -> (res: Self)
        ensures
            res@ == Seq::<char>::empty(),
    {
        WebContext { text: String::new() }
    }

    /// Adds a fetched page: the first 4000 characters of its trimmed text,
    /// under a `Source:` header; a page that is blank after trimming adds
    /// nothing. Returns whether more pages are wanted (the context is still
    /// under 8000 characters).
    pub fn add_page(&mut self, url: &str, page: &str) -> (more: bool)
        ensures
            trim(page@).len() == 0 ==> final(self)@ == old(self)@ && more,
            trim(page@).len() > 0 ==> final(self)@ == old(self)@ + page_section(url@, page@),
            trim(page@).len() > 0 ==> more == (final(self)@.len() < MAX_TOTAL_CHARS),
    {
        let v = chars_of(page);
        let (a, b) = trim_bounds(&v);
        if a == b {
            return true;
        }
        let end = if b - a > MAX_CHARS_PER_PAGE {
            a + MAX_CHARS_PER_PAGE
        } else {
            b
        };
        proof {
            reveal_strlit("\n---\nSource: ");
            reveal_strlit("\n");
            assert(v@.subrange(a as int, end as int) == first_chars(
                trim(page@),
                MAX_CHARS_PER_PAGE as int,
            ));
        }
        push_str(&mut self.text, "\n---\nSource: ");
        push_str(&mut self.text, url);
        push_str(&mut self.text, "\n");
        push_chars(&mut self.text, &v, a, end);
        push_str(&mut self.text, "\n");
        assert(self.text@ == old(self)@ + page_section(url@, page@));
        let all = chars_of(self.text.as_str());
        all.len() < MAX_TOTAL_CHARS
    }

    /// The finished context: its first 8000 characters.
    pub fn finish(&self) -> (res: String)
        ensures
            res@ == first_chars(self@, MAX_TOTAL_CHARS as int),
            res@.len() <= MAX_TOTAL_CHARS,
    {
        let v = chars_of(self.text.as_str());
        let n = if v.len() > MAX_TOTAL_CHARS {
            MAX_TOTAL_CHARS
        } else {
            v.len()
        };
        let out = string_of(&v, 0, n);
        assert(v@.subrange(0, n as int) == first_chars(self@, MAX_TOTAL_CHARS as int));
        out
    }
}

// ---------------------------------------------------------------------------
// Switches
// ---------------------------------------------------------------------------

/// `WEB_FALLBACK_ENABLED` turns the fallback off when it is `0` or `false`
/// (any case).
pub fn fallback_disabled(v: Option<&str>) -> (res: bool)
    ensures
        res == match v {
            Some(x) => x@ == "0"@ || eq_ascii_case(x@, "false"@),
            None => false,
        },
{
    match v {
        Some(x) => str_eq(x, "0") || eq_ignore_ascii_case(x, "false"),
        None => false,
    }
}

/// The lifetime (seconds) of fetched context: `WEB_FALLBACK_TTL_SECS` when it
/// parses as a `u64` (0 disables caching), else one hour.
pub fn fallback_ttl_secs(v: Option<&str>) -> (res: u64)
    ensures
        res as nat == match v {
            Some(x) => match parsed_uint(x@, u64::MAX as nat) {
                Some(n) => n,
                None => 3600,
            },
            None => 3600,
        },
{
    match v {
        Some(x) => match parse_u64(x) {
            Some(n) => n,
            None => 3600,
        },
        None => 3600,
    }
}

/// Whether context fetched `age_secs` whole seconds ago may be reused: caching
/// is on and the context is younger than its lifetime.
pub fn cached_context_usable(ttl_secs: u64, age_secs: u64) -> (res: bool)
    ensures
        res == (ttl_secs > 0 && age_secs < ttl_secs),
{
    ttl_secs > 0 && age_secs < ttl_secs
}

} // verus!
