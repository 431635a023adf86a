//! Character-level text utilities shared by the matching, caching and
//! retrieval code: lowercasing, whitespace handling, substring search and
//! string assembly, each with a specification over `Seq<char>`.
use vstd::prelude::*;

verus! {

// ---------------------------------------------------------------------------
// Std functions that vstd leaves unspecified
// ---------------------------------------------------------------------------

/// `String::push` appends one character.
pub assume_specification[ String::push ](s: &mut String, ch: char)
    ensures
        final(s)@ == old(s)@.push(ch),
;

/// What `str::to_lowercase` returns for a string: the Unicode lowercase
/// mapping (including its context-dependent rules), which takes tables to
/// state and is therefore only named here.
pub uninterp spec fn lowercase(s: Seq<char>) -> Seq<char>;

/// Calls `str::to_lowercase`; the result is the named Unicode lowercase of
/// the argument and nothing more is claimed of it.
#[verifier::external_body]
pub(crate) fn to_lower(s: &str) -> (res: String)
    ensures
        res@ == lowercase(s@),
{
    s.to_lowercase()
}

/// Whether `char::is_alphanumeric` holds: the Unicode `Alphabetic` or
/// `Numeric` property, which takes tables to state and is only named here.
pub uninterp spec fn alphanumeric(c: char) -> bool;

/// Calls `char::is_alphanumeric`; the result is the named property.
#[verifier::external_body]
pub(crate) fn char_is_alphanumeric(c: char) -> (res: bool)
    ensures
        res == alphanumeric(c),
{
    c.is_alphanumeric()
}

// ---------------------------------------------------------------------------
// Character classes
// ---------------------------------------------------------------------------

/// The Unicode `White_Space` property (what `char::is_whitespace` tests).
pub open spec fn white_space(c: char) -> bool {
    let u = c as u32;
    ||| (0x09 <= u && u <= 0x0d)
    ||| u == 0x20
    ||| u == 0x85
    ||| u == 0xa0
    ||| u == 0x1680
    ||| (0x2000 <= u && u <= 0x200a)
    ||| u == 0x2028
    ||| u == 0x2029
    ||| u == 0x202f
    ||| u == 0x205f
    ||| u == 0x3000
}

/// Decides the `White_Space` property of a character.
pub fn is_white_space(c: char) -> (res: bool)
    ensures
        res == white_space(c),
{
    let u = c as u32;
    (0x09 <= u && u <= 0x0d) || u == 0x20 || u == 0x85 || u == 0xa0 || u == 0x1680 || (0x2000
        <= u && u <= 0x200a) || u == 0x2028 || u == 0x2029 || u == 0x202f || u == 0x205f || u
        == 0x3000
}

/// ASCII letters and digits.
pub open spec fn ascii_alphanumeric(c: char) -> bool {
    ('a' <= c && c <= 'z') || ('A' <= c && c <= 'Z') || ('0' <= c && c <= '9')
}

/// Decides [`ascii_alphanumeric`].
pub fn is_ascii_alnum(c: char) -> (res: bool)
    ensures
        res == ascii_alphanumeric(c),
{
    ('a' <= c && c <= 'z') || ('A' <= c && c <= 'Z') || ('0' <= c && c <= '9')
}

/// ASCII case folding of one character (what `char::to_ascii_lowercase` does).
pub open spec fn ascii_lower(c: char) -> char {
    if 'A' <= c && c <= 'Z' {
        ((c as u32) + 32) as char
    } else {
        c
    }
}

/// Computes [`ascii_lower`].
pub fn to_ascii_lower(c: char) -> (res: char)
    ensures
        res == ascii_lower(c),
{
    if 'A' <= c && c <= 'Z' {
        let u: u32 = (c as u32) + 32;
        // 'a'..='z' are valid scalar values
        char_from_ascii_code(u)
    } else {
        c
    }
}

/// The character with a given ASCII code.
fn char_from_ascii_code(u: u32) -> (res: char)
    requires
        u < 128,
    ensures
        res == u as char,
{
    (u as u8) as char
}

/// `a` and `b` are equal up to ASCII case (what `str::eq_ignore_ascii_case`
/// decides: non-ASCII bytes compare exactly, so it is a per-character test).
pub open spec fn eq_ascii_case(a: Seq<char>, b: Seq<char>) -> bool {
    &&& a.len() == b.len()
    &&& forall|i: int| 0 <= i < a.len() ==> ascii_lower(#[trigger] a[i]) == ascii_lower(b[i])
}

/// Decides [`eq_ascii_case`].
pub fn eq_ignore_ascii_case(a: &str, b: &str) -> (res: bool)
    ensures
        res == eq_ascii_case(a@, b@),
{
    let x = chars_of(a);
    let y = chars_of(b);
    if x.len() != y.len() {
        return false;
    }
    let mut i: usize = 0;
    while i < x.len()
        invariant
            x@ == a@,
            y@ == b@,
            x.len() == y.len(),
            i <= x.len(),
            forall|k: int| 0 <= k < i ==> ascii_lower(#[trigger] x@[k]) == ascii_lower(y@[k]),
        decreases x.len() - i,
    {
        if to_ascii_lower(x[i]) != to_ascii_lower(y[i]) {
            return false;
        }
        i = i + 1;
    }
    true
}

// ---------------------------------------------------------------------------
// Conversions between `str`, `String` and `Vec<char>`
// ---------------------------------------------------------------------------

/// The characters of `s`, in order.
pub fn chars_of(s: &str) -> (res: Vec<char>)
    ensures
        res@ == s@,
{
    let mut out: Vec<char> = Vec::new();
    for c in it: s.chars()
        invariant
            out@ == it.seq().take(it.index() as int),
            it.seq() == s@,
    {
        out.push(c);
    }
    out
}

/// Appends the characters `v[from..to]` to `out`.
pub fn push_chars(out: &mut String, v: &Vec<char>, from: usize, to: usize)
    requires
        from <= to <= v.len(),
    ensures
        final(out)@ == old(out)@ + v@.subrange(from as int, to as int),
{
    let mut i = from;
    while i < to
        invariant
            from <= i <= to <= v.len(),
            out@ == old(out)@ + v@.subrange(from as int, i as int),
        decreases to - i,
    {
        out.push(v[i]);
        i = i + 1;
        assert(v@.subrange(from as int, i as int) == v@.subrange(from as int, (i - 1) as int).push(
            v@[i - 1],
        ));
    }
}

/// A `String` holding the characters `v[from..to]`.
pub fn string_of(v: &Vec<char>, from: usize, to: usize) -> (res: String)
    requires
        from <= to <= v.len(),
    ensures
        res@ == v@.subrange(from as int, to as int),
{
    let mut s = String::new();
    push_chars(&mut s, v, from, to);
    s
}

/// Appends a string slice to `out`.
pub fn push_str(out: &mut String, s: &str)
    ensures
        final(out)@ == old(out)@ + s@,
{
    out.append(s);
}

/// A fresh `String` equal to `s`.
pub fn owned(s: &str) -> (res: String)
    ensures
        res@ == s@,
{
    String::from_str(s)
}

// ---------------------------------------------------------------------------
// Whitespace trimming and words
// ---------------------------------------------------------------------------

/// `s` without its leading `White_Space` characters.
pub open spec fn trim_start(s: Seq<char>) -> Seq<char>
    decreases s.len(),
{
    if s.len() > 0 && white_space(s[0]) {
        trim_start(s.drop_first())
    } else {
        s
    }
}

/// `s` without its trailing `White_Space` characters.
pub open spec fn trim_end(s: Seq<char>) -> Seq<char>
    decreases s.len(),
{
    if s.len() > 0 && white_space(s.last()) {
        trim_end(s.drop_last())
    } else {
        s
    }
}

/// `s` without leading and trailing `White_Space` (what `str::trim` returns).
pub open spec fn trim(s: Seq<char>) -> Seq<char> {
    trim_end(trim_start(s))
}

/// Index of the first character of `v` at or after `from` that is not
/// white space (or `v.len()`), with the trimming fact that goes with it.
fn skip_white_space(v: &Vec<char>, from: usize) -> (res: usize)
    requires
        from <= v.len(),
    ensures
        from <= res <= v.len(),
        trim_start(v@.skip(from as int)) == trim_start(v@.skip(res as int)),
        trim_start(v@.skip(res as int)) == v@.skip(res as int),
        forall|k: int| from <= k < res ==> white_space(#[trigger] v@[k]),
        res < v.len() ==> !white_space(v@[res as int]),
{
    let mut i = from;
    while i < v.len() && is_white_space(v[i])
        invariant
            from <= i <= v.len(),
            trim_start(v@.skip(from as int)) == trim_start(v@.skip(i as int)),
            forall|k: int| from <= k < i ==> white_space(#[trigger] v@[k]),
        decreases v.len() - i,
    {
        assert(v@.skip(i as int).drop_first() == v@.skip(i + 1));
        i = i + 1;
    }
    i
}

/// Length of `v[..to]` once its trailing white space is dropped.
fn trailing_cut(v: &Vec<char>, from: usize, to: usize) -> (res: usize)
    requires
        from <= to <= v.len(),
    ensures
        from <= res <= to,
        trim_end(v@.subrange(from as int, to as int)) == v@.subrange(from as int, res as int),
{
    let mut j = to;
    while j > from && is_white_space(v[j - 1])
        invariant
            from <= j <= to <= v.len(),
            trim_end(v@.subrange(from as int, to as int)) == trim_end(
                v@.subrange(from as int, j as int),
            ),
        decreases j,
    {
        assert(v@.subrange(from as int, j as int).drop_last() == v@.subrange(
            from as int,
            j - 1,
        ));
        j = j - 1;
    }
    j
}

/// Bounds `(start, end)` such that `v[start..end]` is `trim(v)`.
pub fn trim_bounds(v: &Vec<char>) -> (res: (usize, usize))
    ensures
        res.0 <= res.1 <= v.len(),
        v@.subrange(res.0 as int, res.1 as int) == trim(v@),
{
    let start = skip_white_space(v, 0);
    assert(v@.skip(0) == v@);
    assert(v@.skip(start as int) == v@.subrange(start as int, v.len() as int));
    let end = trailing_cut(v, start, v.len());
    (start, end)
}

/// `str::trim`, as an owned string.
pub fn trimmed(s: &str) -> (res: String)
    ensures
        res@ == trim(s@),
{
    let v = chars_of(s);
    let (a, b) = trim_bounds(&v);
    string_of(&v, a, b)
}

/// Position of the first white-space character of `s`, or `s.len()`.
pub open spec fn word_end(s: Seq<char>) -> int
    decreases s.len(),
{
    if s.len() == 0 || white_space(s[0]) {
        0
    } else {
        1 + word_end(s.drop_first())
    }
}

/// The first whitespace-separated word of `s`, or the empty sequence when
/// `s` is all white space (what `s.split_whitespace().next().unwrap_or("")`
/// gives).
pub open spec fn first_word(s: Seq<char>) -> Seq<char> {
    let t = trim_start(s);
    t.take(word_end(t))
}

/// Computes [`first_word`].
pub fn first_word_of(v: &Vec<char>) -> (res: String)
    ensures
        res@ == first_word(v@),
{
    let start = skip_white_space(v, 0);
    assert(v@.skip(0) == v@);
    let mut j = start;
    while j < v.len() && !is_white_space(v[j])
        invariant
            start <= j <= v.len(),
            word_end(v@.skip(start as int)) == (j - start) + word_end(v@.skip(j as int)),
        decreases v.len() - j,
    {
        assert(v@.skip(j as int).drop_first() == v@.skip(j + 1));
        j = j + 1;
    }
    assert(word_end(v@.skip(j as int)) == 0);
    assert(v@.skip(start as int).take(j - start) == v@.subrange(start as int, j as int));
    string_of(v, start, j)
}

// ---------------------------------------------------------------------------
// Substrings
// ---------------------------------------------------------------------------

/// `n` occurs in `h` starting at position `i`.
pub open spec fn occurs_at(h: Seq<char>, n: Seq<char>, i: int) -> bool {
    0 <= i && i + n.len() <= h.len() && h.subrange(i, i + n.len()) == n
}

/// `n` occurs somewhere in `h` (what `str::contains` decides for a string
/// pattern).
pub open spec fn contains(h: Seq<char>, n: Seq<char>) -> bool {
    exists|i: int| occurs_at(h, n, i)
}

/// `p` is a prefix of `s`.
pub open spec fn has_prefix(s: Seq<char>, p: Seq<char>) -> bool {
    p.len() <= s.len() && s.take(p.len() as int) == p
}

/// Whether `n` occurs in `h` at position `i` (requires the room to hold it).
pub fn matches_at(h: &Vec<char>, n: &Vec<char>, i: usize) -> (res: bool)
    requires
        i + n.len() <= h.len(),
    ensures
        res == occurs_at(h@, n@, i as int),
{
    let mut k: usize = 0;
    while k < n.len()
        invariant
            i + n.len() <= h.len(),
            k <= n.len(),
            forall|m: int| 0 <= m < k ==> h@[i + m] == n@[m],
        decreases n.len() - k,
    {
        if h[i + k] != n[k] {
            assert(h@.subrange(i as int, i + n.len())[k as int] != n@[k as int]);
            return false;
        }
        k = k + 1;
    }
    assert(h@.subrange(i as int, i + n.len()) == n@);
    true
}

/// The first position at or after `from` where `n` occurs in `h`.
#[verifier::opaque]
pub open spec fn first_occurrence(h: Seq<char>, n: Seq<char>, from: int) -> Option<int> {
    if exists|i: int| from <= i && occurs_at(h, n, i) {
        let i = choose|i: int|
            from <= i && occurs_at(h, n, i) && forall|j: int|
                from <= j < i ==> !occurs_at(h, n, j);
        Some(i)
    } else {
        None
    }
}

/// Finds the first occurrence of `n` in `h` at or after `from`.
pub fn find_from(h: &Vec<char>, n: &Vec<char>, from: usize) -> (res: Option<usize>)
    requires
        from <= h.len(),
    ensures
        match res {
            Some(i) => from <= i && occurs_at(h@, n@, i as int) && forall|j: int|
                from <= j < i ==> !occurs_at(h@, n@, j),
            None => forall|j: int| from <= j ==> !occurs_at(h@, n@, j),
        },
        res matches Some(i) ==> first_occurrence(h@, n@, from as int) == Some(i as int),
        res is None ==> first_occurrence(h@, n@, from as int) is None,
{
    if n.len() > h.len() {
        proof {
            lemma_first_occurrence_none(h@, n@, from as int);
        }
        return None;
    }
    let last = h.len() - n.len();
    if from > last {
        assert forall|j: int| from <= j implies !occurs_at(h@, n@, j) by {}
        proof {
            lemma_first_occurrence_none(h@, n@, from as int);
        }
        return None;
    }
    let mut i = from;
    loop
        invariant
            from <= i <= last,
            last == h.len() - n.len(),
            n.len() <= h.len(),
            forall|j: int| from <= j < i ==> !occurs_at(h@, n@, j),
        decreases last - i,
    {
        if matches_at(h, n, i) {
            proof {
                lemma_first_occurrence_is(h@, n@, from as int, i as int);
            }
            return Some(i);
        }
        if i == last {
            assert forall|j: int| from <= j implies !occurs_at(h@, n@, j) by {
                if j > last {
                }
            }
            proof {
                lemma_first_occurrence_none(h@, n@, from as int);
            }
            return None;
        }
        i = i + 1;
    }
}

/// The first occurrence at or after `from` is the least such position.
pub proof fn lemma_first_occurrence_is(h: Seq<char>, n: Seq<char>, from: int, i: int)
    requires
        from <= i,
        occurs_at(h, n, i),
        forall|j: int| from <= j < i ==> !occurs_at(h, n, j),
    ensures
        first_occurrence(h, n, from) == Some(i),
{
    reveal(first_occurrence);
    let w = choose|w: int|
        from <= w && occurs_at(h, n, w) && forall|j: int| from <= j < w ==> !occurs_at(h, n, j);
    assert(from <= w && occurs_at(h, n, w));
    if w < i {
        assert(!occurs_at(h, n, w));
    } else if w > i {
        assert(!occurs_at(h, n, i));
    }
}

/// Without occurrences at or after `from` there is no first one.
pub proof fn lemma_first_occurrence_none(h: Seq<char>, n: Seq<char>, from: int)
    requires
        forall|j: int| from <= j ==> !occurs_at(h, n, j),
    ensures
        first_occurrence(h, n, from) is None,
{
    reveal(first_occurrence);
}

/// Occurrences in a suffix are occurrences in the whole, shifted.
pub proof fn lemma_occurs_shift(h: Seq<char>, n: Seq<char>, pos: int, j: int)
    requires
        0 <= pos <= h.len(),
        0 <= j,
    ensures
        occurs_at(h.skip(pos), n, j) == occurs_at(h, n, j + pos),
{
    if j + n.len() <= h.len() - pos {
        assert(h.skip(pos).subrange(j, j + n.len()) == h.subrange(j + pos, j + pos + n.len()));
    }
}

/// If `n` occurs at or after `from`, there is a first such occurrence.
pub proof fn lemma_least_occurrence(h: Seq<char>, n: Seq<char>, from: int) -> (i: int)
    requires
        exists|i: int| from <= i && occurs_at(h, n, i),
    ensures
        from <= i,
        occurs_at(h, n, i),
        forall|j: int| from <= j < i ==> !occurs_at(h, n, j),
    decreases h.len() - from,
{
    if occurs_at(h, n, from) {
        from
    } else {
        let w = choose|i: int| from <= i && occurs_at(h, n, i);
        assert(from + 1 <= w);
        lemma_least_occurrence(h, n, from + 1)
    }
}

/// The first occurrence in the suffix from `pos` is the first occurrence in
/// the whole at or after `pos`, shifted.
pub proof fn lemma_first_occurrence_suffix(h: Seq<char>, n: Seq<char>, pos: int)
    requires
        0 <= pos <= h.len(),
    ensures
        first_occurrence(h, n, pos) matches Some(i) ==> first_occurrence(h.skip(pos), n, 0) == Some(
            i - pos,
        ),
        first_occurrence(h, n, pos) is None ==> first_occurrence(h.skip(pos), n, 0) is None,
{
    if exists|i: int| pos <= i && occurs_at(h, n, i) {
        let i = lemma_least_occurrence(h, n, pos);
        lemma_first_occurrence_is(h, n, pos, i);
        lemma_occurs_shift(h, n, pos, i - pos);
        assert forall|j: int| 0 <= j < i - pos implies !occurs_at(h.skip(pos), n, j) by {
            lemma_occurs_shift(h, n, pos, j);
        }
        lemma_first_occurrence_is(h.skip(pos), n, 0, i - pos);
    } else {
        assert forall|j: int| 0 <= j implies !occurs_at(h.skip(pos), n, j) by {
            lemma_occurs_shift(h, n, pos, j);
        }
        lemma_first_occurrence_none(h, n, pos);
        lemma_first_occurrence_none(h.skip(pos), n, 0);
    }
}

/// Whether `n` occurs in `h`.
pub fn contains_chars(h: &Vec<char>, n: &Vec<char>) -> (res: bool)
    ensures
        res == contains(h@, n@),
{
    let r = find_from(h, n, 0);
    match r {
        Some(i) => true,
        None => {
            assert forall|j: int| !occurs_at(h@, n@, j) by {
                if 0 <= j {
                }
            }
            false
        },
    }
}

/// `str::contains` for a string pattern.
pub fn str_contains(h: &str, n: &str) -> (res: bool)
    ensures
        res == contains(h@, n@),
{
    let a = chars_of(h);
    let b = chars_of(n);
    contains_chars(&a, &b)
}

/// Whether `p` is a prefix of `s`.
pub fn starts_with_chars(s: &Vec<char>, p: &Vec<char>) -> (res: bool)
    ensures
        res == has_prefix(s@, p@),
{
    if p.len() > s.len() {
        return false;
    }
    let r = matches_at(s, p, 0);
    assert(s@.subrange(0, p.len() as int) == s@.take(p.len() as int));
    r
}

/// Whether two character sequences are equal.
pub fn chars_eq(a: &Vec<char>, b: &Vec<char>) -> (res: bool)
    ensures
        res == (a@ == b@),
{
    if a.len() != b.len() {
        return false;
    }
    let r = matches_at(a, b, 0);
    assert(a@.subrange(0, b.len() as int) == a@);
    r
}

/// Whether two strings are equal.
pub fn str_eq(a: &str, b: &str) -> (res: bool)
    ensures
        res == (a@ == b@),
{
    let x = chars_of(a);
    let y = chars_of(b);
    chars_eq(&x, &y)
}

// ---------------------------------------------------------------------------
// Numbers
// ---------------------------------------------------------------------------

/// The decimal digit for a value below ten.
pub open spec fn digit_char(d: nat) -> char {
    (('0' as u32) + d) as char
}

/// The decimal representation of `n`, without leading zeros.
pub open spec fn decimal(n: nat) -> Seq<char>
    decreases n,
{
    if n < 10 {
        seq![digit_char(n)]
    } else {
        decimal(n / 10).push(digit_char(n % 10))
    }
}

/// Formats a number in decimal (as `format!("{}", n)` does).
pub fn decimal_string(n: u64) -> (res: String)
    ensures
        res@ == decimal(n as nat),
    decreases n,
{
    let d: u32 = (n % 10) as u32;
    let c = char_from_ascii_code(48 + d);
    if n < 10 {
        let mut s = String::new();
        s.push(c);
        assert(s@ == seq![c]);
        s
    } else {
        let mut s = decimal_string(n / 10);
        s.push(c);
        s
    }
}

// ---------------------------------------------------------------------------
// Joining and collapsing
// ---------------------------------------------------------------------------

/// `parts` joined with `sep` between consecutive parts (`[..].join(sep)`).
pub open spec fn joined(parts: Seq<Seq<char>>, sep: Seq<char>) -> Seq<char>
    decreases parts.len(),
{
    if parts.len() == 0 {
        seq![]
    } else if parts.len() == 1 {
        parts[0]
    } else {
        joined(parts.drop_last(), sep) + sep + parts.last()
    }
}

/// Joins strings with a separator.
pub fn join(parts: &Vec<String>, sep: &str) -> (res: String)
    ensures
        res@ == joined(parts.deep_view(), sep@),
{
    let mut out = String::new();
    let mut i: usize = 0;
    while i < parts.len()
        invariant
            i <= parts.len(),
            out@ == joined(parts.deep_view().take(i as int), sep@),
        decreases parts.len() - i,
    {
        let ghost pv = parts.deep_view();
        assert(pv.take(i + 1).drop_last() == pv.take(i as int));
        assert(pv.take(i + 1).last() == parts@[i as int]@);
        if i > 0 {
            push_str(&mut out, sep);
        } else {
            assert(pv.take(0).len() == 0);
        }
        push_str(&mut out, parts[i].as_str());
        i = i + 1;
    }
    assert(parts.deep_view().take(parts.len() as int) == parts.deep_view());
    out
}

/// `s` with its white space runs collapsed: the whitespace-separated words
/// of `s` joined by single spaces (what
/// `s.split_whitespace().collect::<Vec<_>>().join(" ")` gives).
pub open spec fn squeeze(s: Seq<char>) -> Seq<char>
    decreases s.len(),
{
    if s.len() == 0 {
        seq![]
    } else {
        let r = squeeze(s.drop_last());
        let c = s.last();
        if white_space(c) {
            r
        } else if s.len() >= 2 && white_space(s[s.len() - 2]) && r.len() > 0 {
            r.push(' ').push(c)
        } else {
            r.push(c)
        }
    }
}

/// `t` holds no white space but single spaces between words: every white
/// space character is a space, none stands first or last, and no two stand
/// side by side.
pub open spec fn single_spaced(t: Seq<char>) -> bool {
    &&& forall|i: int| 0 <= i < t.len() && white_space(#[trigger] t[i]) ==> t[i] == ' '
    &&& t.len() > 0 ==> !white_space(t[0]) && !white_space(t.last())
    &&& forall|i: int| 0 <= i < t.len() - 1 && #[trigger] t[i] == ' ' ==> t[i + 1] != ' '
}

/// Collapsing white space leaves single spaces between words only.
pub proof fn lemma_squeeze_single_spaced(s: Seq<char>)
    ensures
        single_spaced(squeeze(s)),
    decreases s.len(),
{
    if s.len() > 0 {
        lemma_squeeze_single_spaced(s.drop_last());
        let r = squeeze(s.drop_last());
        let c = s.last();
        let t = squeeze(s);
        if white_space(c) {
        } else if s.len() >= 2 && white_space(s[s.len() - 2]) && r.len() > 0 {
            assert(t == r.push(' ').push(c));
            assert(!white_space(r.last()));
            assert forall|i: int| 0 <= i < t.len() && white_space(#[trigger] t[i]) implies t[i] == ' ' by {
                if i < r.len() {
                    assert(t[i] == r[i]);
                }
            }
            assert forall|i: int| 0 <= i < t.len() - 1 && #[trigger] t[i] == ' ' implies t[i + 1] != ' ' by {
                if i < r.len() - 1 {
                    assert(t[i] == r[i]);
                    assert(t[i + 1] == r[i + 1]);
                } else if i == r.len() - 1 {
                    assert(t[i] == r.last());
                    assert(white_space(' '));
                }
            }
            assert(t[0] == r[0]);
        } else {
            assert(t == r.push(c));
            assert forall|i: int| 0 <= i < t.len() && white_space(#[trigger] t[i]) implies t[i] == ' ' by {
                if i < r.len() {
                    assert(t[i] == r[i]);
                }
            }
            assert forall|i: int| 0 <= i < t.len() - 1 && #[trigger] t[i] == ' ' implies t[i + 1] != ' ' by {
                if i < r.len() - 1 {
                    assert(t[i] == r[i]);
                    assert(t[i + 1] == r[i + 1]);
                } else if i == r.len() - 1 {
                    assert(t[i] == r.last());
                    assert(white_space(' '));
                }
            }
            if r.len() > 0 {
                assert(t[0] == r[0]);
            }
        }
    }
}

/// Collapses the white space of `v` (see [`squeeze`]).
pub fn squeeze_chars(v: &Vec<char>) -> (res: String)
    ensures
        res@ == squeeze(v@),
{
    let mut out = String::new();
    let mut i: usize = 0;
    while i < v.len()
        invariant
            i <= v.len(),
            out@ == squeeze(v@.take(i as int)),
        decreases v.len() - i,
    {
        let ghost t = v@.take(i + 1);
        assert(t.drop_last() == v@.take(i as int));
        assert(t.last() == v@[i as int]);
        let c = v[i];
        if is_white_space(c) {
        } else if i >= 1 && is_white_space(v[i - 1]) && out.as_str().is_empty() == false {
            assert(t[t.len() - 2] == v@[i - 1]);
            out.push(' ');
            out.push(c);
        } else {
            proof {
                if i >= 1 {
                    assert(t[t.len() - 2] == v@[i - 1]);
                }
            }
            out.push(c);
        }
        i = i + 1;
    }
    assert(v@.take(v.len() as int) == v@);
    out
}

// ---------------------------------------------------------------------------
// Parsing unsigned integers
// ---------------------------------------------------------------------------

/// An ASCII decimal digit.
pub open spec fn is_digit(c: char) -> bool {
    '0' <= c && c <= '9'
}

/// Every character is a decimal digit.
pub open spec fn all_digits(d: Seq<char>) -> bool {
    forall|i: int| 0 <= i < d.len() ==> is_digit(#[trigger] d[i])
}

/// The value of a string of decimal digits.
pub open spec fn digits_value(d: Seq<char>) -> nat
    decreases d.len(),
{
    if d.len() == 0 {
        0
    } else {
        digits_value(d.drop_last()) * 10 + ((d.last() as u32) - 48) as nat
    }
}

/// The digits of an unsigned integer literal: an optional `+` followed by at
/// least one decimal digit and nothing else.
pub open spec fn digit_run(s: Seq<char>) -> Option<Seq<char>> {
    let d = if s.len() > 0 && s[0] == '+' {
        s.drop_first()
    } else {
        s
    };
    if d.len() > 0 && all_digits(d) {
        Some(d)
    } else {
        None
    }
}

/// What `str::parse` gives for an unsigned integer type whose largest value
/// is `max`: the value when the text is a literal of at most `max`.
pub open spec fn parsed_uint(s: Seq<char>, max: nat) -> Option<nat> {
    match digit_run(s) {
        Some(d) => if digits_value(d) <= max {
            Some(digits_value(d))
        } else {
            None
        },
        None => None,
    }
}

/// A longer digit string is worth at least as much as its prefix.
proof fn lemma_digits_monotone(d: Seq<char>, i: int)
    requires
        0 <= i <= d.len(),
    ensures
        digits_value(d.take(i)) <= digits_value(d),
    decreases d.len() - i,
{
    if i < d.len() {
        lemma_digits_monotone(d, i + 1);
        assert(d.take(i + 1).drop_last() == d.take(i));
    } else {
        assert(d.take(i) == d);
    }
}

/// Parses an unsigned 64-bit integer as `str::parse::<u64>` does.
pub fn parse_u64(s: &str) -> (res: Option<u64>)
    ensures
        match res {
            Some(n) => parsed_uint(s@, u64::MAX as nat) == Some(n as nat),
            None => parsed_uint(s@, u64::MAX as nat) is None,
        },
{
    let v = chars_of(s);
    let mut start: usize = 0;
    if v.len() > 0 && v[0] == '+' {
        start = 1;
    }
    let ghost d = if v@.len() > 0 && v@[0] == '+' {
        v@.drop_first()
    } else {
        v@
    };
    assert(d == v@.skip(start as int));
    if start >= v.len() {
        return None;
    }
    let mut acc: u64 = 0;
    let mut i = start;
    while i < v.len()
        invariant
            v@ == s@,
            1 <= v.len(),
            start <= i <= v.len(),
            d == v@.skip(start as int),
            d == (if s@.len() > 0 && s@[0] == '+' {
                s@.drop_first()
            } else {
                s@
            }),
            forall|k: int| 0 <= k < i - start ==> is_digit(#[trigger] d[k]),
            acc as nat == digits_value(d.take(i - start)),
        decreases v.len() - i,
    {
        let c = v[i];
        if !('0' <= c && c <= '9') {
            assert(!is_digit(d[i - start]));
            assert(!all_digits(d));
            assert(digit_run(s@) is None);
            return None;
        }
        let digit: u64 = (c as u32 - 48) as u64;
        assert(d.take(i + 1 - start).drop_last() == d.take(i - start));
        assert(d.take(i + 1 - start).last() == c);
        match acc.checked_mul(10) {
            Some(m) => match m.checked_add(digit) {
                Some(n) => {
                    acc = n;
                },
                None => {
                    proof {
                        lemma_digits_monotone(d, i + 1 - start);
                        assert(digits_value(d.take(i + 1 - start)) > u64::MAX);
                        if let Some(dd) = digit_run(s@) {
                            assert(dd == d);
                        }
                    }
                    return None;
                },
            },
            None => {
                proof {
                    lemma_digits_monotone(d, i + 1 - start);
                    assert(digits_value(d.take(i + 1 - start)) > u64::MAX);
                    if let Some(dd) = digit_run(s@) {
                        assert(dd == d);
                    }
                }
                return None;
            },
        }
        i = i + 1;
    }
    assert(d.take(i - start) == d);
    Some(acc)
}

/// Parses an unsigned 32-bit integer as `str::parse::<u32>` does.
pub fn parse_u32(s: &str) -> (res: Option<u32>)
    ensures
        match res {
            Some(n) => parsed_uint(s@, u32::MAX as nat) == Some(n as nat),
            None => parsed_uint(s@, u32::MAX as nat) is None,
        },
{
    match parse_u64(s) {
        Some(n) => if n <= u32::MAX as u64 {
            Some(n as u32)
        } else {
            None
        },
        None => None,
    }
}

/// Parses a `usize` as `str::parse::<usize>` does.
pub fn parse_usize(s: &str) -> (res: Option<usize>)
    ensures
        match res {
            Some(n) => parsed_uint(s@, usize::MAX as nat) == Some(n as nat),
            None => parsed_uint(s@, usize::MAX as nat) is None,
        },
{
    match parse_u64(s) {
        Some(n) => if n <= usize::MAX as u64 {
            Some(n as usize)
        } else {
            None
        },
        None => None,
    }
}

// ---------------------------------------------------------------------------
// Splitting on a separator
// ---------------------------------------------------------------------------

/// The pieces of `s` between occurrences of `sep`, empty pieces included
/// (what `s.split(sep)` yields).
pub open spec fn split_on(s: Seq<char>, sep: char) -> Seq<Seq<char>>
    decreases s.len(),
{
    if s.len() == 0 {
        seq![seq![]]
    } else {
        let r = split_on(s.drop_last(), sep);
        if s.last() == sep {
            r.push(seq![])
        } else {
            r.update(r.len() - 1, r.last().push(s.last()))
        }
    }
}

/// `split_on` always yields at least one piece.
proof fn lemma_split_nonempty(s: Seq<char>, sep: char)
    ensures
        split_on(s, sep).len() >= 1,
    decreases s.len(),
{
    if s.len() > 0 {
        lemma_split_nonempty(s.drop_last(), sep);
    }
}

/// Splits `s` at every `sep`.
pub fn split_at_char(s: &str, sep: char) -> (res: Vec<String>)
    ensures
        res.deep_view() == split_on(s@, sep),
{
    let v = chars_of(s);
    let mut parts: Vec<String> = Vec::new();
    let mut cur = String::new();
    let mut i: usize = 0;
    while i < v.len()
        invariant
            v@ == s@,
            i <= v.len(),
            parts.deep_view().push(cur@) == split_on(v@.take(i as int), sep),
        decreases v.len() - i,
    {
        let ghost t = v@.take(i + 1);
        proof {
            assert(t.drop_last() == v@.take(i as int));
            assert(t.last() == v@[i as int]);
            lemma_split_nonempty(t.drop_last(), sep);
        }
        let ghost before = parts.deep_view();
        let ghost cur_before = cur@;
        if v[i] == sep {
            parts.push(cur);
            cur = String::new();
            assert(parts.deep_view() == before.push(cur_before));
        } else {
            cur.push(v[i]);
            assert(before.push(cur_before).update(before.len() as int, cur_before.push(v@[i as int]))
                == before.push(cur@));
        }
        i = i + 1;
    }
    assert(v@.take(v.len() as int) == v@);
    parts.push(cur);
    parts
}

// ---------------------------------------------------------------------------
// UTF-8 lengths
// ---------------------------------------------------------------------------

/// The UTF-8 length of a concatenation is the sum of the lengths.
pub proof fn lemma_encode_concat_len(a: Seq<char>, b: Seq<char>)
    ensures
        vstd::utf8::encode_utf8(a + b).len() == vstd::utf8::encode_utf8(a).len() + vstd::utf8::encode_utf8(b).len(),
    decreases a.len(),
{
    if a.len() > 0 {
        assert((a + b).drop_first() == a.drop_first() + b);
        assert((a + b)[0] == a[0]);
        lemma_encode_concat_len(a.drop_first(), b);
    } else {
        assert(a + b == b);
    }
}

/// Number of bytes `c` takes in UTF-8.
pub fn utf8_width(c: char) -> (res: usize)
    ensures
        res == vstd::utf8::encode_scalar(c as u32).len(),
        1 <= res <= 4,
{
    let u = c as u32;
    proof {
        vstd::utf8::char_is_scalar(c);
    }
    if u <= 0x7f {
        1
    } else if u <= 0x7ff {
        2
    } else if u <= 0xffff {
        3
    } else {
        4
    }
}

} // verus!
