//! Fixed question/answer rules (`faq.json`): matching a query against the
//! rules' trigger patterns, with a preference for rules in the query's
//! script.
use vstd::prelude::*;
use crate::pattern::{compile, escape, escaped, is_match, regex_compiles, regex_finds};
use crate::text::{
    ascii_alphanumeric, chars_of, contains, first_word, first_word_of, has_prefix, is_ascii_alnum,
    lowercase, owned, push_str, starts_with_chars, str_contains, str_eq, to_lower, trim, trimmed,
    chars_eq,
};

verus! {

/// One rule of the FAQ file.
pub struct FaqRule {
    /// Identifier of the rule in the file.
    pub id: String,
    /// How the patterns are matched: `"starts_with"`, or anything else for
    /// substring/word matching (the file's `match` field).
    pub match_type: String,
    /// Trigger patterns.
    pub patterns: Vec<String>,
    /// The reply given when the rule fires.
    pub reply: String,
    /// Optional link returned with the reply.
    pub url: Option<String>,
}

/// The contents of a [`FaqRule`].
pub struct FaqRuleView {
    pub id: Seq<char>,
    pub match_type: Seq<char>,
    pub patterns: Seq<Seq<char>>,
    pub reply: Seq<char>,
    pub url: Option<Seq<char>>,
}

impl View for FaqRule {
    type V = FaqRuleView;

    open spec fn view(&self) -> FaqRuleView {
        FaqRuleView {
            id: self.id@,
            match_type: self.match_type@,
            patterns: self.patterns.deep_view(),
            reply: self.reply@,
            url: self.url.deep_view(),
        }
    }
}

/// The match mode a rule gets when the file gives none.
pub fn default_match() -> (res: String)
    ensures
        res@ == "contains"@,
{
    owned("contains")
}

// ---------------------------------------------------------------------------
// Specification
// ---------------------------------------------------------------------------

/// Characters that make a query count as CJK text (Han, kana, Hangul).
pub open spec fn cjk_query_char(c: char) -> bool {
    let u = c as u32;
    (0x4e00 <= u && u <= 0x9fff) || (0x3040 <= u && u <= 0x30ff) || (0xac00 <= u && u <= 0xd7af)
}

/// Han ideographs (the test for a rule's reply being Chinese).
pub open spec fn han_char(c: char) -> bool {
    let u = c as u32;
    0x4e00 <= u && u <= 0x9fff
}

/// The query contains a CJK character.
pub open spec fn prefers_cjk(query: Seq<char>) -> bool {
    exists|i: int| 0 <= i < query.len() && cjk_query_char(#[trigger] query[i])
}

/// The reply contains a Han character.
pub open spec fn reply_is_cjk(reply: Seq<char>) -> bool {
    exists|i: int| 0 <= i < reply.len() && han_char(#[trigger] reply[i])
}

/// A non-empty run of ASCII letters and digits.
pub open spec fn single_ascii_word(p: Seq<char>) -> bool {
    p.len() > 0 && forall|i: int| 0 <= i < p.len() ==> ascii_alphanumeric(#[trigger] p[i])
}

/// The regular expression `\b<p>\b` that matches `p` as a whole word.
pub open spec fn word_regex(p: Seq<char>) -> Seq<char> {
    seq!['\\', 'b'] + escaped(p) + seq!['\\', 'b']
}

/// Whether a trigger pattern hits an (already lowercased) query: a single
/// ASCII word must occur as a whole word, anything else as a substring.
pub open spec fn pattern_hits(query: Seq<char>, pattern: Seq<char>) -> bool {
    let p = lowercase(pattern);
    if single_ascii_word(p) {
        if regex_compiles(word_regex(p)) {
            regex_finds(word_regex(p), query)
        } else {
            contains(query, p)
        }
    } else {
        contains(query, p)
    }
}

/// Whether a pattern hits a query under the `starts_with` mode: it is the
/// first word, the whole query, or the query starts with it and a space.
pub open spec fn starts_hit(q: Seq<char>, pattern: Seq<char>) -> bool {
    let p = lowercase(pattern);
    first_word(q) == p || q == p || has_prefix(q, p.push(' '))
}

/// The `starts_with` mode name.
pub open spec fn starts_with_mode() -> Seq<char> {
    seq!['s', 't', 'a', 'r', 't', 's', '_', 'w', 'i', 't', 'h']
}

/// Whether a rule fires for the normalized query `q`.
pub open spec fn rule_hits(rule: FaqRuleView, q: Seq<char>) -> bool {
    if rule.match_type == starts_with_mode() {
        exists|j: int| 0 <= j < rule.patterns.len() && starts_hit(q, #[trigger] rule.patterns[j])
    } else {
        exists|j: int| 0 <= j < rule.patterns.len() && pattern_hits(q, #[trigger] rule.patterns[j])
    }
}

/// Whether a rule takes part in a pass: the first pass only looks at rules
/// whose reply language matches the query, the second at all of them.
pub open spec fn eligible(rule: FaqRuleView, first_pass: bool, prefer_cjk: bool) -> bool {
    !first_pass || reply_is_cjk(rule.reply) == prefer_cjk
}

/// The first rule at or after `i` that is eligible in the pass and fires.
pub open spec fn first_hit_from(
    rules: Seq<FaqRuleView>,
    q: Seq<char>,
    first_pass: bool,
    prefer_cjk: bool,
    i: int,
) -> Option<int>
    decreases rules.len() - i,
{
    if i < 0 || i >= rules.len() {
        None
    } else if eligible(rules[i], first_pass, prefer_cjk) && rule_hits(rules[i], q) {
        Some(i)
    } else {
        first_hit_from(rules, q, first_pass, prefer_cjk, i + 1)
    }
}

/// The link a rule returns: its url, unless that is blank.
pub open spec fn rule_link(rule: FaqRuleView) -> Option<Seq<char>> {
    match rule.url {
        Some(u) => if trim(u).len() > 0 {
            Some(u)
        } else {
            None
        },
        None => None,
    }
}

/// The rule that answers `query`: the first firing rule in the query's
/// language, else the first firing rule of any language.
pub open spec fn answering_rule(rules: Seq<FaqRuleView>, query: Seq<char>) -> Option<int> {
    let q = trim(lowercase(query));
    let prefer = prefers_cjk(query);
    match first_hit_from(rules, q, true, prefer, 0) {
        Some(i) => Some(i),
        None => first_hit_from(rules, q, false, prefer, 0),
    }
}

/// The answer to `query`: the reply and link of the answering rule.
pub open spec fn faq_answer(rules: Seq<FaqRuleView>, query: Seq<char>) -> Option<
    (Seq<char>, Option<Seq<char>>),
> {
    match answering_rule(rules, query) {
        Some(i) => Some((rules[i].reply, rule_link(rules[i]))),
        None => None,
    }
}

// ---------------------------------------------------------------------------
// Implementation
// ---------------------------------------------------------------------------

/// Whether `p` is a single ASCII word.
fn is_single_ascii_word(p: &Vec<char>) -> (res: bool)
    ensures
        res == single_ascii_word(p@),
{
    if p.len() == 0 {
        return false;
    }
    let mut i: usize = 0;
    while i < p.len()
        invariant
            i <= p.len(),
            forall|k: int| 0 <= k < i ==> ascii_alphanumeric(#[trigger] p@[k]),
        decreases p.len() - i,
    {
        if !is_ascii_alnum(p[i]) {
            return false;
        }
        i = i + 1;
    }
    true
}

/// Whether `pattern` hits `query` (see [`pattern_hits`]): a single ASCII
/// word is matched on word boundaries, so `hi` does not fire inside `which`;
/// phrases and CJK patterns are matched as substrings.
pub fn pattern_hit(query: &str, pattern: &str) -> (res: bool)
    ensures
        res == pattern_hits(query@, pattern@),
{
    let p = to_lower(pattern);
    let pv = chars_of(p.as_str());
    if is_single_ascii_word(&pv) {
        let mut src = String::new();
        src.push('\\');
        src.push('b');
        let esc = escape(p.as_str());
        push_str(&mut src, esc.as_str());
        src.push('\\');
        src.push('b');
        assert(src@ == word_regex(p@));
        match compile(src.as_str()) {
            Ok(re) => is_match(&re, query),
            Err(_) => str_contains(query, p.as_str()),
        }
    } else {
        str_contains(query, p.as_str())
    }
}

/// Whether the query has a CJK character.
fn query_prefers_cjk(v: &Vec<char>) -> (res: bool)
    ensures
        res == prefers_cjk(v@),
{
    let mut i: usize = 0;
    while i < v.len()
        invariant
            i <= v.len(),
            forall|k: int| 0 <= k < i ==> !cjk_query_char(#[trigger] v@[k]),
        decreases v.len() - i,
    {
        let u = v[i] as u32;
        if (0x4e00 <= u && u <= 0x9fff) || (0x3040 <= u && u <= 0x30ff) || (0xac00 <= u && u
            <= 0xd7af) {
            return true;
        }
        i = i + 1;
    }
    false
}

/// Whether the reply has a Han character.
fn reply_has_han(s: &str) -> (res: bool)
    ensures
        res == reply_is_cjk(s@),
{
    let v = chars_of(s);
    let mut i: usize = 0;
    while i < v.len()
        invariant
            v@ == s@,
            i <= v.len(),
            forall|k: int| 0 <= k < i ==> !han_char(#[trigger] v@[k]),
        decreases v.len() - i,
    {
        let u = v[i] as u32;
        if 0x4e00 <= u && u <= 0x9fff {
            return true;
        }
        i = i + 1;
    }
    false
}

/// Whether a pattern hits under the `starts_with` mode.
fn starts_with_hit(q: &Vec<char>, first: &Vec<char>, pattern: &str) -> (res: bool)
    requires
        first@ == first_word(q@),
    ensures
        res == starts_hit(q@, pattern@),
{
    let p = to_lower(pattern);
    let pv = chars_of(p.as_str());
    if chars_eq(first, &pv) || chars_eq(q, &pv) {
        return true;
    }
    let mut ps = pv.clone();
    ps.push(' ');
    assert(ps@ == p@.push(' '));
    starts_with_chars(q, &ps)
}

/// Whether a rule fires for the normalized query.
fn rule_fires(rule: &FaqRule, q: &str, qv: &Vec<char>, first: &Vec<char>) -> (res: bool)
    requires
        qv@ == q@,
        first@ == first_word(q@),
    ensures
        res == rule_hits(rule@, q@),
{
    let starts = str_eq(rule.match_type.as_str(), "starts_with");
    proof {
        reveal_strlit("starts_with");
    }
    assert("starts_with"@ == starts_with_mode());
    let n = rule.patterns.len();
    let mut j: usize = 0;
    while j < n
        invariant
            n == rule.patterns.len(),
            j <= n,
            qv@ == q@,
            first@ == first_word(q@),
            starts == (rule.match_type@ == starts_with_mode()),
            starts ==> forall|k: int| 0 <= k < j ==> !starts_hit(q@, #[trigger] rule@.patterns[k]),
            !starts ==> forall|k: int|
                0 <= k < j ==> !pattern_hits(q@, #[trigger] rule@.patterns[k]),
        decreases n - j,
    {
        let p = rule.patterns[j].as_str();
        let hit = if starts {
            starts_with_hit(qv, first, p)
        } else {
            pattern_hit(q, p)
        };
        if hit {
            assert(rule@.patterns[j as int] == rule.patterns@[j as int]@);
            return true;
        }
        j = j + 1;
    }
    false
}

/// The link of a rule, when it is not blank.
fn link_of(rule: &FaqRule) -> (res: Option<String>)
    ensures
        res.deep_view() == rule_link(rule@),
{
    match &rule.url {
        Some(u) => {
            let t = trimmed(u.as_str());
            if t.as_str().is_empty() {
                None
            } else {
                Some(u.clone())
            }
        },
        None => None,
    }
}

/// The rules loaded from the FAQ file.
pub struct FaqStore {
    rules: Vec<FaqRule>,
}

impl View for FaqStore {
    type V = Seq<FaqRuleView>;

    closed spec fn view(&self) -> Seq<FaqRuleView> {
        self.rules@.map_values(|r: FaqRule| r@)
    }
}

impl FaqStore {
    /// A store holding `rules`, in file order.
    pub fn new(rules: Vec<FaqRule>) -> (res: Self)
        ensures
            res@ == rules@.map_values(|r: FaqRule| r@),
    {
        FaqStore { rules }
    }

    /// Scans the rules once (one pass) and returns the first that fires.
    fn scan(&self, q: &str, qv: &Vec<char>, first: &Vec<char>, first_pass: bool, prefer: bool) -> (res: Option<usize>)
        requires
            qv@ == q@,
            first@ == first_word(q@),
        ensures
            match res {
                Some(i) => first_hit_from(self@, q@, first_pass, prefer, 0) == Some(i as int),
                None => first_hit_from(self@, q@, first_pass, prefer, 0) is None,
            },
            res matches Some(i) ==> i < self.rules.len(),
    {
        let n = self.rules.len();
        let mut i: usize = 0;
        while i < n
            invariant
                n == self.rules.len(),
                i <= n,
                qv@ == q@,
                first@ == first_word(q@),
                first_hit_from(self@, q@, first_pass, prefer, 0) == first_hit_from(
                    self@,
                    q@,
                    first_pass,
                    prefer,
                    i as int,
                ),
            decreases n - i,
        {
            let rule = &self.rules[i];
            assert(self@[i as int] == rule@);
            let ok = !first_pass || reply_has_han(rule.reply.as_str()) == prefer;
            if ok && rule_fires(rule, q, qv, first) {
                return Some(i);
            }
            i = i + 1;
        }
        None
    }

    /// Matches `query` against the rules in file order and returns the reply
    /// (and non-blank link) of the first rule that fires, preferring rules
    /// whose reply is in the query's language; `None` when no rule fires.
    pub fn answer(&self, query: &str) -> (res: Option<(String, Option<String>)>)
        ensures
            res.deep_view() == faq_answer(self@, query@),
    {
        let lower = to_lower(query);
        let q = trimmed(lower.as_str());
        let qv = chars_of(q.as_str());
        let fw = first_word_of(&qv);
        let first = chars_of(fw.as_str());
        let prefer = query_prefers_cjk(&chars_of(query));
        let hit = match self.scan(q.as_str(), &qv, &first, true, prefer) {
            Some(i) => Some(i),
            None => self.scan(q.as_str(), &qv, &first, false, prefer),
        };
        match hit {
            Some(i) => {
                let rule = &self.rules[i];
                assert(self@[i as int] == rule@);
                Some((rule.reply.clone(), link_of(rule)))
            },
            None => None,
        }
    }
}

// ---------------------------------------------------------------------------
// Laws
// ---------------------------------------------------------------------------

/// Two rules that differ only in the letter case of their trigger patterns
/// (pattern by pattern, as `str::to_lowercase` sees it).
pub open spec fn same_rule_but_case(r1: FaqRuleView, r2: FaqRuleView) -> bool {
    &&& r1.id == r2.id
    &&& r1.match_type == r2.match_type
    &&& r1.reply == r2.reply
    &&& r1.url == r2.url
    &&& r1.patterns.len() == r2.patterns.len()
    &&& forall|j: int|
        0 <= j < r1.patterns.len() ==> lowercase(#[trigger] r1.patterns[j]) == lowercase(
            r2.patterns[j],
        )
}

/// Matching ignores the letter case of a trigger pattern: two patterns with
/// the same lowercase form hit exactly the same queries, in the
/// substring/word mode and in the `starts_with` mode alike.
pub proof fn law_pattern_case_ignored(q: Seq<char>, p1: Seq<char>, p2: Seq<char>)
    requires
        lowercase(p1) == lowercase(p2),
    ensures
        pattern_hits(q, p1) == pattern_hits(q, p2),
        starts_hit(q, p1) == starts_hit(q, p2),
{
}

/// A rule fires for exactly the same queries when its patterns are written
/// in another letter case.
pub proof fn law_rule_case_ignored(r1: FaqRuleView, r2: FaqRuleView, q: Seq<char>)
    requires
        same_rule_but_case(r1, r2),
    ensures
        rule_hits(r1, q) == rule_hits(r2, q),
{
    if r1.match_type == starts_with_mode() {
        if rule_hits(r1, q) {
            let j = choose|j: int| 0 <= j < r1.patterns.len() && starts_hit(q, #[trigger] r1.patterns[j]);
            law_pattern_case_ignored(q, r1.patterns[j], r2.patterns[j]);
        }
        if rule_hits(r2, q) {
            let j = choose|j: int| 0 <= j < r2.patterns.len() && starts_hit(q, #[trigger] r2.patterns[j]);
            law_pattern_case_ignored(q, r1.patterns[j], r2.patterns[j]);
        }
    } else {
        if rule_hits(r1, q) {
            let j = choose|j: int| 0 <= j < r1.patterns.len() && pattern_hits(q, #[trigger] r1.patterns[j]);
            law_pattern_case_ignored(q, r1.patterns[j], r2.patterns[j]);
        }
        if rule_hits(r2, q) {
            let j = choose|j: int| 0 <= j < r2.patterns.len() && pattern_hits(q, #[trigger] r2.patterns[j]);
            law_pattern_case_ignored(q, r1.patterns[j], r2.patterns[j]);
        }
    }
}

/// Scanning from `i` finds the same rule in two rule lists that differ only
/// in the letter case of their patterns.
proof fn lemma_first_hit_case_ignored(
    r1: Seq<FaqRuleView>,
    r2: Seq<FaqRuleView>,
    q: Seq<char>,
    first_pass: bool,
    prefer_cjk: bool,
    i: int,
)
    requires
        r1.len() == r2.len(),
        forall|k: int| 0 <= k < r1.len() ==> same_rule_but_case(#[trigger] r1[k], r2[k]),
    ensures
        first_hit_from(r1, q, first_pass, prefer_cjk, i) == first_hit_from(
            r2,
            q,
            first_pass,
            prefer_cjk,
            i,
        ),
        first_hit_from(r1, q, first_pass, prefer_cjk, i) matches Some(k) ==> 0 <= k < r1.len(),
    decreases r1.len() - i,
{
    if 0 <= i < r1.len() {
        law_rule_case_ignored(r1[i], r2[i], q);
        lemma_first_hit_case_ignored(r1, r2, q, first_pass, prefer_cjk, i + 1);
    }
}

/// The FAQ answers every query alike whatever the letter case its trigger
/// patterns are written in: rule lists that differ only there give the same
/// reply and link.
pub proof fn law_answer_case_ignored(r1: Seq<FaqRuleView>, r2: Seq<FaqRuleView>, query: Seq<char>)
    requires
        r1.len() == r2.len(),
        forall|k: int| 0 <= k < r1.len() ==> same_rule_but_case(#[trigger] r1[k], r2[k]),
    ensures
        faq_answer(r1, query) == faq_answer(r2, query),
{
    let q = trim(lowercase(query));
    let prefer = prefers_cjk(query);
    lemma_first_hit_case_ignored(r1, r2, q, true, prefer, 0);
    lemma_first_hit_case_ignored(r1, r2, q, false, prefer, 0);
    match answering_rule(r1, query) {
        Some(i) => {
            assert(same_rule_but_case(r1[i], r2[i]));
        },
        None => {},
    }
}

/// FAQ matching ignores the letter case of the query too: two queries with
/// the same lowercase form (and the same script preference) get the same
/// reply and link.
pub proof fn law_answer_query_case_ignored(rules: Seq<FaqRuleView>, q1: Seq<char>, q2: Seq<char>)
    requires
        lowercase(q1) == lowercase(q2),
        prefers_cjk(q1) == prefers_cjk(q2),
    ensures
        faq_answer(rules, q1) == faq_answer(rules, q2),
{
}

} // verus!
