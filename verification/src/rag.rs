//! Keyword retrieval: splitting text into lowercase word tokens, the token
//! overlap between a document and a query (the fallback relevance score),
//! and choosing the top-ranked documents.
use vstd::prelude::*;
use vstd::utf8::encode_utf8;
use vstd::utf8::encode_scalar;
use crate::text::{alphanumeric, char_is_alphanumeric, chars_of, lemma_encode_concat_len, lowercase, str_eq, string_of, to_lower, utf8_width};

verus! {

broadcast use vstd::seq_lib::seq_to_set_is_finite;

// ---------------------------------------------------------------------------
// Token sets
// ---------------------------------------------------------------------------

/// A set of distinct tokens.
pub struct TokenSet {
    items: Vec<String>,
}

/// The views of a list of strings.
pub open spec fn views(v: Seq<String>) -> Seq<Seq<char>> {
    v.map_values(|s: String| s@)
}

impl View for TokenSet {
    type V = Set<Seq<char>>;

    closed spec fn view(&self) -> Set<Seq<char>> {
        views(self.items@).to_set()
    }
}

impl TokenSet {
    #[verifier::type_invariant]
    closed spec fn inv(&self) -> bool {
        views(self.items@).no_duplicates()
    }

    /// The tokens in the order they were first added.
    pub closed spec fn ordered(&self) -> Seq<Seq<char>> {
        views(self.items@)
    }

    /// The set's elements, listed once each.
    proof fn lemma_ordered(&self)
        requires
            self.inv(),
        ensures
            self.ordered().no_duplicates(),
            self.ordered().to_set() == self@,
            self.ordered().len() == self@.len(),
            self@.finite(),
    {
        self.ordered().unique_seq_to_set();
    }

    /// An empty set.
    pub fn new() -> (res: Self)
        ensures
            res@ == Set::<Seq<char>>::empty(),
            res.ordered().len() == 0,
    {
        let res = TokenSet { items: Vec::new() };
        assert(res@ =~= Set::<Seq<char>>::empty());
        res
    }

    /// The number of tokens.
    pub fn len(&self) -> (res: usize)
        ensures
            res == self@.len(),
            res == self.ordered().len(),
    {
        proof {
            use_type_invariant(self);
            self.lemma_ordered();
        }
        self.items.len()
    }

    /// Whether the set is empty.
    pub fn is_empty(&self) -> (res: bool)
        ensures
            res == (self@.len() == 0),
    {
        self.len() == 0
    }

    /// The `i`-th token in insertion order.
    pub fn get(&self, i: usize) -> (res: &String)
        requires
            i < self.ordered().len(),
        ensures
            res@ == self.ordered()[i as int],
    {
        &self.items[i]
    }

    /// Whether `token` is in the set.
    pub fn contains(&self, token: &str) -> (res: bool)
        ensures
            res == self@.contains(token@),
    {
        let mut i: usize = 0;
        while i < self.items.len()
            invariant
                i <= self.items.len(),
                forall|j: int| 0 <= j < i ==> #[trigger] self.items@[j]@ != token@,
            decreases self.items.len() - i,
        {
            if str_eq(self.items[i].as_str(), token) {
                assert(views(self.items@)[i as int] == token@);
                return true;
            }
            i = i + 1;
        }
        assert(!views(self.items@).contains(token@)) by {
            if views(self.items@).contains(token@) {
                let j = choose|j: int| 0 <= j < self.items@.len() && views(self.items@)[j] == token@;
                assert(self.items@[j]@ == token@);
            }
        }
        false
    }

    /// Adds `token` (no effect if it is already present).
    pub fn insert(&mut self, token: String)
        ensures
            final(self)@ == old(self)@.insert(token@),
            !old(self)@.contains(token@) ==> final(self).ordered() == old(self).ordered().push(
                token@,
            ),
            old(self)@.contains(token@) ==> final(self).ordered() == old(self).ordered(),
    {
        if self.contains(token.as_str()) {
            assert(self@ =~= self@.insert(token@));
            return;
        }
        proof {
            use_type_invariant(&*self);
        }
        let mut items: Vec<String> = Vec::new();
        std::mem::swap(&mut items, &mut self.items);
        let ghost before = views(items@);
        let ghost t = token@;
        items.push(token);
        proof {
            assert(views(items@) == before.push(t));
            before.lemma_push_to_set_commute(t);
        }
        self.items = items;
    }
}

// ---------------------------------------------------------------------------
// Tokenization
// ---------------------------------------------------------------------------

/// `s[a..b]` is a maximal run of alphanumeric characters of `s`.
pub open spec fn maximal_run(s: Seq<char>, a: int, b: int) -> bool {
    &&& 0 <= a <= b <= s.len()
    &&& forall|k: int| a <= k < b ==> alphanumeric(#[trigger] s[k])
    &&& (a == 0 || !alphanumeric(s[a - 1]))
    &&& (b == s.len() || !alphanumeric(s[b]))
}

/// `t` is a token of `s`: a maximal alphanumeric run longer than two bytes
/// in UTF-8.
pub open spec fn is_token_of(s: Seq<char>, t: Seq<char>) -> bool {
    exists|a: int, b: int|
        #![trigger maximal_run(s, a, b)]
        maximal_run(s, a, b) && t == s.subrange(a, b) && encode_utf8(t).len() > 2
}

/// The tokens of the lowercased text.
pub open spec fn tokens(text: Seq<char>) -> Set<Seq<char>> {
    Set::new(|t: Seq<char>| is_token_of(lowercase(text), t))
}

/// The tokens of `s` whose run ends before position `i`.
pub open spec fn tokens_before(s: Seq<char>, i: int) -> Set<Seq<char>> {
    Set::new(
        |t: Seq<char>|
            exists|a: int, b: int|
                #![trigger maximal_run(s, a, b)]
                maximal_run(s, a, b) && b < i && t == s.subrange(a, b) && encode_utf8(t).len() > 2,
    )
}

/// `s[start..i]` is the (so far) alphanumeric run that begins at `start`.
pub open spec fn open_run(s: Seq<char>, start: int, i: int) -> bool {
    &&& 0 <= start <= i <= s.len()
    &&& forall|k: int| start <= k < i ==> alphanumeric(#[trigger] s[k])
    &&& (start == 0 || !alphanumeric(s[start - 1]))
}

/// A maximal run that ends where an open run ends begins where it begins.
proof fn lemma_run_start_unique(s: Seq<char>, start: int, a: int, b: int)
    requires
        open_run(s, start, b),
        maximal_run(s, a, b),
    ensures
        a == start,
{
    if a < start {
        assert(alphanumeric(s[start - 1]));
    } else if a > start {
        assert(alphanumeric(s[a - 1]));
    }
}

/// The run set extended by the run `s[start..b]` when it is long enough.
pub open spec fn with_run(found: Set<Seq<char>>, s: Seq<char>, start: int, b: int) -> Set<
    Seq<char>,
> {
    if encode_utf8(s.subrange(start, b)).len() > 2 {
        found.insert(s.subrange(start, b))
    } else {
        found
    }
}

/// Closing an open run at a separator adds exactly that run.
proof fn lemma_close_at_separator(s: Seq<char>, start: int, i: int)
    requires
        open_run(s, start, i),
        i < s.len(),
        !alphanumeric(s[i]),
    ensures
        tokens_before(s, i + 1) == with_run(tokens_before(s, i), s, start, i),
{
    assert(maximal_run(s, start, i));
    assert forall|t: Seq<char>| #[trigger] tokens_before(s, i + 1).contains(t) implies with_run(
        tokens_before(s, i),
        s,
        start,
        i,
    ).contains(t) by {
        let (a, b) = choose|a: int, b: int|
            #![trigger maximal_run(s, a, b)]
            maximal_run(s, a, b) && b < i + 1 && t == s.subrange(a, b) && encode_utf8(t).len() > 2;
        if b == i {
            lemma_run_start_unique(s, start, a, b);
        } else {
            assert(tokens_before(s, i).contains(t));
        }
    }
    assert forall|t: Seq<char>| #[trigger] with_run(tokens_before(s, i), s, start, i).contains(
        t,
    ) implies tokens_before(s, i + 1).contains(t) by {
        if tokens_before(s, i).contains(t) {
            let (a, b) = choose|a: int, b: int|
                #![trigger maximal_run(s, a, b)]
                maximal_run(s, a, b) && b < i && t == s.subrange(a, b) && encode_utf8(t).len()
                    > 2;
            assert(maximal_run(s, a, b));
        } else {
            assert(maximal_run(s, start, i));
        }
    }
    assert(tokens_before(s, i + 1) =~= with_run(tokens_before(s, i), s, start, i));
}

/// An alphanumeric character ends no run.
proof fn lemma_inside_run(s: Seq<char>, i: int)
    requires
        0 <= i < s.len(),
        alphanumeric(s[i]),
    ensures
        tokens_before(s, i + 1) == tokens_before(s, i),
{
    assert forall|t: Seq<char>| #[trigger] tokens_before(s, i + 1).contains(t) implies tokens_before(
        s,
        i,
    ).contains(t) by {
        let (a, b) = choose|a: int, b: int|
            #![trigger maximal_run(s, a, b)]
            maximal_run(s, a, b) && b < i + 1 && t == s.subrange(a, b) && encode_utf8(t).len() > 2;
        assert(b != i);
        assert(maximal_run(s, a, b));
    }
    assert forall|t: Seq<char>| #[trigger] tokens_before(s, i).contains(t) implies tokens_before(
        s,
        i + 1,
    ).contains(t) by {
        let (a, b) = choose|a: int, b: int|
            #![trigger maximal_run(s, a, b)]
            maximal_run(s, a, b) && b < i && t == s.subrange(a, b) && encode_utf8(t).len() > 2;
        assert(maximal_run(s, a, b));
    }
    assert(tokens_before(s, i + 1) =~= tokens_before(s, i));
}

/// Closing the last run at the end of the text completes the token set.
proof fn lemma_close_at_end(s: Seq<char>, start: int)
    requires
        open_run(s, start, s.len() as int),
    ensures
        Set::new(|t: Seq<char>| is_token_of(s, t)) == with_run(
            tokens_before(s, s.len() as int),
            s,
            start,
            s.len() as int,
        ),
{
    let n = s.len() as int;
    let all = Set::new(|t: Seq<char>| is_token_of(s, t));
    assert(maximal_run(s, start, n));
    assert forall|t: Seq<char>| #[trigger] all.contains(t) implies with_run(
        tokens_before(s, n),
        s,
        start,
        n,
    ).contains(t) by {
        let (a, b) = choose|a: int, b: int|
            #![trigger maximal_run(s, a, b)]
            maximal_run(s, a, b) && t == s.subrange(a, b) && encode_utf8(t).len() > 2;
        if b == n {
            lemma_run_start_unique(s, start, a, b);
        } else {
            assert(tokens_before(s, n).contains(t));
        }
    }
    assert forall|t: Seq<char>| #[trigger] with_run(tokens_before(s, n), s, start, n).contains(
        t,
    ) implies all.contains(t) by {
        if tokens_before(s, n).contains(t) {
            let (a, b) = choose|a: int, b: int|
                #![trigger maximal_run(s, a, b)]
                maximal_run(s, a, b) && b < n && t == s.subrange(a, b) && encode_utf8(t).len()
                    > 2;
            assert(maximal_run(s, a, b));
        } else {
            assert(maximal_run(s, start, n));
        }
    }
    assert(all =~= with_run(tokens_before(s, n), s, start, n));
}

/// Whether `v[start..end]` takes more than two bytes in UTF-8.
fn longer_than_two_bytes(v: &Vec<char>, start: usize, end: usize) -> (res: bool)
    requires
        start <= end <= v.len(),
    ensures
        res == (encode_utf8(v@.subrange(start as int, end as int)).len() > 2),
{
    let mut total: usize = 0;
    let mut i = start;
    while i < end && total <= 2
        invariant
            start <= i <= end <= v.len(),
            total == encode_utf8(v@.subrange(start as int, i as int)).len(),
            total <= 6,
        decreases end - i,
    {
        let w = utf8_width(v[i]);
        proof {
            let a = v@.subrange(start as int, i as int);
            assert(v@.subrange(start as int, i + 1) == a + seq![v@[i as int]]);
            lemma_encode_concat_len(a, seq![v@[i as int]]);
            assert(encode_utf8(seq![v@[i as int]]) == encode_scalar(v@[i as int] as u32) + encode_utf8(seq![v@[i as int]].drop_first()));
            assert(seq![v@[i as int]].drop_first().len() == 0);
        }
        total = total + w;
        i = i + 1;
    }
    proof {
        let a = v@.subrange(start as int, i as int);
        let b = v@.subrange(i as int, end as int);
        assert(v@.subrange(start as int, end as int) == a + b);
        lemma_encode_concat_len(a, b);
    }
    total > 2
}

/// Adds the run `v[start..end]` to `set` when it is longer than two bytes.
fn close_run(set: &mut TokenSet, v: &Vec<char>, start: usize, end: usize)
    requires
        start <= end <= v.len(),
    ensures
        final(set)@ == with_run(old(set)@, v@, start as int, end as int),
{
    if longer_than_two_bytes(v, start, end) {
        let piece = string_of(v, start, end);
        set.insert(piece);
    }
}

/// Splits text into its lowercase word tokens: the text is lowercased, cut
/// at every non-alphanumeric character, and the pieces longer than two bytes
/// are kept, once each.
pub fn tokenize(text: &str) -> (res: TokenSet)
    ensures
        res@ == tokens(text@),
{
    let lower = to_lower(text);
    let v = chars_of(lower.as_str());
    let mut set = TokenSet::new();
    let mut start: usize = 0;
    let mut i: usize = 0;
    proof {
        assert(tokens_before(v@, 0) =~= Set::<Seq<char>>::empty());
    }
    while i < v.len()
        invariant
            v@ == lowercase(text@),
            open_run(v@, start as int, i as int),
            set@ == tokens_before(v@, i as int),
        decreases v.len() - i,
    {
        if !char_is_alphanumeric(v[i]) {
            proof {
                lemma_close_at_separator(v@, start as int, i as int);
            }
            close_run(&mut set, &v, start, i);
            start = i + 1;
        } else {
            proof {
                lemma_inside_run(v@, i as int);
            }
        }
        i = i + 1;
    }
    proof {
        lemma_close_at_end(v@, start as int);
    }
    close_run(&mut set, &v, start, v.len());
    set
}

// ---------------------------------------------------------------------------
// Keyword overlap
// ---------------------------------------------------------------------------

/// How many of the query's tokens occur in the content, and how many tokens
/// the query has; the keyword score is the first divided by the second (and
/// 0 for a query without tokens).
pub fn keyword_overlap(content: &str, query: &str) -> (res: (usize, usize))
    ensures
        tokens(content@).finite(),
        tokens(query@).finite(),
        res.0 == tokens(content@).intersect(tokens(query@)).len(),
        res.1 == tokens(query@).len(),
{
    let ct = tokenize(content);
    let qt = tokenize(query);
    proof {
        use_type_invariant(&ct);
        use_type_invariant(&qt);
        ct.lemma_ordered();
        qt.lemma_ordered();
    }
    let ghost qs = qt.ordered();
    let n = qt.len();
    let mut count: usize = 0;
    let mut i: usize = 0;
    proof {
        assert(qs.take(0).to_set() =~= Set::<Seq<char>>::empty());
        assert(ct@.intersect(Set::<Seq<char>>::empty()) =~= Set::<Seq<char>>::empty());
    }
    while i < n
        invariant
            n == qs.len(),
            qs == qt.ordered(),
            qs.no_duplicates(),
            qs.to_set() == qt@,
            ct@.finite(),
            i <= n,
            count <= i,
            count == ct@.intersect(qs.take(i as int).to_set()).len(),
        decreases n - i,
    {
        let tok = qt.get(i);
        let hit = ct.contains(tok.as_str());
        proof {
            let x = qs[i as int];
            let before = qs.take(i as int).to_set();
            assert(qs.take(i + 1) == qs.take(i as int).push(x));
            qs.take(i as int).lemma_push_to_set_commute(x);
            assert(qs.take(i + 1).to_set() =~= before.insert(x));
            assert(!before.contains(x)) by {
                if before.contains(x) {
                    let j = choose|j: int| 0 <= j < i && qs.take(i as int)[j] == x;
                    assert(qs[j] == qs[i as int]);
                }
            }
            if ct@.contains(x) {
                assert(ct@.intersect(before.insert(x)) =~= ct@.intersect(before).insert(x));
            } else {
                assert(ct@.intersect(before.insert(x)) =~= ct@.intersect(before));
            }
        }
        if hit {
            count = count + 1;
        }
        i = i + 1;
    }
    assert(qs.take(n as int) == qs);
    assert(ct@ == tokens(content@));
    assert(qt@ == tokens(query@));
    (count, n)
}

/// Where the alphanumeric run starting at `a` ends.
pub open spec fn run_end(s: Seq<char>, a: int) -> int
    decreases s.len() - a,
{
    if a < 0 || a >= s.len() || !alphanumeric(s[a]) {
        a
    } else {
        run_end(s, a + 1)
    }
}

/// A maximal run from `a` ends where the run starting at `a` ends.
proof fn lemma_run_end(s: Seq<char>, a: int, b: int, c: int)
    requires
        maximal_run(s, a, b),
        a <= c <= b,
    ensures
        run_end(s, c) == b,
    decreases b - c,
{
    if c < b {
        lemma_run_end(s, a, b, c + 1);
    }
}

/// A text has finitely many tokens: each is the run starting at one of its
/// positions.
pub proof fn lemma_tokens_finite(text: Seq<char>)
    ensures
        tokens(text).finite(),
{
    let s = lowercase(text);
    let starts = vstd::set_lib::set_int_range(0, s.len() + 1 as int);
    vstd::set_lib::lemma_int_range(0, s.len() + 1 as int);
    let f = |a: int| s.subrange(a, run_end(s, a));
    starts.lemma_map_finite(f);
    assert forall|t: Seq<char>| #[trigger] tokens(text).contains(t) implies starts.map(f).contains(t) by {
        let (a, b) = choose|a: int, b: int|
            #![trigger maximal_run(s, a, b)]
            maximal_run(s, a, b) && t == s.subrange(a, b) && encode_utf8(t).len() > 2;
        lemma_run_end(s, a, b, a);
        assert(starts.contains(a));
        assert(f(a) == t);
    }
    vstd::set_lib::lemma_set_subset_finite(starts.map(f), tokens(text));
}

/// The keyword score never exceeds one: no more query tokens can be found
/// in the content than the query has.
pub proof fn law_overlap_bounded(content: Seq<char>, query: Seq<char>)
    ensures
        tokens(content).intersect(tokens(query)).len() <= tokens(query).len(),
{
    lemma_tokens_finite(content);
    lemma_tokens_finite(query);
    vstd::set_lib::lemma_len_intersect(tokens(query), tokens(content));
    assert(tokens(content).intersect(tokens(query)) =~= tokens(query).intersect(tokens(content)));
}

/// When every token of the query occurs in the content, the overlap is the
/// whole query (a score of one).
pub proof fn law_overlap_full(content: Seq<char>, query: Seq<char>)
    requires
        tokens(query).subset_of(tokens(content)),
    ensures
        tokens(content).intersect(tokens(query)) == tokens(query),
{
    assert(tokens(content).intersect(tokens(query)) =~= tokens(query));
}

// ---------------------------------------------------------------------------
// Ranking
// ---------------------------------------------------------------------------

/// The indices of the ranked entries that passed the score threshold.
pub open spec fn passing(ranked: Seq<(usize, bool)>) -> Seq<usize>
    decreases ranked.len(),
{
    if ranked.len() == 0 {
        seq![]
    } else {
        let rest = passing(ranked.drop_last());
        if ranked.last().1 {
            rest.push(ranked.last().0)
        } else {
            rest
        }
    }
}

/// The first `k` elements of `s` (all of them when there are fewer).
pub open spec fn first_k(s: Seq<usize>, k: nat) -> Seq<usize> {
    if k < s.len() {
        s.take(k as int)
    } else {
        s
    }
}

/// Picks, in ranking order, the indices of at most `k` documents whose score
/// passed the threshold. `ranked` pairs each document index with whether its
/// score reached the minimum, best score first.
pub fn top_indices(ranked: &Vec<(usize, bool)>, k: usize) -> (res: Vec<usize>)
    ensures
        res@ == first_k(passing(ranked@), k as nat),
{
    let mut out: Vec<usize> = Vec::new();
    let mut i: usize = 0;
    while i < ranked.len() && out.len() < k
        invariant
            i <= ranked.len(),
            out@ == passing(ranked@.take(i as int)),
            out.len() <= k,
        decreases ranked.len() - i,
    {
        assert(ranked@.take(i + 1).drop_last() == ranked@.take(i as int));
        if ranked[i].1 {
            out.push(ranked[i].0);
        }
        i = i + 1;
    }
    proof {
        lemma_passing_prefix(ranked@, i as int, k as nat);
    }
    out
}

/// `passing` of a prefix is a prefix of `passing`.
proof fn lemma_passing_take(ranked: Seq<(usize, bool)>, i: int)
    requires
        0 <= i <= ranked.len(),
    ensures
        passing(ranked.take(i)).len() <= passing(ranked).len(),
        passing(ranked) == passing(ranked.take(i)) + passing(ranked.skip(i)),
    decreases ranked.len() - i,
{
    if i == ranked.len() {
        assert(ranked.take(i) == ranked);
        assert(ranked.skip(i).len() == 0);
        assert(passing(ranked) + seq![] == passing(ranked));
    } else {
        lemma_passing_take(ranked.drop_last(), i);
        assert(ranked.drop_last().take(i) == ranked.take(i));
        assert(ranked.skip(i).drop_last() == ranked.drop_last().skip(i));
        assert(ranked.skip(i).last() == ranked.last());
    }
}

/// When the scan stops (end of list or `k` found), its result is the first
/// `k` passing indices.
proof fn lemma_passing_prefix(ranked: Seq<(usize, bool)>, i: int, k: nat)
    requires
        0 <= i <= ranked.len(),
        i == ranked.len() || passing(ranked.take(i)).len() >= k,
        passing(ranked.take(i)).len() <= k,
    ensures
        passing(ranked.take(i)) == first_k(passing(ranked), k),
{
    lemma_passing_take(ranked, i);
    if i == ranked.len() {
        assert(ranked.take(i) == ranked);
    } else {
        let p = passing(ranked.take(i));
        assert((p + passing(ranked.skip(i))).take(k as int) =~= p);
    }
}

} // verus!
