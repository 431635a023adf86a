//! The answer cache's exact layer: answers stored under the normalized
//! query (lowercased, white space collapsed), so that a repeated question is
//! answered without the language model. The whole cache belongs to one
//! cache version; a file written under another version is ignored.
use vstd::prelude::*;
use crate::strmap::{rebuilt, StrMap};
use crate::text::{
    chars_of, lemma_squeeze_single_spaced, lowercase, owned, single_spaced, squeeze, squeeze_chars,
    str_eq, to_lower,
};

verus! {

/// The cache key of a query: lowercase, with white space runs collapsed to
/// single spaces and none at either end.
pub open spec fn normalized(q: Seq<char>) -> Seq<char> {
    squeeze(lowercase(q))
}

/// A cache key has single spaces between words and no white space at
/// either end.
pub proof fn law_normalized_single_spaced(q: Seq<char>)
    ensures
        single_spaced(normalized(q)),
{
    lemma_squeeze_single_spaced(lowercase(q));
}

/// Computes the cache key of a query.
pub fn normalize(q: &str) -> (res: String)
    ensures
        res@ == normalized(q@),
{
    let lower = to_lower(q);
    let v = chars_of(lower.as_str());
    squeeze_chars(&v)
}

/// A cached question and its answer.
pub struct CacheEntry {
    /// The question as it was asked.
    pub query: String,
    /// The answer given.
    pub reply: String,
}

/// The contents of a [`CacheEntry`].
pub struct CacheEntryView {
    pub query: Seq<char>,
    pub reply: Seq<char>,
}

impl View for CacheEntry {
    type V = CacheEntryView;

    open spec fn view(&self) -> CacheEntryView {
        CacheEntryView { query: self.query@, reply: self.reply@ }
    }
}

impl Clone for CacheEntry {
    fn clone(&self) -> (res: Self)
        ensures
            res@ == self@,
    {
        CacheEntry { query: self.query.clone(), reply: self.reply.clone() }
    }
}

/// Answers keyed by normalized query, for one cache version.
pub struct AnswerCache {
    version: String,
    map: StrMap<CacheEntry>,
}

impl View for AnswerCache {
    type V = Map<Seq<char>, CacheEntryView>;

    closed spec fn view(&self) -> Map<Seq<char>, CacheEntryView> {
        self.map@
    }
}

/// The table built from the entries of a cache file, later entries
/// replacing earlier ones with the same key.
pub open spec fn table_of(entries: Seq<CacheEntryView>) -> Map<Seq<char>, CacheEntryView>
    decreases entries.len(),
{
    if entries.len() == 0 {
        Map::empty()
    } else {
        table_of(entries.drop_last()).insert(normalized(entries.last().query), entries.last())
    }
}

impl AnswerCache {
    #[verifier::type_invariant]
    closed spec fn inv(&self) -> bool {
        &&& self.map.wf()
        &&& keyed_by_query(self.map.entry_seq())
    }

    /// The cache version this cache belongs to.
    pub closed spec fn version_view(&self) -> Seq<char> {
        self.version@
    }

    /// The entries, in the order they were stored.
    pub closed spec fn entry_list(&self) -> Seq<CacheEntryView> {
        self.map.entry_seq().map_values(|p: (String, CacheEntry)| p.1@)
    }

    /// An empty cache with no version (used when no cache is kept).
    pub fn empty() -> (res: Self)
        ensures
            res@ == Map::<Seq<char>, CacheEntryView>::empty(),
            res.version_view() == Seq::<char>::empty(),
    {
        AnswerCache { version: String::new(), map: StrMap::new() }
    }

    /// An empty cache for `version`.
    pub fn with_version(version: &str) -> (res: Self)
        ensures
            res@ == Map::<Seq<char>, CacheEntryView>::empty(),
            res.version_view() == version@,
    {
        AnswerCache { version: owned(version), map: StrMap::new() }
    }

    /// The cache for `version` rebuilt from a cache file written under
    /// `file_version` with `entries`: the entries, keyed by normalized query,
    /// when the versions agree; an empty cache otherwise.
    pub fn from_file(version: &str, file_version: &str, entries: Vec<CacheEntry>) -> (res: Self)
        ensures
            res.version_view() == version@,
            version@ == file_version@ ==> res@ == table_of(entries@.map_values(|e: CacheEntry| e@)),
            version@ != file_version@ ==> res@ == Map::<Seq<char>, CacheEntryView>::empty(),
    {
        let mut cache = AnswerCache::with_version(version);
        if !str_eq(version, file_version) {
            return cache;
        }
        let ghost ev = entries@.map_values(|e: CacheEntry| e@);
        let mut i: usize = 0;
        while i < entries.len()
            invariant
                i <= entries.len(),
                ev == entries@.map_values(|e: CacheEntry| e@),
                cache@ == table_of(ev.take(i as int)),
                cache.version_view() == version@,
            decreases entries.len() - i,
        {
            assert(ev.take(i + 1).drop_last() == ev.take(i as int));
            assert(ev.take(i + 1).last() == entries@[i as int]@);
            let e = entries[i].clone();
            cache.store(e);
            i = i + 1;
        }
        assert(ev.take(entries.len() as int) == ev);
        cache
    }

    /// Stores an entry under its normalized query.
    fn store(&mut self, e: CacheEntry)
        ensures
            final(self)@ == old(self)@.insert(normalized(e.query@), e@),
            final(self).version_view() == old(self).version_view(),
    {
        proof {
            use_type_invariant(&*self);
        }
        let key = normalize(e.query.as_str());
        let mut m = StrMap::new();
        std::mem::swap(&mut m, &mut self.map);
        m.insert(key, e);
        self.map = m;
    }

    /// The cached answer for `query`, if a question with the same normalized
    /// form was stored (the exact-hit layer of the cache).
    pub fn get_exact(&self, query: &str) -> (res: Option<String>)
        ensures
            match res {
                Some(r) => self@.contains_key(normalized(query@)) && r@ == self@[normalized(
                    query@,
                )].reply,
                None => !self@.contains_key(normalized(query@)),
            },
    {
        proof {
            use_type_invariant(self);
        }
        let key = normalize(query);
        match self.map.get(&key) {
            Some(e) => Some(e.reply.clone()),
            None => None,
        }
    }

    /// Stores `reply` as the answer to `query` under the query's normalized
    /// form, replacing any earlier answer.
    pub fn put_offline(&mut self, query: &str, reply: &str)
        ensures
            final(self)@ == old(self)@.insert(
                normalized(query@),
                CacheEntryView { query: query@, reply: reply@ },
            ),
            final(self).version_view() == old(self).version_view(),
    {
        self.store(CacheEntry { query: owned(query), reply: owned(reply) });
    }

    /// The cache version.
    pub fn version(&self) -> (res: &String)
        ensures
            res@ == self.version_view(),
    {
        &self.version
    }

    /// The number of stored answers.
    pub fn len(&self) -> (res: usize)
        ensures
            res == self.entry_list().len(),
    {
        self.map.len()
    }

    /// Every stored entry, in storage order: what the cache file holds.
    /// Reading them back under the same version (see
    /// [`AnswerCache::from_file`]) rebuilds this very cache.
    pub fn entries(&self) -> (res: Vec<CacheEntry>)
        ensures
            res@.map_values(|e: CacheEntry| e@) == self.entry_list(),
            table_of(res@.map_values(|e: CacheEntry| e@)) == self@,
            distinct_queries(res@.map_values(|e: CacheEntry| e@)),
    {
        proof {
            use_type_invariant(self);
            self.map.lemma_distinct();
            let es = self.map.entry_seq();
            let l = self.entry_list();
            assert forall|i: int, j: int| 0 <= i < l.len() && 0 <= j < l.len() && i != j implies normalized(
                #[trigger] l[i].query,
            ) != normalized(#[trigger] l[j].query) by {
                assert(l[i] == es[i].1@);
                assert(l[j] == es[j].1@);
                assert(es[i].0@ == normalized(es[i].1@.query));
                assert(es[j].0@ == normalized(es[j].1@.query));
            }
            self.map.lemma_rebuilt();
            lemma_table_of_entries(self.map.entry_seq());
        }
        let n = self.map.len();
        let mut out: Vec<CacheEntry> = Vec::new();
        let mut i: usize = 0;
        while i < n
            invariant
                n == self.map.entry_seq().len(),
                i <= n,
                out@.map_values(|e: CacheEntry| e@) == self.entry_list().take(i as int),
            decreases n - i,
        {
            let e = self.map.value_at(i).clone();
            let ghost before = out@;
            out.push(e);
            assert(out@.map_values(|e: CacheEntry| e@) == before.map_values(|e: CacheEntry| e@).push(
                self.entry_list()[i as int],
            ));
            assert(self.entry_list().take(i + 1) == self.entry_list().take(i as int).push(
                self.entry_list()[i as int],
            ));
            i = i + 1;
        }
        assert(self.entry_list().take(n as int) == self.entry_list());
        out
    }
}

/// No two entries have questions with the same normalized form.
pub open spec fn distinct_queries(entries: Seq<CacheEntryView>) -> bool {
    forall|i: int, j: int|
        0 <= i < entries.len() && 0 <= j < entries.len() && i != j ==> normalized(
            #[trigger] entries[i].query,
        ) != normalized(#[trigger] entries[j].query)
}

/// Reading a saved cache back: when no two saved questions share a
/// normalized form (as [`AnswerCache::entries`] guarantees), every saved
/// entry is found again under its question.
pub proof fn law_saved_entries_read_back(entries: Seq<CacheEntryView>)
    requires
        distinct_queries(entries),
    ensures
        forall|i: int|
            0 <= i < entries.len() ==> #[trigger] table_of(entries).contains_key(
                normalized(entries[i].query),
            ) && table_of(entries)[normalized(entries[i].query)] == entries[i],
    decreases entries.len(),
{
    if entries.len() > 0 {
        let t = entries.drop_last();
        assert(distinct_queries(t)) by {
            assert forall|i: int, j: int| 0 <= i < t.len() && 0 <= j < t.len() && i != j implies normalized(
                #[trigger] t[i].query,
            ) != normalized(#[trigger] t[j].query) by {
                assert(t[i] == entries[i]);
                assert(t[j] == entries[j]);
            }
        }
        law_saved_entries_read_back(t);
        let n = entries.len() - 1;
        assert forall|i: int| 0 <= i < entries.len() implies #[trigger] table_of(entries).contains_key(
            normalized(entries[i].query),
        ) && table_of(entries)[normalized(entries[i].query)] == entries[i] by {
            if i < n {
                assert(t[i] == entries[i]);
                assert(normalized(entries[i].query) != normalized(entries[n].query));
                assert(table_of(t).contains_key(normalized(t[i].query)));
            }
        }
    }
}

/// Each entry is stored under its query's normalized form.
pub open spec fn keyed_by_query(s: Seq<(String, CacheEntry)>) -> bool {
    forall|i: int| 0 <= i < s.len() ==> (#[trigger] s[i]).0@ == normalized(s[i].1@.query)
}

/// Entries stored under their normalized queries build, in order, the same
/// table as the file's entries do.
proof fn lemma_table_of_entries(s: Seq<(String, CacheEntry)>)
    requires
        keyed_by_query(s),
    ensures
        table_of(s.map_values(|p: (String, CacheEntry)| p.1@)) == rebuilt(s),
    decreases s.len(),
{
    if s.len() > 0 {
        let t = s.drop_last();
        assert(keyed_by_query(t)) by {
            assert forall|i: int| 0 <= i < t.len() implies (#[trigger] t[i]).0@ == normalized(
                t[i].1@.query,
            ) by {
                assert(t[i] == s[i]);
            }
        }
        lemma_table_of_entries(t);
        let l = s.map_values(|p: (String, CacheEntry)| p.1@);
        assert(l.drop_last() == t.map_values(|p: (String, CacheEntry)| p.1@));
        assert(l.last() == s.last().1@);
        assert(s[s.len() - 1] == s.last());
    }
}

/// Reading after writing: once `reply` is stored for `query`, every query
/// with the same normalized form gets `reply` back.
pub proof fn law_read_after_write(
    before: Map<Seq<char>, CacheEntryView>,
    after: Map<Seq<char>, CacheEntryView>,
    query: Seq<char>,
    reply: Seq<char>,
    asked: Seq<char>,
)
    requires
        after == before.insert(normalized(query), CacheEntryView { query, reply }),
        normalized(asked) == normalized(query),
    ensures
        after.contains_key(normalized(asked)),
        after[normalized(asked)].reply == reply,
{
}

/// Storing an answer leaves the answers to other questions unchanged.
pub proof fn law_write_keeps_others(
    before: Map<Seq<char>, CacheEntryView>,
    after: Map<Seq<char>, CacheEntryView>,
    query: Seq<char>,
    reply: Seq<char>,
    asked: Seq<char>,
)
    requires
        after == before.insert(normalized(query), CacheEntryView { query, reply }),
        normalized(asked) != normalized(query),
    ensures
        after.contains_key(normalized(asked)) == before.contains_key(normalized(asked)),
        before.contains_key(normalized(asked)) ==> after[normalized(asked)] == before[normalized(
            asked,
        )],
{
}

} // verus!
