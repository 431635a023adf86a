//! A map keyed by strings, kept as a vector of entries with distinct keys.
//! (vstd models `HashMap` only for keys it can hash in specifications, which
//! `String` is not, so the string-keyed tables of this crate use this type.)
use vstd::prelude::*;

verus! {

/// A map from strings to values.
pub struct StrMap<V> {
    entries: Vec<(String, V)>,
}

/// Whether the keys of an entry list are pairwise distinct.
pub open spec fn distinct_keys<V>(s: Seq<(String, V)>) -> bool {
    forall|i: int, j: int| 0 <= i < s.len() && 0 <= j < s.len() && i != j ==> #[trigger] s[i].0@ != #[trigger] s[j].0@
}

/// Whether `k` is the key of some entry.
pub open spec fn has_key<V>(s: Seq<(String, V)>, k: Seq<char>) -> bool {
    exists|i: int| 0 <= i < s.len() && #[trigger] s[i].0@ == k
}

/// The position of the entry with key `k`.
pub open spec fn key_pos<V>(s: Seq<(String, V)>, k: Seq<char>) -> int {
    choose|i: int| 0 <= i < s.len() && #[trigger] s[i].0@ == k
}

/// The map that an entry list stands for.
pub open spec fn entries_map<V: View>(s: Seq<(String, V)>) -> Map<Seq<char>, V::V> {
    Map::new(|k: Seq<char>| has_key(s, k), |k: Seq<char>| s[key_pos(s, k)].1@)
}

/// In a list with distinct keys, an entry is found at its own position.
proof fn lemma_key_pos<V>(s: Seq<(String, V)>, i: int)
    requires
        distinct_keys(s),
        0 <= i < s.len(),
    ensures
        has_key(s, s[i].0@),
        key_pos(s, s[i].0@) == i,
{
    assert(has_key(s, s[i].0@));
    let j = key_pos(s, s[i].0@);
    assert(s[j].0@ == s[i].0@);
}

/// The map built by inserting the entries in order.
pub open spec fn rebuilt<V: View>(s: Seq<(String, V)>) -> Map<Seq<char>, V::V>
    decreases s.len(),
{
    if s.len() == 0 {
        Map::empty()
    } else {
        rebuilt(s.drop_last()).insert(s.last().0@, s.last().1@)
    }
}

/// A list with distinct keys stands for the map its entries build.
proof fn lemma_rebuilt_entries<V: View>(s: Seq<(String, V)>)
    requires
        distinct_keys(s),
    ensures
        rebuilt(s) == entries_map(s),
    decreases s.len(),
{
    if s.len() == 0 {
        assert(entries_map(s) =~= Map::<Seq<char>, V::V>::empty());
    } else {
        let t = s.drop_last();
        let n = t.len() as int;
        let kv = s.last().0@;
        assert(distinct_keys(t)) by {
            assert forall|a: int, b: int|
                0 <= a < t.len() && 0 <= b < t.len() && a != b implies #[trigger] t[a].0@
                != #[trigger] t[b].0@ by {
                assert(t[a] == s[a]);
                assert(t[b] == s[b]);
            }
        }
        lemma_rebuilt_entries(t);
        lemma_key_pos(s, n);
        assert(entries_map(s) =~= entries_map(t).insert(kv, s.last().1@)) by {
            assert forall|k: Seq<char>| #[trigger] has_key(s, k) == (has_key(t, k) || k == kv) by {
                if has_key(t, k) {
                    let j = key_pos(t, k);
                    assert(s[j].0@ == k);
                }
                if has_key(s, k) && k != kv {
                    let j = key_pos(s, k);
                    assert(j != n);
                    assert(t[j].0@ == k);
                }
            }
            assert forall|k: Seq<char>| has_key(s, k) && k != kv implies #[trigger] s[key_pos(s, k)].1@
                == t[key_pos(t, k)].1@ by {
                let j = key_pos(s, k);
                assert(j != n);
                assert(t[j] == s[j]);
                lemma_key_pos(t, j);
                lemma_key_pos(s, j);
            }
        }
    }
}

impl<V: View> View for StrMap<V> {
    type V = Map<Seq<char>, V::V>;

    closed spec fn view(&self) -> Map<Seq<char>, V::V> {
        entries_map(self.entries@)
    }
}

impl<V: View> StrMap<V> {
    /// The map's internal invariant: keys are distinct.
    pub closed spec fn wf(&self) -> bool {
        distinct_keys(self.entries@)
    }

    /// The entries, in insertion order.
    pub closed spec fn entry_seq(&self) -> Seq<(String, V)> {
        self.entries@
    }

    /// An empty map.
    pub fn new() -> (res: Self)
        ensures
            res.wf(),
            res@ == Map::<Seq<char>, V::V>::empty(),
            res.entry_seq().len() == 0,
    {
        let res = StrMap { entries: Vec::new() };
        assert(res@ =~= Map::<Seq<char>, V::V>::empty());
        res
    }

    /// The number of entries.
    pub fn len(&self) -> (res: usize)
        ensures
            res == self.entry_seq().len(),
    {
        self.entries.len()
    }

    /// No two entries share a key.
    pub proof fn lemma_distinct(&self)
        requires
            self.wf(),
        ensures
            distinct_keys(self.entry_seq()),
    {
    }

    /// The map is what inserting its entries in order builds.
    pub proof fn lemma_rebuilt(&self)
        requires
            self.wf(),
        ensures
            rebuilt(self.entry_seq()) == self@,
    {
        lemma_rebuilt_entries(self.entries@);
    }

    /// The position of the entry with key `key`, if there is one.
    pub fn position(&self, key: &String) -> (res: Option<usize>)
        requires
            self.wf(),
        ensures
            match res {
                Some(i) => i < self.entry_seq().len() && self.entry_seq()[i as int].0@ == key@
                    && self@.contains_key(key@) && self@[key@] == self.entry_seq()[i as int].1@,
                None => !self@.contains_key(key@),
            },
    {
        let mut i: usize = 0;
        while i < self.entries.len()
            invariant
                self.wf(),
                i <= self.entries.len(),
                forall|j: int| 0 <= j < i ==> #[trigger] self.entries@[j].0@ != key@,
            decreases self.entries.len() - i,
        {
            if self.entries[i].0 == *key {
                proof {
                    lemma_key_pos(self.entries@, i as int);
                }
                return Some(i);
            }
            i = i + 1;
        }
        None
    }

    /// The value stored under `key`.
    pub fn get(&self, key: &String) -> (res: Option<&V>)
        requires
            self.wf(),
        ensures
            match res {
                Some(v) => self@.contains_key(key@) && self@[key@] == v@,
                None => !self@.contains_key(key@),
            },
    {
        match self.position(key) {
            Some(i) => Some(&self.entries[i].1),
            None => None,
        }
    }

    /// The value at position `i`.
    pub fn value_at(&self, i: usize) -> (res: &V)
        requires
            i < self.entry_seq().len(),
        ensures
            *res == self.entry_seq()[i as int].1,
    {
        &self.entries[i].1
    }

    /// Replaces the value at position `i`.
    pub fn set_value(&mut self, i: usize, v: V)
        requires
            old(self).wf(),
            i < old(self).entry_seq().len(),
        ensures
            final(self).wf(),
            final(self)@ == old(self)@.insert(old(self).entry_seq()[i as int].0@, v@),
            final(self).entry_seq().len() == old(self).entry_seq().len(),
            final(self).entry_seq()[i as int].0@ == old(self).entry_seq()[i as int].0@,
            final(self).entry_seq()[i as int].1 == v,
            forall|j: int|
                0 <= j < old(self).entry_seq().len() && j != i ==> final(self).entry_seq()[j]
                    == old(self).entry_seq()[j],
    {
        let ghost old_s = self.entries@;
        let k = self.entries[i].0.clone();
        self.entries.set(i, (k, v));
        proof {
            let s = self.entries@;
            assert(distinct_keys(s)) by {
                assert forall|a: int, b: int|
                    0 <= a < s.len() && 0 <= b < s.len() && a != b implies #[trigger] s[a].0@
                    != #[trigger] s[b].0@ by {
                    assert(s[a].0@ == old_s[a].0@);
                    assert(s[b].0@ == old_s[b].0@);
                }
            }
            let key = old_s[i as int].0@;
            assert(self@ =~= entries_map(old_s).insert(key, v@)) by {
                lemma_key_pos(s, i as int);
                assert forall|k: Seq<char>| #[trigger] has_key(s, k) == (has_key(old_s, k) || k == key) by {
                    if has_key(old_s, k) {
                        let j = key_pos(old_s, k);
                        assert(s[j].0@ == k);
                    }
                    if has_key(s, k) {
                        let j = key_pos(s, k);
                        assert(old_s[j].0@ == k);
                    }
                }
                assert forall|k: Seq<char>| has_key(s, k) && k != key implies #[trigger] s[key_pos(s, k)].1@
                    == old_s[key_pos(old_s, k)].1@ by {
                    let j = key_pos(s, k);
                    assert(old_s[j].0@ == k);
                    lemma_key_pos(old_s, j);
                    lemma_key_pos(s, j);
                }
            }
        }
    }

    /// Stores `v` under `key`, replacing any earlier value.
    pub fn insert(&mut self, key: String, v: V)
        requires
            old(self).wf(),
        ensures
            final(self).wf(),
            final(self)@ == old(self)@.insert(key@, v@),
            forall|j: int|
                0 <= j < final(self).entry_seq().len() ==> (j < old(self).entry_seq().len()
                    && final(self).entry_seq()[j] == old(self).entry_seq()[j]) || (
                final(self).entry_seq()[j].0@ == key@ && final(self).entry_seq()[j].1 == v),
    {
        match self.position(&key) {
            Some(i) => {
                self.set_value(i, v);
            },
            None => {
                let ghost old_s = self.entries@;
                let ghost kv = key@;
                self.entries.push((key, v));
                proof {
                    let s = self.entries@;
                    let n = old_s.len() as int;
                    assert(forall|j: int| 0 <= j < n ==> s[j] == old_s[j]);
                    assert(!has_key(old_s, kv)) by {
                        if has_key(old_s, kv) {
                            let j = key_pos(old_s, kv);
                            lemma_key_pos(old_s, j);
                        }
                    }
                    assert(distinct_keys(s)) by {
                        assert forall|a: int, b: int|
                            0 <= a < s.len() && 0 <= b < s.len() && a != b implies #[trigger] s[a].0@
                            != #[trigger] s[b].0@ by {
                            if a == n {
                                assert(old_s[b].0@ != kv);
                            } else if b == n {
                                assert(old_s[a].0@ != kv);
                            }
                        }
                    }
                    assert(self@ =~= entries_map(old_s).insert(kv, v@)) by {
                        lemma_key_pos(s, n);
                        assert forall|k: Seq<char>| #[trigger] has_key(s, k) == (has_key(old_s, k) || k == kv) by {
                            if has_key(old_s, k) {
                                let j = key_pos(old_s, k);
                                assert(s[j].0@ == k);
                            }
                            if has_key(s, k) && k != kv {
                                let j = key_pos(s, k);
                                assert(old_s[j].0@ == k);
                            }
                        }
                        assert forall|k: Seq<char>| has_key(s, k) && k != kv implies #[trigger] s[key_pos(s, k)].1@
                            == old_s[key_pos(old_s, k)].1@ by {
                            let j = key_pos(s, k);
                            assert(j != n);
                            assert(old_s[j].0@ == k);
                            lemma_key_pos(old_s, j);
                            lemma_key_pos(s, j);
                        }
                    }
                }
            },
        }
    }
}

} // verus!
