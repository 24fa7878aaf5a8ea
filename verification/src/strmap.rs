//! A map from string keys to values, kept as a vector sorted by key.
//!
//! Lookups are a binary search over the keys' UTF-8 bytes; the entries come
//! out in the same order as those of a `BTreeMap<String, _>`.
use crate::keyorder::{compare_keys, key_bytes, key_lt, lemma_lex_irreflexive, lemma_lex_transitive, KeyOrder};
use vstd::prelude::*;

verus! {

/// Whether `s` lists the entries of `m` exactly once each, sorted by key.
pub open spec fn is_sorted_listing<V>(s: Seq<(String, V)>, m: Map<Seq<char>, V>) -> bool {
    &&& forall|i: int, j: int| 0 <= i < j < s.len() ==> key_lt(#[trigger] s[i].0@, #[trigger] s[j].0@)
    &&& forall|i: int| 0 <= i < s.len() ==> m.contains_key(#[trigger] s[i].0@) && m[s[i].0@] == s[i].1
    &&& forall|k: Seq<char>| #[trigger] m.contains_key(k) ==> exists|i: int| 0 <= i < s.len() && s[i].0@ == k
}

/// The map built by inserting the pairs of `s` in order, later pairs winning.
pub open spec fn fold_insert<V>(s: Seq<(Seq<char>, V)>) -> Map<Seq<char>, V>
    decreases s.len(),
{
    if s.len() == 0 {
        Map::empty()
    } else {
        fold_insert(s.drop_last()).insert(s.last().0, s.last().1)
    }
}

/// Whether `s` lists the entries of `m`, each key once.
pub open spec fn is_listing<V>(s: Seq<(Seq<char>, V)>, m: Map<Seq<char>, V>) -> bool {
    &&& forall|i: int, j: int| 0 <= i < j < s.len() ==> #[trigger] s[i].0 != #[trigger] s[j].0
    &&& forall|i: int| 0 <= i < s.len() ==> m.contains_key(#[trigger] s[i].0) && m[s[i].0] == s[i].1
    &&& forall|k: Seq<char>| #[trigger] m.contains_key(k) ==> exists|i: int| 0 <= i < s.len() && s[i].0 == k
}

/// The keys of a listing, as values.
pub open spec fn listing_view<V>(s: Seq<(String, V)>) -> Seq<(Seq<char>, V)> {
    s.map_values(|e: (String, V)| (e.0@, e.1))
}

proof fn lemma_fold_insert_entries<V>(s: Seq<(Seq<char>, V)>)
    requires
        forall|i: int, j: int| 0 <= i < j < s.len() ==> #[trigger] s[i].0 != #[trigger] s[j].0,
    ensures
        forall|i: int|
            0 <= i < s.len() ==> fold_insert(s).contains_key(#[trigger] s[i].0) && fold_insert(s)[s[i].0]
                == s[i].1,
        forall|k: Seq<char>| #[trigger]
            fold_insert(s).contains_key(k) ==> exists|i: int| 0 <= i < s.len() && s[i].0 == k,
    decreases s.len(),
{
    if s.len() > 0 {
        let t = s.drop_last();
        lemma_fold_insert_entries(t);
        assert forall|i: int| 0 <= i < s.len() implies fold_insert(s).contains_key(#[trigger] s[i].0)
            && fold_insert(s)[s[i].0] == s[i].1 by {
            if i < s.len() - 1 {
                assert(t[i] == s[i]);
                assert(s[i].0 != s[s.len() - 1].0);
            }
        }
        assert forall|k: Seq<char>| #[trigger] fold_insert(s).contains_key(k) implies exists|i: int|
            0 <= i < s.len() && s[i].0 == k by {
            assert(fold_insert(s) == fold_insert(t).insert(s.last().0, s.last().1));
            if k != s.last().0 {
                assert(fold_insert(t).contains_key(k));
                let i = choose|i: int| 0 <= i < t.len() && t[i].0 == k;
                assert(s[i] == t[i]);
            } else {
                assert(s[s.len() - 1].0 == k);
            }
        }
    }
}

/// Inserting the entries of a listing of `m`, in any order, builds `m`.
pub proof fn lemma_fold_insert_listing<V>(s: Seq<(Seq<char>, V)>, m: Map<Seq<char>, V>)
    requires
        is_listing(s, m),
    ensures
        fold_insert(s) == m,
{
    lemma_fold_insert_entries(s);
    assert forall|k: Seq<char>| #[trigger] fold_insert(s).contains_key(k) <==> m.contains_key(k) by {
        if m.contains_key(k) {
            let i = choose|i: int| 0 <= i < s.len() && s[i].0 == k;
        }
        if fold_insert(s).contains_key(k) {
            let i = choose|i: int| 0 <= i < s.len() && s[i].0 == k;
        }
    }
    assert forall|k: Seq<char>| #[trigger] fold_insert(s).contains_key(k) implies fold_insert(s)[k]
        == m[k] by {
        let i = choose|i: int| 0 <= i < s.len() && s[i].0 == k;
    }
    assert(fold_insert(s) =~= m);
}

/// A sorted listing is a listing.
pub proof fn lemma_sorted_listing_is_listing<V>(s: Seq<(String, V)>, m: Map<Seq<char>, V>)
    requires
        is_sorted_listing(s, m),
    ensures
        is_listing(listing_view(s), m),
{
    let t = listing_view(s);
    assert forall|i: int, j: int| 0 <= i < j < t.len() implies #[trigger] t[i].0 != #[trigger] t[j].0 by {
        assert(key_lt(s[i].0@, s[j].0@));
        lemma_lex_irreflexive(key_bytes(s[i].0@));
    }
    assert forall|i: int| 0 <= i < t.len() implies m.contains_key(#[trigger] t[i].0) && m[t[i].0]
        == t[i].1 by {
        assert(m.contains_key(s[i].0@));
    }
    assert forall|k: Seq<char>| #[trigger] m.contains_key(k) implies exists|i: int|
        0 <= i < t.len() && t[i].0 == k by {
        let i = choose|i: int| 0 <= i < s.len() && s[i].0@ == k;
        assert(t[i].0 == k);
    }
}

/// A finite map from strings to values.
#[derive(Debug)]
pub struct StrMap<V> {
    entries: Vec<(String, V)>,
}

impl<V> View for StrMap<V> {
    type V = Map<Seq<char>, V>;

    closed spec fn view(&self) -> Map<Seq<char>, V> {
        Map::new(
            |k: Seq<char>| exists|i: int| 0 <= i < self.entries@.len() && self.entries@[i].0@ == k,
            |k: Seq<char>| self.entries@[self.index_of(k)].1,
        )
    }
}

impl<V> StrMap<V> {
    closed spec fn index_of(&self, k: Seq<char>) -> int {
        choose|i: int| 0 <= i < self.entries@.len() && self.entries@[i].0@ == k
    }

    /// The entries are sorted by key, with no key twice.
    pub closed spec fn wf(&self) -> bool {
        forall|i: int, j: int|
            0 <= i < j < self.entries@.len() ==> key_lt(
                #[trigger] self.entries@[i].0@,
                #[trigger] self.entries@[j].0@,
            )
    }

    /// The listing of the map, in key order.
    pub closed spec fn listing(&self) -> Seq<(String, V)> {
        self.entries@
    }

    proof fn lemma_distinct_keys(&self, i: int, j: int)
        requires
            self.wf(),
            0 <= i < self.entries@.len(),
            0 <= j < self.entries@.len(),
            i != j,
        ensures
            self.entries@[i].0@ != self.entries@[j].0@,
    {
        if i < j {
            lemma_lex_irreflexive(key_bytes(self.entries@[i].0@));
        } else {
            lemma_lex_irreflexive(key_bytes(self.entries@[j].0@));
        }
    }

    proof fn lemma_view_at(&self, i: int)
        requires
            self.wf(),
            0 <= i < self.entries@.len(),
        ensures
            self@.contains_key(self.entries@[i].0@),
            self@[self.entries@[i].0@] == self.entries@[i].1,
    {
        let k = self.entries@[i].0@;
        assert(self@.contains_key(k));
        let j = self.index_of(k);
        if j != i {
            self.lemma_distinct_keys(i, j);
        }
    }

    /// The view is exactly the map listed by the entries.
    pub proof fn lemma_listing(&self)
        requires
            self.wf(),
        ensures
            is_sorted_listing(self.listing(), self@),
    {
        assert forall|i: int| 0 <= i < self.entries@.len() implies self@.contains_key(
            #[trigger] self.entries@[i].0@,
        ) && self@[self.entries@[i].0@] == self.entries@[i].1 by {
            self.lemma_view_at(i);
        }
    }

    /// An empty map.
    pub fn new() -> (m: Self)
        ensures
            m.wf(),
            m@ == Map::<Seq<char>, V>::empty(),
    {
        let m = StrMap { entries: Vec::new() };
        assert(m@ =~= Map::<Seq<char>, V>::empty());
        m
    }

    /// Binary search for `key`: `Ok(i)` where it stands, or `Err(i)` where it would go.
    fn find(&self, key: &str) -> (r: Result<usize, usize>)
        requires
            self.wf(),
        ensures
            match r {
                Ok(i) => i < self.entries@.len() && self.entries@[i as int].0@ == key@,
                Err(i) => {
                    &&& i <= self.entries@.len()
                    &&& forall|j: int| 0 <= j < i ==> key_lt(#[trigger] self.entries@[j].0@, key@)
                    &&& forall|j: int|
                        i <= j < self.entries@.len() ==> key_lt(key@, #[trigger] self.entries@[j].0@)
                },
            },
    {
        let mut lo: usize = 0;
        let mut hi: usize = self.entries.len();
        while lo < hi
            invariant
                self.wf(),
                lo <= hi <= self.entries@.len(),
                forall|j: int| 0 <= j < lo ==> key_lt(#[trigger] self.entries@[j].0@, key@),
                forall|j: int| hi <= j < self.entries@.len() ==> key_lt(key@, #[trigger] self.entries@[j].0@),
            decreases hi - lo,
        {
            let mid = lo + (hi - lo) / 2;
            let o = compare_keys(self.entries[mid].0.as_str(), key);
            match o {
                KeyOrder::Equal => {
                    return Ok(mid);
                },
                KeyOrder::Less => {
                    assert forall|j: int| 0 <= j < mid + 1 implies key_lt(
                        #[trigger] self.entries@[j].0@,
                        key@,
                    ) by {
                        if j < mid {
                            lemma_lex_transitive(
                                key_bytes(self.entries@[j].0@),
                                key_bytes(self.entries@[mid as int].0@),
                                key_bytes(key@),
                            );
                        }
                    }
                    lo = mid + 1;
                },
                KeyOrder::Greater => {
                    assert forall|j: int| mid <= j < self.entries@.len() implies key_lt(
                        key@,
                        #[trigger] self.entries@[j].0@,
                    ) by {
                        if j > mid {
                            lemma_lex_transitive(
                                key_bytes(key@),
                                key_bytes(self.entries@[mid as int].0@),
                                key_bytes(self.entries@[j].0@),
                            );
                        }
                    }
                    hi = mid;
                },
            }
        }
        Err(lo)
    }

    /// The value stored under `key`, if any.
    pub fn get(&self, key: &str) -> (r: Option<&V>)
        requires
            self.wf(),
        ensures
            match r {
                Some(v) => self@.contains_key(key@) && *v == self@[key@],
                None => !self@.contains_key(key@),
            },
    {
        match self.find(key) {
            Ok(i) => {
                proof {
                    self.lemma_view_at(i as int);
                }
                Some(&self.entries[i].1)
            },
            Err(i) => {
                proof {
                    if self@.contains_key(key@) {
                        let j = self.index_of(key@);
                        lemma_lex_irreflexive(key_bytes(key@));
                    }
                }
                None
            },
        }
    }

    /// Stores `value` under `key`, replacing what was there.
    pub fn insert(&mut self, key: String, value: V)
        requires
            old(self).wf(),
        ensures
            final(self).wf(),
            final(self)@ == old(self)@.insert(key@, value),
    {
        let ghost old_map = self@;
        let ghost ghost_value = value;
        proof {
            self.lemma_listing();
        }
        match self.find(key.as_str()) {
            Ok(i) => {
                let mut value = value;
                let ghost old_entries = self.entries@;
                std::mem::swap(&mut self.entries[i].1, &mut value);
                assert(self.entries@ =~= old_entries.update(i as int, (old_entries[i as int].0, ghost_value)));
                proof {
                    assert forall|a: int, b: int|
                        0 <= a < b < self.entries@.len() implies key_lt(
                        #[trigger] self.entries@[a].0@,
                        #[trigger] self.entries@[b].0@,
                    ) by {
                        assert(self.entries@[a].0 == old_entries[a].0);
                        assert(self.entries@[b].0 == old_entries[b].0);
                    }
                    self.lemma_equal_after_replace(old_map, old_entries, i as int, key@, ghost_value);
                }
            },
            Err(i) => {
                let ghost old_entries = self.entries@;
                self.entries.insert(i, (key, value));
                proof {
                    assert(self.entries@ =~= old_entries.insert(i as int, (key, ghost_value)));
                    assert forall|a: int, b: int|
                        0 <= a < b < self.entries@.len() implies key_lt(
                        #[trigger] self.entries@[a].0@,
                        #[trigger] self.entries@[b].0@,
                    ) by {
                        if b < i {
                        } else if b == i {
                        } else if a < i {
                            lemma_lex_transitive(
                                key_bytes(self.entries@[a].0@),
                                key_bytes(key@),
                                key_bytes(self.entries@[b].0@),
                            );
                        } else if a == i {
                        } else {
                        }
                    }
                    self.lemma_equal_after_insert(old_map, old_entries, i as int, key@, ghost_value);
                }
            },
        }
    }

    /// The entries, sorted by key.
    pub fn as_slice(&self) -> (r: &[(String, V)])
        requires
            self.wf(),
        ensures
            is_sorted_listing(r@, self@),
    {
        proof {
            self.lemma_listing();
        }
        self.entries.as_slice()
    }

    /// Exchanges the value stored under `key` with `value`, if `key` is present.
    pub fn swap_value(&mut self, key: &str, value: &mut V) -> (found: bool)
        requires
            old(self).wf(),
        ensures
            final(self).wf(),
            found == old(self)@.contains_key(key@),
            found ==> final(self)@ == old(self)@.insert(key@, *old(value)) && *final(value) == old(self)@[key@],
            !found ==> final(self)@ == old(self)@ && *final(value) == *old(value),
    {
        let ghost old_map = self@;
        let ghost given = *value;
        proof {
            self.lemma_listing();
        }
        match self.find(key) {
            Ok(i) => {
                let ghost old_entries = self.entries@;
                proof {
                    self.lemma_view_at(i as int);
                }
                std::mem::swap(&mut self.entries[i].1, value);
                assert(self.entries@ =~= old_entries.update(i as int, (old_entries[i as int].0, given)));
                proof {
                    assert forall|a: int, b: int|
                        0 <= a < b < self.entries@.len() implies key_lt(
                        #[trigger] self.entries@[a].0@,
                        #[trigger] self.entries@[b].0@,
                    ) by {
                        assert(self.entries@[a].0 == old_entries[a].0);
                        assert(self.entries@[b].0 == old_entries[b].0);
                    }
                    self.lemma_equal_after_replace(old_map, old_entries, i as int, key@, given);
                }
                true
            },
            Err(i) => {
                proof {
                    if self@.contains_key(key@) {
                        lemma_lex_irreflexive(key_bytes(key@));
                    }
                }
                false
            },
        }
    }

    proof fn lemma_equal_after_replace(
        &self,
        old_map: Map<Seq<char>, V>,
        old_entries: Seq<(String, V)>,
        i: int,
        k: Seq<char>,
        v: V,
    )
        requires
            self.wf(),
            0 <= i < old_entries.len(),
            old_entries[i].0@ == k,
            self.entries@ == old_entries.update(i, (old_entries[i].0, v)),
            is_sorted_listing(old_entries, old_map),
        ensures
            self@ == old_map.insert(k, v),
    {
        let new_map = old_map.insert(k, v);
        assert forall|kk: Seq<char>| #[trigger] self@.contains_key(kk) <==> new_map.contains_key(kk) by {
            if kk == k {
                assert(self.entries@[i].0@ == kk);
            } else if new_map.contains_key(kk) {
                let j = choose|j: int| 0 <= j < old_entries.len() && old_entries[j].0@ == kk;
                assert(self.entries@[j].0@ == kk);
            }
            if self@.contains_key(kk) {
                let j = choose|j: int| 0 <= j < self.entries@.len() && self.entries@[j].0@ == kk;
                assert(old_entries[j].0@ == kk);
                assert(old_map.contains_key(old_entries[j].0@));
            }
        }
        assert forall|kk: Seq<char>| #[trigger] self@.contains_key(kk) implies self@[kk] == new_map[kk] by {
            let j = choose|j: int| 0 <= j < self.entries@.len() && self.entries@[j].0@ == kk;
            self.lemma_view_at(j);
            assert(old_entries[j].0@ == kk);
            if j == i {
                assert(self.entries@[j].1 == v);
            } else {
                assert(self.entries@[j] == old_entries[j]);
                self.lemma_distinct_keys(j, i);
                assert(old_map[old_entries[j].0@] == old_entries[j].1);
            }
        }
        assert(self@ =~= new_map);
    }

    proof fn lemma_equal_after_insert(
        &self,
        old_map: Map<Seq<char>, V>,
        old_entries: Seq<(String, V)>,
        i: int,
        k: Seq<char>,
        v: V,
    )
        requires
            self.wf(),
            0 <= i <= old_entries.len(),
            self.entries@ == old_entries.insert(i, (self.entries@[i].0, v)),
            self.entries@[i].0@ == k,
            is_sorted_listing(old_entries, old_map),
        ensures
            self@ == old_map.insert(k, v),
    {
        let new_map = old_map.insert(k, v);
        assert forall|kk: Seq<char>| #[trigger] self@.contains_key(kk) <==> new_map.contains_key(kk) by {
            if new_map.contains_key(kk) {
                if kk == k {
                    assert(self.entries@[i].0@ == kk);
                } else {
                    let j = choose|j: int| 0 <= j < old_entries.len() && old_entries[j].0@ == kk;
                    if j < i {
                        assert(self.entries@[j].0@ == kk);
                    } else {
                        assert(self.entries@[j + 1].0@ == kk);
                    }
                }
            }
            if self@.contains_key(kk) {
                let j = choose|j: int| 0 <= j < self.entries@.len() && self.entries@[j].0@ == kk;
                if j < i {
                    assert(old_entries[j].0@ == kk);
                } else if j > i {
                    assert(old_entries[j - 1].0@ == kk);
                }
            }
        }
        assert forall|kk: Seq<char>| #[trigger] self@.contains_key(kk) implies self@[kk] == new_map[kk] by {
            let j = choose|j: int| 0 <= j < self.entries@.len() && self.entries@[j].0@ == kk;
            self.lemma_view_at(j);
            if j < i {
                assert(old_entries[j].0@ == kk);
                self.lemma_distinct_keys(j, i);
            } else if j > i {
                assert(old_entries[j - 1].0@ == kk);
                self.lemma_distinct_keys(j, i);
            }
        }
        assert(self@ =~= new_map);
    }
}

} // verus!
