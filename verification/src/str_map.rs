//! Maps keyed by strings, kept as a list of entries with distinct keys.
use crate::text::str_eq;
use vstd::prelude::*;

verus! {

/// The keys of a list of entries are pairwise distinct.
pub open spec fn keys_distinct<V>(s: Seq<(String, V)>) -> bool {
    forall|i: int, j: int| 0 <= i < j < s.len() ==> s[i].0@ != s[j].0@
}

/// The map that a list of entries with distinct keys stands for.
pub open spec fn map_of<V>(s: Seq<(String, V)>) -> Map<Seq<char>, V> {
    Map::new(
        |k: Seq<char>| exists|i: int| 0 <= i < s.len() && s[i].0@ == k,
        |k: Seq<char>| s[choose|i: int| 0 <= i < s.len() && s[i].0@ == k].1,
    )
}

/// The keys of a list of entries, in order.
pub open spec fn keys_of<V>(s: Seq<(String, V)>) -> Seq<Seq<char>> {
    s.map_values(|e: (String, V)| e.0@)
}

/// In a list with distinct keys, the map holds each entry.
pub proof fn lemma_map_of_entry<V>(s: Seq<(String, V)>, i: int)
    requires
        keys_distinct(s),
        0 <= i < s.len(),
    ensures
        map_of(s).contains_key(s[i].0@),
        map_of(s)[s[i].0@] == s[i].1,
{
    let k = s[i].0@;
    assert(map_of(s).dom().contains(k));
    let j = choose|j: int| 0 <= j < s.len() && s[j].0@ == k;
    assert(j == i);
}

/// A map keyed by strings.
///
/// Entries keep the order in which their keys were first inserted.
pub struct StrMap<V> {
    entries: Vec<(String, V)>,
}

impl<V> StrMap<V> {
    #[verifier::type_invariant]
    spec fn inv(&self) -> bool {
        keys_distinct(self.entries@)
    }

    /// The entries, in insertion order.
    pub closed spec fn entries(&self) -> Seq<(String, V)> {
        self.entries@
    }

    /// The map.
    pub open spec fn map(&self) -> Map<Seq<char>, V> {
        map_of(self.entries())
    }

    /// The keys, in insertion order.
    pub open spec fn keys_spec(&self) -> Seq<Seq<char>> {
        keys_of(self.entries())
    }

    /// An empty map.
    pub fn new() -> (m: StrMap<V>)
        ensures
            m.entries() == Seq::<(String, V)>::empty(),
            m.map() == Map::<Seq<char>, V>::empty(),
    {
        let m = StrMap { entries: Vec::new() };
        assert(m.map() =~= Map::<Seq<char>, V>::empty());
        m
    }

    /// The number of entries.
    pub fn len(&self) -> (n: usize)
        ensures
            n == self.entries().len(),
            keys_distinct(self.entries()),
    {
        proof {
            use_type_invariant(self);
        }
        self.entries.len()
    }

    /// The key of entry `i`.
    pub fn key_at(&self, i: usize) -> (k: &String)
        requires
            i < self.entries().len(),
        ensures
            *k == self.entries()[i as int].0,
    {
        &self.entries[i].0
    }

    /// The value of entry `i`.
    pub fn value_at(&self, i: usize) -> (v: &V)
        requires
            i < self.entries().len(),
        ensures
            *v == self.entries()[i as int].1,
    {
        &self.entries[i].1
    }

    /// The position of the entry with key `key`, if any.
    pub fn find(&self, key: &str) -> (r: Option<usize>)
        ensures
            match r {
                Some(i) => i < self.entries().len() && self.entries()[i as int].0@ == key@,
                None => !self.map().contains_key(key@),
            },
            r is Some <==> self.map().contains_key(key@),
    {
        let mut i: usize = 0;
        while i < self.entries.len()
            invariant
                i <= self.entries@.len(),
                forall|j: int| 0 <= j < i ==> self.entries@[j].0@ != key@,
            decreases self.entries@.len() - i,
        {
            if str_eq(self.entries[i].0.as_str(), key) {
                assert(self.map().dom().contains(key@));
                return Some(i);
            }
            i = i + 1;
        }
        None
    }

    /// The value of key `key`, if any.
    pub fn get(&self, key: &str) -> (r: Option<&V>)
        ensures
            match r {
                Some(v) => self.map().contains_key(key@) && *v == self.map()[key@],
                None => !self.map().contains_key(key@),
            },
    {
        proof {
            use_type_invariant(self);
        }
        match self.find(key) {
            Some(i) => {
                proof {
                    lemma_map_of_entry(self.entries@, i as int);
                }
                Some(&self.entries[i].1)
            },
            None => None,
        }
    }

    /// Whether the map has key `key`.
    pub fn contains_key(&self, key: &str) -> (r: bool)
        ensures
            r == self.map().contains_key(key@),
    {
        self.find(key).is_some()
    }

    /// Sets the value of `key`; a new key goes after the existing ones, an
    /// existing key keeps its place.
    pub fn insert(&mut self, key: String, value: V)
        ensures
            final(self).map() == old(self).map().insert(key@, value),
            old(self).map().contains_key(key@) ==> keys_of(final(self).entries()) == keys_of(
                old(self).entries(),
            ),
            !old(self).map().contains_key(key@) ==> keys_of(final(self).entries()) == keys_of(
                old(self).entries(),
            ).push(key@),
            !old(self).map().contains_key(key@) ==> final(self).entries() == old(
                self,
            ).entries().push((key, value)),
    {
        proof {
            use_type_invariant(&*self);
        }
        let ghost old_entries = self.entries@;
        match self.find(key.as_str()) {
            Some(i) => {
                let mut entries: Vec<(String, V)> = Vec::new();
                std::mem::swap(&mut entries, &mut self.entries);
                entries.set(i, (key, value));
                proof {
                    let s = entries@;
                    assert(keys_of(s) =~= keys_of(old_entries));
                    assert forall|a: int, b: int| 0 <= a < b < s.len() implies s[a].0@ != s[b].0@ by {
                        assert(keys_of(s)[a] == s[a].0@);
                        assert(keys_of(s)[b] == s[b].0@);
                        assert(keys_of(old_entries)[a] == old_entries[a].0@);
                        assert(keys_of(old_entries)[b] == old_entries[b].0@);
                    }
                    assert forall|k: Seq<char>| #[trigger] map_of(s).contains_key(k) <==> map_of(old_entries).insert(key@, value).contains_key(k) by {
                        if map_of(old_entries).contains_key(k) {
                            let j = choose|j: int| 0 <= j < old_entries.len() && old_entries[j].0@ == k;
                            assert(keys_of(s)[j] == keys_of(old_entries)[j]);
                            assert(s[j].0@ == k);
                        }
                        if map_of(s).contains_key(k) {
                            let j = choose|j: int| 0 <= j < s.len() && s[j].0@ == k;
                            assert(keys_of(s)[j] == keys_of(old_entries)[j]);
                            assert(old_entries[j].0@ == k);
                        }
                    }
                    assert forall|k: Seq<char>| #[trigger] map_of(s).contains_key(k) implies map_of(s)[k] == map_of(old_entries).insert(key@, value)[k] by {
                        let j = choose|j: int| 0 <= j < s.len() && s[j].0@ == k;
                        lemma_map_of_entry(s, j);
                        assert(keys_of(s)[j] == keys_of(old_entries)[j]);
                        assert(old_entries[j].0@ == k);
                        if k != key@ {
                            lemma_map_of_entry(old_entries, j);
                        }
                    }
                    assert(map_of(s) =~= map_of(old_entries).insert(key@, value));
                }
                self.entries = entries;
            },
            None => {
                let ghost k0 = key@;
                let ghost kv = (key, value);
                let mut entries: Vec<(String, V)> = Vec::new();
                std::mem::swap(&mut entries, &mut self.entries);
                entries.push((key, value));
                proof {
                    let s = entries@;
                    assert(s == old_entries.push(kv));
                    assert(keys_of(s) =~= keys_of(old_entries).push(k0));
                    assert forall|k: Seq<char>| #[trigger] map_of(s).contains_key(k) <==> map_of(old_entries).insert(k0, value).contains_key(k) by {
                        if map_of(old_entries).contains_key(k) {
                            let j = choose|j: int| 0 <= j < old_entries.len() && old_entries[j].0@ == k;
                            assert(s[j] == old_entries[j]);
                        }
                        if map_of(s).contains_key(k) && k != k0 {
                            let j = choose|j: int| 0 <= j < s.len() && s[j].0@ == k;
                            assert(old_entries[j] == s[j]);
                        }
                        if k == k0 {
                            assert(s[s.len() - 1].0@ == k0);
                        }
                    }
                    assert forall|k: Seq<char>| #[trigger] map_of(s).contains_key(k) implies map_of(s)[k] == map_of(old_entries).insert(k0, value)[k] by {
                        let j = choose|j: int| 0 <= j < s.len() && s[j].0@ == k;
                        lemma_map_of_entry(s, j);
                        if k != k0 {
                            assert(old_entries[j] == s[j]);
                            lemma_map_of_entry(old_entries, j);
                        }
                    }
                    assert(map_of(s) =~= map_of(old_entries).insert(k0, value));
                    assert(keys_distinct(s)) by {
                        assert forall|a: int, b: int| 0 <= a < b < s.len() implies s[a].0@ != s[b].0@ by {
                            if b == s.len() - 1 {
                                assert(old_entries[a] == s[a]);
                            } else {
                                assert(old_entries[a] == s[a] && old_entries[b] == s[b]);
                            }
                        }
                    }
                }
                self.entries = entries;
            },
        }
    }
}

} // verus!
