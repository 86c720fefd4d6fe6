//! The key map of one language: translation keys with their translations,
//! kept in the order of the keys, each key once.

use vstd::prelude::*;
use crate::entries::{
    has_key, index_of_key, lemma_has_key_at, lemma_insert_entry, lemma_len_of_sorted,
    lemma_map_of_sorted, lemma_remove_entry, lemma_replace_entry, map_of, sorted_by_key,
};
use crate::text::{
    key_less, lemma_key_less_irreflexive, lemma_key_less_total, lemma_key_less_transitive,
    str_less,
};

verus! {

/// The keys and translations held in a vector, as plain text.
pub open spec fn pairs_of(v: Seq<(String, String)>) -> Seq<(Seq<char>, Seq<char>)> {
    Seq::new(v.len(), |i: int| (v[i].0@, v[i].1@))
}

/// Translation keys with their translations, in the order of the keys.
#[derive(Debug, PartialEq, Eq)]
pub struct KeyMap {
    entries: Vec<(String, String)>,
}

impl View for KeyMap {
    type V = Map<Seq<char>, Seq<char>>;

    open spec fn view(&self) -> Map<Seq<char>, Seq<char>> {
        map_of(self.entries())
    }
}

impl Clone for KeyMap {
    /// A map with the same keys and translations.
    fn clone(&self) -> (copy: Self)
        ensures
            copy@ == self@,
            copy.entries() == self.entries(),
    {
        proof {
            use_type_invariant(self);
        }
        let mut entries: Vec<(String, String)> = Vec::new();
        let mut i: usize = 0;
        while i < self.entries.len()
            invariant
                i <= self.entries.len(),
                entries.len() == i,
                forall|j: int| 0 <= j < i ==> #[trigger] entries@[j] == self.entries@[j],
            decreases self.entries.len() - i,
        {
            entries.push((self.entries[i].0.clone(), self.entries[i].1.clone()));
            i += 1;
        }
        assert(entries@ =~= self.entries@);
        KeyMap { entries }
    }
}

impl KeyMap {
    #[verifier::type_invariant]
    spec fn ordered(self) -> bool {
        sorted_by_key(pairs_of(self.entries@))
    }

    /// The entries in the order in which the map keeps them.
    pub closed spec fn entries(&self) -> Seq<(Seq<char>, Seq<char>)> {
        pairs_of(self.entries@)
    }

    /// An empty map.
    pub fn new() -> (m: KeyMap)
        ensures
            m@ == Map::<Seq<char>, Seq<char>>::empty(),
            m.entries().len() == 0,
    {
        let m = KeyMap { entries: Vec::new() };
        assert(m@ =~= Map::<Seq<char>, Seq<char>>::empty());
        m
    }

    /// The number of keys.
    pub fn len(&self) -> (n: usize)
        ensures
            n == self.entries().len(),
            n == self@.len(),
            sorted_by_key(self.entries()),
    {
        proof {
            use_type_invariant(self);
            lemma_len_of_sorted(self.entries());
        }
        self.entries.len()
    }

    /// Whether the map holds no key.
    pub fn is_empty(&self) -> (b: bool)
        ensures
            b == (self.entries().len() == 0),
            b == (self@ == Map::<Seq<char>, Seq<char>>::empty()),
    {
        proof {
            if self.entries().len() == 0 {
                assert(self@ =~= Map::<Seq<char>, Seq<char>>::empty());
            } else {
                lemma_has_key_at(self.entries(), 0);
                assert(self@.contains_key(self.entries()[0].0));
            }
        }
        self.entries.len() == 0
    }

    /// The place of the first entry whose key does not come before `key`.
    fn position(&self, key: &str) -> (at: usize)
        ensures
            at <= self.entries().len(),
            forall|i: int| 0 <= i < at ==> key_less(#[trigger] self.entries()[i].0, key@),
            forall|i: int|
                at <= i < self.entries().len() ==> !key_less(#[trigger] self.entries()[i].0, key@),
    {
        proof {
            use_type_invariant(self);
        }
        let mut low: usize = 0;
        let mut high: usize = self.entries.len();
        while low < high
            invariant
                low <= high <= self.entries().len(),
                self.entries() == pairs_of(self.entries@),
                sorted_by_key(self.entries()),
                forall|i: int| 0 <= i < low ==> key_less(#[trigger] self.entries()[i].0, key@),
                forall|i: int|
                    high <= i < self.entries().len() ==> !key_less(
                        #[trigger] self.entries()[i].0,
                        key@,
                    ),
            decreases high - low,
        {
            let mid = low + (high - low) / 2;
            let ghost s = self.entries();
            if str_less(self.entries[mid].0.as_str(), key) {
                proof {
                    assert(s[mid as int].0 == self.entries@[mid as int].0@);
                    assert forall|i: int| 0 <= i < mid + 1 implies key_less(
                        #[trigger] s[i].0,
                        key@,
                    ) by {
                        if i < mid {
                            assert(key_less(s[i].0, s[mid as int].0));
                            lemma_key_less_transitive(s[i].0, s[mid as int].0, key@);
                        }
                    }
                }
                low = mid + 1;
            } else {
                proof {
                    assert(s[mid as int].0 == self.entries@[mid as int].0@);
                    assert forall|i: int| mid <= i < s.len() implies !key_less(
                        #[trigger] s[i].0,
                        key@,
                    ) by {
                        if mid < i && key_less(s[i].0, key@) {
                            assert(key_less(s[mid as int].0, s[i].0));
                            lemma_key_less_transitive(s[mid as int].0, s[i].0, key@);
                        }
                    }
                }
                high = mid;
            }
        }
        low
    }

    /// The place of `key` among the entries, if the map holds it.
    fn find(&self, key: &str) -> (found: Option<usize>)
        ensures
            sorted_by_key(self.entries()),
            found is Some <==> self@.contains_key(key@),
            found matches Some(at) ==> at < self.entries().len() && self.entries()[at as int].0
                == key@ && self@[key@] == self.entries()[at as int].1,
    {
        proof {
            use_type_invariant(self);
        }
        let at = self.position(key);
        let ghost s = self.entries();
        proof {
            lemma_map_of_sorted(s);
        }
        if at < self.entries.len() && !str_less(key, self.entries[at].0.as_str()) {
            proof {
                assert(s[at as int].0 == self.entries@[at as int].0@);
                lemma_key_less_total(key@, s[at as int].0);
            }
            Some(at)
        } else {
            proof {
                if has_key(s, key@) {
                    let i = index_of_key(s, key@);
                    lemma_key_less_irreflexive(key@);
                    if i > at {
                        assert(s[at as int].0 == self.entries@[at as int].0@);
                        assert(key_less(s[at as int].0, s[i].0));
                    }
                }
            }
            None
        }
    }

    /// Whether the map holds `key`.
    pub fn contains_key(&self, key: &str) -> (b: bool)
        ensures
            b == self@.contains_key(key@),
    {
        self.find(key).is_some()
    }

    /// The translation of `key`, if the map holds the key.
    pub fn get(&self, key: &str) -> (value: Option<&String>)
        ensures
            value is Some <==> self@.contains_key(key@),
            value matches Some(v) ==> v@ == self@[key@],
    {
        match self.find(key) {
            Some(at) => Some(&self.entries[at].1),
            None => None,
        }
    }

    /// The `i`-th key in the order of the keys.
    pub fn key_at(&self, i: usize) -> (key: &String)
        requires
            i < self.entries().len(),
        ensures
            key@ == self.entries()[i as int].0,
            self@.contains_key(key@),
    {
        proof {
            use_type_invariant(self);
            lemma_map_of_sorted(self.entries());
        }
        &self.entries[i].0
    }

    /// The translation of the `i`-th key in the order of the keys.
    pub fn value_at(&self, i: usize) -> (value: &String)
        requires
            i < self.entries().len(),
        ensures
            value@ == self.entries()[i as int].1,
            self@[self.entries()[i as int].0] == value@,
    {
        proof {
            use_type_invariant(self);
            lemma_map_of_sorted(self.entries());
        }
        &self.entries[i].1
    }

    /// Gives `key` the translation `value`, whether or not the map held the
    /// key, and returns the translation that it had.
    pub fn insert(&mut self, key: String, value: String) -> (previous: Option<String>)
        ensures
            final(self)@ == old(self)@.insert(key@, value@),
            previous is Some <==> old(self)@.contains_key(key@),
            previous matches Some(p) ==> p@ == old(self)@[key@],
    {
        proof {
            use_type_invariant(&*self);
        }
        let at = self.position(key.as_str());
        let ghost before = self.entries();
        let mut entries: Vec<(String, String)> = Vec::new();
        std::mem::swap(&mut entries, &mut self.entries);
        assert(pairs_of(entries@) == before);
        if at < entries.len() && !str_less(key.as_str(), entries[at].0.as_str()) {
            proof {
                assert(before[at as int].0 == entries@[at as int].0@);
                lemma_key_less_total(key@, before[at as int].0);
                lemma_map_of_sorted(before);
                lemma_replace_entry(before, at as int, value@);
            }
            let old_entry = entries.remove(at);
            entries.insert(at, (key, value));
            assert(pairs_of(entries@) =~= before.update(at as int, (key@, value@)));
            self.entries = entries;
            Some(old_entry.1)
        } else {
            proof {
                assert forall|i: int| at <= i < before.len() implies key_less(
                    key@,
                    #[trigger] before[i].0,
                ) by {
                    assert(before[at as int].0 == entries@[at as int].0@);
                    lemma_key_less_total(key@, before[i].0);
                    if key@ == before[i].0 {
                        lemma_key_less_irreflexive(key@);
                        assert(key_less(before[at as int].0, before[i].0));
                    }
                    if key_less(before[i].0, key@) {
                    }
                }
                lemma_insert_entry(before, at as int, key@, value@);
                if has_key(before, key@) {
                    let i = index_of_key(before, key@);
                    lemma_key_less_irreflexive(key@);
                }
            }
            entries.insert(at, (key, value));
            assert(pairs_of(entries@) =~= before.insert(at as int, (key@, value@)));
            self.entries = entries;
            None
        }
    }

    /// Takes `key` out of the map and returns the translation that it had.
    pub fn remove(&mut self, key: &str) -> (previous: Option<String>)
        ensures
            final(self)@ == old(self)@.remove(key@),
            previous is Some <==> old(self)@.contains_key(key@),
            previous matches Some(p) ==> p@ == old(self)@[key@],
    {
        proof {
            use_type_invariant(&*self);
        }
        let ghost before = self.entries();
        match self.find(key) {
            Some(at) => {
                let mut entries: Vec<(String, String)> = Vec::new();
                std::mem::swap(&mut entries, &mut self.entries);
                proof {
                    lemma_remove_entry(before, at as int);
                }
                let old_entry = entries.remove(at);
                assert(pairs_of(entries@) =~= before.remove(at as int));
                self.entries = entries;
                Some(old_entry.1)
            },
            None => {
                assert(self@.remove(key@) =~= self@);
                None
            },
        }
    }

    /// A map of the given entries, which come in the order of their keys.
    pub(crate) fn from_entries(entries: Vec<(String, String)>) -> (m: KeyMap)
        requires
            sorted_by_key(pairs_of(entries@)),
        ensures
            m.entries() == pairs_of(entries@),
    {
        KeyMap { entries }
    }

    /// The entries as the map holds them.
    pub(crate) fn as_entries(&self) -> (entries: &Vec<(String, String)>)
        ensures
            pairs_of(entries@) == self.entries(),
            sorted_by_key(self.entries()),
    {
        proof {
            use_type_invariant(self);
        }
        &self.entries
    }
}

} // verus!
