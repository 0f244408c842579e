//! A small map from strings to values that remembers the order in which its
//! keys arrived.
//!
//! It stands where the server needs a mapping whose contents can be walked in
//! a fixed order: response headers are written out entry by entry, and the
//! parameter offsets of a route are replayed one by one against a request
//! path. No key occurs twice; writing an existing key replaces its value in
//! place.

use vstd::prelude::*;

verus! {

/// The mapping that a list of entries stands for.
pub open spec fn entries_map<V>(entries: Seq<(Seq<char>, V)>) -> Map<Seq<char>, V> {
    Map::new(
        |k: Seq<char>| has_key(entries, k),
        |k: Seq<char>| entries[position(entries, k)].1,
    )
}

/// Some entry of `entries` has the key `k`.
pub open spec fn has_key<V>(entries: Seq<(Seq<char>, V)>, k: Seq<char>) -> bool {
    exists|i: int| 0 <= i < entries.len() && (#[trigger] entries[i]).0 == k
}

/// An index at which `entries` holds the key `k`.
pub open spec fn position<V>(entries: Seq<(Seq<char>, V)>, k: Seq<char>) -> int {
    choose|i: int| 0 <= i < entries.len() && (#[trigger] entries[i]).0 == k
}

/// No two entries share a key.
pub open spec fn distinct_keys<V>(entries: Seq<(Seq<char>, V)>) -> bool {
    forall|i: int, j: int|
        0 <= i < j < entries.len() ==> (#[trigger] entries[i]).0 != (#[trigger] entries[j]).0
}

/// `entries` after `k` has been set to `v`: an existing entry is overwritten
/// where it stands, a new one goes to the end.
pub open spec fn entries_insert<V>(entries: Seq<(Seq<char>, V)>, k: Seq<char>, v: V) -> Seq<
    (Seq<char>, V),
> {
    if has_key(entries, k) {
        entries.update(position(entries, k), (k, v))
    } else {
        entries.push((k, v))
    }
}

/// Setting a key in a list without repeated keys sets it in the mapping and
/// repeats no key.
pub proof fn lemma_entries_insert<V>(entries: Seq<(Seq<char>, V)>, k: Seq<char>, v: V)
    requires
        distinct_keys(entries),
    ensures
        distinct_keys(entries_insert(entries, k, v)),
        entries_map(entries_insert(entries, k, v)) == entries_map(entries).insert(k, v),
{
    let after = entries_insert(entries, k, v);
    if !has_key(entries, k) {
        assert(after[entries.len() as int].0 == k);
    }
    assert forall|key: Seq<char>| has_key(after, key) == (has_key(entries, key) || key == k) by {
        if has_key(entries, key) {
            assert(after[position(entries, key)].0 == key);
        }
    }
}

/// In a list without repeated keys, the entry at `i` is what the mapping
/// holds under that entry's key.
pub proof fn lemma_entry_in_map<V>(entries: Seq<(Seq<char>, V)>, i: int)
    requires
        distinct_keys(entries),
        0 <= i < entries.len(),
    ensures
        entries_map(entries).contains_key(entries[i].0),
        entries_map(entries)[entries[i].0] == entries[i].1,
        position(entries, entries[i].0) == i,
{
}

/// Walking a list without repeated keys entry by entry builds its mapping
/// one insertion at a time.
pub proof fn lemma_entries_take_step<V>(entries: Seq<(Seq<char>, V)>, i: int)
    requires
        distinct_keys(entries),
        0 <= i < entries.len(),
    ensures
        entries_map(entries.take(i + 1)) == entries_map(entries.take(i)).insert(
            entries[i].0,
            entries[i].1,
        ),
        !entries_map(entries.take(i)).contains_key(entries[i].0),
{
    let part = entries.take(i);
    let key = entries[i].0;
    assert(entries.take(i + 1) =~= part.push(entries[i]));
    assert(!has_key(part, key)) by {
        if has_key(part, key) {
            assert(entries[position(part, key)].0 == entries[i].0);
        }
    }
    assert(distinct_keys(part));
    lemma_entries_insert(part, key, entries[i].1);
}

/// A mapping to strings, with each value taken as its sequence of characters.
pub open spec fn text_map(m: Map<Seq<char>, String>) -> Map<Seq<char>, Seq<char>> {
    Map::new(|k: Seq<char>| m.contains_key(k), |k: Seq<char>| m[k]@)
}

/// An insertion-ordered map from strings to values of type `V`.
#[derive(Debug)]
pub struct StringMap<V> {
    entries: Vec<(String, V)>,
}

impl<V> View for StringMap<V> {
    type V = Map<Seq<char>, V>;

    /// The mapping from each key, as a sequence of characters, to its value.
    open spec fn view(&self) -> Map<Seq<char>, V> {
        entries_map(self.entries())
    }
}

impl<V: Clone> Clone for StringMap<V> {
    /// A map with the same keys in the same order, each with a clone of its
    /// value.
    fn clone(&self) -> (copy: Self)
        ensures
            copy.entries().len() == self.entries().len(),
            forall|i: int|
                0 <= i < self.entries().len() ==> (#[trigger] copy.entries()[i]).0
                    == self.entries()[i].0 && cloned::<V>(
                    self.entries()[i].1,
                    copy.entries()[i].1,
                ),
    {
        proof {
            use_type_invariant(self);
        }
        let mut entries: Vec<(String, V)> = Vec::new();
        let mut i: usize = 0;
        while i < self.entries.len()
            invariant
                i <= self.entries.len(),
                entries.len() == i,
                forall|j: int|
                    0 <= j < i ==> (#[trigger] entries@[j]).0@ == self.entries@[j].0@ && cloned::<
                        V,
                    >(self.entries@[j].1, entries@[j].1),
            decreases self.entries.len() - i,
        {
            let key = self.entries[i].0.clone();
            let value = self.entries[i].1.clone();
            entries.push((key, value));
            i += 1;
        }
        proof {
            let ours = self.entries();
            let theirs = entries@.map_values(|e: (String, V)| (e.0@, e.1));
            assert forall|a: int, b: int| 0 <= a < b < theirs.len() implies (
            #[trigger] theirs[a]).0 != (#[trigger] theirs[b]).0 by {
                assert(ours[a].0 != ours[b].0);
            }
        }
        StringMap { entries }
    }
}

impl StringMap<String> {
    /// The mapping with keys and values both as sequences of characters.
    pub open spec fn text(&self) -> Map<Seq<char>, Seq<char>> {
        text_map(self@)
    }
}

impl<V> StringMap<V> {
    #[verifier::type_invariant]
    spec fn keys_are_distinct(self) -> bool {
        distinct_keys(self.entries())
    }

    /// The entries in the order in which their keys first arrived.
    pub closed spec fn entries(&self) -> Seq<(Seq<char>, V)> {
        self.entries@.map_values(|e: (String, V)| (e.0@, e.1))
    }

    /// An empty map.
    pub fn new() -> (map: Self)
        ensures
            map.entries() == Seq::<(Seq<char>, V)>::empty(),
            map@ == Map::<Seq<char>, V>::empty(),
    {
        StringMap { entries: Vec::new() }
    }

    /// The number of entries; no two of them share a key.
    pub fn len(&self) -> (n: usize)
        ensures
            n == self.entries().len(),
            distinct_keys(self.entries()),
    {
        proof {
            use_type_invariant(self);
        }
        self.entries.len()
    }

    /// The key of the entry at `i`.
    pub fn key_at(&self, i: usize) -> (key: &String)
        requires
            i < self.entries().len(),
        ensures
            key@ == self.entries()[i as int].0,
    {
        &self.entries[i].0
    }

    /// The value of the entry at `i`.
    pub fn value_at(&self, i: usize) -> (value: &V)
        requires
            i < self.entries().len(),
        ensures
            *value == self.entries()[i as int].1,
    {
        &self.entries[i].1
    }

    /// The index of the entry whose key is `key`.
    pub fn index_of(&self, key: &str) -> (found: Option<usize>)
        ensures
            match found {
                Some(i) => i < self.entries().len() && self.entries()[i as int].0 == key@
                    && position(self.entries(), key@) == i,
                None => !has_key(self.entries(), key@),
            },
    {
        proof {
            use_type_invariant(self);
        }
        let wanted: String = key.to_owned();
        let mut i: usize = 0;
        while i < self.entries.len()
            invariant
                i <= self.entries.len(),
                wanted@ == key@,
                distinct_keys(self.entries()),
                forall|j: int| 0 <= j < i ==> (#[trigger] self.entries()[j]).0 != key@,
            decreases self.entries.len() - i,
        {
            if self.entries[i].0 == wanted {
                proof {
                    lemma_entry_in_map(self.entries(), i as int);
                }
                return Some(i);
            }
            i += 1;
        }
        None
    }

    /// Whether the map holds `key`.
    pub fn contains_key(&self, key: &str) -> (held: bool)
        ensures
            held == self@.contains_key(key@),
    {
        self.index_of(key).is_some()
    }

    /// The value stored under `key`, if there is one.
    pub fn get(&self, key: &str) -> (value: Option<&V>)
        ensures
            match value {
                Some(v) => self@.contains_key(key@) && *v == self@[key@],
                None => !self@.contains_key(key@),
            },
    {
        match self.index_of(key) {
            Some(i) => Some(&self.entries[i].1),
            None => None,
        }
    }

    /// Stores every entry of `other` in this map, overwriting the values of
    /// the keys that both hold.
    pub fn extend(&mut self, other: &StringMap<V>) where V: Copy
        ensures
            final(self)@ == old(self)@.union_prefer_right(other@),
    {
        let n = other.len();
        let ghost theirs = other.entries();
        let mut i: usize = 0;
        while i < n
            invariant
                i <= n,
                n == theirs.len(),
                theirs == other.entries(),
                distinct_keys(theirs),
                self@ == old(self)@.union_prefer_right(entries_map(theirs.take(i as int))),
            decreases n - i,
        {
            let key = other.key_at(i).clone();
            let value = *other.value_at(i);
            proof {
                lemma_entries_take_step(theirs, i as int);
            }
            self.insert(key, value);
            i += 1;
        }
        assert(theirs.take(n as int) =~= theirs);
    }

    /// Stores `value` under `key`, overwriting what was stored there before.
    pub fn insert(&mut self, key: String, value: V)
        ensures
            final(self)@ == old(self)@.insert(key@, value),
            final(self).entries() == entries_insert(old(self).entries(), key@, value),
    {
        proof {
            use_type_invariant(&*self);
            lemma_entries_insert(self.entries(), key@, value);
        }
        let found = self.index_of(key.as_str());
        let mut entries: Vec<(String, V)> = Vec::new();
        core::mem::swap(&mut self.entries, &mut entries);
        let ghost before = entries@;
        match found {
            Some(i) => {
                entries.set(i, (key, value));
                assert(entries@.map_values(|e: (String, V)| (e.0@, e.1)) =~= entries_insert(
                    before.map_values(|e: (String, V)| (e.0@, e.1)),
                    key@,
                    value,
                ));
            },
            None => {
                entries.push((key, value));
                assert(entries@.map_values(|e: (String, V)| (e.0@, e.1)) =~= entries_insert(
                    before.map_values(|e: (String, V)| (e.0@, e.1)),
                    key@,
                    value,
                ));
            },
        }
        core::mem::swap(&mut self.entries, &mut entries);
    }
}

} // verus!
