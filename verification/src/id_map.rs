//! A finite map over identifiers that are compared by value.

use vstd::prelude::*;

verus! {

/// An identifier: a small copyable value whose executable equality test
/// agrees with equality in specifications.
pub trait IrID: Copy {
    /// Whether the two identifiers are the same.
    fn same_id(&self, other: &Self) -> (same: bool)
        ensures
            same == (*self == *other),
    ;
}

/// The keys of a list of entries, in order.
pub open spec fn entry_keys<K, V>(entries: Seq<(K, V)>) -> Seq<K> {
    entries.map_values(|entry: (K, V)| entry.0)
}

/// The map that a list of entries stands for: each key is mapped to the value
/// of the first entry that holds it.
pub open spec fn entries_map<K, V>(entries: Seq<(K, V)>) -> Map<K, V> {
    Map::new(
        |key: K| entry_keys(entries).contains(key),
        |key: K| entries[entry_keys(entries).index_of(key)].1,
    )
}

/// A finite map from identifiers to values, kept in insertion order.
///
/// No key occurs twice; the view is the mathematical map.
pub struct IdMap<K: IrID, V> {
    entries: Vec<(K, V)>,
}

impl<K: IrID, V> View for IdMap<K, V> {
    type V = Map<K, V>;

    closed spec fn view(&self) -> Map<K, V> {
        entries_map(self.entries@)
    }
}

impl<K: IrID, V> IdMap<K, V> {
    /// Well-formedness: no key occurs twice among the entries.
    pub closed spec fn wf(&self) -> bool {
        entry_keys(self.entries@).no_duplicates()
    }

    /// The key order of a well-formed map lists exactly its keys, each once.
    pub proof fn lemma_key_order(&self)
        requires
            self.wf(),
        ensures
            self.key_order().no_duplicates(),
            self.key_order().to_set() == self@.dom(),
            self@.dom().finite(),
            self@.len() == self.key_order().len(),
    {
        let keys = entry_keys(self.entries@);
        assert(keys.to_set() =~= self@.dom());
        keys.unique_seq_to_set();
    }

    /// The keys in insertion order.
    pub closed spec fn key_order(&self) -> Seq<K> {
        entry_keys(self.entries@)
    }

    /// The empty map.
    pub fn new() -> (map: Self)
        ensures
            map.wf(),
            map@ == Map::<K, V>::empty(),
            map.key_order() == Seq::<K>::empty(),
    {
        let map = IdMap { entries: Vec::new() };
        assert(entry_keys(map.entries@) =~= Seq::<K>::empty());
        assert(map@ =~= Map::<K, V>::empty());
        map
    }

    /// The number of keys.
    pub fn len(&self) -> (len: usize)
        requires
            self.wf(),
        ensures
            len == self@.len(),
            len == self.key_order().len(),
            self@.dom().finite(),
    {
        proof {
            self.lemma_key_order();
        }
        self.entries.len()
    }

    /// The position of `key` among the entries, if it is a key.
    fn position(&self, key: &K) -> (found: Option<usize>)
        ensures
            match found {
                Some(index) => index < self.entries@.len() && self.entries@[index as int].0
                    == *key,
                None => !entry_keys(self.entries@).contains(*key),
            },
    {
        let mut index: usize = 0;
        while index < self.entries.len()
            invariant
                index <= self.entries@.len(),
                forall|j: int| 0 <= j < index ==> self.entries@[j].0 != *key,
            decreases self.entries@.len() - index,
        {
            if self.entries[index].0.same_id(key) {
                return Some(index);
            }
            index += 1;
        }
        None
    }

    /// Whether `key` is mapped.
    pub fn contains_key(&self, key: &K) -> (found: bool)
        ensures
            found == self@.contains_key(*key),
    {
        let found = self.position(key);
        proof {
            if let Some(index) = found {
                assert(entry_keys(self.entries@)[index as int] == *key);
            }
        }
        found.is_some()
    }

    /// The value that `key` is mapped to, if any.
    pub fn get(&self, key: &K) -> (value: Option<&V>)
        requires
            self.wf(),
        ensures
            match value {
                Some(value) => self@.contains_key(*key) && *value == self@[*key],
                None => !self@.contains_key(*key),
            },
    {
        match self.position(key) {
            Some(index) => {
                proof {
                    lemma_index_of_key(self.entries@, index as int);
                }
                Some(&self.entries[index].1)
            },
            None => None,
        }
    }

    /// Maps `key` to `value`, and returns the value it was mapped to before.
    /// A new key goes to the end of the key order; a key that was there keeps
    /// its place.
    pub fn insert(&mut self, key: K, value: V) -> (previous: Option<V>)
        requires
            old(self).wf(),
        ensures
            final(self).wf(),
            final(self)@ == old(self)@.insert(key, value),
            previous == (if old(self)@.contains_key(key) {
                Some(old(self)@[key])
            } else {
                None
            }),
            final(self).key_order() == (if old(self)@.contains_key(key) {
                old(self).key_order()
            } else {
                old(self).key_order().push(key)
            }),
    {
        let found = self.position(&key);
        let ghost before = self.entries@;
        match found {
            Some(index) => {
                proof {
                    lemma_index_of_key(before, index as int);
                }
                self.entries.push((key, value));
                let entry = self.entries.swap_remove(index);
                proof {
                    let after = self.entries@;
                    assert(after =~= before.update(index as int, (key, value)));
                    assert(entry_keys(after) =~= entry_keys(before));
                    assert forall|other: K| entry_keys(after).contains(other) implies (
                    #[trigger] entries_map(after)[other]) == entries_map(before).insert(
                        key,
                        value,
                    )[other] by {
                        let at = entry_keys(after).index_of(other);
                        assert(entry_keys(after)[at] == other);
                        if other == key {
                            lemma_index_of_key(after, index as int);
                        }
                    }
                    assert(entries_map(after) =~= entries_map(before).insert(key, value));
                }
                Some(entry.1)
            },
            None => {
                self.entries.push((key, value));
                proof {
                    let after = self.entries@;
                    assert(entry_keys(after) =~= entry_keys(before).push(key));
                    assert forall|other: K| entry_keys(after).contains(other) implies (
                    #[trigger] entries_map(after)[other]) == entries_map(before).insert(
                        key,
                        value,
                    )[other] by {
                        let at = entry_keys(after).index_of(other);
                        assert(entry_keys(after)[at] == other);
                        lemma_index_of_key(after, at);
                        if other != key {
                            assert(entry_keys(before)[at] == other);
                            lemma_index_of_key(before, at);
                        }
                    }
                    assert forall|other: K|
                        entries_map(before).insert(key, value).contains_key(
                            other,
                        ) implies entry_keys(after).contains(other) by {
                        if other == key {
                            assert(entry_keys(after)[before.len() as int] == key);
                        } else {
                            let at = entry_keys(before).index_of(other);
                            assert(entry_keys(after)[at] == other);
                        }
                    }
                    assert(entries_map(after) =~= entries_map(before).insert(key, value));
                }
                None
            },
        }
    }

    /// Takes `key` out of the map, and returns the value it was mapped to.
    /// The other keys keep their order.
    pub fn remove(&mut self, key: &K) -> (previous: Option<V>)
        requires
            old(self).wf(),
        ensures
            final(self).wf(),
            final(self)@ == old(self)@.remove(*key),
            previous == (if old(self)@.contains_key(*key) {
                Some(old(self)@[*key])
            } else {
                None
            }),
            final(self).key_order() == old(self).key_order().filter(|other: K| other != *key),
    {
        let found = self.position(key);
        let ghost before = self.entries@;
        match found {
            Some(index) => {
                proof {
                    lemma_index_of_key(before, index as int);
                }
                let entry = self.entries.remove(index);
                proof {
                    let after = self.entries@;
                    assert(entry_keys(after) =~= entry_keys(before).remove(index as int));
                    lemma_filter_out_one(entry_keys(before), index as int);
                    assert forall|other: K| entry_keys(after).contains(other) implies (
                    #[trigger] entries_map(after)[other]) == entries_map(before).remove(
                        *key,
                    )[other] && other != *key by {
                        let at = entry_keys(after).index_of(other);
                        assert(entry_keys(after)[at] == other);
                        lemma_index_of_key(after, at);
                        let from = if at < index {
                            at
                        } else {
                            at + 1
                        };
                        assert(entry_keys(before)[from] == other);
                        lemma_index_of_key(before, from);
                    }
                    assert forall|other: K|
                        entries_map(before).remove(*key).contains_key(
                            other,
                        ) implies entry_keys(after).contains(other) by {
                        let from = entry_keys(before).index_of(other);
                        assert(entry_keys(before)[from] == other);
                        let at = if from < index {
                            from
                        } else {
                            from - 1
                        };
                        assert(entry_keys(after)[at] == other);
                    }
                    assert(entries_map(after) =~= entries_map(before).remove(*key));
                }
                Some(entry.1)
            },
            None => {
                proof {
                    lemma_filter_keeps_all(entry_keys(before), *key);
                    assert(entries_map(before) =~= entries_map(before).remove(*key));
                }
                None
            },
        }
    }

    /// The keys, in insertion order.
    pub fn keys(&self) -> (keys: Vec<K>)
        requires
            self.wf(),
        ensures
            keys@ == self.key_order(),
            keys@.no_duplicates(),
            keys@.to_set() == self@.dom(),
    {
        let mut keys: Vec<K> = Vec::new();
        let mut index: usize = 0;
        while index < self.entries.len()
            invariant
                index <= self.entries@.len(),
                keys@ == entry_keys(self.entries@).take(index as int),
            decreases self.entries@.len() - index,
        {
            keys.push(self.entries[index].0);
            proof {
                let all = entry_keys(self.entries@);
                assert(all.take(index + 1) =~= all.take(index as int).push(all[index as int]));
            }
            index += 1;
        }
        proof {
            let all = entry_keys(self.entries@);
            assert(all.take(index as int) =~= all);
            assert(all.to_set() =~= self@.dom());
        }
        keys
    }
}

impl<K: IrID, V: Copy> Clone for IdMap<K, V> {
    /// A copy with the same entries in the same order.
    fn clone(&self) -> (copy: Self)
        ensures
            copy.wf() == self.wf(),
            copy@ == self@,
            copy.key_order() == self.key_order(),
    {
        let mut entries: Vec<(K, V)> = Vec::new();
        let mut index: usize = 0;
        while index < self.entries.len()
            invariant
                index <= self.entries@.len(),
                entries@ == self.entries@.take(index as int),
            decreases self.entries@.len() - index,
        {
            entries.push(self.entries[index]);
            proof {
                assert(self.entries@.take(index + 1) =~= self.entries@.take(index as int).push(
                    self.entries@[index as int],
                ));
            }
            index += 1;
        }
        proof {
            assert(self.entries@.take(index as int) =~= self.entries@);
        }
        IdMap { entries }
    }
}

/// In a duplicate-free list of entries, the key at `index` is found at
/// `index`, and the map holds its value.
pub proof fn lemma_index_of_key<K, V>(entries: Seq<(K, V)>, index: int)
    requires
        entry_keys(entries).no_duplicates(),
        0 <= index < entries.len(),
    ensures
        entry_keys(entries).contains(entries[index].0),
        entry_keys(entries).index_of(entries[index].0) == index,
        entries_map(entries).contains_key(entries[index].0),
        entries_map(entries)[entries[index].0] == entries[index].1,
{
    let keys = entry_keys(entries);
    assert(keys[index] == entries[index].0);
    let found = keys.index_of(entries[index].0);
    assert(0 <= found < keys.len() && keys[found] == entries[index].0);
}

/// Filtering a key out of a sequence that does not hold it changes nothing.
proof fn lemma_filter_keeps_all<K>(keys: Seq<K>, key: K)
    requires
        !keys.contains(key),
    ensures
        keys.filter(|other: K| other != key) == keys,
    decreases keys.len(),
{
    let keep = |other: K| other != key;
    reveal(Seq::filter);
    if keys.len() > 0 {
        let front = keys.drop_last();
        assert(keys[keys.len() - 1] != key);
        assert forall|j: int| 0 <= j < front.len() implies front[j] != key by {
            assert(keys[j] == front[j]);
        }
        lemma_filter_keeps_all(front, key);
        assert(front.push(keys.last()) =~= keys);
    } else {
        assert(keys.filter(keep) =~= keys);
    }
}

/// In a duplicate-free sequence, filtering out the key at `index` is removing
/// that position.
proof fn lemma_filter_out_one<K>(keys: Seq<K>, index: int)
    requires
        keys.no_duplicates(),
        0 <= index < keys.len(),
    ensures
        keys.filter(|other: K| other != keys[index]) == keys.remove(index),
    decreases keys.len(),
{
    let key = keys[index];
    reveal(Seq::filter);
    let front = keys.drop_last();
    if index == keys.len() - 1 {
        assert(!front.contains(key)) by {
            if front.contains(key) {
                let j = front.index_of(key);
                assert(keys[j] == key);
            }
        }
        lemma_filter_keeps_all(front, key);
        assert(keys.remove(index) =~= front);
    } else {
        assert(front[index] == key);
        lemma_filter_out_one(front, index);
        assert(keys.last() != key);
        assert(keys.remove(index) =~= front.remove(index).push(keys.last()));
    }
}

} // verus!
