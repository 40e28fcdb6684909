//! A small table from text keys to values that keeps its keys in the order in
//! which they first came.

use vstd::prelude::*;

verus! {

/// One key with its value.
pub struct Entry<V> {
    pub key: String,
    pub value: V,
}

/// A table from text keys to values. No key stands in it twice, and a key
/// keeps the place at which it was first inserted.
pub struct Table<V> {
    entries: Vec<Entry<V>>,
}

/// The keys after `key` was inserted: as before where it was there, else with
/// `key` at the end.
pub open spec fn keys_with(keys: Seq<Seq<char>>, key: Seq<char>) -> Seq<Seq<char>> {
    if keys.contains(key) {
        keys
    } else {
        keys.push(key)
    }
}

/// The values after `value` was inserted under `key`: it stands in the place
/// of the key's earlier value, or at the end where the key is new.
pub open spec fn values_with<V>(keys: Seq<Seq<char>>, values: Seq<V>, key: Seq<char>, value: V) -> Seq<V> {
    if keys.contains(key) {
        values.update(keys.index_of(key), value)
    } else {
        values.push(value)
    }
}

/// The mapping that keys and values in matching places stand for.
pub open spec fn mapping<V>(keys: Seq<Seq<char>>, values: Seq<V>) -> Map<Seq<char>, V> {
    Map::new(|k: Seq<char>| keys.contains(k), |k: Seq<char>| values[keys.index_of(k)])
}

/// In a sequence without repetitions an item is found at its own place.
pub proof fn lemma_index_of_unique(keys: Seq<Seq<char>>, i: int)
    requires
        keys.no_duplicates(),
        0 <= i < keys.len(),
    ensures
        keys.contains(keys[i]),
        keys.index_of(keys[i]) == i,
{
    assert(keys.contains(keys[i]));
    let j = keys.index_of(keys[i]);
    assert(0 <= j < keys.len() && keys[j] == keys[i]);
}

/// Inserting into the sequences is inserting into the mapping.
pub proof fn lemma_mapping_insert<V>(keys: Seq<Seq<char>>, values: Seq<V>, key: Seq<char>, value: V)
    requires
        keys.no_duplicates(),
        keys.len() == values.len(),
    ensures
        keys_with(keys, key).no_duplicates(),
        keys_with(keys, key).len() == values_with(keys, values, key, value).len(),
        mapping(keys_with(keys, key), values_with(keys, values, key, value)) == mapping(keys, values).insert(
            key,
            value,
        ),
{
    let new_keys = keys_with(keys, key);
    let new_values = values_with(keys, values, key, value);
    let new_map = mapping(new_keys, new_values);
    let old_map = mapping(keys, values).insert(key, value);
    if keys.contains(key) {
        let at = keys.index_of(key);
        assert(0 <= at < keys.len() && keys[at] == key);
        assert forall|k: Seq<char>| new_map.dom().contains(k) implies #[trigger] new_map[k] == old_map[k] by {
            let j = keys.index_of(k);
            assert(0 <= j < keys.len() && keys[j] == k);
        }
        assert(new_map =~= old_map);
    } else {
        assert forall|i: int, j: int| 0 <= i < j < new_keys.len() implies new_keys[i] != new_keys[j] by {
            if j == keys.len() {
                if new_keys[i] == key {
                    assert(keys[i] == key);
                }
            }
        }
        assert forall|k: Seq<char>| new_keys.contains(k) <==> (keys.contains(k) || k == key) by {
            if keys.contains(k) {
                let j = keys.index_of(k);
                assert(0 <= j < keys.len() && keys[j] == k);
                assert(new_keys[j] == k);
            }
            if k == key {
                assert(new_keys[keys.len() as int] == k);
            }
            if new_keys.contains(k) {
                let j = new_keys.index_of(k);
                assert(0 <= j < new_keys.len() && new_keys[j] == k);
                if j < keys.len() {
                    assert(keys[j] == k);
                }
            }
        }
        assert forall|k: Seq<char>| new_map.dom().contains(k) implies #[trigger] new_map[k] == old_map[k] by {
            let j = new_keys.index_of(k);
            assert(0 <= j < new_keys.len() && new_keys[j] == k);
            if k != key {
                assert(j < keys.len());
                lemma_index_of_unique(keys, j);
            }
        }
        assert(new_map =~= old_map);
    }
}

impl<V> Table<V> {
    /// The keys, in the order in which they first came.
    pub closed spec fn keys(&self) -> Seq<Seq<char>> {
        Seq::new(self.entries@.len(), |i: int| self.entries@[i].key@)
    }

    /// The values, each in the place of its key.
    pub closed spec fn values(&self) -> Seq<V> {
        Seq::new(self.entries@.len(), |i: int| self.entries@[i].value)
    }

    /// No key stands twice.
    pub open spec fn wf(&self) -> bool {
        &&& self.keys().no_duplicates()
        &&& self.keys().len() == self.values().len()
    }

    /// The table as a mapping.
    pub open spec fn view(&self) -> Map<Seq<char>, V> {
        mapping(self.keys(), self.values())
    }

    /// An empty table.
    pub fn new() -> (table: Self)
        ensures
            table.wf(),
            table.keys() == Seq::<Seq<char>>::empty(),
            table.values() == Seq::<V>::empty(),
    {
        let table = Table { entries: Vec::new() };
        proof {
            assert(table.keys() =~= Seq::<Seq<char>>::empty());
            assert(table.values() =~= Seq::<V>::empty());
        }
        table
    }

    /// The number of keys.
    pub fn len(&self) -> (n: usize)
        ensures
            n == self.keys().len(),
            n == self.values().len(),
    {
        self.entries.len()
    }

    /// The key in place `i`.
    pub fn key_at(&self, i: usize) -> (key: &String)
        requires
            i < self.keys().len(),
        ensures
            key@ == self.keys()[i as int],
    {
        &self.entries[i].key
    }

    /// The value in place `i`.
    pub fn value_at(&self, i: usize) -> (value: &V)
        requires
            i < self.values().len(),
        ensures
            *value == self.values()[i as int],
    {
        &self.entries[i].value
    }

    /// The place of `key`, if it stands in the table.
    pub fn position(&self, key: &String) -> (place: Option<usize>)
        requires
            self.wf(),
        ensures
            match place {
                Some(i) => self.keys().contains(key@) && i == self.keys().index_of(key@),
                None => !self.keys().contains(key@),
            },
    {
        let mut i: usize = 0;
        while i < self.entries.len()
            invariant
                i <= self.entries.len(),
                self.wf(),
                forall|j: int| 0 <= j < i ==> self.keys()[j] != key@,
            decreases self.entries.len() - i,
        {
            if self.entries[i].key == *key {
                proof {
                    assert(self.keys()[i as int] == key@);
                    lemma_index_of_unique(self.keys(), i as int);
                }
                return Some(i);
            }
            proof {
                assert(self.keys()[i as int] == self.entries@[i as int].key@);
            }
            i = i + 1;
        }
        proof {
            if self.keys().contains(key@) {
                let j = self.keys().index_of(key@);
                assert(0 <= j < self.keys().len() && self.keys()[j] == key@);
            }
        }
        None
    }

    /// The value under `key`, if there is one.
    pub fn get(&self, key: &String) -> (value: Option<&V>)
        requires
            self.wf(),
        ensures
            match value {
                Some(v) => self@.dom().contains(key@) && *v == self@[key@],
                None => !self@.dom().contains(key@),
            },
    {
        match self.position(key) {
            Some(i) => Some(&self.entries[i].value),
            None => None,
        }
    }

    /// Puts `value` under `key`, in the place of the key's earlier value if
    /// it had one, else at the end.
    pub fn insert(&mut self, key: String, value: V)
        requires
            old(self).wf(),
        ensures
            final(self).wf(),
            final(self).keys() == keys_with(old(self).keys(), key@),
            final(self).values() == values_with(old(self).keys(), old(self).values(), key@, value),
            final(self)@ == old(self)@.insert(key@, value),
    {
        proof {
            lemma_mapping_insert(self.keys(), self.values(), key@, value);
        }
        let ghost old_keys = self.keys();
        let ghost old_values = self.values();
        match self.position(&key) {
            Some(i) => {
                self.entries.set(i, Entry { key, value });
                proof {
                    assert(self.keys() =~= keys_with(old_keys, key@));
                    assert(self.values() =~= values_with(old_keys, old_values, key@, value));
                }
            },
            None => {
                self.entries.push(Entry { key, value });
                proof {
                    assert(self.keys() =~= keys_with(old_keys, key@));
                    assert(self.values() =~= values_with(old_keys, old_values, key@, value));
                }
            },
        }
    }
}

} // verus!
