use vstd::prelude::*;
use crate::json::{
    entries_map, entry_keys, find_last_key, last_key_index, lemma_entries_map,
    lemma_last_key_index, string_entries, string_keys,
};

verus! {

/// A map from string keys to values that remembers the order in which keys
/// were first inserted.  Inserting a key that is already present replaces
/// its value in place.
#[derive(Debug)]
pub struct Dict<V> {
    entries: Vec<(String, V)>,
}

/// Updating the value of the last entry with key `k` updates the map.
proof fn lemma_entries_map_update<V>(s: Seq<(Seq<char>, V)>, k: Seq<char>, v: V)
    requires
        0 <= last_key_index(entry_keys(s), k),
    ensures
        entries_map(s.update(last_key_index(entry_keys(s), k), (k, v))) == entries_map(s).insert(
            k,
            v,
        ),
    decreases s.len(),
{
    let i = last_key_index(entry_keys(s), k);
    let t = s.drop_last();
    assert(entry_keys(t) =~= entry_keys(s).drop_last());
    lemma_last_key_index(entry_keys(s), k);
    if i == s.len() - 1 {
        assert(s.update(i, (k, v)).drop_last() =~= t);
        assert(s.last().0 == k);
        assert(s.update(i, (k, v)).last() == (k, v));
        assert(entries_map(s.update(i, (k, v))) =~= entries_map(s).insert(k, v));
    } else {
        assert(entry_keys(s)[s.len() - 1] != k);
        assert(last_key_index(entry_keys(t), k) == i);
        lemma_entries_map_update(t, k, v);
        assert(s.update(i, (k, v)).drop_last() =~= t.update(i, (k, v)));
        assert(s.update(i, (k, v)).last() == s.last());
        assert(entries_map(s.update(i, (k, v))) =~= entries_map(s).insert(k, v));
    }
}

impl<V> Dict<V> {
    /// The entries in their order, keys taken by their view.
    pub closed spec fn items(&self) -> Seq<(Seq<char>, V)> {
        string_entries(self.entries@)
    }

    pub open spec fn spec_len(&self) -> nat {
        self.items().len()
    }

    /// The map that the entries denote.
    pub open spec fn map(&self) -> Map<Seq<char>, V> {
        entries_map(self.items())
    }

    /// Each entry's key is in the map and maps to that entry's value, when
    /// no later entry has the same key.
    pub proof fn lemma_items(&self, k: Seq<char>)
        ensures
            self.map().contains_key(k) <==> last_key_index(entry_keys(self.items()), k) >= 0,
            last_key_index(entry_keys(self.items()), k) >= 0 ==> self.map()[k] == self.items()[last_key_index(
                entry_keys(self.items()),
                k,
            )].1,
            -1 <= last_key_index(entry_keys(self.items()), k) < self.items().len(),
            last_key_index(entry_keys(self.items()), k) >= 0 ==> self.items()[last_key_index(
                entry_keys(self.items()),
                k,
            )].0 == k,
    {
        lemma_entries_map(self.items(), k);
        lemma_last_key_index(entry_keys(self.items()), k);
    }

    /// A map is larger than each of its values.
    pub broadcast proof fn lemma_value_decreases(&self, i: int)
        requires
            0 <= i < self.items().len(),
        ensures
            #[trigger] decreases_to!(*self => self.items()[i].1),
    {
        assert(decreases_to!(*self => self.entries));
        assert(decreases_to!(self.entries => self.entries[i]));
        assert(decreases_to!(self.entries[i] => self.entries[i].1));
    }

    pub fn new() -> (d: Dict<V>)
        ensures
            d.items() == Seq::<(Seq<char>, V)>::empty(),
            d.map() == Map::<Seq<char>, V>::empty(),
    {
        let d = Dict { entries: Vec::new() };
        proof {
            assert(d.items() =~= Seq::<(Seq<char>, V)>::empty());
        }
        d
    }

    /// A map holding the given entries, in their order.
    pub fn from_entries(entries: Vec<(String, V)>) -> (d: Dict<V>)
        ensures
            d.items() == string_entries(entries@),
    {
        Dict { entries }
    }

    pub fn len(&self) -> (n: usize)
        ensures
            n == self.items().len(),
    {
        self.entries.len()
    }

    /// The entry at position `i`.
    pub fn get_index(&self, i: usize) -> (r: (&String, &V))
        requires
            i < self.items().len(),
        ensures
            r.0@ == self.items()[i as int].0,
            *r.1 == self.items()[i as int].1,
    {
        let e = &self.entries[i];
        (&e.0, &e.1)
    }

    /// The value of a key.
    pub fn get(&self, k: &String) -> (r: Option<&V>)
        ensures
            match r {
                Some(v) => self.map().contains_key(k@) && self.map()[k@] == *v,
                None => !self.map().contains_key(k@),
            },
    {
        proof {
            assert(entry_keys(self.items()) =~= string_keys(self.entries@));
            self.lemma_items(k@);
        }
        match find_last_key(&self.entries, k) {
            Some(i) => Some(&self.entries[i].1),
            None => None,
        }
    }

    pub fn contains_key(&self, k: &String) -> (b: bool)
        ensures
            b == self.map().contains_key(k@),
    {
        match self.get(k) {
            Some(_) => true,
            None => false,
        }
    }

    /// Sets the value of a key: in place when the key is present, as a new
    /// last entry otherwise.
    pub fn insert(&mut self, k: String, v: V)
        ensures
            final(self).map() == old(self).map().insert(k@, v),
            old(self).map().contains_key(k@) ==> final(self).items() == old(self).items().update(
                last_key_index(entry_keys(old(self).items()), k@),
                (k@, v),
            ),
            !old(self).map().contains_key(k@) ==> final(self).items() == old(self).items().push(
                (k@, v),
            ),
    {
        proof {
            assert(entry_keys(self.items()) =~= string_keys(self.entries@));
            self.lemma_items(k@);
        }
        match find_last_key(&self.entries, &k) {
            Some(i) => {
                let ghost s = self.items();
                proof {
                    lemma_entries_map_update(s, k@, v);
                }
                self.entries.set(i, (k, v));
                proof {
                    assert(self.items() =~= s.update(i as int, (k@, v)));
                }
            },
            None => {
                let ghost s = self.items();
                let ghost kv = k@;
                self.entries.push((k, v));
                proof {
                    assert(self.items() =~= s.push((kv, v)));
                    assert(self.items().drop_last() =~= s);
                }
            },
        }
    }
}

} // verus!
