//! A store keyed by address, holding at most one value per address.

use vstd::prelude::*;
use crate::address::Address;

verus! {

/// One stored value with the address it is stored at.
pub struct Entry<V> {
    pub key: Address,
    pub value: V,
}

/// The map that a sequence of entries stands for.
pub open spec fn entries_map<V>(s: Seq<Entry<V>>) -> Map<Address, V>
    decreases s.len(),
{
    if s.len() == 0 {
        Map::empty()
    } else {
        entries_map(s.drop_last()).insert(s.last().key, s.last().value)
    }
}

/// No address occurs twice among the entries.
pub open spec fn distinct_keys<V>(s: Seq<Entry<V>>) -> bool {
    forall|i: int, j: int| 0 <= i < j < s.len() ==> s[i].key != s[j].key
}

/// The map of finitely many entries has finitely many keys.
pub proof fn lemma_entries_map_finite<V>(s: Seq<Entry<V>>)
    ensures
        entries_map(s).dom().finite(),
    decreases s.len(),
{
    if s.len() > 0 {
        lemma_entries_map_finite(s.drop_last());
    }
}

/// Every entry's address is a key of the map.
pub proof fn lemma_entries_map_has<V>(s: Seq<Entry<V>>, i: int)
    requires
        0 <= i < s.len(),
    ensures
        entries_map(s).dom().contains(s[i].key),
    decreases s.len(),
{
    if i < s.len() - 1 {
        lemma_entries_map_has(s.drop_last(), i);
    }
}

/// Every key of the map is the address of some entry.
pub proof fn lemma_entries_map_witness<V>(s: Seq<Entry<V>>, k: Address) -> (i: int)
    requires
        entries_map(s).dom().contains(k),
    ensures
        0 <= i < s.len(),
        s[i].key == k,
    decreases s.len(),
{
    if s.last().key == k {
        s.len() - 1
    } else {
        lemma_entries_map_witness(s.drop_last(), k)
    }
}

/// With distinct addresses, the map gives each entry's own value.
pub proof fn lemma_entries_map_value<V>(s: Seq<Entry<V>>, i: int)
    requires
        distinct_keys(s),
        0 <= i < s.len(),
    ensures
        entries_map(s).dom().contains(s[i].key),
        entries_map(s)[s[i].key] == s[i].value,
    decreases s.len(),
{
    if i < s.len() - 1 {
        lemma_entries_map_value(s.drop_last(), i);
    }
}

/// A store of values of type `V`, one per address at most.
pub struct Table<V> {
    entries: Vec<Entry<V>>,
}

impl<V: Copy> View for Table<V> {
    type V = Map<Address, V>;

    closed spec fn view(&self) -> Map<Address, V> {
        entries_map(self.entries@)
    }
}

impl<V: Copy> Table<V> {
    /// The store's invariant: no address is stored twice.
    pub closed spec fn wf(&self) -> bool {
        distinct_keys(self.entries@)
    }

    /// A store holds finitely many addresses.
    pub proof fn lemma_finite(&self)
        ensures
            self@.dom().finite(),
    {
        lemma_entries_map_finite(self.entries@);
    }

    /// The empty store.
    pub fn new() -> (table: Self)
        ensures
            table.wf(),
            table@ == Map::<Address, V>::empty(),
    {
        Table { entries: Vec::new() }
    }

    /// The index of the entry stored at `key`, if there is one.
    fn position(&self, key: &Address) -> (found: Option<usize>)
        ensures
            match found {
                Some(i) => i < self.entries@.len() && self.entries@[i as int].key == *key,
                None => forall|j: int| 0 <= j < self.entries@.len() ==> self.entries@[j].key != *key,
            },
    {
        let mut i: usize = 0;
        while i < self.entries.len()
            invariant
                i <= self.entries@.len(),
                forall|j: int| 0 <= j < i ==> self.entries@[j].key != *key,
            decreases self.entries@.len() - i,
        {
            if self.entries[i].key == *key {
                return Some(i);
            }
            i += 1;
        }
        None
    }

    /// The value stored at `key`, if there is one.
    pub fn get(&self, key: &Address) -> (value: Option<V>)
        requires
            self.wf(),
        ensures
            value == (if self@.contains_key(*key) {
                Some(self@[*key])
            } else {
                None
            }),
    {
        match self.position(key) {
            Some(i) => {
                proof {
                    lemma_entries_map_value(self.entries@, i as int);
                }
                Some(self.entries[i].value)
            },
            None => {
                proof {
                    if self@.contains_key(*key) {
                        let j = lemma_entries_map_witness(self.entries@, *key);
                    }
                }
                None
            },
        }
    }

    /// Stores `value` at `key`, in place of what was stored there.
    pub fn insert(&mut self, key: Address, value: V)
        requires
            old(self).wf(),
        ensures
            final(self).wf(),
            final(self)@ == old(self)@.insert(key, value),
    {
        match self.position(&key) {
            Some(i) => {
                self.entries[i] = Entry { key, value };
                proof {
                    let before = old(self).entries@;
                    let after = self.entries@;
                    assert(after == before.update(i as int, Entry { key, value }));
                    assert(distinct_keys(after)) by {
                        assert forall|a: int, b: int| 0 <= a < b < after.len() implies after[a].key
                            != after[b].key by {
                            assert(after[a].key == before[a].key);
                            assert(after[b].key == before[b].key);
                        }
                    }
                    lemma_entries_map_has(before, i as int);
                    assert forall|k: Address|
                        entries_map(after).dom().contains(k) <==> entries_map(before).insert(
                            key,
                            value,
                        ).dom().contains(k) by {
                        if entries_map(after).dom().contains(k) {
                            let j = lemma_entries_map_witness(after, k);
                            assert(before[j].key == k);
                            lemma_entries_map_has(before, j);
                        }
                        if entries_map(before).dom().contains(k) {
                            let j = lemma_entries_map_witness(before, k);
                            assert(after[j].key == k);
                            lemma_entries_map_has(after, j);
                        }
                    }
                    assert forall|k: Address| entries_map(after).dom().contains(k) implies entries_map(
                        after,
                    )[k] == entries_map(before).insert(key, value)[k] by {
                        let j = lemma_entries_map_witness(after, k);
                        lemma_entries_map_value(after, j);
                        lemma_entries_map_value(before, j);
                    }
                    assert(entries_map(after) =~= entries_map(before).insert(key, value));
                }
            },
            None => {
                self.entries.push(Entry { key, value });
                proof {
                    let before = old(self).entries@;
                    let after = self.entries@;
                    assert(after.drop_last() == before);
                }
            },
        }
    }

    /// Takes out what is stored at `key`, if anything is, and returns it.
    pub fn remove(&mut self, key: &Address) -> (value: Option<V>)
        requires
            old(self).wf(),
        ensures
            final(self).wf(),
            final(self)@ == old(self)@.remove(*key),
            value == (if old(self)@.contains_key(*key) {
                Some(old(self)@[*key])
            } else {
                None
            }),
    {
        match self.position(key) {
            Some(i) => {
                let entry = self.entries.remove(i);
                proof {
                    let before = old(self).entries@;
                    let after = self.entries@;
                    assert(after == before.remove(i as int));
                    lemma_entries_map_value(before, i as int);
                    assert(distinct_keys(after)) by {
                        assert forall|a: int, b: int| 0 <= a < b < after.len() implies after[a].key
                            != after[b].key by {
                            let a0 = if a < i { a } else { a + 1 };
                            let b0 = if b < i { b } else { b + 1 };
                            assert(after[a] == before[a0]);
                            assert(after[b] == before[b0]);
                        }
                    }
                    assert forall|k: Address|
                        entries_map(after).dom().contains(k) <==> entries_map(before).remove(
                            *key,
                        ).dom().contains(k) by {
                        if entries_map(after).dom().contains(k) {
                            let j = lemma_entries_map_witness(after, k);
                            let j0 = if j < i { j } else { j + 1 };
                            assert(after[j] == before[j0]);
                            lemma_entries_map_has(before, j0);
                        }
                        if entries_map(before).dom().contains(k) && k != *key {
                            let j0 = lemma_entries_map_witness(before, k);
                            let j = if j0 < i { j0 } else { j0 - 1 };
                            assert(after[j] == before[j0]);
                            lemma_entries_map_has(after, j);
                        }
                    }
                    assert forall|k: Address| entries_map(after).dom().contains(k) implies entries_map(
                        after,
                    )[k] == entries_map(before).remove(*key)[k] by {
                        let j = lemma_entries_map_witness(after, k);
                        let j0 = if j < i { j } else { j + 1 };
                        assert(after[j] == before[j0]);
                        lemma_entries_map_value(after, j);
                        lemma_entries_map_value(before, j0);
                    }
                    assert(entries_map(after) =~= entries_map(before).remove(*key));
                }
                Some(entry.value)
            },
            None => {
                proof {
                    if self@.contains_key(*key) {
                        let j = lemma_entries_map_witness(self.entries@, *key);
                    }
                    assert(self@ =~= self@.remove(*key));
                }
                None
            },
        }
    }
}

} // verus!
