//! A table: one mapping from keys to values, held in memory.

use crate::log::{is_copy_of_entry, is_snapshot, replay, TableEvent};
use crate::transaction::TransactionTable;
use crate::{clones_exactly, Key, Value};
use std::collections::HashMap;
use vstd::prelude::*;
use vstd::std_specs::hash::obeys_key_model;

verus! {

/// One table of the store. Every change hands back the event that records it,
/// so that replaying the events in order rebuilds the table.
pub struct Table<K: Key, V: Value> {
    data: HashMap<K, V>,
}

impl<K: Key, V: Value> View for Table<K, V> {
    type V = Map<K, V>;

    closed spec fn view(&self) -> Map<K, V> {
        self.data@
    }
}

impl<K: Key, V: Value> Table<K, V> {
    /// A table that holds what `data` holds.
    pub fn init(data: HashMap<K, V>) -> (table: Self)
        ensures
            table@ == data@,
    {
        Table { data }
    }

    /// The table that a log of `events`, oldest first, describes.
    pub fn replay(events: Vec<TableEvent<K, V>>) -> (table: Self)
        ensures
            obeys_key_model::<K>() ==> table@ == replay(events@, Map::empty()),
    {
        let mut data: HashMap<K, V> = HashMap::new();
        let ghost all = events@;
        for event in iter: events
            invariant
                iter.seq() == all,
                obeys_key_model::<K>() ==> data@ == replay(all.take(iter.index()), Map::empty()),
        {
            proof {
                let done = all.take(iter.index() + 1);
                assert(done.drop_last() =~= all.take(iter.index()));
                assert(done.last() == event);
            }
            event.apply_to(&mut data);
        }
        proof {
            assert(all.take(all.len() as int) =~= all);
        }
        Table { data }
    }

    /// A copy of the value stored under `key`, if there is one.
    pub fn get(&self, key: &K) -> (found: Option<V>)
        ensures
            obeys_key_model::<K>() ==> match found {
                Some(v) => self@.contains_key(*key) && cloned(self@[*key], v),
                None => !self@.contains_key(*key),
            },
            obeys_key_model::<K>() && clones_exactly::<V>() ==> found == prior_value(self@, *key),
    {
        match self.data.get(key) {
            Some(v) => Some(v.clone()),
            None => None,
        }
    }

    /// Whether a value is stored under `key`.
    pub fn exists_key(&self, key: &K) -> (found: bool)
        ensures
            obeys_key_model::<K>() ==> found == self@.contains_key(*key),
    {
        self.data.contains_key(key)
    }

    /// Stores `val` under `key`. Returns the value that was stored there
    /// before, if any, and the event that records the change.
    pub fn insert(&mut self, key: K, val: V) -> (out: (Option<V>, TableEvent<K, V>))
        ensures
            out.1 == TableEvent::Insert(key, val),
            obeys_key_model::<K>() ==> exists|k: K, v: V|
                {
                    &&& #[trigger] cloned(key, k)
                    &&& #[trigger] cloned(val, v)
                    &&& final(self)@ == old(self)@.insert(k, v)
                    &&& out.0 == prior_value(old(self)@, k)
                },
            obeys_key_model::<K>() && clones_exactly::<K>() && clones_exactly::<V>() ==> {
                &&& final(self)@ == out.1.apply(old(self)@)
                &&& out.0 == prior_value(old(self)@, key)
            },
    {
        let k = key.clone();
        let v = val.clone();
        proof {
            assert(cloned(key, k));
            assert(cloned(val, v));
        }
        let prior = self.data.insert(k, v);
        (prior, TableEvent::Insert(key, val))
    }

    /// Removes what is stored under `key`. Returns the value that was stored
    /// there, if any, and the event that records the change.
    pub fn delete(&mut self, key: K) -> (out: (Option<V>, TableEvent<K, V>))
        ensures
            out.1 == TableEvent::<K, V>::Delete(key),
            obeys_key_model::<K>() ==> {
                &&& final(self)@ == out.1.apply(old(self)@)
                &&& out.0 == prior_value(old(self)@, key)
            },
    {
        let prior = self.data.remove(&key);
        (prior, TableEvent::Delete(key))
    }

    /// The table as a list of insertions, one for each key that it holds, in
    /// no particular order: what a compacted log holds for this table.
    pub fn snapshot(&self) -> (events: Vec<TableEvent<K, V>>)
        ensures
            obeys_key_model::<K>() ==> events@.len() == self@.len(),
            obeys_key_model::<K>() ==> forall|i: int|
                0 <= i < events@.len() ==> is_copy_of_entry(#[trigger] events@[i], self@),
            obeys_key_model::<K>() && clones_exactly::<K>() && clones_exactly::<V>() ==> {
                &&& is_snapshot(events@, self@)
                &&& replay(events@, Map::empty()) == self@
            },
    {
        TableEvent::snapshot(&self.data)
    }

    /// Gives the table up to a transaction, which hands it back when it
    /// commits.
    pub fn begin_transaction(self) -> (tx: TransactionTable<K, V>)
        ensures
            tx@ == self@,
            tx.start() == self@,
            tx.pending().len() == 0,
            tx.mirrors(),
    {
        TransactionTable::init(self.data)
    }
}

/// What a table held under `key` before a change, if anything.
pub open spec fn prior_value<K, V>(table: Map<K, V>, key: K) -> Option<V> {
    if table.contains_key(key) {
        Some(table[key])
    } else {
        None
    }
}

/// What is stored under a key is what was last inserted there.
pub proof fn lemma_insert_then_get<K: Key, V: Value>(table: Map<K, V>, key: K, val: V)
    ensures
        prior_value(TableEvent::Insert(key, val).apply(table), key) == Some(val),
{
}

/// Of two insertions under one key the second one stays.
pub proof fn lemma_insert_twice<K: Key, V: Value>(table: Map<K, V>, key: K, first: V, second: V)
    ensures
        prior_value(
            TableEvent::Insert(key, second).apply(TableEvent::Insert(key, first).apply(table)),
            key,
        ) == Some(second),
{
}

/// Nothing is stored under a key that was deleted after it was inserted.
pub proof fn lemma_insert_then_delete<K: Key, V: Value>(table: Map<K, V>, key: K, val: V)
    ensures
        prior_value(
            TableEvent::<K, V>::Delete(key).apply(TableEvent::Insert(key, val).apply(table)),
            key,
        ) is None,
{
}

/// A change under one key leaves what is stored under every other key.
pub proof fn lemma_other_keys_stay<K: Key, V: Value>(table: Map<K, V>, key: K, val: V, other: K)
    requires
        other != key,
    ensures
        prior_value(TableEvent::Insert(key, val).apply(table), other) == prior_value(table, other),
        prior_value(TableEvent::<K, V>::Delete(key).apply(table), other) == prior_value(
            table,
            other,
        ),
{
}

} // verus!
