//! A table as a transaction sees it.

use crate::log::{next_item, replay, TableEvent};
use crate::table::{prior_value, Table};
use crate::{clones_exactly, Key, Value};
use std::collections::HashMap;
use vstd::prelude::*;
use vstd::std_specs::hash::obeys_key_model;
use vstd::std_specs::iter::IteratorSpec;

verus! {

/// A table held for the length of a transaction. Reads see the table as it is
/// now; every change is made to the table at once and noted as pending, to be
/// written to the log when the transaction commits.
#[verifier::reject_recursive_types(K)]
pub struct TransactionTable<K: Key, V: Value> {
    data: HashMap<K, V>,
    pending: Vec<TableEvent<K, V>>,
    start: Ghost<Map<K, V>>,
}

impl<K: Key, V: Value> View for TransactionTable<K, V> {
    type V = Map<K, V>;

    closed spec fn view(&self) -> Map<K, V> {
        self.data@
    }
}

impl<K: Key, V: Value> TransactionTable<K, V> {
    /// The changes made in this transaction so far, oldest first.
    pub closed spec fn pending(&self) -> Seq<TableEvent<K, V>> {
        self.pending@
    }

    /// The table as the transaction found it.
    pub closed spec fn start(&self) -> Map<K, V> {
        self.start@
    }

    /// Whether the table is what the pending changes make of the table that
    /// the transaction started from.
    pub open spec fn mirrors(&self) -> bool {
        self@ == replay(self.pending(), self.start())
    }

    /// Starts a transaction on a table that holds `data`, with nothing
    /// pending.
    pub fn init(data: HashMap<K, V>) -> (tx: Self)
        ensures
            tx@ == data@,
            tx.start() == data@,
            tx.pending().len() == 0,
            tx.mirrors(),
    {
        TransactionTable { data, pending: Vec::new(), start: Ghost(data@) }
    }

    /// The keys that the table holds, each once, in no particular order.
    pub fn keys(&self) -> (keys: Vec<&K>)
        ensures
            obeys_key_model::<K>() ==> {
                &&& keys@.no_duplicates()
                &&& keys@.unref().to_set() == self@.dom()
                &&& keys@.len() == self@.len()
            },
    {
        let count: usize = self.data.len();
        let mut rest = self.data.keys();
        let ghost all = rest.remaining();
        let mut keys: Vec<&K> = Vec::new();
        let mut taken: usize = 0;
        while taken < count
            invariant
                taken <= count,
                obeys_key_model::<K>() ==> count == all.len(),
                obeys_key_model::<K>() ==> rest.remaining() == all.skip(taken as int),
                obeys_key_model::<K>() ==> keys@ == all.take(taken as int),
            decreases count - taken,
        {
            match next_item(&mut rest) {
                Some(key) => {
                    keys.push(key);
                    proof {
                        if obeys_key_model::<K>() {
                            assert(all.skip(taken as int)[0] == all[taken as int]);
                            assert(all.skip(taken as int).drop_first() =~= all.skip(taken + 1));
                            assert(all.take(taken + 1) =~= all.take(taken as int).push(key));
                        }
                    }
                },
                None => {
                    assert(!obeys_key_model::<K>());
                },
            }
            taken = taken + 1;
        }
        proof {
            if obeys_key_model::<K>() {
                assert(all.take(count as int) =~= all);
            }
        }
        keys
    }

    /// The value stored under `key`, if there is one.
    pub fn get(&self, key: &K) -> (found: Option<&V>)
        ensures
            obeys_key_model::<K>() ==> found == match prior_value(self@, *key) {
                Some(v) => Some(&v),
                None => None,
            },
    {
        self.data.get(key)
    }

    /// The whole table.
    pub fn get_all(&self) -> (all: &HashMap<K, V>)
        ensures
            all@ == self@,
    {
        &self.data
    }

    /// Whether a value is stored under `key`.
    pub fn exists_key(&self, key: &K) -> (found: bool)
        ensures
            obeys_key_model::<K>() ==> found == self@.contains_key(*key),
    {
        self.data.contains_key(key)
    }

    /// Stores `val` under `key` and notes the change. Returns the value that
    /// was stored there before, if any.
    pub fn insert(&mut self, key: K, val: V) -> (prior: Option<V>)
        ensures
            final(self).start() == old(self).start(),
            final(self).pending() == old(self).pending().push(TableEvent::Insert(key, val)),
            obeys_key_model::<K>() ==> exists|k: K, v: V|
                {
                    &&& #[trigger] cloned(key, k)
                    &&& #[trigger] cloned(val, v)
                    &&& final(self)@ == old(self)@.insert(k, v)
                    &&& prior == prior_value(old(self)@, k)
                },
            obeys_key_model::<K>() && clones_exactly::<K>() && clones_exactly::<V>() ==> {
                &&& final(self)@ == TableEvent::Insert(key, val).apply(old(self)@)
                &&& prior == prior_value(old(self)@, key)
                &&& old(self).mirrors() ==> final(self).mirrors()
            },
    {
        let k = key.clone();
        let v = val.clone();
        proof {
            assert(cloned(key, k));
            assert(cloned(val, v));
        }
        let prior = self.data.insert(k, v);
        self.pending.push(TableEvent::Insert(key, val));
        proof {
            assert(self.pending@.drop_last() =~= old(self).pending@);
        }
        prior
    }

    /// Removes what is stored under `key` and notes the change. Returns the
    /// value that was stored there, if any.
    pub fn delete(&mut self, key: K) -> (prior: Option<V>)
        ensures
            final(self).start() == old(self).start(),
            final(self).pending() == old(self).pending().push(TableEvent::Delete(key)),
            obeys_key_model::<K>() ==> {
                &&& final(self)@ == TableEvent::<K, V>::Delete(key).apply(old(self)@)
                &&& prior == prior_value(old(self)@, key)
                &&& old(self).mirrors() ==> final(self).mirrors()
            },
    {
        let prior = self.data.remove(&key);
        self.pending.push(TableEvent::Delete(key));
        proof {
            assert(self.pending@.drop_last() =~= old(self).pending@);
        }
        prior
    }

    /// Removes everything from the table and notes the change.
    pub fn clear(&mut self)
        ensures
            final(self).start() == old(self).start(),
            final(self).pending() == old(self).pending().push(TableEvent::Clear),
            final(self)@ == Map::<K, V>::empty(),
            final(self).mirrors(),
    {
        self.data.clear();
        self.pending.push(TableEvent::Clear);
        proof {
            assert(self.pending@.drop_last() =~= old(self).pending@);
        }
    }

    /// Ends the transaction: hands back the table as it now is, and the
    /// changes to write to the log, oldest first.
    pub fn commit(self) -> (out: (Table<K, V>, Vec<TableEvent<K, V>>))
        ensures
            out.0@ == self@,
            out.1@ == self.pending(),
            self.mirrors() ==> out.0@ == replay(out.1@, self.start()),
    {
        (Table::init(self.data), self.pending)
    }
}

} // verus!
