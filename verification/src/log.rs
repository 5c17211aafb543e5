//! What the log says: records of entries, and the changes to a table that
//! the entries of one table are.

use crate::{clones_exactly, Key, Value};
use std::collections::HashMap;
use vstd::prelude::*;
use vstd::std_specs::hash::obeys_key_model;
use vstd::std_specs::iter::IteratorSpec;

verus! {

/// What one physical record carries: a single entry, or the entries of one
/// transaction.
#[derive(Debug)]
pub enum LogItems<S> {
    Single(S),
    Batch(Vec<S>),
}

impl<S> LogItems<S> {
    /// The entries that the record stands for, in order.
    pub open spec fn entries(self) -> Seq<S> {
        match self {
            LogItems::Single(entry) => seq![entry],
            LogItems::Batch(entries) => entries@,
        }
    }

    /// Unpacks the record into its entries.
    pub fn into_entries(self) -> (out: Vec<S>)
        ensures
            out@ == self.entries(),
    {
        match self {
            LogItems::Single(entry) => {
                let mut out: Vec<S> = Vec::new();
                out.push(entry);
                out
            },
            LogItems::Batch(entries) => entries,
        }
    }

    /// The record of one transaction: the changes of each table, the tables
    /// taken in the order given, which is the order in which the schema
    /// declares them.
    pub fn batch(parts: Vec<Vec<S>>) -> (items: Self)
        ensures
            items is Batch,
            items.entries() == parts@.map_values(|part: Vec<S>| part@).flatten(),
    {
        let mut all: Vec<S> = Vec::new();
        let ghost lists = parts@.map_values(|part: Vec<S>| part@);
        for part in iter: parts
            invariant
                iter.seq() == parts@,
                lists == parts@.map_values(|part: Vec<S>| part@),
                all@ == lists.take(iter.index()).flatten(),
        {
            let mut part = part;
            proof {
                let done = lists.take(iter.index());
                assert(lists.take(iter.index() + 1) =~= done.push(part@));
                done.lemma_flatten_push(part@);
            }
            all.append(&mut part);
        }
        proof {
            assert(lists.take(lists.len() as int) =~= lists);
        }
        LogItems::Batch(all)
    }
}

/// The entries that a list of records stands for, in order.
pub open spec fn log_entries<S>(items: Seq<LogItems<S>>) -> Seq<S> {
    items.map_values(|item: LogItems<S>| item.entries()).flatten()
}

/// The entries of a log grow at the end by the entries of the record that is
/// appended.
pub proof fn lemma_log_entries_push<S>(items: Seq<LogItems<S>>, item: LogItems<S>)
    ensures
        log_entries(items.push(item)) == log_entries(items) + item.entries(),
{
    let lists = items.map_values(|item: LogItems<S>| item.entries());
    assert(items.push(item).map_values(|item: LogItems<S>| item.entries()) =~= lists.push(
        item.entries(),
    ));
    lists.lemma_flatten_push(item.entries());
}

/// A log in which every record holds a single entry stands for those entries,
/// in order.
pub proof fn lemma_log_entries_single<S>(entries: Seq<S>)
    ensures
        log_entries(entries.map_values(|entry: S| LogItems::Single(entry))) == entries,
    decreases entries.len(),
{
    let items = entries.map_values(|entry: S| LogItems::Single(entry));
    if entries.len() == 0 {
        assert(items.map_values(|item: LogItems<S>| item.entries()) =~= Seq::<Seq<S>>::empty());
        assert(log_entries(items) =~= entries);
    } else {
        let before = entries.drop_last();
        lemma_log_entries_single(before);
        let earlier = before.map_values(|entry: S| LogItems::Single(entry));
        assert(items =~= earlier.push(LogItems::Single(entries.last())));
        lemma_log_entries_push(earlier, LogItems::Single(entries.last()));
        assert(before + seq![entries.last()] =~= entries);
    }
}

/// One change to a table.
#[derive(Debug)]
pub enum TableEvent<K: Key, V: Value> {
    Insert(K, V),
    Delete(K),
    Clear,
}

impl<K: Key, V: Value> TableEvent<K, V> {
    /// The table after the change, given the table before it.
    pub open spec fn apply(self, table: Map<K, V>) -> Map<K, V> {
        match self {
            TableEvent::Insert(k, v) => table.insert(k, v),
            TableEvent::Delete(k) => table.remove(k),
            TableEvent::Clear => Map::empty(),
        }
    }

    /// Makes the change to `table`.
    pub fn apply_to(self, table: &mut HashMap<K, V>)
        ensures
            obeys_key_model::<K>() ==> final(table)@ == self.apply(old(table)@),
    {
        match self {
            TableEvent::Insert(k, v) => {
                table.insert(k, v);
            },
            TableEvent::Delete(k) => {
                table.remove(&k);
            },
            TableEvent::Clear => {
                table.clear();
            },
        }
    }

    /// A snapshot of `table`: an insertion for each key that it holds, in no
    /// particular order. This is what a compacted log holds for the table.
    pub fn snapshot(table: &HashMap<K, V>) -> (events: Vec<Self>)
        ensures
            obeys_key_model::<K>() ==> events@.len() == table@.len(),
            obeys_key_model::<K>() ==> forall|i: int|
                0 <= i < events@.len() ==> is_copy_of_entry(#[trigger] events@[i], table@),
            obeys_key_model::<K>() && clones_exactly::<K>() && clones_exactly::<V>() ==> {
                &&& is_snapshot(events@, table@)
                &&& replay(events@, Map::empty()) == table@
            },
    {
        let count: usize = table.len();
        let mut entries = table.iter();
        let ghost all = entries.remaining();
        let mut events: Vec<TableEvent<K, V>> = Vec::new();
        let mut taken: usize = 0;
        while taken < count
            invariant
                taken <= count,
                obeys_key_model::<K>() ==> count == all.len(),
                obeys_key_model::<K>() ==> entries.remaining() == all.skip(taken as int),
                obeys_key_model::<K>() ==> events@.len() == taken,
                obeys_key_model::<K>() ==> forall|i: int|
                    0 <= i < taken ==> match #[trigger] events@[i] {
                        TableEvent::Insert(k, v) => cloned(*all[i].0, k) && cloned(*all[i].1, v),
                        _ => false,
                    },
            decreases count - taken,
        {
            match next_item(&mut entries) {
                Some((key, val)) => {
                    let k = key.clone();
                    let v = val.clone();
                    proof {
                        assert(cloned(*key, k));
                        assert(cloned(*val, v));
                        if obeys_key_model::<K>() {
                            assert(all.skip(taken as int)[0] == all[taken as int]);
                            assert(all.skip(taken as int).drop_first() =~= all.skip(taken + 1));
                        }
                    }
                    events.push(TableEvent::Insert(k, v));
                },
                None => {
                    assert(!obeys_key_model::<K>());
                },
            }
            taken = taken + 1;
        }
        proof {
            if obeys_key_model::<K>() {
                let held = table@;
                assert forall|i: int| 0 <= i < events@.len() implies is_copy_of_entry(
                    #[trigger] events@[i],
                    held,
                ) by {
                    assert(held.contains_key(*all[i].0) && held[*all[i].0] == *all[i].1);
                }
            }
            if obeys_key_model::<K>() && clones_exactly::<K>() && clones_exactly::<V>() {
                let held = table@;
                assert forall|k: K| #[trigger] held.contains_key(k) implies events@.contains(
                    TableEvent::Insert(k, held[k]),
                ) by {
                    assert(all.contains((&k, &held[k])));
                    let i = choose|i: int| 0 <= i < all.len() && all[i] == (&k, &held[k]);
                    assert(events@[i] == TableEvent::Insert(k, held[k]));
                }
                lemma_replay_snapshot(events@, held);
            }
        }
        events
    }
}

/// Whether `event` inserts a copy of a key that `table` holds, with a copy of
/// the value that it holds there.
pub open spec fn is_copy_of_entry<K: Key, V: Value>(event: TableEvent<K, V>, table: Map<K, V>) -> bool {
    match event {
        TableEvent::Insert(k, v) => exists|key: K|
            #[trigger] table.contains_key(key) && cloned(key, k) && cloned(table[key], v),
        _ => false,
    }
}

/// Takes the next item from `iter`, if one is left.
pub(crate) fn next_item<I: Iterator>(iter: &mut I) -> (item: Option<I::Item>)
    ensures
        (*final(iter)).obeys_prophetic_iter_laws() == (*old(iter)).obeys_prophetic_iter_laws(),
        (*final(iter)).obeys_prophetic_iter_laws() ==> if (*old(iter)).remaining().len() > 0 {
            &&& (*final(iter)).remaining() == (*old(iter)).remaining().drop_first()
            &&& item == Some((*old(iter)).remaining()[0])
        } else {
            &&& (*final(iter)).remaining() == (*old(iter)).remaining()
            &&& item is None
        },
{
    iter.next()
}

/// The table that results from making the changes `events`, oldest first, to
/// the table `start`.
pub open spec fn replay<K: Key, V: Value>(events: Seq<TableEvent<K, V>>, start: Map<K, V>) -> Map<
    K,
    V,
>
    decreases events.len(),
{
    if events.len() == 0 {
        start
    } else {
        events.last().apply(replay(events.drop_last(), start))
    }
}

/// Replaying one more change is making that change to what the earlier
/// changes gave.
pub proof fn lemma_replay_push<K: Key, V: Value>(
    events: Seq<TableEvent<K, V>>,
    event: TableEvent<K, V>,
    start: Map<K, V>,
)
    ensures
        replay(events.push(event), start) == event.apply(replay(events, start)),
{
    assert(events.push(event).drop_last() =~= events);
}

/// Replaying two logs one after the other is replaying the second on what the
/// first gave: a transaction's batch, replayed after the log that it was
/// appended to, changes the table that the log describes.
pub proof fn lemma_replay_concat<K: Key, V: Value>(
    earlier: Seq<TableEvent<K, V>>,
    later: Seq<TableEvent<K, V>>,
    start: Map<K, V>,
)
    ensures
        replay(earlier + later, start) == replay(later, replay(earlier, start)),
    decreases later.len(),
{
    if later.len() == 0 {
        assert(earlier + later =~= earlier);
    } else {
        lemma_replay_concat(earlier, later.drop_last(), start);
        assert((earlier + later).drop_last() =~= earlier + later.drop_last());
    }
}

/// A log that ends in a clearing of the table describes the empty table,
/// whatever came before.
pub proof fn lemma_replay_clear<K: Key, V: Value>(events: Seq<TableEvent<K, V>>, start: Map<K, V>)
    ensures
        replay(events.push(TableEvent::Clear), start) == Map::<K, V>::empty(),
{
    lemma_replay_push(events, TableEvent::Clear, start);
}

/// One change makes a table grow by one key at most, and only an insertion
/// under a key that the table does not hold makes it grow at all.
pub proof fn lemma_apply_len<K: Key, V: Value>(event: TableEvent<K, V>, table: Map<K, V>)
    requires
        table.dom().finite(),
    ensures
        event.apply(table).dom().finite(),
        event.apply(table).len() <= table.len() + 1,
        !(event is Insert) ==> event.apply(table).len() <= table.len(),
        event matches TableEvent::Insert(k, _) && table.contains_key(k) ==> event.apply(
            table,
        ).len() == table.len(),
{
    match event {
        TableEvent::Insert(k, v) => {
            assert(table.insert(k, v).dom() =~= table.dom().insert(k));
        },
        TableEvent::Delete(k) => {
            assert(table.remove(k).dom() =~= table.dom().remove(k));
        },
        TableEvent::Clear => {
            assert(Map::<K, V>::empty().dom() =~= Set::<K>::empty());
        },
    }
}

/// The table that a log describes holds no more keys than the log has
/// entries.
pub proof fn lemma_replay_len<K: Key, V: Value>(events: Seq<TableEvent<K, V>>)
    ensures
        replay(events, Map::empty()).dom().finite(),
        replay(events, Map::empty()).len() <= events.len(),
    decreases events.len(),
{
    if events.len() == 0 {
        assert(Map::<K, V>::empty().dom() =~= Set::<K>::empty());
    } else {
        lemma_replay_len(events.drop_last());
        lemma_apply_len(events.last(), replay(events.drop_last(), Map::empty()));
    }
}

/// The key that a change inserts under, if it is an insertion.
pub open spec fn inserted_key<K: Key, V: Value>(event: TableEvent<K, V>) -> Option<K> {
    match event {
        TableEvent::Insert(k, _) => Some(k),
        _ => None,
    }
}

/// Whether a log inserts twice under one key.
pub open spec fn inserts_twice<K: Key, V: Value>(events: Seq<TableEvent<K, V>>) -> bool {
    exists|i: int, j: int|
        0 <= i < j < events.len() && inserted_key(#[trigger] events[i]) is Some && inserted_key(
            events[i],
        ) == inserted_key(#[trigger] events[j])
}

/// A log that inserts twice under one key describes a table of fewer keys
/// than the log has entries: its snapshot is shorter than the log.
pub proof fn lemma_redundant_log_shrinks<K: Key, V: Value>(events: Seq<TableEvent<K, V>>)
    requires
        inserts_twice(events),
    ensures
        replay(events, Map::empty()).len() < events.len(),
    decreases events.len(),
{
    let (i, j) = choose|i: int, j: int|
        0 <= i < j < events.len() && inserted_key(#[trigger] events[i]) is Some && inserted_key(
            events[i],
        ) == inserted_key(#[trigger] events[j]);
    let before = events.drop_last();
    let earlier = replay(before, Map::<K, V>::empty());
    lemma_replay_len(before);
    lemma_apply_len(events.last(), earlier);
    assert(before[i] == events[i]);
    if j < before.len() {
        assert(before[j] == events[j]);
        lemma_redundant_log_shrinks(before);
    } else {
        let key = inserted_key(events[i])->0;
        if !earlier.contains_key(key) {
            lemma_lost_insert(before, i, key);
        }
    }
}

/// Where a key was inserted and is held no longer, the table holds fewer
/// keys than the log has entries.
proof fn lemma_lost_insert<K: Key, V: Value>(events: Seq<TableEvent<K, V>>, i: int, key: K)
    requires
        0 <= i < events.len(),
        inserted_key(events[i]) == Some(key),
        !replay(events, Map::empty()).contains_key(key),
    ensures
        replay(events, Map::empty()).len() < events.len(),
    decreases events.len(),
{
    let before = events.drop_last();
    let earlier = replay(before, Map::<K, V>::empty());
    lemma_replay_len(before);
    lemma_apply_len(events.last(), earlier);
    if i < before.len() {
        assert(before[i] == events[i]);
        if !earlier.contains_key(key) {
            lemma_lost_insert(before, i, key);
        }
    }
}

/// Whether `events` is a snapshot of `table`: one insertion for each key that
/// the table holds, with the value it holds, in any order, and nothing else.
pub open spec fn is_snapshot<K: Key, V: Value>(
    events: Seq<TableEvent<K, V>>,
    table: Map<K, V>,
) -> bool {
    &&& table.dom().finite()
    &&& events.len() == table.len()
    &&& forall|i: int|
        0 <= i < events.len() ==> match #[trigger] events[i] {
            TableEvent::Insert(k, v) => table.contains_key(k) && table[k] == v,
            _ => false,
        }
    &&& forall|k: K| #[trigger]
        table.contains_key(k) ==> events.contains(TableEvent::Insert(k, table[k]))
}

/// Replaying a snapshot of a table on an empty table rebuilds the table.
pub proof fn lemma_replay_snapshot<K: Key, V: Value>(
    events: Seq<TableEvent<K, V>>,
    table: Map<K, V>,
)
    requires
        is_snapshot(events, table),
    ensures
        replay(events, Map::empty()) == table,
{
    lemma_replay_inserts(events, table);
    let rebuilt = replay(events, Map::empty());
    assert forall|k: K| table.contains_key(k) implies rebuilt.contains_key(k) by {
        let e = TableEvent::Insert(k, table[k]);
        assert(events.contains(e));
        let i = choose|i: int| 0 <= i < events.len() && events[i] == e;
        assert(events[i] == e);
    }
    assert(rebuilt =~= table);
}

/// Replaying insertions taken from a table yields the part of the table that
/// they name.
proof fn lemma_replay_inserts<K: Key, V: Value>(events: Seq<TableEvent<K, V>>, table: Map<K, V>)
    requires
        forall|i: int|
            0 <= i < events.len() ==> match #[trigger] events[i] {
                TableEvent::Insert(k, v) => table.contains_key(k) && table[k] == v,
                _ => false,
            },
    ensures
        forall|k: K| #[trigger]
            replay(events, Map::empty()).contains_key(k) ==> table.contains_key(k) && replay(
                events,
                Map::empty(),
            )[k] == table[k],
        forall|i: int|
            0 <= i < events.len() ==> match #[trigger] events[i] {
                TableEvent::Insert(k, v) => replay(events, Map::empty()).contains_key(k),
                _ => false,
            },
    decreases events.len(),
{
    if events.len() > 0 {
        let before = events.drop_last();
        assert forall|i: int| 0 <= i < before.len() implies match #[trigger] before[i] {
            TableEvent::Insert(k, v) => table.contains_key(k) && table[k] == v,
            _ => false,
        } by {
            assert(before[i] == events[i]);
        }
        lemma_replay_inserts(before, table);
        let earlier = replay(before, Map::<K, V>::empty());
        let rebuilt = replay(events, Map::<K, V>::empty());
        let last = events[events.len() - 1];
        assert(rebuilt == last.apply(earlier));
        match last {
            TableEvent::Insert(k0, v0) => {
                assert(rebuilt == earlier.insert(k0, v0));
                assert forall|k: K| #[trigger] rebuilt.contains_key(k) implies table.contains_key(k)
                    && rebuilt[k] == table[k] by {
                    if k != k0 {
                        assert(earlier.contains_key(k));
                    }
                }
                assert forall|i: int| 0 <= i < events.len() implies match #[trigger] events[i] {
                    TableEvent::Insert(k, v) => rebuilt.contains_key(k),
                    _ => false,
                } by {
                    if i < before.len() {
                        assert(before[i] == events[i]);
                    }
                }
            },
            _ => {},
        }
    }
}

} // verus!
