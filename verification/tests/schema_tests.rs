//! A schema of two tables of word counts, opened, changed and reopened on a
//! log that is kept in memory.

use hmdb::codec::frame_encoded;
use hmdb::errors::Error;
use hmdb::log::{LogItems, TableEvent};
use hmdb::reader::{accept, parse_log};
use hmdb::table::Table;
use hmdb::transaction::TransactionTable;
use std::collections::HashMap;

enum Entry {
    WordCounts(TableEvent<String, u64>),
    WordCounts2(TableEvent<String, u8>),
}

fn put<T: serde::Serialize>(out: &mut Vec<u8>, value: &T) {
    bincode::serialize_into(out, value).unwrap();
}

fn take<T: serde::de::DeserializeOwned>(input: &mut &[u8]) -> Result<T, String> {
    bincode::deserialize_from(input).map_err(|e| e.to_string())
}

fn put_event<V: Clone + serde::Serialize>(out: &mut Vec<u8>, event: &TableEvent<String, V>) {
    match event {
        TableEvent::Insert(k, v) => {
            put(out, &0u32);
            put(out, k);
            put(out, v);
        }
        TableEvent::Delete(k) => {
            put(out, &1u32);
            put(out, k);
        }
        TableEvent::Clear => put(out, &2u32),
    }
}

fn take_event<V: Clone + serde::de::DeserializeOwned>(
    input: &mut &[u8],
) -> Result<TableEvent<String, V>, String> {
    match take::<u32>(input)? {
        0 => {
            let k = take(input)?;
            let v = take(input)?;
            Ok(TableEvent::Insert(k, v))
        }
        1 => Ok(TableEvent::Delete(take(input)?)),
        2 => Ok(TableEvent::Clear),
        n => Err(format!("unknown event {}", n)),
    }
}

fn put_entry(out: &mut Vec<u8>, entry: &Entry) {
    match entry {
        Entry::WordCounts(e) => {
            put(out, &0u32);
            put_event(out, e);
        }
        Entry::WordCounts2(e) => {
            put(out, &1u32);
            put_event(out, e);
        }
    }
}

fn take_entry(input: &mut &[u8]) -> Result<Entry, String> {
    match take::<u32>(input)? {
        0 => Ok(Entry::WordCounts(take_event(input)?)),
        1 => Ok(Entry::WordCounts2(take_event(input)?)),
        n => Err(format!("unknown table {}", n)),
    }
}

fn encode(items: &LogItems<Entry>) -> Result<Vec<u8>, String> {
    let mut out = Vec::new();
    match items {
        LogItems::Single(entry) => {
            put(&mut out, &0u32);
            put_entry(&mut out, entry);
        }
        LogItems::Batch(entries) => {
            put(&mut out, &1u32);
            put(&mut out, &(entries.len() as u64));
            for entry in entries {
                put_entry(&mut out, entry);
            }
        }
    }
    Ok(out)
}

fn decode(mut input: &[u8]) -> Result<LogItems<Entry>, String> {
    let input = &mut input;
    match take::<u32>(input)? {
        0 => Ok(LogItems::Single(take_entry(input)?)),
        1 => {
            let count: u64 = take(input)?;
            let mut entries = Vec::new();
            for _ in 0..count {
                entries.push(take_entry(input)?);
            }
            Ok(LogItems::Batch(entries))
        }
        n => Err(format!("unknown record {}", n)),
    }
}

struct Schema {
    incomplete_write: bool,
    word_counts: Table<String, u64>,
    word_counts2: Table<String, u8>,
}

struct Tx {
    word_counts: TransactionTable<String, u64>,
    word_counts2: TransactionTable<String, u8>,
}

impl Schema {
    fn init(file: &Vec<u8>) -> Result<Schema, Error> {
        let (records, incomplete_write) = parse_log(file);
        let mut entries: Vec<Entry> = Vec::new();
        for record in &records {
            accept(&mut entries, record, decode(record.payload), "Schema")?;
        }
        let mut word_counts = HashMap::new();
        let mut word_counts2 = HashMap::new();
        for entry in entries {
            match entry {
                Entry::WordCounts(e) => e.apply_to(&mut word_counts),
                Entry::WordCounts2(e) => e.apply_to(&mut word_counts2),
            }
        }
        Ok(Schema {
            incomplete_write,
            word_counts: Table::init(word_counts),
            word_counts2: Table::init(word_counts2),
        })
    }

    fn insert(&mut self, file: &mut Vec<u8>, key: String, val: u64) -> Option<u64> {
        let (prior, event) = self.word_counts.insert(key, val);
        append(file, LogItems::Single(Entry::WordCounts(event)));
        prior
    }

    fn delete(&mut self, file: &mut Vec<u8>, key: String) -> Option<u64> {
        let (prior, event) = self.word_counts.delete(key);
        append(file, LogItems::Single(Entry::WordCounts(event)));
        prior
    }

    fn transaction<Out>(&mut self, file: &mut Vec<u8>, body: impl FnOnce(&mut Tx) -> Out) -> Out {
        let mut tx = Tx {
            word_counts: std::mem::replace(&mut self.word_counts, Table::init(HashMap::new()))
                .begin_transaction(),
            word_counts2: std::mem::replace(&mut self.word_counts2, Table::init(HashMap::new()))
                .begin_transaction(),
        };
        let out = body(&mut tx);
        let (first, pending) = tx.word_counts.commit();
        let (second, pending2) = tx.word_counts2.commit();
        self.word_counts = first;
        self.word_counts2 = second;
        append(
            file,
            LogItems::batch(vec![
                pending.into_iter().map(Entry::WordCounts).collect(),
                pending2.into_iter().map(Entry::WordCounts2).collect(),
            ]),
        );
        out
    }
}

fn append(file: &mut Vec<u8>, items: LogItems<Entry>) {
    file.extend(frame_encoded(encode(&items), "LogItems").ok().unwrap());
}

#[test]
fn start_empty() {
    let file = Vec::new();
    let db = Schema::init(&file).unwrap();
    assert!(!db.incomplete_write);
}

#[test]
fn write_test() {
    let mut file = Vec::new();

    let mut db1 = Schema::init(&file).unwrap();
    db1.insert(&mut file, "test".into(), 5);

    let mut db2 = Schema::init(&file).unwrap();
    assert_eq!(db2.word_counts.get(&"test".into()).unwrap(), 5);
    db2.insert(&mut file, "test2".into(), 3);
    assert_eq!(db2.word_counts.get(&"test2".into()).unwrap(), 3);

    let db3 = Schema::init(&file).unwrap();
    assert_eq!(db3.word_counts.get(&"test2".into()).unwrap(), 3);
}

#[test]
fn exists_tests() {
    let mut file = Vec::new();

    let mut db1 = Schema::init(&file).unwrap();
    assert!(!db1.word_counts.exists_key(&"test".into()));
    assert!(db1.word_counts.get(&"test".into()).is_none());

    db1.insert(&mut file, "test".into(), 435);
    assert!(db1.word_counts.exists_key(&"test".into()));
    assert!(db1.word_counts.get(&"test".into()).is_some());

    db1.delete(&mut file, "test".into());
    assert!(!db1.word_counts.exists_key(&"test".into()));
    assert!(db1.word_counts.get(&"test".into()).is_none());
}

#[test]
fn delete_test_1() {
    let mut file = Vec::new();

    let mut db1 = Schema::init(&file).unwrap();
    db1.insert(&mut file, "test".into(), 234);
    db1.delete(&mut file, "test".into());
    assert!(db1.word_counts.get(&"test".into()).is_none());
}

#[test]
fn delete_test_2() {
    let mut file = Vec::new();

    let mut db1 = Schema::init(&file).unwrap();
    db1.insert(&mut file, "test".into(), 234);

    let mut db2 = Schema::init(&file).unwrap();
    db2.delete(&mut file, "test".into());

    let mut db2 = Schema::init(&file).unwrap();
    db2.delete(&mut file, "test".into());
}

#[test]
fn transaction_test_1() {
    let mut file = Vec::new();

    let mut db1 = Schema::init(&file).unwrap();

    db1.insert(&mut file, "test".to_string(), 5);

    db1.transaction(&mut file, |db| {
        let mut num = *db.word_counts.get(&"test".to_string()).unwrap();
        num += 1;
        db.word_counts.insert("test".to_string(), num);
    });

    assert_eq!(db1.word_counts.get(&"test".to_string()).unwrap(), 6);

    let db2 = Schema::init(&file).unwrap();
    assert_eq!(db2.word_counts.get(&"test".to_string()).unwrap(), 6);
    assert!(db2.word_counts2.snapshot().is_empty());
}
