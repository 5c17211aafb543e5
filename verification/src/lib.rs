//! An embedded, read-optimised, transactional key-value store kept in memory
//! and mirrored to an append-only log.
//!
//! This crate is the storage engine without its input and output: the record
//! format of the log, the reading of a log whose last record was cut short,
//! the tables and what each change to them writes to the log, transactions,
//! and compaction. Whoever embeds it opens the files and takes the locks.

use std::hash::Hash;
use vstd::prelude::*;

pub mod codec;
pub mod compaction;
pub mod errors;
pub mod log;
pub mod names;
pub mod reader;
pub mod table;
pub mod test_utils;
pub mod transaction;

verus! {

/// What a table asks of its keys.
pub trait Key: Clone + Eq + Hash {

}

/// What a table asks of its values.
pub trait Value: Clone {

}

impl<K> Key for K where K: Clone + Eq + Hash {

}

impl<V> Value for V where V: Clone {

}

/// Whether a clone of a `T` always equals the value it was made from.
pub open spec fn clones_exactly<T: Clone>() -> bool {
    forall|a: T, b: T| #[trigger] call_ensures(T::clone, (&a,), b) ==> a == b
}

} // verus!
