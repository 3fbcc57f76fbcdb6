//! Storage core of a wide-column table engine: a binary row format, a
//! last-write-wins merge algebra over rows, merge timestamps and the clock
//! that issues them, tombstones, an in-memory write buffer and immutable
//! sorted tables.

pub mod column;
pub mod config;
pub mod error;
pub mod memtable;
pub mod merge;
pub mod merge_laws;
pub mod pk;
pub mod primitives;
pub mod row;
pub mod schema;
pub mod sstable;
pub mod time;
pub mod tombstones;
