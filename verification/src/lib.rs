//! A read-only lens over a memory-mapped key/value store: ordered snapshots
//! of one table, and the change notifications that keep an observer in step
//! when a table is read again.

pub mod bytes;
pub mod change;
pub mod database;
pub mod database_item;
pub mod error;
pub mod index_map;
pub mod snapshot;
pub mod store;
pub mod text;
