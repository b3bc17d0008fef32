//! A small durable key-value store: a write-ahead log of text records, two
//! storage variants, and a store that ties them together with lazy
//! expiration and buffered transactions.
//!
//! The library holds the rules of the store and proves them. It never touches
//! a file or a clock itself: log lines, file images and the current time come
//! in as plain values, and what has to be made durable goes out as plain
//! values.
//!
//! - `text`: trimming, splitting and comparing of strings.
//! - `table`: the association table that every container is built on.
//! - `record`: the line formats of the log, the snapshot and the storage file.
//! - `storage`: the `Storage` capability and its two variants.
//! - `wal`: the log and its replay.
//! - `store`: the store, and its state in plain values.
//! - `laws`: what holds across operations.
//! - `parser`: the command language of the front ends.

pub mod text;
pub mod table;
pub mod record;
pub mod storage;
pub mod wal;
pub mod store;
pub mod laws;
pub mod parser;
