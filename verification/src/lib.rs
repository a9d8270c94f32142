//! A transactional file-system core with verified contracts.
//!
//! File contents live in an append-only data log on a block device
//! ([`log_manager`]); inode records and directories live in a metadata store
//! ([`store`]). The transaction engine ([`tx_engine`]) stores every payload
//! in the log before an inode refers to it, so that a failure at any point
//! leaves the files as they were. The file-system operations ([`fs`]) are
//! stated as functions on the state of the store. Operations that change
//! names are recorded in a write-ahead log ([`wal`], [`operation`]) and
//! carried out as transactions ([`transaction`]); mounting ([`fstype`])
//! formats a new store, finds the end of the data log and replays the
//! write-ahead log. What holds of all this together is proved in [`laws`].

pub mod bytes;
pub mod codec;
pub mod error;
pub mod fs;
pub mod fs_common;
pub mod fstype;
pub mod laws;
pub mod layout;
pub mod log_manager;
pub mod mem;
pub mod models;
pub mod names;
pub mod operation;
pub mod store;
pub mod table;
pub mod transaction;
pub mod tx_engine;
pub mod wal;
