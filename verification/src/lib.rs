//! A byte-addressed storage and journaling library: growable in-memory binary
//! storage with a transaction boundary, a length-prefixed record journal
//! (writer, reader and a combined in-memory journal), fixed-size file pages,
//! and the node records of a B+ tree index.

pub mod error;
pub mod binary_storage;
pub mod util;
pub mod le_bytes;
pub mod memory_binary_storage;
pub mod transactional_storage;
pub mod journal;
pub mod event_journal;
pub mod ptr_index;
pub mod bplus_tree;
pub mod file_page;
pub mod file_synced_buffer;
pub mod file_binary_storage;
pub mod journal_reader;
pub mod journal_writer;
pub mod memory_journal;
pub mod bp_tree;
