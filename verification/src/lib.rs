//! An append-only, checksummed record log held in a single byte container.
//!
//! The engine buffers appended entries in memory, makes them durable with an
//! explicit flush that seals the container with a block-aligned trailer, and
//! reads entries back either at a known offset or through a sequential
//! replay cursor.  The caller (or a thin host layer) is responsible for
//! moving the container bytes between this engine and the operating system's
//! file APIs; everything the engine decides about those bytes is specified
//! and proved here.

mod error;
mod format;
mod iter;
mod laws;
mod log;
mod options;

pub use error::Error;
pub use format::{
    crc32_of, entry_bytes, entry_size, pad_len, read_at, u32_be_bytes, u32_from_be, u64_be_bytes,
    u64_from_be, zeros,
};
pub use iter::EntryIterator;
pub use laws::{
    append_all, entries_anchor, entries_bytes, entries_end, lemma_corrupt_container_detection,
    lemma_empty_log, lemma_read_locality, lemma_reopen_recovery, lemma_round_trip,
    lemma_sequential_chaining, replay,
    replay_clean,
};
pub use log::{append_spec, flush_spec, open_spec, Chunk, Log, LogView};
pub use options::Options;
