//! Content-addressed blob storage: a low-latency file server with a non-volatile cache.
//!
//! Blobs are named by the SHA-256 of their bytes and kept by a provider: in memory, in a local
//! directory, in an object store, or in a pair of these. A cache in front of a provider keeps
//! pages of blobs in memory and on disk.
//!
//! The library holds what is computed and decided. Where a decision needs something from outside
//! (a file, a reply, the end of a wait), a function names it, the caller gets it, and hands it to
//! the next function.

pub mod buffer;
pub mod cached;
pub mod chunks;
pub mod cleaner;
pub mod coherence;
pub mod config;
pub mod digest;
pub mod error;
pub mod fallback;
pub mod history;
pub mod memory;
pub mod page_cache;
pub mod pending;
pub mod provider;
pub mod range;
pub mod size;
pub mod stats;
pub mod text;
