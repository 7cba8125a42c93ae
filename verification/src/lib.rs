//! A small binary-blob store: byte objects addressed by caller-supplied
//! 128-bit identifiers, kept on disk under a sharded directory layout and
//! accelerated by a time-expiring, double-buffered in-memory cache.
//!
//! This crate holds the verified core: path derivation, the cache's
//! operation-log protocol, the atomic temp-file-then-rename write protocol
//! over a model of the store, and the streaming read path with its
//! cache-tee bookkeeping. The asynchronous HTTP/filesystem shell around it
//! lives outside the library and only hands plain values in and out.

pub mod bytes;
pub mod disk;
pub mod error;
pub mod fs_manager;
pub mod ident;
pub mod image_manager;
