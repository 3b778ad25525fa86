//! A minimal reader/writer for the USTAR tape-archive container format.
//!
//! An archive is a linear byte stream of fixed-size records: each entry is one
//! 512-byte header followed by zero or more 512-byte content blocks, and the
//! whole stream ends with a run of all-zero blocks. This crate verifies the
//! header codec (fixed byte layout plus checksum arithmetic), the per-entry
//! chunking and de-chunking of file content, and the archive-level operations
//! of building, appending, removing and serializing entries.
//!
//! File metadata, the process environment and the byte streams themselves are
//! supplied by the caller as plain values, so every operation here is a pure
//! function from bytes and numbers to bytes and numbers.

pub mod archive;
pub mod bytes;
pub mod error;
pub mod header;
pub mod meta;
pub mod node;
pub mod octal;
