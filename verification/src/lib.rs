//! Read-only introspection of a browser-style "cache2" disk cache: the binary
//! index codec (fixed-layout header and packed records decoded from raw bytes
//! in the declared on-disk byte order), the 20-byte content hash with its
//! 40-character hexadecimal text form, and the reconciliation checks that
//! cross-reference the index against the hashes found in the entries
//! directory.

pub mod error;
pub mod index;
pub mod reader;
pub mod reconcile;
