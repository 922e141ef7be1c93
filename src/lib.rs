//! Read-only decoding of a single-file paged database container: the file
//! header, leaf table pages, the schema catalog on page 1, and table lookup.
//! Reading bytes from disk is left to the caller; every function here works on
//! bytes already in memory.

pub mod catalog;
pub mod db;
pub mod error;
pub mod record;
pub mod varint;
