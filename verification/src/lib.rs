//! Idempotent header stamping: insert or strip a fixed byte sequence at the
//! start of file contents, decide per file whether anything must change, and
//! plan which files of a directory tree are touched at all.

pub mod compare;
pub mod filter;
pub mod policy;
pub mod rewrite;
pub mod walk;
