//! Verified decision logic of three small command-line tools: a directory
//! bookmark store, a Markdown-to-PDF batch converter, and a per-directory
//! PDF merger. Walking the file system, running external programs and
//! reading or writing files are left to the programs that use this library.
pub mod convert;
pub mod merge;
pub mod names;
pub mod store;
