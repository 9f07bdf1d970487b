//! Triage of a photograph tree: the directory tree is flattened into one ordered
//! work queue, a bounded window of file bytes is kept resident around the cursor,
//! every decision is recorded, and the kept files are exported with their RAW
//! sidecars.
//!
//! File names are byte strings, as the operating system hands them out; a path is
//! the sequence of its components. Nothing here touches the file system: a scan
//! works on a listing that was read, a loading pass reads through a function it is
//! given, and an export says step by step what is to be done.

pub mod filename;
pub mod path;
pub mod tree;
pub mod sequence;
pub mod cache;
pub mod ledger;
pub mod session;
pub mod export;
pub mod engine;
pub mod decode;
