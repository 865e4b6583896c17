//! A note capture and retrieval engine.
//!
//! Notes hold captured text, markup, source metadata and tags. The store
//! keeps every note together with a full-text index entry that mirrors it
//! exactly; searching, listing, appending and deleting all preserve that
//! correspondence, and the proofs here establish it.

pub mod chars;
pub mod fresh;
pub mod index;
pub mod merge;
pub mod note;
pub mod paths;
pub mod store;
pub mod text;
