//! Memory subsystem of a personal conversational assistant: fact extraction,
//! hallucination-safe consolidation against a vector memory store, a file-based
//! notes store, and session history compaction.

pub mod agent;
pub mod chat;
pub mod compaction;
pub mod consolidator;
pub mod extractor;
pub mod json;
pub mod notes;
pub mod scheduler;
pub mod sanitize;
pub mod text;
pub mod tools;
pub mod vector_store;

use vstd::prelude::*;

verus! {

/// Scale for importance weights: an importance of 1.0 is stored as 1000
/// (per-mille).
pub const IMPORTANCE_ONE: u32 = 1000;

} // verus!
