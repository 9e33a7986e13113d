//! Retrieval over the indexed codebase.

pub mod bm25;
pub mod chunker;
pub mod embedder;
pub mod indexer;
pub mod store;
