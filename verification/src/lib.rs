//! An in-process store for recursively nested knowledge segments: a
//! recursive document model with depth-bounded traversal, a structural
//! deduplication index over canonical keys, a directed labeled graph of
//! segment-carrying nodes, a bounded LRU cache of graph snapshots, and a
//! deterministic feature-vector layer for similarity retrieval.
use vstd::prelude::*;

pub mod active_learning;
pub mod api;
pub mod core_model;
pub mod dedup;
pub mod embedding_cache;
pub mod graph_cache;
pub mod knowledge_graph;
pub mod logic_attention;
pub mod segment;
pub mod text_processor;
pub mod trusted_scraper;

verus! {

/// Hard cap on segment nesting depth, enforced by every traversal.
pub const MAX_DEPTH: usize = 100;

} // verus!
