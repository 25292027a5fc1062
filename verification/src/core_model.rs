//! Core taxonomy shared with the ingestion and reporting layers.
use vstd::prelude::*;

verus! {

/// Kind of an ingested thought segment.
#[derive(Debug, Clone, PartialEq)]
pub enum SegmentType {
    Text,
    Json,
    Problem { desc: String, prio: u8 },
}

/// Kind of a relation between knowledge nodes.
#[derive(Debug, Clone, PartialEq, Eq)]
pub enum EdgeType {
    Cause,
    PartOf,
    Example,
}

/// Provenance of a piece of knowledge.
#[derive(Debug, Clone, PartialEq, Eq)]
pub enum Source {
    ArXiv,
    Wikipedia,
    StackOverflow,
    UserCorrected,
}

} // verus!
