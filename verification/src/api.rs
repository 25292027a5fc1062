//! Plain request shapes of the serving layer.
//!
//! The HTTP layer deserializes into its own mirrors of these types and
//! converts; the library sees only the plain values.
use vstd::prelude::*;

verus! {

/// A request to process a text, optionally learning from it.
#[derive(Debug, Clone, PartialEq)]
pub struct ProcessTextRequest {
    pub text: String,
    pub learn: Option<bool>,
    pub annotation: Option<String>,
}

/// A request to learn from an annotated text.
#[derive(Debug, Clone, PartialEq)]
pub struct LearnRequest {
    pub text: String,
    pub annotation: String,
    pub user: String,
}

/// A request to verify a fact against trusted sources.
#[derive(Debug, Clone, PartialEq)]
pub struct VerifyRequest {
    pub fact: String,
    pub source: Option<String>,
}

} // verus!
