//! Decision rules of the active-learning moderation flow.
//!
//! The HTTP checks against trusted sources run outside; the library
//! decides from their outcome alone.
use vstd::prelude::*;

verus! {

/// A user-submitted correction to the knowledge base.
#[derive(Debug, Clone, PartialEq)]
pub struct Correction {
    pub claim: String,
    pub user: String,
    pub justification: String,
}

/// Verdict on a correction.
#[derive(Debug, Clone, PartialEq, Eq)]
pub enum CorrectionResult {
    AutoAccepted,
    NeedsModeration,
    Rejected,
}

/// The verdict for a correction, given how many trusted sources
/// confirmed its claim: two or more confirmations accept it
/// automatically, fewer send it to moderation.
pub fn decide_correction(confirmations: usize) -> (r: CorrectionResult)
    ensures
        confirmations >= 2 ==> r == CorrectionResult::AutoAccepted,
        confirmations < 2 ==> r == CorrectionResult::NeedsModeration,
{
    if confirmations >= 2 {
        CorrectionResult::AutoAccepted
    } else {
        CorrectionResult::NeedsModeration
    }
}

} // verus!
