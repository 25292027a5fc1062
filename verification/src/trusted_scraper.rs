//! Aggregation rules of the fact-verification boundary.
//!
//! The per-source lookups are network calls made outside; the library
//! counts their outcomes and applies the acceptance threshold.
use vstd::prelude::*;

verus! {

/// How many of the three source checks confirmed a claim.
pub fn confirmation_count(wikipedia: bool, arxiv: bool, pubmed: bool) -> (r: usize)
    ensures
        r == (if wikipedia { 1int } else { 0int }) + (if arxiv { 1int } else { 0int }) + (
        if pubmed { 1int } else { 0int }),
{
    let mut count: usize = 0;
    if wikipedia {
        count += 1;
    }
    if arxiv {
        count += 1;
    }
    if pubmed {
        count += 1;
    }
    count
}

/// Whether a claim counts as verified: at least two independent
/// confirmations.
pub fn is_verified(confirmations: usize) -> (r: bool)
    ensures
        r == (confirmations >= 2),
{
    confirmations >= 2
}

} // verus!
