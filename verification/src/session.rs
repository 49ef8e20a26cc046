//! Saved reading occasions, as the journal and the spreads read them.

use vstd::prelude::*;

verus! {

/// One sealed result bound to a named position of a saved occasion.
#[derive(Clone, Debug, PartialEq, Eq)]
pub struct ReadingPlacement {
    pub position: String,
    pub reading_id: String,
}

/// A saved occasion: when it was made, the exact context and field it used,
/// and its results in declared position order.
#[derive(Clone, Debug, PartialEq, Eq)]
pub struct ReadingSession {
    pub id: String,
    pub created_at_ms: u64,
    pub context_digest: String,
    pub field_digest: String,
    pub placements: Vec<ReadingPlacement>,
}

} // verus!
