//! Garbage collection in a bucket.
use vstd::prelude::*;

verus! {

/// Asks for garbage to be collected.
#[derive(Clone, Debug)]
pub struct CollectGarbageInput {
    /// Maximum number of chunk slots to process in this call.
    pub max_chunks: Option<u32>,
}

/// What one call collected, and what is left.
#[derive(Clone, Copy, Debug, PartialEq, Eq, Structural)]
pub struct CollectGarbageOutput {
    pub processed_chunks: u32,
    pub removed_chunks: u32,
    pub completed_items: u32,
    pub remaining_items: u64,
    pub remaining_chunks: u64,
}

/// What waits to be collected.
#[derive(Clone, Copy, Debug, PartialEq, Eq, Structural)]
pub struct GcHealth {
    pub pending_items: u64,
    pub pending_chunks: u64,
    pub oldest_enqueued_at: Option<u64>,
}

} // verus!
