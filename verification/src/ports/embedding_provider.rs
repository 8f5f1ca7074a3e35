//! The identity of an embedding model and how embedding can fail.

use vstd::prelude::*;

verus! {

/// An embedding model: its id and its provider.
#[derive(Debug, Clone, PartialEq, Eq)]
pub struct ModelId {
    pub id: String,
    pub provider: String,
}

impl ModelId {
    pub fn new(id: String, provider: String) -> (r: Self)
        ensures
            r.id@ == id@,
            r.provider@ == provider@,
    {
        ModelId { id, provider }
    }
}

/// Why embedding failed.
#[derive(Debug, Clone, PartialEq, Eq)]
pub enum EmbeddingError {
    ModelLoad(String),
    Compute(String),
    DimensionMismatch { expected: usize, actual: usize },
}

} // verus!
