//! One entry of an object diff: a Knowledge Object present on both sides
//! whose governed-meaning hash differs.

use vstd::prelude::*;

use crate::graph::GraphKnowledgeObjectNode;
use crate::review::field_change::FieldChange;
use crate::sorted::{lemma_one_component, Keyed};

verus! {

/// The before/after view of a Knowledge Object whose `content_hash`
/// differs between the two sides of a diff, with its field-level
/// projection once decorated.
#[derive(Debug, Clone, PartialEq, Eq)]
pub struct ChangedObject {
    pub id: String,
    pub base: GraphKnowledgeObjectNode,
    pub head: GraphKnowledgeObjectNode,
    pub field_changes: Vec<FieldChange>,
}

impl ChangedObject {
    /// An undecorated entry: no field changes projected yet.
    pub fn new(id: String, base: GraphKnowledgeObjectNode, head: GraphKnowledgeObjectNode) -> (r: Self)
        ensures
            r.id == id,
            r.base == base,
            r.head == head,
            r.field_changes@.len() == 0,
    {
        ChangedObject { id, base, head, field_changes: Vec::new() }
    }

    /// The projected field changes.
    pub fn field_changes(&self) -> (r: &Vec<FieldChange>)
        ensures
            r == &self.field_changes,
    {
        &self.field_changes
    }
}

impl Keyed for GraphKnowledgeObjectNode {
    open spec fn key(&self) -> Seq<Seq<char>> {
        seq![self.id@]
    }

    fn key_less(&self, other: &Self) -> (r: bool) {
        let r = crate::text::str_lt(self.id.as_str(), other.id.as_str());
        proof { lemma_one_component(self.id@, other.id@); }
        r
    }
}

impl Keyed for ChangedObject {
    open spec fn key(&self) -> Seq<Seq<char>> {
        seq![self.id@]
    }

    fn key_less(&self, other: &Self) -> (r: bool) {
        let r = crate::text::str_lt(self.id.as_str(), other.id.as_str());
        proof { lemma_one_component(self.id@, other.id@); }
        r
    }
}

} // verus!
