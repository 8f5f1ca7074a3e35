//! The agent-facing artifact's object records.

use vstd::prelude::*;

use crate::graph::FieldMap;

verus! {

/// Where an agent artifact object was authored.
#[derive(Debug, Clone, PartialEq, Eq)]
pub struct AgentJsonSourceSpan {
    pub path: String,
    pub line: u32,
    pub column: u32,
}

/// The authored relation slots of an agent artifact object.
#[derive(Debug, Clone, Default, PartialEq, Eq)]
pub struct AgentJsonRelations {
    pub depends_on: Vec<String>,
    pub supersedes: Vec<String>,
    pub related_to: Vec<String>,
}

/// One object of the agent artifact.
#[derive(Debug, PartialEq, Eq)]
pub struct AgentJsonObject {
    pub id: String,
    pub kind: String,
    pub status: Option<String>,
    pub body: String,
    pub page_id: String,
    pub source_span: AgentJsonSourceSpan,
    pub fields: FieldMap,
    pub relations: AgentJsonRelations,
}

} // verus!
