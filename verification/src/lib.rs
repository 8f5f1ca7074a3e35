//! Verified domain core of the AgentDoc knowledge-governance tool.

pub mod artifact;
pub mod calendar;
pub mod diagnostic;
pub mod graph;
pub mod identifiers;
pub mod logical_path;
pub mod managed;
pub mod managed_field_declassification;
pub mod managed_field_provenance;
pub mod managed_state;
pub mod migration;
pub mod obligation;
pub mod obligation_record;
pub mod patch;
pub mod ports;
pub mod project_config;
pub mod proposal;
pub mod raw_html;
pub mod rel_path;
pub mod retrieval;
pub mod review;
pub mod sorted;
pub mod sorted_map;
pub mod string_set;
pub mod text;
pub mod visibility;
