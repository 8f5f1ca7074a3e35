//! Review: object diffs, field-level projections, impact analysis,
//! required sign-off owners and the proof-obligation trigger rules.

pub mod field_change;
pub mod object_change;
pub mod object_diff;
pub mod projection;
pub mod impact;
pub mod reviewer;
pub mod obligation_rules;
