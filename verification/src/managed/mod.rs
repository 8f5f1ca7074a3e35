//! Managed Objects: identity layers, the records a workspace keeps, and
//! the managed-import and reconciliation domain service.

pub mod identity;
pub mod records;
pub mod reconciliation;
pub mod model;
pub mod workspace;
