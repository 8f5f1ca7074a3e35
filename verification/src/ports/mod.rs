//! The vocabulary the ports speak: what a snapshot is selected by, and how
//! materializing one, listing changed files, reading an artifact, loading a
//! source, embedding or writing the workspace can fail.

pub mod artifact_reader;
pub mod changed_files;
pub mod embedding_provider;
pub mod snapshot_workspace;
pub mod source_provider;
pub mod workspace_writer;
