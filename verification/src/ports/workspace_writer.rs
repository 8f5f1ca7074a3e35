//! How a patch-apply write to the working tree can fail.

use vstd::prelude::*;

use crate::text::owned;

verus! {

broadcast use vstd::string::group_string_axioms;

/// Why a workspace write was refused or failed.
#[derive(Debug, Clone, PartialEq, Eq)]
pub enum WorkspaceWriteError {
    Io { path: String, message: String },
    /// The path escapes the writer's sandbox root.
    OutsideSandbox { path: String },
    /// The file no longer matches the hash the edit was planned against;
    /// nothing was written.
    ConcurrentModification { path: String },
}

impl WorkspaceWriteError {
    /// The message shown for the error.
    pub fn to_display_string(&self) -> (r: String)
        ensures
            r@ == match self {
                WorkspaceWriteError::Io { path, message } => "write failed for "@ + path@ + ": "@ + message@,
                WorkspaceWriteError::OutsideSandbox { path } => "path "@ + path@ + " escapes the project root"@,
                WorkspaceWriteError::ConcurrentModification { path } => "file "@ + path@
                    + " changed during apply; nothing was written"@,
            },
    {
        match self {
            WorkspaceWriteError::Io { path, message } => owned("write failed for ").concat(path.as_str()).concat(
                ": ",
            ).concat(message.as_str()),
            WorkspaceWriteError::OutsideSandbox { path } => owned("path ").concat(path.as_str()).concat(
                " escapes the project root",
            ),
            WorkspaceWriteError::ConcurrentModification { path } => owned("file ").concat(path.as_str()).concat(
                " changed during apply; nothing was written",
            ),
        }
    }
}

} // verus!
