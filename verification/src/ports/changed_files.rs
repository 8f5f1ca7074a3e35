//! The failures of listing the files changed between a base and a head
//! snapshot, independent of the adapter that lists them.

use vstd::prelude::*;

use crate::ports::snapshot_workspace::IoFailure;
use crate::text::owned;

verus! {

/// Why the changed files could not be listed.
#[derive(Debug)]
pub enum ChangedFilesError {
    /// The provider is unusable (binary missing, repository broken).
    ProviderUnavailable { reason: String },
    /// The base selector could not be resolved.
    UnresolvableBase { spec: String, reason: String },
    /// An unclassified filesystem failure.
    Io(IoFailure),
}

impl ChangedFilesError {
    pub open spec fn display(&self) -> Seq<char> {
        match self {
            ChangedFilesError::ProviderUnavailable { reason } => "changed-files provider unavailable: "@ + reason@,
            ChangedFilesError::UnresolvableBase { spec, reason } => "could not resolve base ref `"@ + spec@ + "`: "@ + reason@,
            ChangedFilesError::Io(error) => "changed-files I/O failed: "@ + error@,
        }
    }

    /// The human-readable explanation.
    pub fn to_display_string(&self) -> (r: String)
        ensures
            r@ == self.display(),
    {
        match self {
            ChangedFilesError::ProviderUnavailable { reason } => {
                let mut s = owned("changed-files provider unavailable: ");
                s.append(reason.as_str());
                s
            },
            ChangedFilesError::UnresolvableBase { spec, reason } => {
                let mut s = owned("could not resolve base ref `");
                s.append(spec.as_str());
                s.append("`: ");
                s.append(reason.as_str());
                s
            },
            ChangedFilesError::Io(error) => {
                let mut s = owned("changed-files I/O failed: ");
                s.append(error.message());
                s
            },
        }
    }

    /// The underlying I/O failure, when there is one.
    pub fn source(&self) -> (r: Option<&IoFailure>)
        ensures
            match self {
                ChangedFilesError::Io(error) => r == Some(error),
                _ => r is None,
            },
    {
        match self {
            ChangedFilesError::Io(error) => Some(error),
            _ => None,
        }
    }
}

} // verus!
