//! Snapshot selection and the failures of materializing a snapshot,
//! independent of the adapter that materializes it.

use vstd::prelude::*;

use crate::text::owned;

verus! {

/// An I/O failure as the adapter reported it: its message.
#[derive(Debug, Clone, PartialEq, Eq)]
pub struct IoFailure {
    message: String,
}

impl View for IoFailure {
    type V = Seq<char>;

    closed spec fn view(&self) -> Seq<char> {
        self.message@
    }
}

impl IoFailure {
    pub fn new(message: &str) -> (r: Self)
        ensures
            r@ == message@,
    {
        IoFailure { message: owned(message) }
    }

    pub fn message(&self) -> (r: &str)
        ensures
            r@ == self@,
    {
        self.message.as_str()
    }
}

/// An opaque git revision spec, passed through verbatim.
#[derive(Debug, Clone, PartialEq, Eq)]
pub struct GitRef(String);

impl View for GitRef {
    type V = Seq<char>;

    closed spec fn view(&self) -> Seq<char> {
        self.0@
    }
}

impl GitRef {
    pub fn new(spec: &str) -> (r: Self)
        ensures
            r@ == spec@,
    {
        GitRef(owned(spec))
    }

    pub fn as_str(&self) -> (r: &str)
        ensures
            r@ == self@,
    {
        self.0.as_str()
    }

    /// The spec as written.
    pub fn to_display_string(&self) -> (r: String)
        ensures
            r@ == self@,
    {
        self.0.clone()
    }
}

/// What a diff is run against: the working tree, or a git revision.
#[derive(Debug, Clone)]
pub enum SnapshotSelector {
    Workdir,
    GitRef(GitRef),
}

impl SnapshotSelector {
    pub open spec fn display(&self) -> Seq<char> {
        match self {
            SnapshotSelector::Workdir => "workdir"@,
            SnapshotSelector::GitRef(spec) => "git ref `"@ + spec@ + "`"@,
        }
    }

    /// `workdir`, or ``git ref `<spec>` ``.
    pub fn to_display_string(&self) -> (r: String)
        ensures
            r@ == self.display(),
    {
        match self {
            SnapshotSelector::Workdir => owned("workdir"),
            SnapshotSelector::GitRef(spec) => {
                let mut s = owned("git ref `");
                s.append(spec.as_str());
                s.append("`");
                s
            },
        }
    }
}

/// Why a snapshot could not be materialized.
#[derive(Debug)]
pub enum SnapshotError {
    /// The provider is unusable (binary missing, repository broken).
    ProviderUnavailable { reason: String },
    /// The selector names a snapshot the provider could not resolve.
    UnresolvableRef { spec: String, reason: String },
    /// The base and head do not have exactly one comparison base.
    ComparisonBaseUnavailable { reason: String },
    /// The workspace at `tmp` could not be materialized.
    WorktreeUnavailable { tmp: String, reason: String, source: Option<IoFailure> },
    /// An unclassified filesystem failure.
    Io(IoFailure),
}

impl SnapshotError {
    pub open spec fn display(&self) -> Seq<char> {
        match self {
            SnapshotError::ProviderUnavailable { reason } => "snapshot provider unavailable: "@ + reason@,
            SnapshotError::UnresolvableRef { spec, reason } => "could not resolve snapshot ref `"@ + spec@ + "`: "@ + reason@,
            SnapshotError::ComparisonBaseUnavailable { reason } => "comparison base unavailable: "@ + reason@,
            SnapshotError::WorktreeUnavailable { tmp, reason, .. } => "snapshot workspace unavailable at "@ + tmp@ + ": "@
                + reason@,
            SnapshotError::Io(error) => "snapshot I/O failed: "@ + error@,
        }
    }

    /// The human-readable explanation.
    pub fn to_display_string(&self) -> (r: String)
        ensures
            r@ == self.display(),
    {
        match self {
            SnapshotError::ProviderUnavailable { reason } => {
                let mut s = owned("snapshot provider unavailable: ");
                s.append(reason.as_str());
                s
            },
            SnapshotError::UnresolvableRef { spec, reason } => {
                let mut s = owned("could not resolve snapshot ref `");
                s.append(spec.as_str());
                s.append("`: ");
                s.append(reason.as_str());
                s
            },
            SnapshotError::ComparisonBaseUnavailable { reason } => {
                let mut s = owned("comparison base unavailable: ");
                s.append(reason.as_str());
                s
            },
            SnapshotError::WorktreeUnavailable { tmp, reason, .. } => {
                let mut s = owned("snapshot workspace unavailable at ");
                s.append(tmp.as_str());
                s.append(": ");
                s.append(reason.as_str());
                s
            },
            SnapshotError::Io(error) => {
                let mut s = owned("snapshot I/O failed: ");
                s.append(error.message());
                s
            },
        }
    }

    /// The underlying I/O failure, when the adapter passed one through.
    pub fn source(&self) -> (r: Option<&IoFailure>)
        ensures
            match self {
                SnapshotError::WorktreeUnavailable { source, .. } => match source {
                    Some(e) => r == Some(e),
                    None => r is None,
                },
                SnapshotError::Io(error) => r == Some(error),
                _ => r is None,
            },
    {
        match self {
            SnapshotError::WorktreeUnavailable { source, .. } => match source {
                Some(e) => Some(e),
                None => None,
            },
            SnapshotError::Io(error) => Some(error),
            _ => None,
        }
    }
}

} // verus!
