//! The identity layers of a Managed Object: the workspace, the
//! workspace-qualified canonical identity, the immutable version ID, the
//! repository slot handle and the Source Assertion identity — each its own
//! type, none ever normalized.

use vstd::prelude::*;

use crate::text::{is_empty_or_padded, owned, str_eq, str_is_empty_or_padded, str_lt, seq_lt};

verus! {

/// Why a managed identity or import was refused.
#[derive(Debug, Clone, Copy, PartialEq, Eq, Structural)]
pub enum ManagedIdentityError {
    InvalidWorkspaceId,
    InvalidSourceAssertionIdentity,
    BlankObjectId,
    InvalidObjectId,
    DuplicateObjectId,
    InvalidContentHash,
    AmbiguousRepositoryIdentity,
    UnknownRepositorySlot,
    RepositoryIdentityMismatch,
}

impl ManagedIdentityError {
    /// The explanation that `message` gives, as text.
    pub open spec fn message_text(self) -> Seq<char> {
        match self {
            Self::InvalidWorkspaceId => "workspace id must be non-blank without surrounding whitespace"@,
            Self::InvalidSourceAssertionIdentity => "source assertion identity must be non-blank without surrounding whitespace"@,
            Self::BlankObjectId => "object id must not be blank"@,
            Self::InvalidObjectId => "object id violates the Object ID grammar"@,
            Self::DuplicateObjectId => "object id appears more than once in one artifact"@,
            Self::InvalidContentHash => "content hash must be `sha256:` followed by lowercase hex"@,
            Self::AmbiguousRepositoryIdentity => "repository identity matches more than one reserved slot; route by slot handle"@,
            Self::UnknownRepositorySlot => "repository slot handle is not reserved in this workspace"@,
            Self::RepositoryIdentityMismatch => "artifact repository identity differs from the reserved slot's"@,
        }
    }

    /// The human-readable explanation.
    pub fn message(&self) -> (r: &'static str)
        ensures
            r@ == self.message_text(),
    {
        match self {
            Self::InvalidWorkspaceId => "workspace id must be non-blank without surrounding whitespace",
            Self::InvalidSourceAssertionIdentity => "source assertion identity must be non-blank without surrounding whitespace",
            Self::BlankObjectId => "object id must not be blank",
            Self::InvalidObjectId => "object id violates the Object ID grammar",
            Self::DuplicateObjectId => "object id appears more than once in one artifact",
            Self::InvalidContentHash => "content hash must be `sha256:` followed by lowercase hex",
            Self::AmbiguousRepositoryIdentity => "repository identity matches more than one reserved slot; route by slot handle",
            Self::UnknownRepositorySlot => "repository slot handle is not reserved in this workspace",
            Self::RepositoryIdentityMismatch => "artifact repository identity differs from the reserved slot's",
        }
    }
}

/// An opaque Cloud workspace identifier: non-empty, without surrounding
/// whitespace, never normalized.
#[derive(Debug, Clone, PartialEq, Eq)]
pub struct WorkspaceId(String);

impl View for WorkspaceId {
    type V = Seq<char>;

    closed spec fn view(&self) -> Seq<char> {
        self.0@
    }
}

impl WorkspaceId {
    /// Accept `value` unless it is empty or padded with whitespace.
    pub fn new(value: &str) -> (r: Result<Self, ManagedIdentityError>)
        ensures
            is_empty_or_padded(value@) ==> r == Err::<Self, _>(ManagedIdentityError::InvalidWorkspaceId),
            !is_empty_or_padded(value@) ==> (r matches Ok(w) && w@ == value@),
    {
        if str_is_empty_or_padded(value) {
            Err(ManagedIdentityError::InvalidWorkspaceId)
        } else {
            Ok(WorkspaceId(owned(value)))
        }
    }

    pub fn as_str(&self) -> (r: &str)
        ensures
            r@ == self@,
    {
        self.0.as_str()
    }

    pub fn duplicate(&self) -> (r: Self)
        ensures
            r@ == self@,
    {
        WorkspaceId(self.0.clone())
    }
}

/// The workspace-qualified canonical identity of a Managed Object. Equality
/// includes the workspace, so equal suffixes in two workspaces differ.
#[derive(Debug, Clone, PartialEq, Eq)]
pub struct WorkspaceCanonicalIdentity {
    pub workspace_id: WorkspaceId,
    pub canonical_id: String,
}

impl View for WorkspaceCanonicalIdentity {
    type V = (Seq<char>, Seq<char>);

    open spec fn view(&self) -> (Seq<char>, Seq<char>) {
        (self.workspace_id@, self.canonical_id@)
    }
}

/// Order of canonical identities: by workspace, then by suffix.
pub open spec fn canonical_lt(a: (Seq<char>, Seq<char>), b: (Seq<char>, Seq<char>)) -> bool {
    seq_lt(a.0, b.0) || (a.0 == b.0 && seq_lt(a.1, b.1))
}

impl WorkspaceCanonicalIdentity {
    pub fn duplicate(&self) -> (r: Self)
        ensures
            r@ == self@,
    {
        WorkspaceCanonicalIdentity { workspace_id: self.workspace_id.duplicate(), canonical_id: self.canonical_id.clone() }
    }

    /// Whether both name the same Managed Object.
    pub fn same_as(&self, other: &Self) -> (r: bool)
        ensures
            r == (self@ == other@),
    {
        str_eq(self.workspace_id.as_str(), other.workspace_id.as_str()) && str_eq(
            self.canonical_id.as_str(),
            other.canonical_id.as_str(),
        )
    }

    /// Whether `self` orders before `other`.
    pub fn less_than(&self, other: &Self) -> (r: bool)
        ensures
            r == canonical_lt(self@, other@),
    {
        str_lt(self.workspace_id.as_str(), other.workspace_id.as_str()) || (str_eq(
            self.workspace_id.as_str(),
            other.workspace_id.as_str(),
        ) && str_lt(self.canonical_id.as_str(), other.canonical_id.as_str()))
    }
}

/// The unique immutable ID of one managed version: opaque, never reused,
/// never derived from content.
#[derive(Debug, Clone, PartialEq, Eq)]
pub struct ManagedVersionId(String);

impl View for ManagedVersionId {
    type V = Seq<char>;

    closed spec fn view(&self) -> Seq<char> {
        self.0@
    }
}

impl ManagedVersionId {
    pub fn as_str(&self) -> (r: &str)
        ensures
            r@ == self@,
    {
        self.0.as_str()
    }

    pub(crate) fn from_string(s: String) -> (r: Self)
        ensures
            r@ == s@,
    {
        ManagedVersionId(s)
    }

    pub fn duplicate(&self) -> (r: Self)
        ensures
            r@ == self@,
    {
        ManagedVersionId(self.0.clone())
    }

    pub fn same_as(&self, other: &Self) -> (r: bool)
        ensures
            r == (self@ == other@),
    {
        str_eq(self.0.as_str(), other.0.as_str())
    }
}

/// The identity of one immutable Source Assertion: non-empty, without
/// surrounding whitespace, never normalized.
#[derive(Debug, Clone, PartialEq, Eq)]
pub struct SourceAssertionIdentity(String);

impl View for SourceAssertionIdentity {
    type V = Seq<char>;

    closed spec fn view(&self) -> Seq<char> {
        self.0@
    }
}

impl SourceAssertionIdentity {
    pub fn new(value: &str) -> (r: Result<Self, ManagedIdentityError>)
        ensures
            is_empty_or_padded(value@) ==> r == Err::<Self, _>(ManagedIdentityError::InvalidSourceAssertionIdentity),
            !is_empty_or_padded(value@) ==> (r matches Ok(w) && w@ == value@),
    {
        if str_is_empty_or_padded(value) {
            Err(ManagedIdentityError::InvalidSourceAssertionIdentity)
        } else {
            Ok(SourceAssertionIdentity(owned(value)))
        }
    }

    pub fn as_str(&self) -> (r: &str)
        ensures
            r@ == self@,
    {
        self.0.as_str()
    }

    pub fn duplicate(&self) -> (r: Self)
        ensures
            r@ == self@,
    {
        SourceAssertionIdentity(self.0.clone())
    }
}

/// The workspace-minted handle of one reserved repository binding slot.
#[derive(Debug, Clone, PartialEq, Eq)]
pub struct RepositorySlotId(String);

impl View for RepositorySlotId {
    type V = Seq<char>;

    closed spec fn view(&self) -> Seq<char> {
        self.0@
    }
}

impl RepositorySlotId {
    /// A handle as spelled.
    pub fn new(value: &str) -> (r: Self)
        ensures
            r@ == value@,
    {
        RepositorySlotId(owned(value))
    }

    pub(crate) fn from_string(s: String) -> (r: Self)
        ensures
            r@ == s@,
    {
        RepositorySlotId(s)
    }

    pub fn as_str(&self) -> (r: &str)
        ensures
            r@ == self@,
    {
        self.0.as_str()
    }

    pub fn duplicate(&self) -> (r: Self)
        ensures
            r@ == self@,
    {
        RepositorySlotId(self.0.clone())
    }
}

} // verus!
