//! How reading a structured artifact can fail: the failure's kind, the
//! schema version found when there was one, and the diagnostics behind it.

use vstd::prelude::*;

use crate::diagnostic::{Diagnostic, DiagnosticCode};
use crate::graph::opt_view;

verus! {

/// What went wrong reading an artifact.
#[derive(Debug, Clone, Copy, PartialEq, Eq, Structural)]
pub enum ArtifactReadErrorKind {
    Missing,
    Unreadable,
    Malformed,
    UnsupportedVersion,
}

/// A failed artifact read.
pub struct ArtifactReadError {
    kind: ArtifactReadErrorKind,
    schema_version: Option<String>,
    diagnostics: Vec<Diagnostic>,
}

/// Some diagnostic carries `code`.
pub open spec fn has_code(ds: Seq<Diagnostic>, code: DiagnosticCode) -> bool {
    exists|i: int| 0 <= i < ds.len() && (#[trigger] ds[i]).code == code
}

/// The kind a list of diagnostics reports, the most specific first.
pub open spec fn kind_of(ds: Seq<Diagnostic>) -> ArtifactReadErrorKind {
    if has_code(ds, DiagnosticCode::IoArtifactMissing) {
        ArtifactReadErrorKind::Missing
    } else if has_code(ds, DiagnosticCode::SchemaUnsupportedVersion) {
        ArtifactReadErrorKind::UnsupportedVersion
    } else if has_code(ds, DiagnosticCode::IoArtifactMalformed) {
        ArtifactReadErrorKind::Malformed
    } else {
        ArtifactReadErrorKind::Unreadable
    }
}

fn any_code(ds: &Vec<Diagnostic>, code: DiagnosticCode) -> (r: bool)
    ensures
        r == has_code(ds@, code),
{
    let mut i: usize = 0;
    while i < ds.len()
        invariant
            i <= ds@.len(),
            forall|j: int| 0 <= j < i ==> (#[trigger] ds@[j]).code != code,
        decreases ds.len() - i,
    {
        if ds[i].code == code {
            return true;
        }
        i = i + 1;
    }
    false
}

impl ArtifactReadError {
    pub closed spec fn spec_kind(&self) -> ArtifactReadErrorKind {
        self.kind
    }

    pub closed spec fn spec_schema_version(&self) -> Option<Seq<char>> {
        opt_view(self.schema_version)
    }

    pub closed spec fn spec_diagnostics(&self) -> Seq<Diagnostic> {
        self.diagnostics@
    }

    /// A failure of `kind` with its diagnostics and no schema version.
    pub fn new(kind: ArtifactReadErrorKind, diagnostics: Vec<Diagnostic>) -> (r: Self)
        ensures
            r.spec_kind() == kind,
            r.spec_schema_version() is None,
            r.spec_diagnostics() == diagnostics@,
    {
        ArtifactReadError { kind, schema_version: None, diagnostics }
    }

    /// A failure whose kind the diagnostics decide: missing, then an
    /// unsupported version, then malformed, else unreadable.
    pub fn from_diagnostics(diagnostics: Vec<Diagnostic>) -> (r: Self)
        ensures
            r.spec_kind() == kind_of(diagnostics@),
            r.spec_schema_version() is None,
            r.spec_diagnostics() == diagnostics@,
    {
        let kind = if any_code(&diagnostics, DiagnosticCode::IoArtifactMissing) {
            ArtifactReadErrorKind::Missing
        } else if any_code(&diagnostics, DiagnosticCode::SchemaUnsupportedVersion) {
            ArtifactReadErrorKind::UnsupportedVersion
        } else if any_code(&diagnostics, DiagnosticCode::IoArtifactMalformed) {
            ArtifactReadErrorKind::Malformed
        } else {
            ArtifactReadErrorKind::Unreadable
        };
        Self::new(kind, diagnostics)
    }

    /// The same failure, of `kind`.
    pub fn with_kind(self, kind: ArtifactReadErrorKind) -> (r: Self)
        ensures
            r.spec_kind() == kind,
            r.spec_schema_version() == self.spec_schema_version(),
            r.spec_diagnostics() == self.spec_diagnostics(),
    {
        ArtifactReadError { kind, ..self }
    }

    /// The same failure, recording the schema version found.
    pub fn with_schema_version(self, schema_version: Option<String>) -> (r: Self)
        ensures
            r.spec_kind() == self.spec_kind(),
            r.spec_schema_version() == opt_view(schema_version),
            r.spec_diagnostics() == self.spec_diagnostics(),
    {
        ArtifactReadError { schema_version, ..self }
    }

    pub fn kind(&self) -> (r: ArtifactReadErrorKind)
        ensures
            r == self.spec_kind(),
    {
        self.kind
    }

    pub fn schema_version(&self) -> (r: Option<&str>)
        ensures
            match r {
                Some(s) => self.spec_schema_version() == Some(s@),
                None => self.spec_schema_version() is None,
            },
    {
        match &self.schema_version {
            Some(s) => Some(s.as_str()),
            None => None,
        }
    }

    pub fn into_diagnostics(self) -> (r: Vec<Diagnostic>)
        ensures
            r@ == self.spec_diagnostics(),
    {
        self.diagnostics
    }
}

} // verus!
