//! How loading one source can fail.

use vstd::prelude::*;

use crate::text::owned;

verus! {

broadcast use vstd::string::group_string_axioms;

/// What kind of failure a source load met.
#[derive(Debug, Clone, Copy, PartialEq, Eq, Structural)]
pub enum SourceLoadErrorKind {
    Unreadable,
    UnreadableDirectory,
    UnsupportedSourceExtension,
    UnsafeSourcePath,
}

/// One source that could not be loaded: its path, why, and the kind.
pub struct SourceLoadError {
    pub path: String,
    pub message: String,
    pub kind: SourceLoadErrorKind,
}

impl SourceLoadError {
    /// A source that could not be read.
    pub fn unreadable(path: String, message: String) -> (r: Self)
        ensures
            r.path@ == path@,
            r.message@ == message@,
            r.kind == SourceLoadErrorKind::Unreadable,
    {
        SourceLoadError { path, message, kind: SourceLoadErrorKind::Unreadable }
    }

    /// A directory that could not be walked.
    pub fn unreadable_directory(path: String, message: String) -> (r: Self)
        ensures
            r.path@ == path@,
            r.message@ == message@,
            r.kind == SourceLoadErrorKind::UnreadableDirectory,
    {
        SourceLoadError { path, message, kind: SourceLoadErrorKind::UnreadableDirectory }
    }

    /// A file that is neither `.adoc` nor `.md`.
    pub fn unsupported_source_extension(path: String) -> (r: Self)
        ensures
            r.path@ == path@,
            r.message@ == "unsupported source extension; expected a .adoc or .md file"@,
            r.kind == SourceLoadErrorKind::UnsupportedSourceExtension,
    {
        SourceLoadError {
            path,
            message: owned("unsupported source extension; expected a .adoc or .md file"),
            kind: SourceLoadErrorKind::UnsupportedSourceExtension,
        }
    }

    /// A path that is not safe to read.
    pub fn unsafe_source_path(path: String, message: String) -> (r: Self)
        ensures
            r.path@ == path@,
            r.message@ == message@,
            r.kind == SourceLoadErrorKind::UnsafeSourcePath,
    {
        SourceLoadError { path, message, kind: SourceLoadErrorKind::UnsafeSourcePath }
    }
}

} // verus!
