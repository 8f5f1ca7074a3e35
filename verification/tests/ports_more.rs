use adoc_core::diagnostic::{Diagnostic, DiagnosticCode, Severity};
use adoc_core::ports::artifact_reader::{ArtifactReadError, ArtifactReadErrorKind};
use adoc_core::ports::embedding_provider::ModelId;
use adoc_core::ports::source_provider::{SourceLoadError, SourceLoadErrorKind};
use adoc_core::ports::workspace_writer::WorkspaceWriteError;

fn diagnostic(code: DiagnosticCode) -> Diagnostic {
    Diagnostic { severity: Severity::Error, code, message: "m".to_string(), object_id: None, help: None }
}

#[test]
fn artifact_read_error_kind_follows_the_most_specific_diagnostic() {
    let error = ArtifactReadError::from_diagnostics(vec![
        diagnostic(DiagnosticCode::IoArtifactMalformed),
        diagnostic(DiagnosticCode::SchemaUnsupportedVersion),
    ]);
    assert_eq!(error.kind(), ArtifactReadErrorKind::UnsupportedVersion);
    let error = ArtifactReadError::from_diagnostics(vec![
        diagnostic(DiagnosticCode::SchemaUnsupportedVersion),
        diagnostic(DiagnosticCode::IoArtifactMissing),
    ]);
    assert_eq!(error.kind(), ArtifactReadErrorKind::Missing);
    let error = ArtifactReadError::from_diagnostics(vec![diagnostic(DiagnosticCode::IoArtifactMalformed)]);
    assert_eq!(error.kind(), ArtifactReadErrorKind::Malformed);
    let error = ArtifactReadError::from_diagnostics(Vec::new())
        .with_schema_version(Some("adoc.graph.v9".to_string()));
    assert_eq!(error.kind(), ArtifactReadErrorKind::Unreadable);
    assert_eq!(error.schema_version(), Some("adoc.graph.v9"));
    let error = error.with_kind(ArtifactReadErrorKind::Missing);
    assert_eq!(error.kind(), ArtifactReadErrorKind::Missing);
    assert!(error.into_diagnostics().is_empty());
}

#[test]
fn port_errors_carry_their_kind_and_message() {
    let error = SourceLoadError::unsupported_source_extension("notes.txt".to_string());
    assert_eq!(error.kind, SourceLoadErrorKind::UnsupportedSourceExtension);
    assert_eq!(error.message, "unsupported source extension; expected a .adoc or .md file");
    assert_eq!(
        SourceLoadError::unreadable_directory("docs".to_string(), "denied".to_string()).kind,
        SourceLoadErrorKind::UnreadableDirectory
    );
    let write = WorkspaceWriteError::ConcurrentModification { path: "docs/a.adoc".to_string() };
    assert_eq!(write.to_display_string(), "file docs/a.adoc changed during apply; nothing was written");
    let model = ModelId::new("minilm".to_string(), "local".to_string());
    assert_eq!(model.provider, "local");
}
