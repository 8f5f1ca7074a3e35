use adoc_core::ports::changed_files::ChangedFilesError;
use adoc_core::ports::snapshot_workspace::{GitRef, IoFailure, SnapshotError, SnapshotSelector};

#[test]
fn snapshot_error_io_variant_exposes_source() {
    let io_error = IoFailure::new("disk full");
    let error = SnapshotError::Io(io_error);

    assert!(error.source().is_some());
    assert!(error.to_display_string().contains("disk full"));
}

#[test]
fn snapshot_error_unresolvable_ref_renders_spec_and_reason() {
    let error = SnapshotError::UnresolvableRef { spec: "nonexistent".to_string(), reason: "fatal: bad revision".to_string() };

    let message = error.to_display_string();
    assert!(message.contains("nonexistent"));
    assert!(message.contains("bad revision"));
    assert!(error.source().is_none());
}

#[test]
fn snapshot_error_provider_unavailable_carries_reason() {
    let error = SnapshotError::ProviderUnavailable { reason: "git binary not found on PATH".to_string() };

    assert!(error.to_display_string().contains("git binary"));
    assert!(error.source().is_none());
}

#[test]
fn git_ref_round_trips_string() {
    let r = GitRef::new("main");
    assert_eq!(r.as_str(), "main");
    assert_eq!(r.to_display_string(), "main");
}

#[test]
fn snapshot_error_worktree_unavailable_renders_path_and_keeps_source() {
    let error = SnapshotError::WorktreeUnavailable {
        tmp: "/tmp/wt".to_string(),
        reason: "could not remove".to_string(),
        source: Some(IoFailure::new("permission denied")),
    };
    assert_eq!(error.to_display_string(), "snapshot workspace unavailable at /tmp/wt: could not remove");
    assert_eq!(error.source().map(|e| e.message()), Some("permission denied"));
}

#[test]
fn snapshot_selector_renders_workdir_and_git_ref() {
    assert_eq!(SnapshotSelector::Workdir.to_display_string(), "workdir");
    assert_eq!(SnapshotSelector::GitRef(GitRef::new("v1.2")).to_display_string(), "git ref `v1.2`");
}

#[test]
fn provider_unavailable_variant_renders_reason() {
    let error = ChangedFilesError::ProviderUnavailable { reason: "git binary not found on PATH".to_string() };
    assert!(error.to_display_string().contains("git binary"));
    assert!(error.source().is_none());
}

#[test]
fn unresolvable_base_variant_renders_spec_and_reason() {
    let error =
        ChangedFilesError::UnresolvableBase { spec: "missing-branch".to_string(), reason: "fatal: unknown revision".to_string() };
    let message = error.to_display_string();
    assert!(message.contains("missing-branch"));
    assert!(message.contains("unknown revision"));
    assert!(error.source().is_none());
    assert_eq!(message, "could not resolve base ref `missing-branch`: fatal: unknown revision");
}

#[test]
fn io_variant_exposes_source() {
    let error = ChangedFilesError::Io(IoFailure::new("disk full"));
    assert!(error.source().is_some());
    assert!(error.to_display_string().contains("disk full"));
}
