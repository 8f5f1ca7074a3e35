//! Registered wire codes for the rejections the library reports, and the
//! diagnostic record that carries one.

use vstd::prelude::*;

verus! {

/// A registered diagnostic code.
#[derive(Debug, Clone, Copy, PartialEq, Eq, Structural)]
pub enum DiagnosticCode {
    GovernanceRecordConflict,
    StoreRetentionFloorViolation,
    AuditPersistenceFailed,
    IdDuplicateInArtifact,
    SearchInvalidFilter,
    RetrievalAudienceUnresolved,
    RetrievalPolicyInvalid,
    RetrievalVisibilityUnavailable,
    SchemaUnsupportedVersion,
    MigrationInvalidJob,
    MigrationValidationFailed,
    MigrationOutputLimit,
    MigrationInvalidRequest,
    MigrationExactRevisionRequired,
    MigrationSnapshotUnavailable,
    MigrationUnsafeSource,
    MigrationValidationUnavailable,
    PatchInvalidDocument,
    PatchValidationFailed,
    PatchBaseHashMismatch,
    PatchTargetAlreadyExists,
    PatchPlacementInvalid,
    IdInvalid,
    GraphObjectNotFound,
    ProposalRecordInvalidDocument,
    ProposalRecordBindingInvalid,
    ProposalRecordPatchInvalid,
    ProposalRecordAuthorityRejected,
    ProposalRecordRevisionUnchanged,
    IoArtifactMissing,
    IoArtifactMalformed,
}

impl DiagnosticCode {
    pub open spec fn wire(self) -> Seq<char> {
        match self {
            DiagnosticCode::GovernanceRecordConflict => "governance.record_conflict"@,
            DiagnosticCode::StoreRetentionFloorViolation => "store.retention_floor_violation"@,
            DiagnosticCode::AuditPersistenceFailed => "audit.persistence_failed"@,
            DiagnosticCode::IdDuplicateInArtifact => "id.duplicate_in_artifact"@,
            DiagnosticCode::SearchInvalidFilter => "search.invalid_filter"@,
            DiagnosticCode::RetrievalAudienceUnresolved => "retrieval.audience_unresolved"@,
            DiagnosticCode::RetrievalPolicyInvalid => "retrieval.policy_invalid"@,
            DiagnosticCode::RetrievalVisibilityUnavailable => "retrieval.visibility_unavailable"@,
            DiagnosticCode::SchemaUnsupportedVersion => "schema.unsupported_version"@,
            DiagnosticCode::MigrationInvalidJob => "migration.invalid_job"@,
            DiagnosticCode::MigrationValidationFailed => "migration.validation_failed"@,
            DiagnosticCode::MigrationOutputLimit => "migration.output_limit"@,
            DiagnosticCode::MigrationInvalidRequest => "migration.invalid_request"@,
            DiagnosticCode::MigrationExactRevisionRequired => "migration.exact_revision_required"@,
            DiagnosticCode::MigrationSnapshotUnavailable => "migration.snapshot_unavailable"@,
            DiagnosticCode::MigrationUnsafeSource => "migration.unsafe_source"@,
            DiagnosticCode::MigrationValidationUnavailable => "migration.validation_unavailable"@,
            DiagnosticCode::PatchInvalidDocument => "patch.invalid_document"@,
            DiagnosticCode::PatchValidationFailed => "patch.validation_failed"@,
            DiagnosticCode::PatchBaseHashMismatch => "patch.base_hash_mismatch"@,
            DiagnosticCode::PatchTargetAlreadyExists => "patch.target_already_exists"@,
            DiagnosticCode::PatchPlacementInvalid => "patch.placement_invalid"@,
            DiagnosticCode::IdInvalid => "id.invalid"@,
            DiagnosticCode::GraphObjectNotFound => "graph.object_not_found"@,
            DiagnosticCode::ProposalRecordInvalidDocument => "proposal_record.invalid_document"@,
            DiagnosticCode::ProposalRecordBindingInvalid => "proposal_record.binding_invalid"@,
            DiagnosticCode::ProposalRecordPatchInvalid => "proposal_record.patch_invalid"@,
            DiagnosticCode::ProposalRecordAuthorityRejected => "proposal_record.authority_rejected"@,
            DiagnosticCode::ProposalRecordRevisionUnchanged => "proposal_record.revision_unchanged"@,
            DiagnosticCode::IoArtifactMissing => "io.artifact_missing"@,
            DiagnosticCode::IoArtifactMalformed => "io.artifact_malformed"@,
        }
    }

    /// The code's wire spelling.
    pub fn as_str(self) -> (r: &'static str)
        ensures
            r@ == self.wire(),
    {
        match self {
            DiagnosticCode::GovernanceRecordConflict => "governance.record_conflict",
            DiagnosticCode::StoreRetentionFloorViolation => "store.retention_floor_violation",
            DiagnosticCode::AuditPersistenceFailed => "audit.persistence_failed",
            DiagnosticCode::IdDuplicateInArtifact => "id.duplicate_in_artifact",
            DiagnosticCode::SearchInvalidFilter => "search.invalid_filter",
            DiagnosticCode::RetrievalAudienceUnresolved => "retrieval.audience_unresolved",
            DiagnosticCode::RetrievalPolicyInvalid => "retrieval.policy_invalid",
            DiagnosticCode::RetrievalVisibilityUnavailable => "retrieval.visibility_unavailable",
            DiagnosticCode::SchemaUnsupportedVersion => "schema.unsupported_version",
            DiagnosticCode::MigrationInvalidJob => "migration.invalid_job",
            DiagnosticCode::MigrationValidationFailed => "migration.validation_failed",
            DiagnosticCode::MigrationOutputLimit => "migration.output_limit",
            DiagnosticCode::MigrationInvalidRequest => "migration.invalid_request",
            DiagnosticCode::MigrationExactRevisionRequired => "migration.exact_revision_required",
            DiagnosticCode::MigrationSnapshotUnavailable => "migration.snapshot_unavailable",
            DiagnosticCode::MigrationUnsafeSource => "migration.unsafe_source",
            DiagnosticCode::MigrationValidationUnavailable => "migration.validation_unavailable",
            DiagnosticCode::PatchInvalidDocument => "patch.invalid_document",
            DiagnosticCode::PatchValidationFailed => "patch.validation_failed",
            DiagnosticCode::PatchBaseHashMismatch => "patch.base_hash_mismatch",
            DiagnosticCode::PatchTargetAlreadyExists => "patch.target_already_exists",
            DiagnosticCode::PatchPlacementInvalid => "patch.placement_invalid",
            DiagnosticCode::IdInvalid => "id.invalid",
            DiagnosticCode::GraphObjectNotFound => "graph.object_not_found",
            DiagnosticCode::ProposalRecordInvalidDocument => "proposal_record.invalid_document",
            DiagnosticCode::ProposalRecordBindingInvalid => "proposal_record.binding_invalid",
            DiagnosticCode::ProposalRecordPatchInvalid => "proposal_record.patch_invalid",
            DiagnosticCode::ProposalRecordAuthorityRejected => "proposal_record.authority_rejected",
            DiagnosticCode::ProposalRecordRevisionUnchanged => "proposal_record.revision_unchanged",
            DiagnosticCode::IoArtifactMissing => "io.artifact_missing",
            DiagnosticCode::IoArtifactMalformed => "io.artifact_malformed",
        }
    }
}

impl DiagnosticCode {
    /// The standing hint for fixing what the code reports.
    pub open spec fn help_text(self) -> Seq<char> {
        match self {
            DiagnosticCode::PatchBaseHashMismatch =>
                "Regenerate the patch from the current graph artifact so its base_hash matches the object's content_hash."@,
            DiagnosticCode::PatchValidationFailed => "Correct the patch changes so they satisfy the object's schema."@,
            DiagnosticCode::PatchTargetAlreadyExists =>
                "Choose an Object ID that is not yet in the graph, or edit the existing object instead."@,
            _ => "See the documentation of this diagnostic code."@,
        }
    }

    /// The standing hint for fixing what the code reports.
    pub fn default_help(self) -> (r: &'static str)
        ensures
            r@ == self.help_text(),
    {
        match self {
            DiagnosticCode::PatchBaseHashMismatch =>
                "Regenerate the patch from the current graph artifact so its base_hash matches the object's content_hash.",
            DiagnosticCode::PatchValidationFailed => "Correct the patch changes so they satisfy the object's schema.",
            DiagnosticCode::PatchTargetAlreadyExists =>
                "Choose an Object ID that is not yet in the graph, or edit the existing object instead.",
            _ => "See the documentation of this diagnostic code.",
        }
    }
}

/// How serious a diagnostic is: an error invalidates what it reports on.
#[derive(Debug, Clone, Copy, PartialEq, Eq, Structural)]
pub enum Severity {
    Error,
    Warning,
}

/// One reported finding: its severity, registered code, a message, and
/// optionally the Object ID it concerns and a hint for fixing it.
#[derive(Debug, Clone, PartialEq, Eq)]
pub struct Diagnostic {
    pub severity: Severity,
    pub code: DiagnosticCode,
    pub message: String,
    pub object_id: Option<String>,
    pub help: Option<String>,
}

impl Diagnostic {
    /// An error diagnostic with `code` and `message`.
    pub fn error(code: DiagnosticCode, message: String) -> (r: Self)
        ensures
            r.severity == Severity::Error,
            r.code == code,
            r.message@ == message@,
            r.object_id is None,
            r.help is None,
    {
        Diagnostic { severity: Severity::Error, code, message, object_id: None, help: None }
    }

    /// A copy with the same parts.
    pub fn duplicate(&self) -> (r: Self)
        ensures
            r.severity == self.severity,
            r.code == self.code,
            r.message@ == self.message@,
            crate::graph::opt_view(r.object_id) == crate::graph::opt_view(self.object_id),
            crate::graph::opt_view(r.help) == crate::graph::opt_view(self.help),
    {
        Diagnostic {
            severity: self.severity,
            code: self.code,
            message: self.message.clone(),
            object_id: crate::graph::clone_opt_string(&self.object_id),
            help: crate::graph::clone_opt_string(&self.help),
        }
    }

    /// The same diagnostic, about `object_id`.
    pub fn with_object_id(self, object_id: String) -> (r: Self)
        ensures
            r.severity == self.severity,
            r.code == self.code,
            r.message@ == self.message@,
            r.object_id matches Some(o) && o@ == object_id@,
            crate::graph::opt_view(r.help) == crate::graph::opt_view(self.help),
    {
        Diagnostic { object_id: Some(object_id), ..self }
    }

    /// The same diagnostic, with a fixing hint.
    pub fn with_help(self, help: String) -> (r: Self)
        ensures
            r.severity == self.severity,
            r.code == self.code,
            r.message@ == self.message@,
            crate::graph::opt_view(r.object_id) == crate::graph::opt_view(self.object_id),
            r.help matches Some(h) && h@ == help@,
    {
        Diagnostic { help: Some(help), ..self }
    }
}

} // verus!
