use adoc_core::diagnostic::DiagnosticCode;
use adoc_core::migration::{
    InspectionRuntimePin, MigrationError, MigrationImportJob, MigrationImportJobDocument, MigrationImportSource,
    MigrationRequest, MigrationRequestDocument, MigrationRequestShape, MigrationRevision, RepositoryInspectionDocument,
    RepositoryInspectionRequest, RepositoryInspectionShape, SourceAclResource, SourceAclScope, StartingPoint,
    MIGRATION_IMPORT_JOB_MAX_BYTES, MIGRATION_IMPORT_JOB_SCHEMA_VERSION, MIGRATION_REQUEST_SCHEMA_VERSION,
    MIGRATION_REQUEST_V1_SCHEMA_VERSION, REPOSITORY_INSPECTION_REQUEST_SCHEMA_VERSION,
};

fn shape(schema: &str, revision: &str) -> MigrationRequestShape {
    MigrationRequestShape {
        schema_version: Some(schema.to_string()),
        has_v1_field: false,
        revision_system: Some("git".to_string()),
        revision_value: Some(revision.to_string()),
    }
}

fn document(schema: &str, revision: &str) -> MigrationRequestDocument {
    MigrationRequestDocument {
        schema_version: schema.to_string(),
        request_id: "r".to_string(),
        workspace_id: "w".to_string(),
        source_id: "s".to_string(),
        repository_identity: "repo".to_string(),
        revision: MigrationRevision { system: "git".to_string(), value: revision.to_string() },
        evaluation_date: "2026-09-08".to_string(),
        inspection_id: None,
        inspection_digest: None,
        starting_point: None,
    }
}

fn request() -> MigrationRequest {
    let rev = "a".repeat(40);
    MigrationRequest::validate(100, Some(shape(MIGRATION_REQUEST_SCHEMA_VERSION, &rev)), Some(document(MIGRATION_REQUEST_SCHEMA_VERSION, &rev)))
        .expect("valid request")
}

#[test]
fn migration_request_requires_exact_revision_and_closed_contract() {
    let rev = "a".repeat(40);
    let valid = || (shape(MIGRATION_REQUEST_SCHEMA_VERSION, &rev), document(MIGRATION_REQUEST_SCHEMA_VERSION, &rev));
    let (s, d) = valid();
    let req = MigrationRequest::validate(100, Some(s), Some(d)).expect("valid");
    assert!(!req.is_v1());
    assert_eq!(req.starting_point(), StartingPoint::RecordedHistory);
    assert_eq!(req.versioned("v0", "v1"), "v0");
    assert_eq!((req.date().year, req.date().month, req.date().day), (2026, 9, 8));
    for revision in ["", "HEAD", "abcdef1", &"0".repeat(40), &"A".repeat(40)] {
        let (mut s, d) = valid();
        s.revision_value = Some(revision.to_string());
        assert_eq!(MigrationRequest::validate(100, Some(s), Some(d)).err(), Some(MigrationError::ExactRevisionRequired));
    }
    let (mut s, d) = valid();
    s.revision_system = Some("hg".to_string());
    assert_eq!(MigrationRequest::validate(100, Some(s), Some(d)).err(), Some(MigrationError::ExactRevisionRequired));
    let (s, mut d) = valid();
    d.evaluation_date = "2026-02-29".to_string();
    assert_eq!(MigrationRequest::validate(100, Some(s), Some(d)).err(), Some(MigrationError::InvalidRequest));
    let (s, mut d) = valid();
    d.workspace_id = " ".to_string();
    assert_eq!(MigrationRequest::validate(100, Some(s), Some(d)).err(), Some(MigrationError::InvalidRequest));
    let (s, _) = valid();
    assert_eq!(MigrationRequest::validate(100, Some(s), None).err(), Some(MigrationError::InvalidRequest), "unknown field");
    let (s, d) = valid();
    assert_eq!(MigrationRequest::validate(16385, Some(s), Some(d)).err(), Some(MigrationError::InvalidRequest));
    let (_, d) = valid();
    assert_eq!(MigrationRequest::validate(100, None, Some(d)).err(), Some(MigrationError::InvalidRequest));
}

#[test]
fn v1_requests_need_their_inspection_binding() {
    let rev = "b".repeat(40);
    let mut s = shape(MIGRATION_REQUEST_V1_SCHEMA_VERSION, &rev);
    s.has_v1_field = true;
    let mut d = document(MIGRATION_REQUEST_V1_SCHEMA_VERSION, &rev);
    assert_eq!(MigrationRequest::validate(100, Some(s.clone()), Some(d.clone())).err(), Some(MigrationError::InvalidRequest));
    d.starting_point = Some(StartingPoint::Fresh);
    d.inspection_id = Some("inspection-1".to_string());
    d.inspection_digest = Some(format!("sha256:{}", "c".repeat(64)));
    let req = MigrationRequest::validate(100, Some(s), Some(d)).expect("valid v1");
    assert!(req.is_v1());
    assert_eq!(req.starting_point(), StartingPoint::Fresh);
    assert_eq!(req.versioned("v0", "v1"), "v1");
    let mut v0 = shape(MIGRATION_REQUEST_SCHEMA_VERSION, &rev);
    v0.has_v1_field = true;
    assert_eq!(
        MigrationRequest::validate(100, Some(v0), Some(document(MIGRATION_REQUEST_SCHEMA_VERSION, &rev))).err(),
        Some(MigrationError::InvalidRequest),
        "a v0 request never carries v1 fields"
    );
}

fn inspection() -> (RepositoryInspectionShape, RepositoryInspectionDocument) {
    let digest = format!("sha256:{}", "a".repeat(64));
    (
        RepositoryInspectionShape {
            schema_version: Some(REPOSITORY_INSPECTION_REQUEST_SCHEMA_VERSION.to_string()),
            git_revision: Some("a".repeat(40)),
            runtime_is_object: true,
        },
        RepositoryInspectionDocument {
            schema_version: REPOSITORY_INSPECTION_REQUEST_SCHEMA_VERSION.to_string(),
            workspace_id: "w".to_string(),
            provider_repository_id: "42".to_string(),
            git_ref: "main".to_string(),
            git_revision: "a".repeat(40),
            evaluation_date: "2026-09-23".to_string(),
            runtime: InspectionRuntimePin { version: "0.4.0".to_string(), binary_digest: digest },
        },
    )
}

#[test]
fn migration_repository_inspection_request_is_closed_and_runtime_pinned() {
    let digest = format!("sha256:{}", "a".repeat(64));
    let (s, d) = inspection();
    let request = RepositoryInspectionRequest::validate(100, Some(s), Some(d)).expect("valid");
    assert!(request.require_runtime("0.4.0", &digest).is_ok());
    assert!(request.require_runtime("0.4.1", &digest).is_err());
    assert!(request.require_runtime("0.4.0", "sha256:short").is_err());
    assert_eq!(request.revision(), "a".repeat(40));
    assert_eq!(request.date().month, 9);
    for revision in ["HEAD", &"0".repeat(40), &"A".repeat(40)] {
        let (mut s, d) = inspection();
        s.git_revision = Some(revision.to_string());
        assert_eq!(RepositoryInspectionRequest::validate(100, Some(s), Some(d)).err(), Some(MigrationError::ExactRevisionRequired));
    }
    let mutations: Vec<Box<dyn Fn(&mut RepositoryInspectionDocument)>> = vec![
        Box::new(|d| d.evaluation_date = "2026-02-29".to_string()),
        Box::new(|d| d.git_ref = String::new()),
        Box::new(|d| d.runtime.version = " x".to_string()),
        Box::new(|d| d.runtime.binary_digest = "sha256:short".to_string()),
        Box::new(|d| d.runtime.binary_digest = format!("sha256:{}", "A".repeat(64))),
    ];
    for mutate in mutations {
        let (s, mut d) = inspection();
        mutate(&mut d);
        assert!(RepositoryInspectionRequest::validate(100, Some(s), Some(d)).is_err());
    }
    let (mut s, d) = inspection();
    s.schema_version = Some(MIGRATION_REQUEST_SCHEMA_VERSION.to_string());
    assert!(RepositoryInspectionRequest::validate(100, Some(s), Some(d)).is_err());
    let (mut s, d) = inspection();
    s.runtime_is_object = false;
    assert_eq!(RepositoryInspectionRequest::validate(100, Some(s), Some(d)).err(), Some(MigrationError::InvalidRequest));
}

fn job() -> MigrationImportJobDocument {
    MigrationImportJobDocument {
        schema_version: MIGRATION_IMPORT_JOB_SCHEMA_VERSION.to_string(),
        connector_id: "connector".to_string(),
        observed_at: "2026-09-08T12:00:00Z".to_string(),
        source_acl_scope: SourceAclScope {
            snapshot_id: "acl".to_string(),
            source_container_id: "s".to_string(),
            source: SourceAclResource { kind: "repository".to_string(), id: "repo".to_string() },
        },
        sources: vec![MigrationImportSource {
            path: "docs/file.adoc".to_string(),
            source_record_id: "r".to_string(),
            source_binding_id: "b".to_string(),
        }],
    }
}

#[test]
fn migration_import_job_is_closed_bounded_and_source_bound() {
    let request = request();
    assert!(MigrationImportJob::validate(100, Some(true), Some(job()), &request).is_ok());
    let mutations: Vec<Box<dyn Fn(&mut MigrationImportJobDocument)>> = vec![
        Box::new(|j| j.schema_version = "unknown".to_string()),
        Box::new(|j| j.connector_id = " ".to_string()),
        Box::new(|j| j.observed_at = "2026-09-08T12:00:00.1Z".to_string()),
        Box::new(|j| j.observed_at = "2026-09-08T12:00:00+00:00".to_string()),
        Box::new(|j| j.source_acl_scope.source_container_id = "other".to_string()),
        Box::new(|j| j.source_acl_scope.source.id = "other".to_string()),
        Box::new(|j| j.source_acl_scope.source.kind = "project".to_string()),
        Box::new(|j| j.sources.clear()),
        Box::new(|j| j.sources[0].path = "../escape.adoc".to_string()),
        Box::new(|j| j.sources[0].path = "/absolute.adoc".to_string()),
        Box::new(|j| j.sources[0].path = "C:\\escape.adoc".to_string()),
        Box::new(|j| j.sources[0].source_record_id = "x".repeat(1025)),
        Box::new(|j| {
            let first = j.sources[0].clone();
            j.sources.push(first)
        }),
    ];
    for mutate in mutations {
        let mut invalid = job();
        mutate(&mut invalid);
        assert_eq!(MigrationImportJob::validate(100, Some(true), Some(invalid), &request).err(), Some(MigrationError::InvalidJob));
    }
    assert!(MigrationImportJob::validate(100, Some(false), Some(job()), &request).is_err(), "positional arrays");
    assert!(MigrationImportJob::validate(100, Some(true), None, &request).is_err(), "foreign fields");
    assert!(MigrationImportJob::validate(MIGRATION_IMPORT_JOB_MAX_BYTES + 1, Some(true), Some(job()), &request).is_err());
    let mut two = job();
    two.sources.push(MigrationImportSource {
        path: "docs/other.adoc".to_string(),
        source_record_id: "r2".to_string(),
        source_binding_id: "b2".to_string(),
    });
    assert_eq!(MigrationImportJob::validate(100, Some(true), Some(two), &request).expect("distinct").sources().len(), 2);
}

#[test]
fn migration_errors_map_to_their_codes() {
    assert_eq!(MigrationError::UnsupportedQualificationPolicy.diagnostic_code(), DiagnosticCode::SchemaUnsupportedVersion);
    assert_eq!(MigrationError::InvalidJob.diagnostic_code(), DiagnosticCode::MigrationInvalidJob);
    assert_eq!(MigrationError::ExactRevisionRequired.diagnostic_code(), DiagnosticCode::MigrationExactRevisionRequired);
    assert_eq!(MigrationError::InvalidRequest.message(), "migration request is invalid");
}
