use adoc_core::managed_field_declassification::{
    validate_managed_field_declassification, ManagedFieldDeclassificationDocument,
};
use adoc_core::managed_field_provenance::{
    validate_managed_field_provenance, ManagedFieldContributionInput, ManagedFieldProvenanceDocument,
    ManagedFieldProvenanceError, ManagedFieldProvenanceInput, MANAGED_FIELD_PROVENANCE_SCHEMA_VERSION,
};
use adoc_core::managed_field_declassification::{
    build_managed_field_declassification, ManagedFieldDeclassificationError, ManagedFieldDeclassificationFieldInput,
    ManagedFieldDeclassificationInput, MANAGED_FIELD_DECLASSIFICATION_SCHEMA_VERSION,
};

const ID: &str = "00000000-0000-4000-8000-000000000001";
const ID2: &str = "00000000-0000-4000-8000-000000000002";

fn digest() -> String {
    format!("sha256:{}", "a".repeat(64))
}

fn field(selector: &str, prior: &str, new: &str, ids: &[&str]) -> ManagedFieldDeclassificationFieldInput {
    ManagedFieldDeclassificationFieldInput {
        selector: selector.to_string(),
        prior_classification: prior.to_string(),
        new_classification: new.to_string(),
        assertion_ids: ids.iter().map(|s| s.to_string()).collect(),
    }
}

fn valid() -> ManagedFieldDeclassificationInput {
    ManagedFieldDeclassificationInput {
        request_id: ID.to_string(),
        workspace_id: ID.to_string(),
        canonical_id: ID.to_string(),
        version_id: ID.to_string(),
        content_digest: digest(),
        provenance_record_digest: digest(),
        state_event_ordinal: 0,
        state_event_digest: digest(),
        fields: vec![field("/body", "restricted", "public", &[ID])],
        principal_id: ID.to_string(),
        auth_session_id: ID.to_string(),
        authorization_decision_id: ID.to_string(),
        policy_version: "exact-policy-v1".to_string(),
        rationale: "Authorized derived field release.".to_string(),
        effective_date: "2028-02-29".to_string(),
        restricted_evidence_remains_hidden: true,
    }
}

#[test]
fn declassification_detail_is_normalized_and_strict() {
    let record = build_managed_field_declassification(valid()).expect("valid");
    assert_eq!(record.schema_version(), MANAGED_FIELD_DECLASSIFICATION_SCHEMA_VERSION);
    assert_eq!(record.input(), &valid());

    let mut value = valid();
    value.fields = vec![
        field("/fields/ significant ~0~1 ", "internal", "public", &[ID2, ID]),
        field("/body", "restricted", "internal", &[ID]),
    ];
    value.rationale = "é".repeat(4096);
    let record = build_managed_field_declassification(value).expect("valid");
    let fields = &record.input().fields;
    assert_eq!(fields[0].selector, "/body");
    assert_eq!(fields[0].new_classification, "internal");
    assert_eq!(fields[1].selector, "/fields/ significant ~0~1 ");
    assert_eq!(fields[1].assertion_ids, vec![ID.to_string(), ID2.to_string()]);
}

#[test]
fn declassification_rejects_bad_coordinates() {
    let cases: Vec<Box<dyn Fn(&mut ManagedFieldDeclassificationInput)>> = vec![
        Box::new(|v| v.state_event_ordinal = 9_007_199_254_740_992),
        Box::new(|v| v.state_event_digest = "sha256:x".to_string()),
        Box::new(|v| v.request_id = "not-a-uuid".to_string()),
        Box::new(|v| v.authorization_decision_id = ID.to_uppercase().replace('0', "F")),
        Box::new(|v| v.content_digest = "sha256:short".to_string()),
        Box::new(|v| v.workspace_id = "not-a-uuid".to_string()),
        Box::new(|v| v.canonical_id = ID.replace('0', "A")),
        Box::new(|v| v.version_id = String::new()),
    ];
    for mutate in cases {
        let mut value = valid();
        mutate(&mut value);
        assert_eq!(build_managed_field_declassification(value), Err(ManagedFieldDeclassificationError::InvalidCoordinates));
    }
    let mut value = valid();
    value.state_event_ordinal = 9_007_199_254_740_991;
    assert!(build_managed_field_declassification(value).is_ok());
}

#[test]
fn declassification_rejects_unlowered_or_invalid_fields() {
    let cases: Vec<Vec<ManagedFieldDeclassificationFieldInput>> = vec![
        vec![field("/fields/x/y", "restricted", "public", &[ID])],
        vec![field("/body", "public", "public", &[ID])],
        vec![field("/body", "internal", "restricted", &[ID])],
        vec![field("/body", "restricted", "Public", &[ID])],
        vec![field("/body", "restricted", "public", &[])],
        vec![field("/body", "restricted", "public", &[ID, ID])],
        vec![field("/body", "restricted", "public", &[ID]), field("/body", "restricted", "public", &[ID])],
        vec![],
    ];
    for fields in cases {
        let mut value = valid();
        value.fields = fields;
        assert_eq!(build_managed_field_declassification(value), Err(ManagedFieldDeclassificationError::InvalidFields));
    }
}

#[test]
fn declassification_rejects_invalid_approval() {
    let cases: Vec<Box<dyn Fn(&mut ManagedFieldDeclassificationInput)>> = vec![
        Box::new(|v| v.rationale = " ".to_string()),
        Box::new(|v| v.rationale = "é".repeat(4097)),
        Box::new(|v| v.effective_date = "2026-02-29".to_string()),
        Box::new(|v| v.effective_date = "0000-01-01".to_string()),
        Box::new(|v| v.effective_date = "2026-2-01".to_string()),
        Box::new(|v| v.effective_date = "2026-02-1".to_string()),
        Box::new(|v| v.policy_version = " p ".to_string()),
        Box::new(|v| v.policy_version = String::new()),
        Box::new(|v| v.restricted_evidence_remains_hidden = false),
    ];
    for mutate in cases {
        let mut value = valid();
        mutate(&mut value);
        assert_eq!(build_managed_field_declassification(value), Err(ManagedFieldDeclassificationError::InvalidApproval));
    }
    for date in ["2026-09-08", "2024-02-29", "1999-12-31"] {
        let mut value = valid();
        value.effective_date = date.to_string();
        assert!(build_managed_field_declassification(value).is_ok(), "{date}");
    }
}

#[test]
fn errors_explain_themselves() {
    assert_eq!(
        ManagedFieldDeclassificationError::InvalidApproval.message(),
        "Managed field declassification has invalid policy, rationale, date, or evidence posture."
    );
}

#[test]
fn declassification_documents_are_checked_before_their_contents() {
    assert_eq!(
        validate_managed_field_declassification(None).err(),
        Some(ManagedFieldDeclassificationError::InvalidDocument)
    );
    let document = ManagedFieldDeclassificationDocument { schema_version: "adoc.other.v9".to_string(), input: valid() };
    assert_eq!(
        validate_managed_field_declassification(Some(document)).err(),
        Some(ManagedFieldDeclassificationError::UnsupportedVersion)
    );
    let document = ManagedFieldDeclassificationDocument {
        schema_version: MANAGED_FIELD_DECLASSIFICATION_SCHEMA_VERSION.to_string(),
        input: valid(),
    };
    let record = validate_managed_field_declassification(Some(document)).expect("valid document");
    assert_eq!(record.input(), &valid());
}

#[test]
fn provenance_documents_are_checked_before_their_contents() {
    let input = || ManagedFieldProvenanceInput {
        workspace_id: ID.to_string(),
        canonical_id: ID.to_string(),
        version_id: ID.to_string(),
        content_digest: digest(),
        fields: vec![ManagedFieldContributionInput {
            selector: "/body".to_string(),
            assertion_ids: vec![ID2.to_string(), ID.to_string()],
        }],
    };
    assert_eq!(validate_managed_field_provenance(None).err(), Some(ManagedFieldProvenanceError::InvalidDocument));
    let document = ManagedFieldProvenanceDocument { schema_version: "adoc.other.v9".to_string(), input: input() };
    assert_eq!(
        validate_managed_field_provenance(Some(document)).err(),
        Some(ManagedFieldProvenanceError::UnsupportedVersion)
    );
    let document =
        ManagedFieldProvenanceDocument { schema_version: MANAGED_FIELD_PROVENANCE_SCHEMA_VERSION.to_string(), input: input() };
    let record = validate_managed_field_provenance(Some(document)).ok().expect("valid document");
    assert_eq!(record.fields()[0].assertion_ids(), &[ID.to_string(), ID2.to_string()]);
}
