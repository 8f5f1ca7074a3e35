use adoc_core::review::field_change::{FieldChange, RelationKind};

#[test]
fn summary_label_covers_every_v3_variant() {
    let cases = [
        (FieldChange::Body { before: String::new(), after: String::new() }, "body changed"),
        (FieldChange::Status { before: None, after: None }, "status changed"),
        (FieldChange::Owner { before: None, after: None }, "owner changed"),
        (FieldChange::VerifiedAt { before: None, after: None }, "verified_at changed"),
        (FieldChange::EvidenceAdded { field: String::new(), value: String::new() }, "evidence added"),
        (FieldChange::EvidenceRemoved { field: String::new(), value: String::new() }, "evidence removed"),
        (FieldChange::RelationAdded { kind: RelationKind::DependsOn, target: String::new() }, "relation added"),
        (FieldChange::RelationRemoved { kind: RelationKind::DependsOn, target: String::new() }, "relation removed"),
        (FieldChange::ImpactsAdded { path: String::new() }, "impacts added"),
        (FieldChange::ImpactsRemoved { path: String::new() }, "impacts removed"),
    ];
    for (change, expected) in cases {
        assert_eq!(change.summary_label(), expected);
    }
}

#[test]
fn display_renders_each_variant_in_canonical_form() {
    assert_eq!(FieldChange::Body { before: "old".to_string(), after: "new".to_string() }.to_display_string(), "body: changed");
    assert_eq!(
        FieldChange::Status { before: Some("draft".to_string()), after: Some("verified".to_string()) }.to_display_string(),
        "status: draft → verified"
    );
    assert_eq!(
        FieldChange::Owner { before: Some("team-billing".to_string()), after: None }.to_display_string(),
        "owner: team-billing → (none)"
    );
    assert_eq!(
        FieldChange::VerifiedAt { before: None, after: Some("2026-05-26".to_string()) }.to_display_string(),
        "verified_at: (none) → 2026-05-26"
    );
    assert_eq!(
        FieldChange::EvidenceAdded { field: "source".to_string(), value: "ledger".to_string() }.to_display_string(),
        "evidence: +source"
    );
    assert_eq!(
        FieldChange::EvidenceRemoved { field: "test".to_string(), value: "integration".to_string() }.to_display_string(),
        "evidence: -test"
    );
    assert_eq!(
        FieldChange::RelationAdded { kind: RelationKind::DependsOn, target: "billing.payments".to_string() }.to_display_string(),
        "depends_on: +billing.payments"
    );
    assert_eq!(
        FieldChange::RelationRemoved { kind: RelationKind::Supersedes, target: "billing.legacy".to_string() }.to_display_string(),
        "supersedes: -billing.legacy"
    );
    assert_eq!(FieldChange::ImpactsAdded { path: "src/foo.rs".to_string() }.to_display_string(), "impacts: +src/foo.rs");
    assert_eq!(FieldChange::ImpactsRemoved { path: "src/bar.rs".to_string() }.to_display_string(), "impacts: -src/bar.rs");
}

#[test]
fn cloned_field_change_equals_original() {
    let original = FieldChange::Body { before: "a".to_string(), after: "b".to_string() };
    let cloned = original.clone();

    assert_eq!(original, cloned);
}

#[test]
fn relation_kind_as_str_names_each_kind() {
    for (kind, expected) in [
        (RelationKind::DependsOn, "depends_on"),
        (RelationKind::Supersedes, "supersedes"),
        (RelationKind::RelatedTo, "related_to"),
    ] {
        assert_eq!(kind.as_str(), expected);
    }
}
