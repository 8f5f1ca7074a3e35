use adoc_core::graph::{FieldMap, GraphEvidence, GraphKnowledgeObjectNode, GraphRelations, GraphSourceSpan};
use adoc_core::review::field_change::{FieldChange, RelationKind};
use adoc_core::review::object_change::ChangedObject;
use adoc_core::review::object_diff::ObjectDiff;
use adoc_core::review::projection::project_changed;

fn fields(pairs: &[(&str, &str)]) -> FieldMap {
    FieldMap::from_pairs(pairs.iter().map(|(k, v)| (k.to_string(), v.to_string())).collect())
}

fn node(
    id: &str,
    content_hash: &str,
    body: &str,
    status: Option<&str>,
    fields: FieldMap,
    relations: GraphRelations,
) -> GraphKnowledgeObjectNode {
    GraphKnowledgeObjectNode {
        id: id.to_string(),
        kind: "claim".to_string(),
        content_hash: content_hash.to_string(),
        status: status.map(str::to_string),
        body: body.to_string(),
        page_id: "team.billing".to_string(),
        source_span: GraphSourceSpan { path: "docs/billing.adoc".to_string(), line: 1, column: 1 },
        source_binding: None,
        fields,
        relations,
        impacts: Vec::new(),
        approved_by: Vec::new(),
        allowed_actions: Vec::new(),
        forbidden_actions: Vec::new(),
        contradiction_claims: Vec::new(),
        evidence: Vec::new(),
        effective_status: None,
        effective_reason: None,
    }
}

fn baseline(body: &str) -> GraphKnowledgeObjectNode {
    node("billing.credits", "sha256:base", body, Some("draft"), FieldMap::new(), GraphRelations::default())
}

fn changed_from(base: GraphKnowledgeObjectNode, head: GraphKnowledgeObjectNode) -> ChangedObject {
    ChangedObject::new("billing.credits".to_string(), base, head)
}

fn kinded(kind: &str, id: &str, content_hash: &str, status: &str, body: &str) -> GraphKnowledgeObjectNode {
    let mut n = node(id, content_hash, body, Some(status), FieldMap::new(), GraphRelations::default());
    n.kind = kind.to_string();
    n.page_id = "team.auth".to_string();
    n.source_span = GraphSourceSpan { path: "docs/auth.adoc".to_string(), line: 1, column: 1 };
    n
}

#[test]
fn identical_records_produce_empty_projection() {
    let base = baseline("Credits apply.");
    let head = baseline("Credits apply.");
    let c = changed_from(base, head);

    assert!(project_changed(&c).is_empty());
}

#[test]
fn body_only_change_produces_exactly_one_body_field_change() {
    let base = baseline("Old.");
    let head = baseline("New.");
    let c = changed_from(base, head);

    assert_eq!(project_changed(&c), vec![FieldChange::Body { before: "Old.".to_string(), after: "New.".to_string() }]);
}

#[test]
fn status_change_emits_status_field_change_with_optional_sides() {
    let base = node("billing.credits", "sha256:a", "x", Some("draft"), FieldMap::new(), GraphRelations::default());
    let head = node("billing.credits", "sha256:b", "x", Some("verified"), FieldMap::new(), GraphRelations::default());

    assert_eq!(
        project_changed(&changed_from(base, head)),
        vec![FieldChange::Status { before: Some("draft".to_string()), after: Some("verified".to_string()) }]
    );
}

#[test]
fn constraint_severity_change_emits_severity_field_change_not_status() {
    let body = "Session tokens must not be stored in localStorage.";
    let base = kinded("constraint", "auth.session.no-local-storage", "sha256:a", "high", body);
    let head = kinded("constraint", "auth.session.no-local-storage", "sha256:b", "critical", body);

    assert_eq!(
        project_changed(&ChangedObject::new("auth.session.no-local-storage".to_string(), base, head)),
        vec![FieldChange::Severity { before: Some("high".to_string()), after: Some("critical".to_string()) }]
    );
}

#[test]
fn agent_instruction_trust_change_emits_only_trust_field_change_not_status() {
    let body = "Prefer verified claims over draft notes.";
    let mut base = kinded("agent_instruction", "auth.docs-answering-policy", "sha256:a", "team", body);
    base.allowed_actions = vec!["summarize".to_string()];
    base.forbidden_actions = vec!["execute_shell".to_string()];
    let mut head = kinded("agent_instruction", "auth.docs-answering-policy", "sha256:b", "authoritative", body);
    head.allowed_actions = vec!["summarize".to_string()];
    head.forbidden_actions = vec!["execute_shell".to_string()];

    assert_eq!(
        project_changed(&ChangedObject::new("auth.docs-answering-policy".to_string(), base, head)),
        vec![FieldChange::Trust { before: Some("team".to_string()), after: Some("authoritative".to_string()) }]
    );
}

#[test]
fn status_appearance_from_none_to_some_emits_status_field_change() {
    let base = node("billing.credits", "sha256:a", "x", None, FieldMap::new(), GraphRelations::default());
    let head = node("billing.credits", "sha256:b", "x", Some("draft"), FieldMap::new(), GraphRelations::default());

    assert_eq!(
        project_changed(&changed_from(base, head)),
        vec![FieldChange::Status { before: None, after: Some("draft".to_string()) }]
    );
}

#[test]
fn owner_appearance_emits_owner_field_change_with_none_before() {
    let base = baseline("x");
    let mut head = baseline("x");
    head.fields.insert("owner".to_string(), "team-billing".to_string());

    assert_eq!(
        project_changed(&changed_from(base, head)),
        vec![FieldChange::Owner { before: None, after: Some("team-billing".to_string()) }]
    );
}

#[test]
fn verified_at_removal_emits_verified_at_field_change_with_none_after() {
    let mut base = baseline("x");
    base.fields.insert("verified_at".to_string(), "2026-05-05".to_string());
    let head = baseline("x");

    assert_eq!(
        project_changed(&changed_from(base, head)),
        vec![FieldChange::VerifiedAt { before: Some("2026-05-05".to_string()), after: None }]
    );
}

#[test]
fn evidence_added_when_source_code_appears_in_head() {
    let base = baseline("x");
    let mut head = baseline("x");
    head.evidence.push(GraphEvidence::inline("source_code", "ledger"));

    assert_eq!(
        project_changed(&changed_from(base, head)),
        vec![FieldChange::EvidenceAdded { field: "source_code".to_string(), value: "ledger".to_string() }]
    );
}

#[test]
fn evidence_removed_when_test_disappears_in_head() {
    let mut base = baseline("x");
    base.evidence.push(GraphEvidence::inline("test", "integration"));
    let head = baseline("x");

    assert_eq!(
        project_changed(&changed_from(base, head)),
        vec![FieldChange::EvidenceRemoved { field: "test".to_string(), value: "integration".to_string() }]
    );
}

#[test]
fn evidence_value_only_change_emits_no_field_change() {
    let mut base = baseline("x");
    base.evidence.push(GraphEvidence::inline("source_code", "ledger-v1"));
    let mut head = baseline("x");
    head.evidence.push(GraphEvidence::inline("source_code", "ledger-v2"));

    assert!(project_changed(&changed_from(base, head)).is_empty());
}

#[test]
fn relation_added_for_new_depends_on_target() {
    let base = baseline("x");
    let mut head = baseline("x");
    head.relations.depends_on = vec!["billing.payments".to_string()];

    assert_eq!(
        project_changed(&changed_from(base, head)),
        vec![FieldChange::RelationAdded { kind: RelationKind::DependsOn, target: "billing.payments".to_string() }]
    );
}

#[test]
fn relation_removed_for_dropped_supersedes_target() {
    let mut base = baseline("x");
    base.relations.supersedes = vec!["billing.legacy-credits".to_string()];
    let head = baseline("x");

    assert_eq!(
        project_changed(&changed_from(base, head)),
        vec![FieldChange::RelationRemoved { kind: RelationKind::Supersedes, target: "billing.legacy-credits".to_string() }]
    );
}

#[test]
fn related_to_relation_uses_related_to_kind() {
    let base = baseline("x");
    let mut head = baseline("x");
    head.relations.related_to = vec!["billing.holds".to_string()];

    assert_eq!(
        project_changed(&changed_from(base, head)),
        vec![FieldChange::RelationAdded { kind: RelationKind::RelatedTo, target: "billing.holds".to_string() }]
    );
}

#[test]
fn relation_array_reorder_with_same_set_produces_empty_projection() {
    let mut base = baseline("x");
    base.relations.depends_on = vec!["b.b".to_string(), "a.a".to_string()];
    let mut head = baseline("x");
    head.relations.depends_on = vec!["a.a".to_string(), "b.b".to_string()];

    assert!(project_changed(&changed_from(base, head)).is_empty());
}

#[test]
fn relation_duplicate_entries_collapse_via_set_semantics() {
    let mut base = baseline("x");
    base.relations.depends_on = vec!["a.a".to_string(), "a.a".to_string()];
    let mut head = baseline("x");
    head.relations.depends_on = vec!["a.a".to_string()];

    assert!(project_changed(&changed_from(base, head)).is_empty());
}

#[test]
fn impacts_added_when_path_appears_in_head() {
    let base = baseline("x");
    let mut head = baseline("x");
    head.impacts = vec!["a.rs".to_string()];

    assert_eq!(project_changed(&changed_from(base, head)), vec![FieldChange::ImpactsAdded { path: "a.rs".to_string() }]);
}

#[test]
fn impacts_removed_when_path_disappears_in_head() {
    let mut base = baseline("x");
    base.impacts = vec!["a.rs".to_string()];
    let head = baseline("x");

    assert_eq!(project_changed(&changed_from(base, head)), vec![FieldChange::ImpactsRemoved { path: "a.rs".to_string() }]);
}

#[test]
fn impacts_set_reorder_with_same_set_produces_empty_projection() {
    let mut base = baseline("x");
    base.impacts = vec!["a.rs".to_string(), "b.rs".to_string()];
    let mut head = baseline("x");
    head.impacts = vec!["b.rs".to_string(), "a.rs".to_string()];

    assert!(project_changed(&changed_from(base, head)).is_empty());
}

#[test]
fn impacts_added_and_removed_emit_sorted_per_kind() {
    let mut base = baseline("x");
    base.impacts = vec!["keep.rs".to_string(), "drop.rs".to_string()];
    let mut head = baseline("x");
    head.impacts = vec!["keep.rs".to_string(), "add.rs".to_string()];

    assert_eq!(
        project_changed(&changed_from(base, head)),
        vec![FieldChange::ImpactsAdded { path: "add.rs".to_string() }, FieldChange::ImpactsRemoved { path: "drop.rs".to_string() }]
    );
}

#[test]
fn multiple_changes_appear_in_deterministic_visit_order() {
    let base = node("billing.credits", "sha256:a", "old", Some("draft"), FieldMap::new(), GraphRelations::default());
    let mut head = node(
        "billing.credits",
        "sha256:b",
        "new",
        Some("verified"),
        fields(&[("owner", "team-billing")]),
        GraphRelations { depends_on: vec!["billing.payments".to_string()], ..GraphRelations::default() },
    );
    head.evidence.push(GraphEvidence::inline("source_code", "ledger"));

    let changes = project_changed(&changed_from(base, head));

    assert_eq!(
        changes,
        vec![
            FieldChange::Body { before: "old".to_string(), after: "new".to_string() },
            FieldChange::Status { before: Some("draft".to_string()), after: Some("verified".to_string()) },
            FieldChange::Owner { before: None, after: Some("team-billing".to_string()) },
            FieldChange::EvidenceAdded { field: "source_code".to_string(), value: "ledger".to_string() },
            FieldChange::RelationAdded { kind: RelationKind::DependsOn, target: "billing.payments".to_string() },
        ]
    );
}

#[test]
fn effective_at_change_emits_one_effective_at_field_change() {
    let mut base = baseline("x");
    base.fields.insert("effective_at".to_string(), "2026-01-01".to_string());
    let mut head = baseline("x");
    head.fields.insert("effective_at".to_string(), "2026-06-01".to_string());

    assert_eq!(
        project_changed(&changed_from(base, head)),
        vec![FieldChange::EffectiveAt { before: Some("2026-01-01".to_string()), after: Some("2026-06-01".to_string()) }]
    );
}

#[test]
fn effective_at_removal_emits_effective_at_field_change_with_none_after() {
    let mut base = baseline("x");
    base.fields.insert("effective_at".to_string(), "2026-01-01".to_string());
    let head = baseline("x");

    assert_eq!(
        project_changed(&changed_from(base, head)),
        vec![FieldChange::EffectiveAt { before: Some("2026-01-01".to_string()), after: None }]
    );
}

#[test]
fn approved_by_added_when_approver_appears_in_head() {
    let base = baseline("x");
    let mut head = baseline("x");
    head.approved_by = vec!["security-lead".to_string()];

    assert_eq!(
        project_changed(&changed_from(base, head)),
        vec![FieldChange::ApprovedByAdded { value: "security-lead".to_string() }]
    );
}

#[test]
fn approved_by_removed_when_approver_disappears_in_head() {
    let mut base = baseline("x");
    base.approved_by = vec!["security-lead".to_string()];
    let head = baseline("x");

    assert_eq!(
        project_changed(&changed_from(base, head)),
        vec![FieldChange::ApprovedByRemoved { value: "security-lead".to_string() }]
    );
}

#[test]
fn approved_by_reorder_with_same_set_produces_empty_projection() {
    let mut base = baseline("x");
    base.approved_by = vec!["approver-b".to_string(), "approver-a".to_string()];
    let mut head = baseline("x");
    head.approved_by = vec!["approver-a".to_string(), "approver-b".to_string()];

    assert!(project_changed(&changed_from(base, head)).is_empty());
}

#[test]
fn object_diff_compute_populates_field_changes_inline() {
    let mut base = baseline("old");
    base.content_hash = "sha256:base-hash".to_string();
    let mut head = baseline("new");
    head.content_hash = "sha256:head-hash".to_string();

    let diff = ObjectDiff::compute(std::slice::from_ref(&base), std::slice::from_ref(&head));

    assert_eq!(diff.changed().len(), 1);
    assert_eq!(
        diff.changed()[0].field_changes(),
        &vec![FieldChange::Body { before: "old".to_string(), after: "new".to_string() }]
    );
}

#[test]
fn scope_and_action_lists_follow_body_in_visit_order() {
    let mut base = baseline("x");
    base.fields.insert("scope".to_string(), "repo".to_string());
    base.allowed_actions = vec!["read".to_string()];
    base.contradiction_claims = vec!["billing.a".to_string()];
    let mut head = baseline("x");
    head.fields.insert("scope".to_string(), "org".to_string());
    head.forbidden_actions = vec!["deploy".to_string()];
    head.contradiction_claims = vec!["billing.b".to_string()];

    assert_eq!(
        project_changed(&changed_from(base, head)),
        vec![
            FieldChange::Scope { before: Some("repo".to_string()), after: Some("org".to_string()) },
            FieldChange::AllowedActionsRemoved { value: "read".to_string() },
            FieldChange::ForbiddenActionsAdded { value: "deploy".to_string() },
            FieldChange::ContradictionClaimsAdded { value: "billing.b".to_string() },
            FieldChange::ContradictionClaimsRemoved { value: "billing.a".to_string() },
        ]
    );
}

#[test]
fn evidence_kinds_are_reported_in_kind_order_with_last_value() {
    let base = baseline("x");
    let mut head = baseline("x");
    head.evidence.push(GraphEvidence::inline("test", "unit"));
    head.evidence.push(GraphEvidence::inline("source_code", "first"));
    head.evidence.push(GraphEvidence::object_ref("human_review", "billing.review"));
    head.evidence.push(GraphEvidence::inline("source_code", "second"));

    assert_eq!(
        project_changed(&changed_from(base, head)),
        vec![
            FieldChange::EvidenceAdded { field: "source_code".to_string(), value: "second".to_string() },
            FieldChange::EvidenceAdded { field: "test".to_string(), value: "unit".to_string() },
        ]
    );
}

#[test]
fn reordered_or_repeated_list_members_project_identically() {
    let base = baseline("Credits apply.");
    let mut head = baseline("Credits apply.");
    head.relations.depends_on = vec!["billing.b".to_string(), "billing.a".to_string()];
    head.impacts = vec!["docs/y.md".to_string(), "docs/x.md".to_string()];
    let mut shuffled = baseline("Credits apply.");
    shuffled.relations.depends_on =
        vec!["billing.a".to_string(), "billing.b".to_string(), "billing.a".to_string()];
    shuffled.impacts = vec!["docs/x.md".to_string(), "docs/y.md".to_string(), "docs/y.md".to_string()];
    let expected = vec![
        FieldChange::RelationAdded { kind: RelationKind::DependsOn, target: "billing.a".to_string() },
        FieldChange::RelationAdded { kind: RelationKind::DependsOn, target: "billing.b".to_string() },
        FieldChange::ImpactsAdded { path: "docs/x.md".to_string() },
        FieldChange::ImpactsAdded { path: "docs/y.md".to_string() },
    ];
    assert_eq!(project_changed(&changed_from(base.clone(), head)), expected);
    assert_eq!(project_changed(&changed_from(base, shuffled)), expected);
}
