use adoc_core::graph::{FieldMap, GraphEvidence, GraphKnowledgeObjectNode, GraphRelations, GraphSourceSpan};
use adoc_core::review::field_change::{FieldChange, RelationKind};
use adoc_core::review::impact::ImpactedObject;
use adoc_core::review::object_change::ChangedObject;
use adoc_core::review::obligation_rules::{obligations_for_change, obligations_for_impact};

fn test_node(id: &str, content_hash: &str) -> GraphKnowledgeObjectNode {
    GraphKnowledgeObjectNode {
        id: id.to_string(),
        kind: "claim".to_string(),
        content_hash: content_hash.to_string(),
        status: Some("draft".to_string()),
        body: format!("{id} body"),
        page_id: "team.billing".to_string(),
        source_span: GraphSourceSpan { path: "docs/billing.adoc".to_string(), line: 1, column: 1 },
        source_binding: None,
        fields: FieldMap::new(),
        relations: GraphRelations::default(),
        impacts: Vec::new(),
        approved_by: Vec::new(),
        allowed_actions: Vec::new(),
        forbidden_actions: Vec::new(),
        contradiction_claims: Vec::new(),
        evidence: Vec::new(),
        effective_status: None,
        effective_reason: None,
    }
}


fn verified_claim(id: &str) -> GraphKnowledgeObjectNode {
    let mut node = test_node(id, "sha256:dummy");
    node.status = Some("verified".to_string());
    node
}

fn verified_claim_with_evidence(id: &str) -> GraphKnowledgeObjectNode {
    let mut node = verified_claim(id);
    node.evidence.push(GraphEvidence::inline(
        "source_code",
        "ledger",
    ));
    node.evidence.push(GraphEvidence::inline(
        "test",
        "integration",
    ));
    node.evidence.push(GraphEvidence::inline(
        "human_review",
        "team-billing",
    ));
    node
}

fn changed_with(
    id: &str,
    base: GraphKnowledgeObjectNode,
    head: GraphKnowledgeObjectNode,
    field_changes: Vec<FieldChange>,
) -> ChangedObject {
    let mut c = ChangedObject::new(id.to_string(), base, head);
    c.field_changes = field_changes;
    c
}

// -- Acceptance: V3-DESIGN.md §V3.4 --

#[test]
fn body_change_on_verified_claim_with_three_evidence_fields_emits_one_obligation() {
    let base = verified_claim_with_evidence("billing.credits");
    let head = verified_claim_with_evidence("billing.credits");
    let change = changed_with(
        "billing.credits",
        base,
        head,
        vec![FieldChange::Body {
            before: "old".to_string(),
            after: "new".to_string(),
        }],
    );

    let obligations = obligations_for_change(&change);

    assert_eq!(obligations.len(), 1);
    assert_eq!(obligations[0].object_id, "billing.credits");
    assert_eq!(obligations[0].reason, "re-verify body");
    // V5.8: required_evidence now uses EvidenceKind strings.
    assert_eq!(
        obligations[0].required_evidence,
        vec!["source_code", "test", "human_review"]
    );
}

#[test]
fn draft_claim_change_produces_zero_obligations() {
    let mut base = test_node("billing.draft", "sha256:a");
    base.status = Some("draft".to_string());
    let mut head = test_node("billing.draft", "sha256:b");
    head.status = Some("draft".to_string());
    let change = changed_with(
        "billing.draft",
        base,
        head,
        vec![FieldChange::Body {
            before: "x".to_string(),
            after: "y".to_string(),
        }],
    );

    assert!(obligations_for_change(&change).is_empty());
}

#[test]
fn impacted_verified_claim_emits_source_evidence_obligation() {
    let impact = ImpactedObject {
        id: "billing.refunds".to_string(),
        paths: vec!["crates/billing/src/refund.rs".to_string()],
    };

    let obligations = obligations_for_impact(&impact);

    assert_eq!(obligations.len(), 1);
    assert_eq!(obligations[0].object_id, "billing.refunds");
    assert_eq!(obligations[0].reason, "review impacted claim");
    // V5.8: source evidence is now "source_code".
    assert_eq!(obligations[0].required_evidence, vec!["source_code"]);
}

// -- Per-trigger dispatch table coverage --

#[test]
fn body_change_with_only_two_evidence_fields_present_emits_two_in_required_evidence() {
    let mut head = verified_claim("billing.credits");
    head.evidence.push(GraphEvidence::inline(
        "source_code",
        "ledger",
    ));
    head.evidence.push(GraphEvidence::inline(
        "human_review",
        "team-billing",
    ));
    let change = changed_with(
        "billing.credits",
        verified_claim("billing.credits"),
        head,
        vec![FieldChange::Body {
            before: "old".to_string(),
            after: "new".to_string(),
        }],
    );

    let obligations = obligations_for_change(&change);

    assert_eq!(obligations.len(), 1);
    // V5.8: EvidenceKind strings.
    assert_eq!(
        obligations[0].required_evidence,
        vec!["source_code", "human_review"]
    );
}

#[test]
fn verified_to_needs_review_emits_stale_claim_notice() {
    let mut base = test_node("billing.credits", "sha256:a");
    base.status = Some("verified".to_string());
    let mut head = test_node("billing.credits", "sha256:b");
    head.status = Some("needs_review".to_string());
    let change = changed_with(
        "billing.credits",
        base,
        head,
        vec![FieldChange::Status {
            before: Some("verified".to_string()),
            after: Some("needs_review".to_string()),
        }],
    );

    let obligations = obligations_for_change(&change);

    assert_eq!(obligations.len(), 1);
    assert_eq!(obligations[0].reason, "stale verified claim");
    assert!(obligations[0].required_evidence.is_empty());
}

#[test]
fn verified_to_draft_emits_demotion_review() {
    let mut head = test_node("billing.credits", "sha256:b");
    head.status = Some("draft".to_string());
    let change = changed_with(
        "billing.credits",
        verified_claim("billing.credits"),
        head,
        vec![FieldChange::Status {
            before: Some("verified".to_string()),
            after: Some("draft".to_string()),
        }],
    );

    let obligations = obligations_for_change(&change);

    assert_eq!(obligations.len(), 1);
    assert_eq!(obligations[0].reason, "verified claim demoted");
}

#[test]
fn draft_to_verified_emits_no_obligation() {
    let mut base = test_node("billing.credits", "sha256:a");
    base.status = Some("draft".to_string());
    let head = verified_claim("billing.credits");
    let change = changed_with(
        "billing.credits",
        base,
        head,
        vec![FieldChange::Status {
            before: Some("draft".to_string()),
            after: Some("verified".to_string()),
        }],
    );

    assert!(obligations_for_change(&change).is_empty());
}

#[test]
fn owner_removal_on_verified_claim_emits_reassign_obligation() {
    let mut base = verified_claim("billing.credits");
    base.fields
        .insert("owner".to_string(), "team-billing".to_string());
    let head = verified_claim("billing.credits");
    let change = changed_with(
        "billing.credits",
        base,
        head,
        vec![FieldChange::Owner {
            before: Some("team-billing".to_string()),
            after: None,
        }],
    );

    let obligations = obligations_for_change(&change);

    assert_eq!(obligations.len(), 1);
    assert_eq!(obligations[0].reason, "reassign owner");
    assert_eq!(obligations[0].required_evidence, vec!["owner"]);
}

#[test]
fn owner_change_on_verified_claim_emits_new_owner_acknowledge_obligation() {
    let mut base = verified_claim("billing.credits");
    base.fields
        .insert("owner".to_string(), "team-old".to_string());
    let mut head = verified_claim("billing.credits");
    head.fields
        .insert("owner".to_string(), "team-new".to_string());
    let change = changed_with(
        "billing.credits",
        base,
        head,
        vec![FieldChange::Owner {
            before: Some("team-old".to_string()),
            after: Some("team-new".to_string()),
        }],
    );

    let obligations = obligations_for_change(&change);

    assert_eq!(obligations.len(), 1);
    assert_eq!(obligations[0].reason, "new owner must acknowledge");
    assert_eq!(obligations[0].required_evidence, vec!["owner"]);
}

#[test]
fn initial_owner_assignment_emits_no_obligation() {
    let base = verified_claim("billing.credits");
    let mut head = verified_claim("billing.credits");
    head.fields
        .insert("owner".to_string(), "team-billing".to_string());
    let change = changed_with(
        "billing.credits",
        base,
        head,
        vec![FieldChange::Owner {
            before: None,
            after: Some("team-billing".to_string()),
        }],
    );

    assert!(obligations_for_change(&change).is_empty());
}

#[test]
fn owner_removal_on_draft_claim_emits_no_obligation() {
    let mut base = test_node("billing.draft", "sha256:a");
    base.status = Some("draft".to_string());
    base.fields
        .insert("owner".to_string(), "team-x".to_string());
    let mut head = test_node("billing.draft", "sha256:b");
    head.status = Some("draft".to_string());
    let change = changed_with(
        "billing.draft",
        base,
        head,
        vec![FieldChange::Owner {
            before: Some("team-x".to_string()),
            after: None,
        }],
    );

    assert!(obligations_for_change(&change).is_empty());
}

#[test]
fn verified_at_removal_on_verified_claim_emits_re_verify_obligation() {
    let mut base = verified_claim("billing.credits");
    base.fields
        .insert("verified_at".to_string(), "2026-05-05".to_string());
    let head = verified_claim("billing.credits");
    let change = changed_with(
        "billing.credits",
        base,
        head,
        vec![FieldChange::VerifiedAt {
            before: Some("2026-05-05".to_string()),
            after: None,
        }],
    );

    let obligations = obligations_for_change(&change);

    assert_eq!(obligations.len(), 1);
    assert_eq!(obligations[0].reason, "re-verify (verified_at cleared)");
    assert_eq!(obligations[0].required_evidence, vec!["verified_at"]);
}

#[test]
fn evidence_removed_on_verified_claim_emits_re_evidence_against_field() {
    let base = verified_claim("billing.credits");
    let head = verified_claim("billing.credits");
    let change = changed_with(
        "billing.credits",
        base,
        head,
        vec![FieldChange::EvidenceRemoved {
            field: "test".to_string(),
            value: "integration".to_string(),
        }],
    );

    let obligations = obligations_for_change(&change);

    assert_eq!(obligations.len(), 1);
    assert_eq!(obligations[0].reason, "re-evidence: test");
    assert_eq!(obligations[0].required_evidence, vec!["test"]);
}

#[test]
fn evidence_added_emits_no_obligation() {
    let base = verified_claim("billing.credits");
    let mut head = verified_claim("billing.credits");
    head.evidence.push(GraphEvidence::inline(
        "source_code",
        "ledger",
    ));
    let change = changed_with(
        "billing.credits",
        base,
        head,
        vec![FieldChange::EvidenceAdded {
            field: "source_code".to_string(),
            value: "ledger".to_string(),
        }],
    );

    assert!(obligations_for_change(&change).is_empty());
}

#[test]
fn relation_changes_emit_no_obligation() {
    let base = verified_claim("billing.credits");
    let mut head = verified_claim("billing.credits");
    head.relations.depends_on = vec!["billing.ledger".to_string()];
    let change = changed_with(
        "billing.credits",
        base,
        head,
        vec![
            FieldChange::RelationAdded {
                kind: RelationKind::DependsOn,
                target: "billing.ledger".to_string(),
            },
            FieldChange::RelationRemoved {
                kind: RelationKind::Supersedes,
                target: "billing.old".to_string(),
            },
        ],
    );

    assert!(obligations_for_change(&change).is_empty());
}

fn active_policy(id: &str) -> GraphKnowledgeObjectNode {
    let mut node = test_node(id, "sha256:dummy");
    node.kind = "policy".to_string();
    node.status = Some("active".to_string());
    node
}

fn proposed_policy(id: &str) -> GraphKnowledgeObjectNode {
    let mut node = test_node(id, "sha256:dummy");
    node.kind = "policy".to_string();
    node.status = Some("proposed".to_string());
    node
}

#[test]
fn effective_at_change_on_active_policy_emits_reapprove_obligation() {
    let base = active_policy("security.data-retention");
    let head = active_policy("security.data-retention");
    let change = changed_with(
        "security.data-retention",
        base,
        head,
        vec![FieldChange::EffectiveAt {
            before: Some("2026-01-01".to_string()),
            after: Some("2026-06-01".to_string()),
        }],
    );

    let obligations = obligations_for_change(&change);

    assert_eq!(obligations.len(), 1);
    assert_eq!(obligations[0].object_id, "security.data-retention");
    assert_eq!(obligations[0].reason, "re-approve (effective_at changed)");
    assert_eq!(obligations[0].required_evidence, vec!["approved_by"]);
}

#[test]
fn approver_removed_from_active_policy_emits_reapprove_obligation() {
    let base = active_policy("security.data-retention");
    let head = active_policy("security.data-retention");
    let change = changed_with(
        "security.data-retention",
        base,
        head,
        vec![FieldChange::ApprovedByRemoved {
            value: "security-lead".to_string(),
        }],
    );

    let obligations = obligations_for_change(&change);

    assert_eq!(obligations.len(), 1);
    assert_eq!(obligations[0].reason, "re-approve (approver removed)");
    assert_eq!(obligations[0].required_evidence, vec!["approved_by"]);
}

#[test]
fn approver_added_to_active_policy_emits_no_obligation() {
    let base = active_policy("security.data-retention");
    let head = active_policy("security.data-retention");
    let change = changed_with(
        "security.data-retention",
        base,
        head,
        vec![FieldChange::ApprovedByAdded {
            value: "new-approver".to_string(),
        }],
    );

    assert!(obligations_for_change(&change).is_empty());
}

#[test]
fn effective_at_change_on_non_active_policy_emits_no_obligation() {
    let base = proposed_policy("security.data-retention");
    let head = proposed_policy("security.data-retention");
    let change = changed_with(
        "security.data-retention",
        base,
        head,
        vec![FieldChange::EffectiveAt {
            before: Some("2026-01-01".to_string()),
            after: Some("2026-06-01".to_string()),
        }],
    );

    assert!(obligations_for_change(&change).is_empty());
}

#[test]
fn approver_removed_from_non_active_policy_emits_no_obligation() {
    let base = proposed_policy("security.data-retention");
    let head = proposed_policy("security.data-retention");
    let change = changed_with(
        "security.data-retention",
        base,
        head,
        vec![FieldChange::ApprovedByRemoved {
            value: "security-lead".to_string(),
        }],
    );

    assert!(obligations_for_change(&change).is_empty());
}

#[test]
fn impacts_changes_emit_no_obligation() {
    let base = verified_claim("billing.credits");
    let mut head = verified_claim("billing.credits");
    head.impacts = vec!["crates/billing/src/refund.rs".to_string()];
    let change = changed_with(
        "billing.credits",
        base,
        head,
        vec![
            FieldChange::ImpactsAdded {
                path: "crates/billing/src/refund.rs".to_string(),
            },
            FieldChange::ImpactsRemoved {
                path: "src/old.rs".to_string(),
            },
        ],
    );

    assert!(obligations_for_change(&change).is_empty());
}

#[test]
fn multiple_triggers_in_one_changed_object_emit_one_obligation_each() {
    let mut base = verified_claim_with_evidence("billing.credits");
    base.fields
        .insert("owner".to_string(), "team-old".to_string());
    let mut head = verified_claim_with_evidence("billing.credits");
    head.fields
        .insert("owner".to_string(), "team-new".to_string());
    let change = changed_with(
        "billing.credits",
        base,
        head,
        vec![
            FieldChange::Body {
                before: "old".to_string(),
                after: "new".to_string(),
            },
            FieldChange::Owner {
                before: Some("team-old".to_string()),
                after: Some("team-new".to_string()),
            },
        ],
    );

    let obligations = obligations_for_change(&change);

    assert_eq!(obligations.len(), 2);
    let reasons: Vec<&str> = obligations.iter().map(|o| o.reason.as_str()).collect();
    assert!(reasons.contains(&"re-verify body"));
    assert!(reasons.contains(&"new owner must acknowledge"));
}

fn agent_instruction(id: &str, trust: &str) -> GraphKnowledgeObjectNode {
    let mut node = test_node(id, "sha256:dummy");
    node.kind = "agent_instruction".to_string();
    node.status = Some(trust.to_string());
    node
}

#[test]
fn trust_upgrade_on_agent_instruction_emits_security_review_obligation() {
    let base = agent_instruction("auth.docs-answering-policy", "team");
    let head = agent_instruction("auth.docs-answering-policy", "authoritative");
    let change = changed_with(
        "auth.docs-answering-policy",
        base,
        head,
        vec![FieldChange::Trust {
            before: Some("team".to_string()),
            after: Some("authoritative".to_string()),
        }],
    );

    let obligations = obligations_for_change(&change);

    assert_eq!(obligations.len(), 1);
    assert_eq!(obligations[0].object_id, "auth.docs-answering-policy");
    assert_eq!(obligations[0].reason, "security review (trust upgraded)");
    assert!(obligations[0].required_evidence.is_empty());
}

#[test]
fn trust_downgrade_on_agent_instruction_emits_no_obligation() {
    let base = agent_instruction("auth.docs-answering-policy", "system");
    let head = agent_instruction("auth.docs-answering-policy", "team");
    let change = changed_with(
        "auth.docs-answering-policy",
        base,
        head,
        vec![FieldChange::Trust {
            before: Some("system".to_string()),
            after: Some("team".to_string()),
        }],
    );

    assert!(obligations_for_change(&change).is_empty());
}

#[test]
fn trust_same_level_on_agent_instruction_emits_no_obligation() {
    let base = agent_instruction("auth.docs-answering-policy", "team");
    let head = agent_instruction("auth.docs-answering-policy", "team");
    let change = changed_with(
        "auth.docs-answering-policy",
        base,
        head,
        vec![FieldChange::Trust {
            before: Some("team".to_string()),
            after: Some("team".to_string()),
        }],
    );

    assert!(obligations_for_change(&change).is_empty());
}

#[test]
fn forbidden_action_removed_from_agent_instruction_emits_security_review_obligation() {
    let base = agent_instruction("auth.docs-answering-policy", "team");
    let head = agent_instruction("auth.docs-answering-policy", "team");
    let change = changed_with(
        "auth.docs-answering-policy",
        base,
        head,
        vec![FieldChange::ForbiddenActionsRemoved {
            value: "execute_shell".to_string(),
        }],
    );

    let obligations = obligations_for_change(&change);

    assert_eq!(obligations.len(), 1);
    assert_eq!(
        obligations[0].reason,
        "security review (forbidden action removed)"
    );
    assert!(obligations[0].required_evidence.is_empty());
}

#[test]
fn forbidden_action_added_to_agent_instruction_emits_no_obligation() {
    let base = agent_instruction("auth.docs-answering-policy", "team");
    let head = agent_instruction("auth.docs-answering-policy", "team");
    let change = changed_with(
        "auth.docs-answering-policy",
        base,
        head,
        vec![FieldChange::ForbiddenActionsAdded {
            value: "new_forbidden".to_string(),
        }],
    );

    assert!(obligations_for_change(&change).is_empty());
}

fn contradiction(id: &str, status: &str) -> GraphKnowledgeObjectNode {
    let mut node = test_node(id, "sha256:dummy");
    node.kind = "contradiction".to_string();
    node.status = Some(status.to_string());
    node
}

fn body_change() -> FieldChange {
    FieldChange::Body {
        before: "old".to_string(),
        after: "new".to_string(),
    }
}

#[test]
fn field_change_on_unresolved_contradiction_emits_one_owner_reassert_obligation() {
    let base = contradiction("auth.session.conflict", "unresolved");
    let head = contradiction("auth.session.conflict", "unresolved");
    let change = changed_with("auth.session.conflict", base, head, vec![body_change()]);

    let obligations = obligations_for_change(&change);

    assert_eq!(obligations.len(), 1);
    assert_eq!(obligations[0].object_id, "auth.session.conflict");
    assert_eq!(obligations[0].reason, "owner re-assert (unresolved contradiction changed)");
    assert_eq!(obligations[0].required_evidence, vec!["owner"]);
}

#[test]
fn multiple_field_changes_on_unresolved_contradiction_emit_one_obligation() {
    let base = contradiction("auth.session.conflict", "unresolved");
    let head = contradiction("auth.session.conflict", "unresolved");
    let change = changed_with(
        "auth.session.conflict",
        base,
        head,
        vec![
            body_change(),
            FieldChange::ContradictionClaimsAdded {
                value: "auth.new-claim".to_string(),
            },
        ],
    );

    let obligations = obligations_for_change(&change);

    assert_eq!(
        obligations.len(),
        1,
        "owner re-assert fires once per changed object, not per field"
    );
    assert_eq!(obligations[0].reason, "owner re-assert (unresolved contradiction changed)");
}

#[test]
fn field_change_on_resolved_contradiction_emits_no_obligation() {
    let base = contradiction("auth.session.conflict", "unresolved");
    let head = contradiction("auth.session.conflict", "resolved");
    let change = changed_with(
        "auth.session.conflict",
        base,
        head,
        vec![FieldChange::Status {
            before: Some("unresolved".to_string()),
            after: Some("resolved".to_string()),
        }],
    );

    assert!(obligations_for_change(&change).is_empty());
}

#[test]
fn field_change_on_dismissed_contradiction_emits_no_obligation() {
    let base = contradiction("auth.session.conflict", "dismissed");
    let head = contradiction("auth.session.conflict", "dismissed");
    let change = changed_with("auth.session.conflict", base, head, vec![body_change()]);

    assert!(obligations_for_change(&change).is_empty());
}

#[test]
fn unresolved_contradiction_with_no_field_changes_emits_no_obligation() {
    let base = contradiction("auth.session.conflict", "unresolved");
    let head = contradiction("auth.session.conflict", "unresolved");
    let change = changed_with("auth.session.conflict", base, head, Vec::new());

    assert!(obligations_for_change(&change).is_empty());
}

#[test]
fn trust_upgrade_on_non_agent_instruction_emits_no_obligation() {
    // A Trust variant on a claim node should not trigger the obligation.
    let base = test_node("billing.credits", "sha256:a");
    let head = test_node("billing.credits", "sha256:b");
    let change = changed_with(
        "billing.credits",
        base,
        head,
        vec![FieldChange::Trust {
            before: Some("team".to_string()),
            after: Some("system".to_string()),
        }],
    );

    assert!(obligations_for_change(&change).is_empty());
}

