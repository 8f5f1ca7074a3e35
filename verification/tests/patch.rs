use adoc_core::diagnostic::{Diagnostic, DiagnosticCode, Severity};
use adoc_core::graph::{FieldMap, GraphKnowledgeObjectNode, GraphRelationKind, GraphRelations, GraphSourceSpan};
use adoc_core::obligation::ProofObligation;
use adoc_core::patch::{
    validate_patch, DiffValue, DraftValidation, GraphIndex, PatchDocument, PatchIntent, PatchOperation, PlacementHint,
};

fn graph(objects: Vec<GraphKnowledgeObjectNode>) -> GraphIndex {
    GraphIndex { pages: vec!["team.page".to_string()], objects }
}

fn object(id: &str, status: &str) -> GraphKnowledgeObjectNode {
    GraphKnowledgeObjectNode {
        id: id.to_string(),
        kind: "claim".to_string(),
        content_hash: format!("sha256:{id}"),
        status: Some(status.to_string()),
        body: format!("{id} body."),
        page_id: "team.page".to_string(),
        source_span: GraphSourceSpan { path: "docs/team.adoc".to_string(), line: 1, column: 1 },
        source_binding: None,
        fields: FieldMap::new(),
        relations: GraphRelations::default(),
        impacts: Vec::new(),
        approved_by: Vec::new(),
        allowed_actions: Vec::new(),
        forbidden_actions: Vec::new(),
        contradiction_claims: Vec::new(),
        evidence: Vec::new(),
        effective_status: None,
        effective_reason: None,
    }
}

fn patch(intent: PatchIntent) -> PatchDocument {
    PatchDocument { target: "billing.credits".to_string(), intent, reason: "review update".to_string(), proposer: None }
}

fn no_draft() -> DraftValidation {
    DraftValidation { diagnostics: Vec::new(), proof_obligations: Vec::new() }
}

fn fields(pairs: &[(&str, &str)]) -> FieldMap {
    FieldMap::from_pairs(pairs.iter().map(|(k, v)| (k.to_string(), v.to_string())).collect())
}

fn create_patch(kind: &str, status: Option<&str>, field_pairs: &[(&str, &str)]) -> PatchDocument {
    PatchDocument {
        target: "billing.new-credits".to_string(),
        intent: PatchIntent::CreateObject {
            kind: kind.to_string(),
            status: status.map(str::to_string),
            body: "Created body.".to_string(),
            fields: fields(field_pairs),
            placement: PlacementHint { page_id: "team.page".to_string(), after: Some("billing.credits".to_string()) },
        },
        reason: "create object".to_string(),
        proposer: None,
    }
}

fn draft_error(object_id: &str, message: &str) -> Diagnostic {
    Diagnostic {
        severity: Severity::Error,
        code: DiagnosticCode::PatchValidationFailed,
        message: message.to_string(),
        object_id: Some(object_id.to_string()),
        help: None,
    }
}

fn draft_obligation(object_id: &str, reason: &str) -> ProofObligation {
    ProofObligation { object_id: object_id.to_string(), reason: reason.to_string(), required_evidence: Vec::new() }
}

#[test]
fn replace_body_requires_matching_base_hash_and_reports_diff() {
    let graph = graph(vec![object("billing.credits", "draft")]);
    let patch = patch(PatchIntent::ReplaceBody {
        base_hash: "sha256:billing.credits".to_string(),
        body: "New body.".to_string(),
    });

    let report = validate_patch(&graph, patch, &no_draft());

    assert!(report.valid);
    assert_eq!(report.diffs[0].field, "body");
    assert_eq!(report.diagnostics, Vec::new());
}

#[test]
fn stale_base_hash_is_invalid() {
    let graph = graph(vec![object("billing.credits", "draft")]);
    let patch = patch(PatchIntent::ReplaceBody {
        base_hash: "sha256:stale".to_string(),
        body: "New body.".to_string(),
    });

    let report = validate_patch(&graph, patch, &no_draft());

    assert!(!report.valid);
    assert_eq!(report.diagnostics[0].code, DiagnosticCode::PatchBaseHashMismatch);
}

#[test]
fn update_fields_rejects_relation_field_replacement() {
    let graph = graph(vec![object("billing.credits", "draft")]);
    let patch = patch(PatchIntent::UpdateFields {
        base_hash: "sha256:billing.credits".to_string(),
        fields: fields(&[("depends_on", "billing.ledger")]),
    });

    let report = validate_patch(&graph, patch, &no_draft());

    assert!(!report.valid);
    assert_eq!(report.diagnostics[0].code, DiagnosticCode::PatchValidationFailed);
}

#[test]
fn supersede_rejects_duplicate_relation_targets() {
    let graph = graph(vec![object("billing.credits", "draft"), object("billing.old-credits", "draft")]);
    let patch = patch(PatchIntent::Supersede {
        base_hash: "sha256:billing.credits".to_string(),
        supersedes: vec!["billing.old-credits".to_string(), "billing.old-credits".to_string()],
    });

    let report = validate_patch(&graph, patch, &no_draft());

    assert!(!report.valid);
    assert!(report.diagnostics.iter().any(|diagnostic| diagnostic.message.contains("duplicate supersedes target")));
}

#[test]
fn create_object_requires_valid_placement() {
    let graph = graph(vec![object("billing.credits", "draft")]);
    let mut patch = PatchDocument {
        target: "billing.new-credits".to_string(),
        intent: PatchIntent::CreateObject {
            kind: "claim".to_string(),
            status: Some("draft".to_string()),
            body: "Created body.".to_string(),
            fields: FieldMap::new(),
            placement: PlacementHint { page_id: "team.missing".to_string(), after: None },
        },
        reason: "create new object".to_string(),
        proposer: None,
    };

    let report = validate_patch(&graph, patch, &no_draft());
    assert!(!report.valid);
    assert_eq!(report.diagnostics[0].code, DiagnosticCode::PatchPlacementInvalid);

    patch = PatchDocument {
        target: "billing.new-credits".to_string(),
        intent: PatchIntent::CreateObject {
            kind: "claim".to_string(),
            status: Some("draft".to_string()),
            body: "Created body.".to_string(),
            fields: FieldMap::new(),
            placement: PlacementHint { page_id: "team.page".to_string(), after: Some("billing.credits".to_string()) },
        },
        reason: "create new object".to_string(),
        proposer: None,
    };
    let report = validate_patch(&graph, patch, &no_draft());
    assert!(report.valid);
}

#[test]
fn revoke_is_status_diff_without_relation_change() {
    let graph = graph(vec![object("billing.credits", "draft")]);
    let patch = patch(PatchIntent::Revoke { base_hash: "sha256:billing.credits".to_string() });

    let report = validate_patch(&graph, patch, &no_draft());

    assert!(report.valid);
    assert_eq!(report.diffs[0].field, "status");
    assert!(report.affected_relations.is_empty());
}

#[test]
fn verified_claim_change_adds_proof_obligation() {
    let graph = graph(vec![object("billing.credits", "verified")]);
    let patch = patch(PatchIntent::ReplaceBody {
        base_hash: "sha256:billing.credits".to_string(),
        body: "New body.".to_string(),
    });

    let report = validate_patch(&graph, patch, &no_draft());

    assert!(report.valid);
    assert_eq!(report.proof_obligations.len(), 1);
    assert_eq!(report.proof_obligations[0].object_id, "billing.credits");
}

#[test]
fn create_accepted_decision_without_decided_by_is_invalid() {
    let graph = graph(vec![object("billing.credits", "draft")]);
    let patch = create_patch("decision", Some("accepted"), &[]);
    let draft = DraftValidation {
        diagnostics: vec![draft_error(
            "billing.new-credits",
            "accepted decision requires fields.decided_by",
        )],
        proof_obligations: Vec::new(),
    };

    let report = validate_patch(&graph, patch, &draft);

    assert!(!report.valid);
    assert_eq!(report.diagnostics[0].code, DiagnosticCode::PatchValidationFailed);
    assert!(report.diagnostics[0].message.contains("fields.decided_by"));
}

#[test]
fn create_accepted_decision_with_decided_by_is_valid() {
    let graph = graph(vec![object("billing.credits", "draft")]);
    let patch = create_patch("decision", Some("accepted"), &[("decided_by", "architecture")]);

    let report = validate_patch(&graph, patch, &no_draft());

    assert!(report.valid);
    assert!(report.diagnostics.is_empty());
}

#[test]
fn create_verified_claim_missing_proof_data_is_valid_with_proof_obligation() {
    let graph = graph(vec![object("billing.credits", "draft")]);
    let patch = create_patch("claim", Some("verified"), &[]);
    let draft = DraftValidation {
        diagnostics: Vec::new(),
        proof_obligations: vec![draft_obligation(
            "billing.new-credits",
            "verified claim is missing complete verification evidence",
        )],
    };

    let report = validate_patch(&graph, patch, &draft);

    assert!(report.valid);
    assert_eq!(report.proof_obligations.len(), 1);
    assert_eq!(report.proof_obligations[0].object_id, "billing.new-credits");
    assert!(report.proof_obligations[0].reason.contains("missing complete verification evidence"));
}

#[test]
fn create_glossary_permits_status_field_but_rejects_changes_status() {
    let graph = graph(vec![object("billing.credits", "draft")]);
    let report = validate_patch(&graph, create_patch("glossary", None, &[("status", "draft")]), &no_draft());

    assert!(report.valid);

    let draft = DraftValidation {
        diagnostics: vec![draft_error("billing.new-credits", "glossary objects do not take changes.status")],
        proof_obligations: Vec::new(),
    };
    let report = validate_patch(&graph, create_patch("glossary", Some("draft"), &[]), &draft);

    assert!(!report.valid);
    assert_eq!(report.diagnostics[0].code, DiagnosticCode::PatchValidationFailed);
    assert!(report.diagnostics[0].message.contains("changes.status"));
}

#[test]
fn patch_diagnostic_messages_name_the_values_involved() {
    let graph = graph(vec![object("billing.credits", "draft")]);
    let report = validate_patch(
        &graph,
        patch(PatchIntent::ReplaceBody { base_hash: "sha256:stale".to_string(), body: "New.".to_string() }),
        &no_draft(),
    );
    assert_eq!(
        report.diagnostics[0].message,
        "patch base_hash `sha256:stale` does not match current content_hash `sha256:billing.credits` for `billing.credits`"
    );
    assert_eq!(report.diagnostics[0].object_id.as_deref(), Some("billing.credits"));

    let report = validate_patch(
        &graph,
        PatchDocument {
            target: "Not An Id".to_string(),
            intent: PatchIntent::Revoke { base_hash: "sha256:x".to_string() },
            reason: "   ".to_string(),
            proposer: None,
        },
        &no_draft(),
    );
    assert!(!report.valid);
    assert_eq!(report.target, None);
    assert_eq!(report.operation, PatchOperation::Revoke);
    assert_eq!(report.diagnostics.len(), 2);
    assert_eq!(report.diagnostics[0].code, DiagnosticCode::PatchInvalidDocument);
    assert_eq!(report.diagnostics[1].code, DiagnosticCode::IdInvalid);
    assert_eq!(report.diagnostics[1].message, "patch target Object ID `Not An Id` is invalid.");
}

#[test]
fn update_fields_reports_each_field_in_key_order() {
    let graph = graph(vec![object("billing.credits", "draft")]);
    let report = validate_patch(
        &graph,
        patch(PatchIntent::UpdateFields {
            base_hash: "sha256:billing.credits".to_string(),
            fields: fields(&[("owner", "team-billing"), ("Bad-Key", "x"), ("audience", " ")]),
        }),
        &no_draft(),
    );
    assert!(!report.valid);
    let messages: Vec<&str> = report.diagnostics.iter().map(|d| d.message.as_str()).collect();
    assert_eq!(messages, vec!["field key `Bad-Key` is invalid", "field `audience` requires a non-empty value"]);
    assert_eq!(report.diffs.len(), 1);
    assert_eq!(report.diffs[0].field, "fields.owner");
    assert!(report.diffs[0].old.is_none());
    assert!(matches!(&report.diffs[0].new, Some(DiffValue::Text(v)) if v == "team-billing"));
}

#[test]
fn supersede_adds_relations_for_new_existing_targets() {
    let mut current = object("billing.credits", "draft");
    current.relations.supersedes.push("billing.older".to_string());
    let graph = graph(vec![current, object("billing.old-credits", "draft"), object("billing.older", "draft")]);
    let report = validate_patch(
        &graph,
        patch(PatchIntent::Supersede {
            base_hash: "sha256:billing.credits".to_string(),
            supersedes: vec![
                "billing.old-credits".to_string(),
                "billing.older".to_string(),
                "billing.gone".to_string(),
            ],
        }),
        &no_draft(),
    );
    assert!(!report.valid);
    assert_eq!(report.affected_relations.len(), 1);
    assert_eq!(report.affected_relations[0].relation, GraphRelationKind::Supersedes);
    assert_eq!(report.affected_relations[0].target, "billing.old-credits");
    assert_eq!(report.affected_relations[0].action, "add");
    assert_eq!(report.diagnostics.len(), 2);
    assert_eq!(report.diagnostics[0].message, "supersedes target `billing.older` already exists");
    assert_eq!(report.diagnostics[1].code, DiagnosticCode::GraphObjectNotFound);
}

#[test]
fn create_placement_after_an_object_on_another_page_is_invalid() {
    let mut elsewhere = object("billing.credits", "draft");
    elsewhere.page_id = "other.page".to_string();
    let graph = GraphIndex { pages: vec!["team.page".to_string(), "other.page".to_string()], objects: vec![elsewhere] };
    let report = validate_patch(&graph, create_patch("claim", Some("draft"), &[]), &no_draft());
    assert!(!report.valid);
    assert_eq!(report.diagnostics[0].code, DiagnosticCode::PatchPlacementInvalid);
    assert_eq!(
        report.diagnostics[0].message,
        "placement after `billing.credits` is on page `other.page`, not `team.page`"
    );
    assert_eq!(report.diffs[0].field, "object");
}
