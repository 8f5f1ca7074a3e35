use adoc_core::graph::{FieldMap, GraphEvidence, GraphKnowledgeObjectNode, GraphRelations, GraphSourceSpan};
use adoc_core::rel_path::RelPath;
use adoc_core::review::impact::{compute_impact, impacted_objects, ImpactReasonHit, ImpactReasonKind, ImpactedObject};
use adoc_core::review::object_change::ChangedObject;
use adoc_core::review::object_diff::ObjectDiff;

fn test_node(id: &str, content_hash: &str) -> GraphKnowledgeObjectNode {
    GraphKnowledgeObjectNode {
        id: id.to_string(),
        kind: "claim".to_string(),
        content_hash: content_hash.to_string(),
        status: Some("draft".to_string()),
        body: format!("{id} body"),
        page_id: "team.billing".to_string(),
        source_span: GraphSourceSpan { path: "docs/billing.adoc".to_string(), line: 1, column: 1 },
        source_binding: None,
        fields: FieldMap::new(),
        relations: GraphRelations::default(),
        impacts: Vec::new(),
        approved_by: Vec::new(),
        allowed_actions: Vec::new(),
        forbidden_actions: Vec::new(),
        contradiction_claims: Vec::new(),
        evidence: Vec::new(),
        effective_status: None,
        effective_reason: None,
    }
}

fn rel(s: &str) -> RelPath {
    RelPath::try_new(s).expect("valid test path")
}

fn verified_claim_with_impacts(id: &str, paths: &[&str]) -> GraphKnowledgeObjectNode {
    let mut node = test_node(id, "sha256:dummy");
    node.status = Some("verified".to_string());
    node.impacts = paths.iter().map(|p| (*p).to_string()).collect();
    node
}

fn diff_with_created(nodes: Vec<GraphKnowledgeObjectNode>) -> ObjectDiff {
    ObjectDiff::compute(&[], &nodes)
}

fn diff_with_changed(base_head_pairs: Vec<(GraphKnowledgeObjectNode, GraphKnowledgeObjectNode)>) -> ObjectDiff {
    let base: Vec<GraphKnowledgeObjectNode> = base_head_pairs.iter().map(|(b, _)| b.clone()).collect();
    let head: Vec<GraphKnowledgeObjectNode> = base_head_pairs.iter().map(|(_, h)| h.clone()).collect();
    ObjectDiff::compute(&base, &head)
}

fn source_node(id: &str, path: Option<&str>) -> GraphKnowledgeObjectNode {
    let mut node = test_node(id, "sha256:src");
    node.kind = "source".to_string();
    node.status = None;
    if let Some(p) = path {
        node.fields.insert("path".to_string(), p.to_string());
    }
    node
}

fn hit(path: &str, kind: ImpactReasonKind, via: Option<&str>) -> ImpactReasonHit {
    ImpactReasonHit { matched_path: path.to_string(), kind, via_source_object: via.map(str::to_string) }
}

#[test]
fn compute_impact_flags_verified_claim_when_impacts_path_in_changed_set() {
    let diff = diff_with_created(vec![verified_claim_with_impacts("billing.refunds", &["crates/billing/src/refund.rs"])]);

    let impacted = compute_impact(&diff, &[rel("crates/billing/src/refund.rs")]);

    assert_eq!(
        impacted,
        vec![ImpactedObject { id: "billing.refunds".to_string(), paths: vec!["crates/billing/src/refund.rs".to_string()] }]
    );
}

#[test]
fn compute_impact_returns_empty_when_no_files_changed() {
    let diff = diff_with_created(vec![verified_claim_with_impacts("billing.refunds", &["a.rs"])]);

    assert!(compute_impact(&diff, &[]).is_empty());
}

#[test]
fn compute_impact_returns_empty_when_no_overlap() {
    let diff = diff_with_created(vec![verified_claim_with_impacts("billing.refunds", &["a.rs"])]);

    assert!(compute_impact(&diff, &[rel("b.rs")]).is_empty());
}

#[test]
fn compute_impact_sorts_overlapping_paths_ascending() {
    let diff = diff_with_created(vec![verified_claim_with_impacts("billing.refunds", &["z.rs", "a.rs", "m.rs"])]);

    let impacted = compute_impact(&diff, &[rel("m.rs"), rel("z.rs"), rel("a.rs"), rel("other.rs")]);

    assert_eq!(impacted.len(), 1);
    assert_eq!(impacted[0].paths, vec!["a.rs", "m.rs", "z.rs"]);
}

#[test]
fn compute_impact_sorts_results_by_object_id() {
    let diff = diff_with_created(vec![
        verified_claim_with_impacts("zz.late", &["a.rs"]),
        verified_claim_with_impacts("aa.early", &["a.rs"]),
    ]);

    let impacted = compute_impact(&diff, &[rel("a.rs")]);

    let ids: Vec<&str> = impacted.iter().map(|i| i.id.as_str()).collect();
    assert_eq!(ids, vec!["aa.early", "zz.late"]);
}

#[test]
fn compute_impact_ignores_non_verified_claim_even_when_impacts_match() {
    let mut node = test_node("billing.refunds", "sha256:n");
    node.status = Some("draft".to_string());
    node.impacts = vec!["a.rs".to_string()];

    let diff = diff_with_created(vec![node]);

    assert!(compute_impact(&diff, &[rel("a.rs")]).is_empty());
}

#[test]
fn compute_impact_includes_accepted_decision_intersection() {
    let mut node = test_node("billing.policy", "sha256:n");
    node.kind = "decision".to_string();
    node.status = Some("accepted".to_string());
    node.impacts = vec!["a.rs".to_string()];

    let diff = diff_with_created(vec![node]);

    let impacted = compute_impact(&diff, &[rel("a.rs")]);
    assert_eq!(impacted.len(), 1);
    assert_eq!(impacted[0].id, "billing.policy");
}

#[test]
fn compute_impact_ignores_proposed_decision() {
    let mut node = test_node("billing.policy", "sha256:n");
    node.kind = "decision".to_string();
    node.status = Some("proposed".to_string());
    node.impacts = vec!["a.rs".to_string()];

    let diff = diff_with_created(vec![node]);

    assert!(compute_impact(&diff, &[rel("a.rs")]).is_empty());
}

#[test]
fn compute_impact_uses_head_side_of_changed_entries() {
    let mut base = test_node("billing.refunds", "sha256:base");
    base.status = Some("verified".to_string());
    let mut head = test_node("billing.refunds", "sha256:head");
    head.status = Some("verified".to_string());
    head.impacts = vec!["a.rs".to_string()];

    let diff = diff_with_changed(vec![(base, head)]);

    let impacted = compute_impact(&diff, &[rel("a.rs")]);
    assert_eq!(impacted.len(), 1);
    assert_eq!(impacted[0].id, "billing.refunds");
}

#[test]
fn compute_impact_ignores_deleted_objects() {
    let mut base = test_node("billing.refunds", "sha256:base");
    base.status = Some("verified".to_string());
    base.impacts = vec!["a.rs".to_string()];

    let diff = ObjectDiff::compute(&[base], &[]);

    assert!(compute_impact(&diff, &[rel("a.rs")]).is_empty());
}

#[test]
fn impacted_objects_flags_verified_claim_on_impacts_path() {
    let claim = verified_claim_with_impacts("billing.refunds", &["crates/billing/src/refund.rs"]);

    let impacted = impacted_objects(&[&claim], &[rel("crates/billing/src/refund.rs")]);

    assert_eq!(impacted.len(), 1);
    assert_eq!(impacted[0].node.id, "billing.refunds");
    assert_eq!(impacted[0].reasons, vec![hit("crates/billing/src/refund.rs", ImpactReasonKind::ImpactsPath, None)]);
}

#[test]
fn impacted_objects_empty_changed_set_returns_empty() {
    let claim = verified_claim_with_impacts("billing.refunds", &["a.rs"]);

    assert!(impacted_objects(&[&claim], &[]).is_empty());
}

#[test]
fn impacted_objects_flags_inline_source_code_and_test_evidence_paths() {
    let mut claim = test_node("billing.consume", "sha256:n");
    claim.status = Some("verified".to_string());
    claim.evidence = vec![
        GraphEvidence::inline("source_code", "src/credits.rs"),
        GraphEvidence::inline("test", "tests/credits.rs"),
        GraphEvidence::inline("human_review", "src/credits.rs"),
        GraphEvidence::inline("test", "cargo test credits"),
    ];

    let impacted = impacted_objects(&[&claim], &[rel("src/credits.rs"), rel("tests/credits.rs")]);

    assert_eq!(impacted.len(), 1);
    assert_eq!(
        impacted[0].reasons,
        vec![
            hit("src/credits.rs", ImpactReasonKind::EvidencePath, None),
            hit("tests/credits.rs", ImpactReasonKind::EvidencePath, None),
        ]
    );
}

#[test]
fn impacted_objects_resolves_object_ref_evidence_via_source_path() {
    let mut claim = test_node("billing.consume", "sha256:n");
    claim.status = Some("verified".to_string());
    claim.evidence = vec![
        GraphEvidence::object_ref("source_code", "billing.consume-use-case"),
        GraphEvidence::object_ref("source_code", "billing.missing-source"),
        GraphEvidence::object_ref("source_code", "billing.url-source"),
    ];
    let source = source_node("billing.consume-use-case", Some("src/consume.use-case.ts"));
    let url_source = source_node("billing.url-source", None);

    let impacted = impacted_objects(&[&claim, &source, &url_source], &[rel("src/consume.use-case.ts")]);

    assert_eq!(impacted.len(), 1);
    assert_eq!(impacted[0].node.id, "billing.consume");
    assert_eq!(
        impacted[0].reasons,
        vec![hit("src/consume.use-case.ts", ImpactReasonKind::EvidencePath, Some("billing.consume-use-case"))]
    );
}

#[test]
fn impacted_objects_excludes_non_verified_subjects() {
    let mut draft_claim = verified_claim_with_impacts("billing.draft", &["a.rs"]);
    draft_claim.status = Some("draft".to_string());

    let mut proposed_decision = verified_claim_with_impacts("billing.proposed", &["a.rs"]);
    proposed_decision.kind = "decision".to_string();
    proposed_decision.status = Some("proposed".to_string());

    let mut constraint = verified_claim_with_impacts("security.constraint", &["a.rs"]);
    constraint.kind = "constraint".to_string();

    let mut draft_with_evidence = test_node("billing.draft-evidence", "sha256:n");
    draft_with_evidence.evidence = vec![GraphEvidence::inline("source_code", "a.rs")];

    let impacted = impacted_objects(&[&draft_claim, &proposed_decision, &constraint, &draft_with_evidence], &[rel("a.rs")]);

    assert!(impacted.is_empty());
}

#[test]
fn impacted_objects_same_path_in_impacts_and_evidence_yields_two_reasons_one_record() {
    let mut claim = verified_claim_with_impacts("billing.refunds", &["src/refund.rs"]);
    claim.evidence = vec![GraphEvidence::inline("source_code", "src/refund.rs"), GraphEvidence::inline("source_code", "src/refund.rs")];

    let impacted = impacted_objects(&[&claim], &[rel("src/refund.rs")]);

    assert_eq!(impacted.len(), 1);
    assert_eq!(
        impacted[0].reasons,
        vec![
            hit("src/refund.rs", ImpactReasonKind::ImpactsPath, None),
            hit("src/refund.rs", ImpactReasonKind::EvidencePath, None),
        ]
    );
}

#[test]
fn impacted_objects_sorts_records_by_id_and_reasons_by_path_then_kind() {
    let late = verified_claim_with_impacts("zz.late", &["a.rs"]);
    let mut early = verified_claim_with_impacts("aa.early", &["b.rs", "a.rs"]);
    early.evidence = vec![GraphEvidence::inline("test", "a.rs")];

    let impacted = impacted_objects(&[&late, &early], &[rel("a.rs"), rel("b.rs")]);

    let ids: Vec<&str> = impacted.iter().map(|h| h.node.id.as_str()).collect();
    assert_eq!(ids, vec!["aa.early", "zz.late"]);
    assert_eq!(
        impacted[0].reasons,
        vec![
            hit("a.rs", ImpactReasonKind::ImpactsPath, None),
            hit("a.rs", ImpactReasonKind::EvidencePath, None),
            hit("b.rs", ImpactReasonKind::ImpactsPath, None),
        ]
    );
}

#[test]
fn impacted_objects_includes_accepted_decision_via_evidence() {
    let mut decision = test_node("billing.use-ledger", "sha256:n");
    decision.kind = "decision".to_string();
    decision.status = Some("accepted".to_string());
    decision.evidence = vec![GraphEvidence::object_ref("source_code", "billing.src")];
    let source = source_node("billing.src", Some("src/ledger.rs"));

    let impacted = impacted_objects(&[&decision, &source], &[rel("src/ledger.rs")]);

    assert_eq!(impacted.len(), 1);
    assert_eq!(impacted[0].node.id, "billing.use-ledger");
}

#[test]
fn changed_object_referenced_so_dead_code_lint_is_satisfied() {
    let _ = std::mem::size_of::<ChangedObject>();
}
