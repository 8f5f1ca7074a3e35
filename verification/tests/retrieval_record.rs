use adoc_core::graph::{FieldMap, GraphEvidence, GraphKnowledgeObjectNode, GraphRelations, GraphSourceSpan};
use adoc_core::retrieval::ranking::{merge_pinned_then_scored, pinned_candidate_ids};
use adoc_core::retrieval::record::{RetrievalRecord, RetrievalRelations, SearchMode};

fn strings(items: &[&str]) -> Vec<String> {
    items.iter().map(|s| s.to_string()).collect()
}

#[test]
fn retrieval_record_projects_graph_object_metadata() {
    let object = GraphKnowledgeObjectNode {
        id: "billing.credits".to_string(),
        kind: "claim".to_string(),
        status: Some("verified".to_string()),
        content_hash: "sha256:content".to_string(),
        body: "Credits are verified.".to_string(),
        page_id: "team.billing".to_string(),
        source_span: GraphSourceSpan { path: "billing.adoc".to_string(), line: 5, column: 1 },
        source_binding: None,
        fields: FieldMap::from_pairs(vec![
            ("owner".to_string(), "team-billing".to_string()),
            ("status".to_string(), "domain-extra".to_string()),
            ("verified_at".to_string(), "2026-05-05".to_string()),
        ]),
        relations: GraphRelations {
            depends_on: vec!["billing.ledger".to_string()],
            supersedes: Vec::new(),
            related_to: Vec::new(),
        },
        impacts: Vec::new(),
        approved_by: Vec::new(),
        allowed_actions: Vec::new(),
        forbidden_actions: Vec::new(),
        contradiction_claims: Vec::new(),
        evidence: vec![
            GraphEvidence { kind: "reviewed_by".to_string(), value: Some("qa-team".to_string()), reference: None },
            GraphEvidence { kind: "source".to_string(), value: Some("ledger".to_string()), reference: None },
            GraphEvidence { kind: "test".to_string(), value: Some("cargo test billing".to_string()), reference: None },
        ],
        effective_status: None,
        effective_reason: None,
    };

    let record = RetrievalRecord::from_object(&object);

    assert_eq!(record.owner.as_deref(), Some("team-billing"));
    assert_eq!(record.verified_at.as_deref(), Some("2026-05-05"));
    assert_eq!(record.evidence.get("source").map(String::as_str), Some("ledger"));
    assert_eq!(record.evidence.get("reviewed_by").map(String::as_str), Some("qa-team"));
    assert_eq!(record.fields.get("status").map(String::as_str), Some("domain-extra"));
    assert!(record.fields.get("owner").is_none());
    assert_eq!(record.relations.depends_on, ["billing.ledger"]);
    assert_eq!(record.source.line, 5);
}

#[test]
fn relation_targets_are_distinct_and_sorted() {
    let relations = RetrievalRelations {
        depends_on: strings(&["b.two", "a.one"]),
        supersedes: strings(&["c.three", "a.one"]),
        related_to: strings(&["b.two"]),
    };
    assert!(!relations.is_empty());
    assert_eq!(relations.targets(), strings(&["a.one", "b.two", "c.three"]));
    assert!(RetrievalRelations::default().is_empty());
    assert_eq!(SearchMode::Hybrid.as_str(), "hybrid");
}

#[test]
fn pins_id_prefix_matches_by_length_then_lex() {
    let pinned = pinned_candidate_ids(
        "billing.credit",
        &["support.heavy", "billing.credits.b", "billing.credit", "billing.credits.a", "billing.credits"],
    );
    assert_eq!(pinned, strings(&["billing.credit", "billing.credits", "billing.credits.a", "billing.credits.b"]));
    assert!(pinned_candidate_ids("", &["billing.credit"]).is_empty());
}

#[test]
fn pinned_ids_ride_above_the_scored_budget() {
    let merged = merge_pinned_then_scored(
        strings(&["billing.credit", "billing.credit"]),
        strings(&["billing.credit", "guides.page#block-0001", "zeta.other"]),
        1,
    );
    assert_eq!(merged, strings(&["billing.credit", "guides.page#block-0001"]));
    assert_eq!(merge_pinned_then_scored(Vec::new(), strings(&["a.x", "a.x", "b.y"]), 5), strings(&["a.x", "b.y"]));
    assert!(merge_pinned_then_scored(Vec::new(), strings(&["a.x"]), 0).is_empty());
}
