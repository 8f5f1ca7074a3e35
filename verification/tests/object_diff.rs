use adoc_core::graph::{FieldMap, GraphKnowledgeObjectNode, GraphRelations, GraphSourceSpan};
use adoc_core::review::object_diff::ObjectDiff;

fn test_node(id: &str, content_hash: &str) -> GraphKnowledgeObjectNode {
    GraphKnowledgeObjectNode {
        id: id.to_string(),
        kind: "claim".to_string(),
        content_hash: content_hash.to_string(),
        status: Some("draft".to_string()),
        body: format!("{id} body"),
        page_id: "team.billing".to_string(),
        source_span: GraphSourceSpan { path: "docs/billing.adoc".to_string(), line: 1, column: 1 },
        source_binding: None,
        fields: FieldMap::new(),
        relations: GraphRelations::default(),
        impacts: Vec::new(),
        approved_by: Vec::new(),
        allowed_actions: Vec::new(),
        forbidden_actions: Vec::new(),
        contradiction_claims: Vec::new(),
        evidence: Vec::new(),
        effective_status: None,
        effective_reason: None,
    }
}

#[test]
fn empty_inputs_produce_empty_diff() {
    let diff = ObjectDiff::compute(&[], &[]);

    assert!(diff.is_empty());
    assert!(diff.created().is_empty());
    assert!(diff.deleted().is_empty());
    assert!(diff.changed().is_empty());
}

#[test]
fn identical_inputs_produce_empty_diff() {
    let nodes = vec![test_node("billing.credits", "sha256:credits"), test_node("billing.refunds", "sha256:refunds")];

    let diff = ObjectDiff::compute(&nodes, &nodes);

    assert!(diff.is_empty(), "compute(g, g) must be empty");
}

#[test]
fn created_objects_appear_only_in_head() {
    let base = vec![test_node("billing.credits", "sha256:credits")];
    let head = vec![test_node("billing.credits", "sha256:credits"), test_node("billing.holds", "sha256:holds")];

    let diff = ObjectDiff::compute(&base, &head);

    assert_eq!(diff.created().len(), 1);
    assert_eq!(diff.created()[0].id, "billing.holds");
    assert!(diff.deleted().is_empty());
    assert!(diff.changed().is_empty());
}

#[test]
fn deleted_objects_appear_only_in_base() {
    let base = vec![test_node("billing.credits", "sha256:credits"), test_node("billing.legacy-credits", "sha256:legacy")];
    let head = vec![test_node("billing.credits", "sha256:credits")];

    let diff = ObjectDiff::compute(&base, &head);

    assert_eq!(diff.deleted().len(), 1);
    assert_eq!(diff.deleted()[0].id, "billing.legacy-credits");
    assert!(diff.created().is_empty());
    assert!(diff.changed().is_empty());
}

#[test]
fn changed_objects_have_different_content_hash_on_each_side() {
    let base = vec![test_node("billing.credits", "sha256:base-credits")];
    let head = vec![test_node("billing.credits", "sha256:head-credits")];

    let diff = ObjectDiff::compute(&base, &head);

    assert_eq!(diff.changed().len(), 1);
    let entry = &diff.changed()[0];
    assert_eq!(entry.id, "billing.credits");
    assert_eq!(entry.base.content_hash, "sha256:base-credits");
    assert_eq!(entry.head.content_hash, "sha256:head-credits");
}

#[test]
fn full_diff_aggregates_created_deleted_and_changed_in_sorted_order() {
    let base = vec![
        test_node("billing.credits", "sha256:base-credits"),
        test_node("billing.refunds", "sha256:refunds"),
        test_node("billing.legacy-credits", "sha256:legacy"),
    ];
    let head = vec![
        test_node("billing.credits", "sha256:head-credits"),
        test_node("billing.refunds", "sha256:refunds"),
        test_node("billing.holds", "sha256:holds"),
    ];

    let diff = ObjectDiff::compute(&base, &head);

    assert_eq!(diff.created().len(), 1);
    assert_eq!(diff.created()[0].id, "billing.holds");

    assert_eq!(diff.deleted().len(), 1);
    assert_eq!(diff.deleted()[0].id, "billing.legacy-credits");

    assert_eq!(diff.changed().len(), 1);
    assert_eq!(diff.changed()[0].id, "billing.credits");
    assert_ne!(diff.changed()[0].base.content_hash, diff.changed()[0].head.content_hash);
}

#[test]
fn diff_arrays_are_sorted_by_object_id_regardless_of_input_order() {
    let base = vec![test_node("z.b", "sha256:zb"), test_node("a.x", "sha256:ax"), test_node("m.y", "sha256:my")];

    let diff = ObjectDiff::compute(&base, &[]);

    let ids: Vec<&str> = diff.deleted().iter().map(|node| node.id.as_str()).collect();
    assert_eq!(ids, vec!["a.x", "m.y", "z.b"]);
}

#[test]
fn repeated_object_id_resolves_to_its_last_occurrence() {
    let base = vec![test_node("billing.credits", "sha256:one"), test_node("billing.credits", "sha256:two")];
    let head = vec![test_node("billing.credits", "sha256:two")];

    let diff = ObjectDiff::compute(&base, &head);

    assert!(diff.is_empty());
}
