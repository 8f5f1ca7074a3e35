use adoc_core::obligation::ProofObligation;

fn ob(id: &str, reason: &str, evidence: &[&str]) -> ProofObligation {
    ProofObligation {
        object_id: id.to_string(),
        reason: reason.to_string(),
        required_evidence: evidence.iter().map(|e| (*e).to_string()).collect(),
    }
}

#[test]
fn merge_dedup_sorted_returns_empty_for_empty_input() {
    let out = ProofObligation::merge_dedup_sorted(Vec::new());
    assert!(out.is_empty());
}

#[test]
fn merge_dedup_sorted_sorts_by_object_id_then_reason() {
    let out = ProofObligation::merge_dedup_sorted(vec![
        ob("billing.tax", "re-verify", &["source"]),
        ob("billing.credits", "stale verified claim", &[]),
        ob("billing.credits", "re-verify", &["source"]),
    ]);

    assert_eq!(
        out.iter().map(|o| (o.object_id.as_str(), o.reason.as_str())).collect::<Vec<_>>(),
        vec![
            ("billing.credits", "re-verify"),
            ("billing.credits", "stale verified claim"),
            ("billing.tax", "re-verify"),
        ]
    );
}

#[test]
fn merge_dedup_sorted_drops_later_duplicates_keeping_first_required_evidence() {
    let out = ProofObligation::merge_dedup_sorted(vec![
        ob("billing.credits", "re-verify", &["source", "test"]),
        ob("billing.credits", "re-verify", &["reviewed_by"]),
    ]);

    assert_eq!(out.len(), 1);
    assert_eq!(out[0].required_evidence, vec!["source", "test"]);
}

#[test]
fn merge_dedup_sorted_preserves_distinct_reasons_for_same_object() {
    let out = ProofObligation::merge_dedup_sorted(vec![
        ob("billing.credits", "re-verify", &["source"]),
        ob("billing.credits", "owner reassignment", &[]),
    ]);

    assert_eq!(out.len(), 2);
    assert_eq!(out[0].reason, "owner reassignment");
    assert_eq!(out[1].reason, "re-verify");
}

#[test]
fn merge_dedup_sorted_is_idempotent_on_its_output() {
    let once = ProofObligation::merge_dedup_sorted(vec![
        ob("b.b", "x", &[]),
        ob("a.a", "y", &["e"]),
        ob("a.a", "y", &["f"]),
    ]);
    let twice = ProofObligation::merge_dedup_sorted(once.clone());
    assert_eq!(once, twice);
}
