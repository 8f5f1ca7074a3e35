use adoc_core::graph::{FieldMap, GraphEvidence, GraphKnowledgeObjectNode, GraphRelations, GraphSourceSpan};
use adoc_core::retrieval::lexical::{indexed_tokens, tokenize, LexicalIndex};

fn object(id: &str, kind: &str, owner: Option<&str>, body: &str) -> GraphKnowledgeObjectNode {
    let mut fields = FieldMap::new();
    if let Some(owner) = owner {
        fields.insert("owner".to_string(), owner.to_string());
    }
    GraphKnowledgeObjectNode {
        id: id.to_string(),
        kind: kind.to_string(),
        content_hash: format!("sha256:{id}"),
        status: None,
        body: body.to_string(),
        page_id: "team.page".to_string(),
        source_span: GraphSourceSpan { path: "docs/team.adoc".to_string(), line: 1, column: 1 },
        source_binding: None,
        fields,
        relations: GraphRelations::default(),
        impacts: Vec::new(),
        approved_by: Vec::new(),
        allowed_actions: Vec::new(),
        forbidden_actions: Vec::new(),
        contradiction_claims: Vec::new(),
        evidence: Vec::new(),
        effective_status: None,
        effective_reason: None,
    }
}

fn strings(items: &[&str]) -> Vec<String> {
    items.iter().map(|s| s.to_string()).collect()
}

#[test]
fn tokenize_splits_on_non_alphanumerics_and_lowercases() {
    assert_eq!(tokenize("Credits, credits LEDGER!"), strings(&["credits", "credits", "ledger"]));
    assert_eq!(tokenize(" ... \n\t "), Vec::<String>::new());
    assert_eq!(tokenize("Größe2x"), strings(&["größe2x"]));
}

#[test]
fn indexed_tokens_cover_body_id_kind_owner_and_evidence() {
    let mut o = object("finance.audit", "decision", Some("team-ledger"), "Monthly close");
    o.evidence.push(GraphEvidence { kind: "source".to_string(), value: Some("approved refunds".to_string()), reference: None });
    assert_eq!(
        indexed_tokens(&o),
        strings(&["monthly", "close", "finance", "audit", "decision", "team", "ledger", "approved", "refunds"])
    );
}

#[test]
fn lexical_index_counts_terms_documents_and_tokens() {
    let index = LexicalIndex::from_objects(&[
        object("billing.credits", "claim", None, "credits credits credits ledger"),
        object("billing.refunds", "claim", None, "refunds use manual review"),
    ]);
    assert_eq!(index.documents.len(), 2);
    let first = &index.documents[0];
    assert_eq!(first.id, "billing.credits");
    assert_eq!(first.token_count, 7);
    let credits = first.term_frequencies.iter().find(|t| t.term == "credits").expect("credits counted");
    assert_eq!(credits.count, 4);
    let claim = index.document_frequencies.iter().find(|t| t.term == "claim").expect("claim counted");
    assert_eq!(claim.count, 2);
    let ledger = index.document_frequencies.iter().find(|t| t.term == "ledger").expect("ledger counted");
    assert_eq!(ledger.count, 1);
    assert_eq!(index.total_tokens, 7 + 7);
    let terms: Vec<&str> = index.document_frequencies.iter().map(|t| t.term.as_str()).collect();
    let mut sorted = terms.clone();
    sorted.sort();
    assert_eq!(terms, sorted);
}
