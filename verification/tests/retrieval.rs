use adoc_core::artifact::{AgentJsonObject, AgentJsonRelations, AgentJsonSourceSpan};
use adoc_core::diagnostic::DiagnosticCode;
use adoc_core::graph::{FieldMap, GraphEvidence, GraphKnowledgeObjectNode, GraphRelations, GraphSourceSpan};
use adoc_core::retrieval::filter::SearchFilters;
use adoc_core::retrieval::lookup_index::LookupIndex;
use adoc_core::retrieval::RetrievalPolicy;
use adoc_core::retrieval::metadata::{embedding_input, evidence_fields, generic_fields, indexed_field_values, owner, verified_at};

fn agent_object(id: &str) -> AgentJsonObject {
    AgentJsonObject {
        id: id.to_string(),
        kind: "claim".to_string(),
        status: Some("draft".to_string()),
        body: "Body.".to_string(),
        page_id: "team.page".to_string(),
        source_span: AgentJsonSourceSpan { path: "docs/page.adoc".to_string(), line: 1, column: 1 },
        fields: FieldMap::new(),
        relations: AgentJsonRelations::default(),
    }
}

fn object(
    kind: &str,
    id: &str,
    status: Option<&str>,
    body: &str,
    fields: FieldMap,
    evidence: Vec<GraphEvidence>,
) -> GraphKnowledgeObjectNode {
    GraphKnowledgeObjectNode {
        id: id.to_string(),
        kind: kind.to_string(),
        content_hash: format!("sha256:{id}"),
        status: status.map(str::to_string),
        body: body.to_string(),
        page_id: "team.guide".to_string(),
        source_span: GraphSourceSpan { path: "guide.adoc".to_string(), line: 1, column: 1 },
        source_binding: None,
        fields,
        relations: GraphRelations::default(),
        impacts: Vec::new(),
        approved_by: Vec::new(),
        allowed_actions: Vec::new(),
        forbidden_actions: Vec::new(),
        contradiction_claims: Vec::new(),
        evidence,
        effective_status: None,
        effective_reason: None,
    }
}

fn fields(pairs: &[(&str, &str)]) -> FieldMap {
    FieldMap::from_pairs(pairs.iter().map(|(k, v)| (k.to_string(), v.to_string())).collect())
}

#[test]
fn lookup_index_returns_object_by_id() {
    let objects = vec![agent_object("billing.one"), agent_object("billing.two")];
    let index = LookupIndex::build(&objects).expect("ids are unique");

    let found = index.get(&objects, "billing.two").expect("object found");

    assert_eq!(found.id, "billing.two");
}

#[test]
fn lookup_index_reports_duplicate_ids() {
    let objects = vec![agent_object("billing.same"), agent_object("billing.same")];

    let diagnostics = LookupIndex::build(&objects).expect_err("duplicate id must fail");

    assert_eq!(diagnostics.len(), 1);
    assert_eq!(diagnostics[0].code, DiagnosticCode::IdDuplicateInArtifact);
    assert_eq!(diagnostics[0].object_id.as_deref(), Some("billing.same"));
}

#[test]
fn canonical_embedding_input_uses_unknown_metadata_defaults() {
    let object = object("glossary", "billing.credits", None, "Credits balance.", FieldMap::new(), Vec::new());

    assert_eq!(
        embedding_input(&object),
        "glossary: Credits balance.\n[id: billing.credits] [status: unknown] [owner: unknown]"
    );
}

#[test]
fn canonical_embedding_input_normalizes_line_endings_and_trims_edges() {
    let object = object("claim", "billing.newline", Some("plain"), " First line\r\nSecond line\r ", FieldMap::new(), Vec::new());

    assert_eq!(
        embedding_input(&object),
        "claim: First line\nSecond line\n[id: billing.newline] [status: plain] [owner: unknown]"
    );
}

#[test]
fn evidence_fields_extracts_inline_values_from_evidence_array() {
    let ev = vec![
        GraphEvidence::inline("source_code", "ledger"),
        GraphEvidence::inline("test", "cargo test billing"),
        GraphEvidence::inline("human_review", "qa-team"),
    ];
    let object = object("claim", "billing.credits", None, "", FieldMap::new(), ev);

    let evidence = evidence_fields(&object);
    assert_eq!(evidence.get("source_code").map(String::as_str), Some("ledger"));
    assert_eq!(evidence.get("test").map(String::as_str), Some("cargo test billing"));
    assert_eq!(evidence.get("human_review").map(String::as_str), Some("qa-team"));
}

// ---- further cases ----

#[test]
fn canonical_embedding_input_uses_status_owner_and_preserves_reference_markers() {
    let object = object(
        "claim",
        "billing.refunds",
        Some("draft"),
        "See [[billing.ledger]]",
        fields(&[("owner", "team-billing")]),
        Vec::new(),
    );
    assert_eq!(
        embedding_input(&object),
        "claim: See [[billing.ledger]]\n[id: billing.refunds] [status: draft] [owner: team-billing]"
    );
}

#[test]
fn a_lone_carriage_return_becomes_a_newline() {
    let object = object("claim", "billing.cr", None, "\r\r\nA\rB\n\n", FieldMap::new(), Vec::new());
    assert_eq!(embedding_input(&object), "claim: A\nB\n[id: billing.cr] [status: unknown] [owner: unknown]");
}

#[test]
fn generic_fields_excludes_owner_and_verified_at_only() {
    let fields = fields(&[("owner", "team-billing"), ("verified_at", "2026-05-05"), ("audience", "support")]);
    let object = object("claim", "billing.x", None, "", fields, Vec::new());
    let generic = generic_fields(&object.fields);

    assert!(generic.get("owner").is_none());
    assert!(generic.get("verified_at").is_none());
    assert_eq!(generic.get("audience").map(String::as_str), Some("support"));
    assert_eq!(owner(&object), Some("team-billing"));
    assert_eq!(verified_at(&object), Some("2026-05-05"));
}

#[test]
fn indexed_field_values_includes_owner_and_evidence_values() {
    let ev = vec![
        GraphEvidence::inline("source_code", "ledger"),
        GraphEvidence::object_ref("source", "billing.source"),
        GraphEvidence::inline("test", "integration"),
    ];
    let object = object("claim", "billing.x", None, "", fields(&[("owner", "team-billing")]), ev);
    let values = indexed_field_values(&object);

    assert_eq!(values, vec!["team-billing", "ledger", "integration"]);
}

#[test]
fn a_later_evidence_entry_of_a_kind_wins_and_references_are_skipped() {
    let ev = vec![
        GraphEvidence::inline("test", "unit"),
        GraphEvidence::object_ref("test", "billing.suite"),
        GraphEvidence::inline("test", "integration"),
    ];
    let object = object("claim", "billing.x", None, "", FieldMap::new(), ev);
    assert_eq!(evidence_fields(&object).get("test").map(String::as_str), Some("integration"));
}

#[test]
fn lookup_misses_unknown_ids_and_reports_every_repeat() {
    let objects = vec![agent_object("a.one"), agent_object("a.two"), agent_object("a.one"), agent_object("a.one")];
    let diagnostics = LookupIndex::build(&objects).expect_err("repeats fail");
    assert_eq!(diagnostics.len(), 2);
    assert_eq!(diagnostics[1].message, "duplicate Object ID `a.one` in agent artifact");
    let unique = vec![agent_object("a.one"), agent_object("a.two")];
    let index = LookupIndex::build(&unique).expect("unique");
    assert!(index.get(&unique, "a.three").is_none());
    assert_eq!(index.get(&unique, "a.one").expect("found").id, "a.one");
}

#[test]
fn search_filters_match_case_insensitive_substrings() {
    let claim = object("Claim", "billing.credits", Some("Verified"), "", fields(&[("owner", "Team-Billing")]), Vec::new());
    let filters = SearchFilters { kind: Some("CLAIM".to_string()), owner: Some("billing".to_string()), ..SearchFilters::default() };
    assert!(filters.matches(&claim));
    assert!(filters.constrains_objects());
    let status = SearchFilters { status: Some("verif".to_string()), ..SearchFilters::default() };
    assert!(status.matches(&claim));
    let path = SearchFilters { source_path: Some("other.adoc".to_string()), ..SearchFilters::default() };
    assert!(!path.matches(&claim));
    assert!(!SearchFilters::default().constrains_objects());
    let missing_status = object("claim", "billing.x", None, "", FieldMap::new(), Vec::new());
    assert!(!status.matches(&missing_status), "a status filter needs a status");
}

#[test]
fn unmatched_filters_are_reported_in_field_order() {
    let objects = vec![object("claim", "billing.credits", None, "", FieldMap::new(), Vec::new())];
    let filters = SearchFilters {
        kind: Some("glossary".to_string()),
        status: None,
        owner: Some("nobody".to_string()),
        source_path: Some("guide".to_string()),
        ..SearchFilters::default()
    };
    let diagnostics = filters.validate_against(&objects);
    assert_eq!(diagnostics.len(), 2);
    assert_eq!(diagnostics[0].code, DiagnosticCode::SearchInvalidFilter);
    assert_eq!(diagnostics[0].message, "Search filter `kind=glossary` did not match any object field.");
    assert_eq!(diagnostics[1].message, "Search filter `owner=nobody` did not match any object field.");
    assert!(SearchFilters::default().validate_against(&[]).is_empty());
}

fn policy(audience: &str, allowed: &[&str], excluded: &[&str]) -> RetrievalPolicy {
    RetrievalPolicy {
        audience: audience.to_string(),
        allowed_visibilities: allowed.iter().map(|s| s.to_string()).collect(),
        excluded_object_ids: excluded.iter().map(|s| s.to_string()).collect(),
    }
}

#[test]
fn retrieval_policy_validates_audience_visibilities_and_exclusions() {
    assert!(policy("internal", &["public", "internal"], &["billing.credits"]).validate().is_ok());
    assert_eq!(
        policy("secret", &["public"], &[]).validate().expect_err("unknown audience").code,
        DiagnosticCode::RetrievalAudienceUnresolved
    );
    assert_eq!(
        policy("public", &["Public"], &[]).validate().expect_err("non-canonical").code,
        DiagnosticCode::RetrievalPolicyInvalid
    );
    assert_eq!(
        policy("public", &["public"], &["Not An Id"]).validate().expect_err("invalid id").code,
        DiagnosticCode::RetrievalPolicyInvalid
    );
}

#[test]
fn retrieval_policy_permits_within_the_audience_ceiling() {
    assert_eq!(RetrievalPolicy::permits(None, "billing.credits", None).expect("resolves"), true);
    assert_eq!(RetrievalPolicy::permits(None, "billing.credits", Some("internal")).expect("resolves"), false);
    let p = policy("internal", &["public", "internal", "restricted"], &["billing.hidden"]);
    assert!(RetrievalPolicy::permits(Some(&p), "billing.credits", Some("internal")).expect("resolves"));
    assert!(!RetrievalPolicy::permits(Some(&p), "billing.credits", Some("restricted")).expect("resolves"));
    assert!(!RetrievalPolicy::permits(Some(&p), "billing.hidden", None).expect("resolves"));
    let narrow = policy("restricted", &["public"], &[]);
    assert!(!RetrievalPolicy::permits(Some(&narrow), "billing.credits", Some("internal")).expect("resolves"));
    assert_eq!(
        RetrievalPolicy::permits(Some(&p), "billing.credits", Some("Internal")).expect_err("unresolvable").code,
        DiagnosticCode::RetrievalVisibilityUnavailable
    );
}
