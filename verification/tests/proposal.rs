use adoc_core::diagnostic::DiagnosticCode;
use adoc_core::graph::FieldMap;
use adoc_core::patch::{PatchDocument, PatchIntent, PatchOperation, PlacementHint};
use adoc_core::proposal::{
    ExactRevision, ParsedProposalPatch, ProposalBindings, ProposalChangeRequest, ProposalPatchInput, ProposalRecord,
    ProposalRecordError, PROPOSAL_SCHEMA_VERSION,
};

fn digest(c: char) -> String {
    format!("sha256:{}", c.to_string().repeat(64))
}

fn bindings() -> ProposalBindings {
    ProposalBindings {
        base_revision: ExactRevision { system: "git".to_string(), value: "a".repeat(40) },
        head_revision: ExactRevision { system: "git".to_string(), value: "b".repeat(40) },
        change_request: ProposalChangeRequest { system: "github".to_string(), id: "42".to_string() },
        assessment_digest: digest('1'),
        semantic_context_digest: digest('2'),
        semantic_assessment_digest: digest('3'),
    }
}

fn fields(pairs: &[(&str, &str)]) -> FieldMap {
    FieldMap::from_pairs(pairs.iter().map(|(k, v)| (k.to_string(), v.to_string())).collect())
}

fn parsed(target: &str, intent: PatchIntent, bytes: &str, patch_digest: String) -> ParsedProposalPatch {
    ParsedProposalPatch {
        input: ProposalPatchInput {
            finding_id: format!("finding-{target}"),
            placement_path: "docs/billing.adoc".to_string(),
            page_id: "billing.page".to_string(),
            patch_bytes: bytes.as_bytes().to_vec(),
        },
        document: PatchDocument { target: target.to_string(), intent, reason: "update".to_string(), proposer: None },
        canonical_bytes: bytes.as_bytes().to_vec(),
        patch_digest,
    }
}

fn update(base: char, pairs: &[(&str, &str)]) -> PatchIntent {
    PatchIntent::UpdateFields { base_hash: digest(base), fields: fields(pairs) }
}

fn replace(base: char) -> PatchIntent {
    PatchIntent::ReplaceBody { base_hash: digest(base), body: "New body.".to_string() }
}

fn create(kind: &str, status: &str) -> PatchIntent {
    PatchIntent::CreateObject {
        kind: kind.to_string(),
        status: Some(status.to_string()),
        body: "Body.".to_string(),
        fields: FieldMap::new(),
        placement: PlacementHint { page_id: "billing.page".to_string(), after: None },
    }
}

fn error_of(result: Result<impl Sized, ProposalRecordError>) -> ProposalRecordError {
    match result {
        Err(error) => error,
        Ok(_) => panic!("expected a refusal"),
    }
}

#[test]
fn proposal_record_binds_first_edit_hash_and_orders_patches_by_digest() {
    let patches = vec![
        parsed("billing.credits", replace('e'), "{\"b\":1}\n", digest('f')),
        parsed("billing.credits", update('d', &[("status", "draft")]), "{\"a\":1}\n", digest('c')),
        parsed("billing.new", create("claim", "draft"), "{\"c\":1}\n", digest('a')),
    ];
    let prepared = ProposalRecord::prepare(bindings(), patches, None).ok().expect("valid proposal");
    let expected = format!("[\"{}\",\"{}\",\"{}\"]\n", digest('a'), digest('c'), digest('f'));
    assert_eq!(prepared.digest_input().as_slice(), expected.as_bytes());

    let record = prepared.finish(digest('9')).ok().expect("record");
    assert_eq!(record.schema_version(), PROPOSAL_SCHEMA_VERSION);
    assert_eq!(record.proposal_set_digest(), digest('9'));
    let order: Vec<&str> = record.patches().iter().map(|p| p.patch_digest()).collect();
    assert_eq!(order, vec![digest('a'), digest('c'), digest('f')]);
    assert_eq!(record.patches()[0].target(), "billing.new");
    assert_eq!(record.patches()[0].operation(), PatchOperation::CreateObject);
    assert_eq!(record.patches()[2].patch_bytes(), b"{\"b\":1}\n".to_vec());
    assert_eq!(record.content_bindings().len(), 1);
    assert_eq!(record.content_bindings()[0].object_id(), "billing.credits");
    assert_eq!(record.content_bindings()[0].content_hash(), digest('d'));
}

#[test]
fn proposal_record_refuses_authority_and_governance_changes() {
    let error = error_of(ProposalRecord::prepare(
        bindings(),
        vec![parsed("billing.credits", update('d', &[("status", "draft"), ("verified_at", "2026-01-01")]), "{}\n", digest('a'))],
        None,
    ));
    assert_eq!(
        error,
        ProposalRecordError::AuthorityRejected {
            target: "billing.credits".to_string(),
            reason: "field 'verified_at' carries authority".to_string()
        }
    );
    assert_eq!(error.diagnostic_code(), DiagnosticCode::ProposalRecordAuthorityRejected);

    let error = error_of(ProposalRecord::prepare(
        bindings(),
        vec![parsed("billing.credits", PatchIntent::Revoke { base_hash: digest('d') }, "{}\n", digest('a'))],
        None,
    ));
    assert_eq!(
        error.to_display_string(),
        "proposal patch for 'billing.credits' would mint authority: operation revoke changes governance state"
    );

    let error = error_of(ProposalRecord::prepare(
        bindings(),
        vec![parsed("billing.new", create("decision", "accepted"), "{}\n", digest('a'))],
        None,
    ));
    assert!(matches!(error, ProposalRecordError::AuthorityRejected { reason, .. }
        if reason == "create_object decision/accepted is outside the create-only floors"));

    let error = error_of(ProposalRecord::prepare(
        bindings(),
        vec![parsed("billing.credits", update('d', &[("status", "verified")]), "{}\n", digest('a'))],
        None,
    ));
    assert!(matches!(error, ProposalRecordError::AuthorityRejected { reason, .. }
        if reason == "update_fields status 'verified' is not a reviewable lifecycle"));
}

#[test]
fn proposal_record_requires_a_reviewable_status_and_distinct_hashes() {
    let error = error_of(ProposalRecord::prepare(
        bindings(),
        vec![parsed("billing.credits", replace('d'), "{}\n", digest('a'))],
        None,
    ));
    assert_eq!(
        error,
        ProposalRecordError::AuthorityRejected {
            target: "billing.credits".to_string(),
            reason: "an existing-object edit must set a reviewable status in update_fields".to_string()
        }
    );

    let error = error_of(ProposalRecord::prepare(
        bindings(),
        vec![
            parsed("billing.credits", update('d', &[("status", "draft")]), "{}\n", digest('a')),
            parsed("billing.credits", replace('d'), "[]\n", digest('b')),
        ],
        None,
    ));
    assert!(matches!(error, ProposalRecordError::PatchInvalid { message }
        if message.contains("must bind the content hash re-derived after update_fields")));

    let error = error_of(ProposalRecord::prepare(
        bindings(),
        vec![
            parsed("billing.credits", update('d', &[("status", "draft")]), "{}\n", digest('a')),
            parsed("billing.credits", update('e', &[("status", "open")]), "[]\n", digest('b')),
        ],
        None,
    ));
    assert_eq!(
        error.to_display_string(),
        "proposal patch is invalid: more than one update_fields patch for 'billing.credits' in one proposal set"
    );
}

#[test]
fn proposal_record_refuses_bad_inputs_in_check_order() {
    let mut bad = bindings();
    bad.change_request.id = " 42".to_string();
    bad.assessment_digest = "sha256:short".to_string();
    let error = error_of(ProposalRecord::prepare(bad, Vec::new(), None));
    assert_eq!(error, ProposalRecordError::BindingInvalid { field: "change_request.id".to_string() });
    assert_eq!(error.diagnostic_code(), DiagnosticCode::ProposalRecordBindingInvalid);

    let error = error_of(ProposalRecord::prepare(bindings(), Vec::new(), None));
    assert_eq!(error.to_display_string(), "proposal patch is invalid: a proposal record needs at least one patch");

    let mut patch = parsed("billing.new", create("claim", "draft"), "{}\n", digest('a'));
    patch.canonical_bytes = b"{ }\n".to_vec();
    let error = error_of(ProposalRecord::prepare(bindings(), vec![patch], None));
    assert!(matches!(error, ProposalRecordError::PatchInvalid { message }
        if message == "patch bytes for 'billing.new' are not sorted compact JSON with one trailing newline"));

    let error = error_of(ProposalRecord::prepare(
        bindings(),
        vec![
            parsed("billing.new", create("claim", "draft"), "{}\n", digest('a')),
            parsed("billing.other", create("task", "open"), "{}\n", digest('a')),
        ],
        None,
    ));
    assert_eq!(
        error,
        ProposalRecordError::PatchInvalid { message: "duplicate patch bytes in one proposal set".to_string() }
    );
}

#[test]
fn proposal_revision_must_supersede_another_digest() {
    let make = |supersedes: Option<String>| {
        ProposalRecord::prepare(
            bindings(),
            vec![parsed("billing.new", create("api", "draft"), "{}\n", digest('a'))],
            supersedes,
        )
        .ok()
        .expect("valid proposal")
    };
    let error = error_of(make(Some(digest('7'))).finish(digest('7')));
    assert_eq!(error, ProposalRecordError::RevisionUnchanged { proposal_set_digest: digest('7') });
    assert_eq!(error.diagnostic_code(), DiagnosticCode::ProposalRecordRevisionUnchanged);

    let error = error_of(make(Some("not-a-digest".to_string())).finish(digest('7')));
    assert_eq!(error, ProposalRecordError::BindingInvalid { field: "supersedes".to_string() });

    let record = make(Some(digest('6'))).finish(digest('7')).ok().expect("revision");
    assert_eq!(record.supersedes().map(String::as_str), Some(digest('6').as_str()));
}
