use adoc_core::graph::{
    FieldMap, GraphArtifactDocument, GraphKnowledgeObjectNode, GraphNode, GraphRelations, GraphRepositoryIdentity,
    GraphSourceSpan,
};
use adoc_core::managed::identity::WorkspaceId;
use adoc_core::managed::reconciliation::{PolicyVersion, Principal};
use adoc_core::managed::workspace::ManagedWorkspace;
use adoc_core::managed_state::{
    AuditRecord, AuditSink, AuditSinkError, EffectivityState, EventEmitter, EventOrdinal, GovernanceState,
    ManagedStateChange, ManagedStateEvent, ManagedStateEventStore, ManagedVersionState, RecordedDimension,
    RetentionFloor, StateEventSubject, SubjectState, VerificationState,
};
use adoc_core::obligation::ProofObligation;
use adoc_core::obligation_record::{
    ObligationClassification, ObligationError, ObligationId, ObligationLedger, ObligationPolicy, ObligationPolicyRule,
    ObligationStage, ObligationState, ObligationWaiver, ProofObligationRecord,
};

fn knowledge_object(id: &str, content_hash: &str) -> GraphKnowledgeObjectNode {
    GraphKnowledgeObjectNode {
        id: id.to_string(),
        kind: "claim".to_string(),
        content_hash: content_hash.to_string(),
        status: None,
        body: "Credits apply after payment.".to_string(),
        page_id: "team.page".to_string(),
        source_span: GraphSourceSpan { path: "docs/team.adoc".to_string(), line: 1, column: 1 },
        source_binding: None,
        fields: FieldMap::new(),
        relations: GraphRelations::default(),
        impacts: Vec::new(),
        approved_by: Vec::new(),
        allowed_actions: Vec::new(),
        forbidden_actions: Vec::new(),
        contradiction_claims: Vec::new(),
        evidence: Vec::new(),
        effective_status: None,
        effective_reason: None,
    }
}

fn artifact(nodes: Vec<GraphKnowledgeObjectNode>) -> GraphArtifactDocument {
    GraphArtifactDocument {
        schema_version: "adoc.graph.v6".to_string(),
        repository_identity: GraphRepositoryIdentity::local_project("agentdoc.config.yaml".to_string()),
        nodes: nodes.into_iter().map(GraphNode::KnowledgeObject).collect(),
    }
}

/// Import one real object and return its version-exact subject.
fn imported_subject() -> StateEventSubject {
    let mut workspace = ManagedWorkspace::new(WorkspaceId::new("ws-acme").expect("workspace id is non-blank"));
    let outcome = workspace
        .import_artifact(&artifact(vec![knowledge_object("billing.credits", "sha256:aaa")]))
        .expect("import accepted");
    let imported = &outcome.imported[0];
    StateEventSubject::bound(&workspace, &imported.canonical, &imported.version_id).expect("an imported version binds")
}

/// Two real minted versions from one import.
fn imported_subjects() -> (StateEventSubject, StateEventSubject) {
    let mut workspace = ManagedWorkspace::new(WorkspaceId::new("ws-acme").expect("workspace id is non-blank"));
    let outcome = workspace
        .import_artifact(&artifact(vec![
            knowledge_object("billing.credits", "sha256:aaa"),
            knowledge_object("billing.tax", "sha256:bbb"),
        ]))
        .expect("import accepted");
    let subject = |index: usize| {
        StateEventSubject::bound(&workspace, &outcome.imported[index].canonical, &outcome.imported[index].version_id)
            .expect("an imported version binds")
    };
    (subject(0), subject(1))
}

fn foreign_workspace_subject() -> StateEventSubject {
    let mut ws = ManagedWorkspace::new(WorkspaceId::new("ws-other").expect("non-blank"));
    let outcome = ws.import_artifact(&artifact(vec![knowledge_object("other.claim", "sha256:ccc")])).expect("import accepted");
    StateEventSubject::bound(&ws, &outcome.imported[0].canonical, &outcome.imported[0].version_id)
        .expect("an imported version binds")
}

fn obligation_id(value: &str) -> ObligationId {
    ObligationId::new(value).expect("non-blank")
}

fn open_record(subject: &StateEventSubject) -> ProofObligationRecord {
    ProofObligationRecord::open(
        obligation_id("ob-billing-credits-verification"),
        subject.clone(),
        "stale verified claim",
        vec!["source".to_string(), "reviewed_by".to_string()],
        ObligationStage::Verification,
        Some("high".to_string()),
    )
    .expect("valid record")
}

fn policy_version() -> PolicyVersion {
    PolicyVersion::new("obligation-policy-1").expect("non-blank")
}

fn rule(
    stage: ObligationStage,
    risk: Option<&str>,
    action: Option<&str>,
    classification: ObligationClassification,
) -> ObligationPolicyRule {
    ObligationPolicyRule::new(stage, risk.map(str::to_string), action.map(str::to_string), classification).expect("valid rule")
}

fn record(subject: &StateEventSubject, id: &str, stage: ObligationStage, risk: Option<&str>) -> ProofObligationRecord {
    ProofObligationRecord::open(
        obligation_id(id),
        subject.clone(),
        "requires renewed evidence",
        Vec::new(),
        stage,
        risk.map(str::to_string),
    )
    .expect("valid record")
}

fn waiver(subject: &StateEventSubject, id: &str, expires_after: Option<EventOrdinal>) -> ObligationWaiver {
    ObligationWaiver::new(
        obligation_id(id),
        subject.clone(),
        Principal::new("compliance.lead").expect("non-blank"),
        PolicyVersion::new("waiver-policy-3").expect("non-blank"),
        "vendor audit accepted for this exact version",
        expires_after,
    )
    .expect("valid waiver")
}

fn waiver_for(subject: &StateEventSubject, expires_after: Option<EventOrdinal>) -> ObligationWaiver {
    waiver(subject, "ob-billing-credits-verification", expires_after)
}

fn informational_policy(rules: Vec<ObligationPolicyRule>) -> ObligationPolicy {
    ObligationPolicy { policy_version: policy_version(), rules, default_classification: ObligationClassification::Informational }
}

fn standing_state(ledger: &ObligationLedger, id: &ObligationId) -> ObligationState {
    ledger.standing().iter().find(|record| record.obligation_id() == id).expect("standing").state()
}

#[test]
fn classification_flips_by_policy_data_alone() {
    let policy = |classification| ObligationPolicy {
        policy_version: policy_version(),
        rules: vec![rule(ObligationStage::Approval, None, None, classification)],
        default_classification: ObligationClassification::Informational,
    };
    assert_eq!(
        policy(ObligationClassification::Blocking).classify(ObligationStage::Approval, None, None),
        ObligationClassification::Blocking
    );
    assert_eq!(
        policy(ObligationClassification::Informational).classify(ObligationStage::Approval, None, None),
        ObligationClassification::Informational
    );
}

#[test]
fn rules_scope_by_stage_risk_and_action_with_a_data_default() {
    let policy = ObligationPolicy {
        policy_version: policy_version(),
        rules: vec![
            rule(ObligationStage::AgentAction, Some("high"), None, ObligationClassification::Blocking),
            rule(ObligationStage::ConnectorSynchronization, None, Some("writeback"), ObligationClassification::Blocking),
        ],
        default_classification: ObligationClassification::Informational,
    };
    let classify = |stage, risk, action| policy.classify(stage, risk, action);
    assert_eq!(classify(ObligationStage::AgentAction, Some("high"), None), ObligationClassification::Blocking);
    assert_eq!(classify(ObligationStage::AgentAction, Some("low"), None), ObligationClassification::Informational);
    assert_eq!(classify(ObligationStage::AgentAction, None, None), ObligationClassification::Informational);
    assert_eq!(
        classify(ObligationStage::ConnectorSynchronization, None, Some("writeback")),
        ObligationClassification::Blocking
    );
    assert_eq!(classify(ObligationStage::ConnectorSynchronization, None, None), ObligationClassification::Informational);
    assert_eq!(
        classify(ObligationStage::Verification, Some("high"), None),
        ObligationClassification::Informational,
        "a rule never matches another stage"
    );
}

#[test]
fn bridge_from_legacy_preserves_reason_and_required_evidence() {
    let legacy = ProofObligation {
        object_id: "billing.credits".to_string(),
        reason: "stale verified claim".to_string(),
        required_evidence: vec!["owner".to_string(), "verified_at".to_string()],
    };
    let record = ProofObligationRecord::from_legacy(
        &legacy,
        obligation_id("ob-1"),
        imported_subject(),
        ObligationStage::Verification,
    )
    .expect("bridges");
    assert_eq!(record.reason(), legacy.reason);
    assert_eq!(record.required_evidence(), &legacy.required_evidence);
    assert_eq!(record.state(), ObligationState::Open);
    assert_eq!(record.required_at(), ObligationStage::Verification);
}

#[test]
fn ledger_rejects_duplicates_unknowns_and_unwaivered_states() {
    let subject = imported_subject();
    let mut ledger = ObligationLedger::new();
    ledger.open(open_record(&subject)).expect("opens");
    let id = obligation_id("ob-billing-credits-verification");

    assert_eq!(ledger.open(open_record(&subject)), Err(ObligationError::DuplicateObligation { id: id.clone() }));
    assert_eq!(
        ledger.record_state(&obligation_id("ob-unknown"), ObligationState::Satisfied),
        Err(ObligationError::UnknownObligation { id: obligation_id("ob-unknown") })
    );
    assert_eq!(ledger.record_state(&id, ObligationState::Waived), Err(ObligationError::WaiverRequired));
    assert_eq!(ledger.record_state(&id, ObligationState::Open), Err(ObligationError::ReopenNotRecordable));

    ledger.record_state(&id, ObligationState::Satisfied).expect("satisfied is a recordable transition");
    assert_eq!(standing_state(&ledger, &id), ObligationState::Satisfied);
    assert_eq!(ledger.events().len(), 2);
}

#[test]
fn terminal_states_never_transition_but_waived_still_exits() {
    let subject = imported_subject();
    let mut ledger = ObligationLedger::new();
    for id in ["ob-failed", "ob-expired", "ob-waived"] {
        ledger.open(record(&subject, id, ObligationStage::Approval, None)).expect("opens");
    }
    let policy = ObligationPolicy {
        policy_version: policy_version(),
        rules: Vec::new(),
        default_classification: ObligationClassification::Blocking,
    };

    let failed = obligation_id("ob-failed");
    ledger.record_state(&failed, ObligationState::Failed).expect("records");
    assert_eq!(
        ledger.record_state(&failed, ObligationState::Satisfied),
        Err(ObligationError::TerminalStateStanding { id: failed.clone(), standing: ObligationState::Failed }),
        "a failed obligation is never quietly satisfied"
    );
    assert!(
        ledger.approval_blockers(&policy, EventOrdinal(1)).contains(&failed),
        "the failed gate obligation keeps blocking approval"
    );

    let expired = obligation_id("ob-expired");
    ledger.record_state(&expired, ObligationState::Expired).expect("records");
    assert_eq!(
        ledger.record_state(&expired, ObligationState::Satisfied),
        Err(ObligationError::TerminalStateStanding { id: expired.clone(), standing: ObligationState::Expired })
    );

    let waived = obligation_id("ob-waived");
    ledger.waive(waiver(&subject, "ob-waived", None)).expect("waives");
    ledger.record_state(&waived, ObligationState::Satisfied).expect("waived records its documented exits");
    assert_eq!(standing_state(&ledger, &waived), ObligationState::Satisfied);
}

#[test]
fn blank_inputs_fail_closed() {
    assert_eq!(ObligationId::new(" ob-1"), Err(ObligationError::InvalidObligationId));
    assert_eq!(ObligationId::new(""), Err(ObligationError::InvalidObligationId));
    let subject = imported_subject();
    let open = |reason: &str, evidence: Vec<String>, risk: Option<String>| {
        ProofObligationRecord::open(obligation_id("ob-1"), subject.clone(), reason, evidence, ObligationStage::Approval, risk)
    };
    assert_eq!(open("  ", Vec::new(), None), Err(ObligationError::InvalidReason));
    assert_eq!(open("reason", vec![String::new()], None), Err(ObligationError::InvalidRequiredEvidence));
    assert_eq!(
        open("reason", vec!["source".to_string(), " ".to_string()], None),
        Err(ObligationError::InvalidRequiredEvidence)
    );
    assert_eq!(open("reason", Vec::new(), Some(String::new())), Err(ObligationError::InvalidRisk));
    let legacy = ProofObligation {
        object_id: "billing.credits".to_string(),
        reason: "stale verified claim".to_string(),
        required_evidence: vec![String::new()],
    };
    assert_eq!(
        ProofObligationRecord::from_legacy(&legacy, obligation_id("ob-1"), subject, ObligationStage::Verification),
        Err(ObligationError::InvalidRequiredEvidence)
    );
}

#[test]
fn waivers_require_justification_and_exact_binding() {
    let (subject, other_subject) = imported_subjects();
    assert_eq!(
        ObligationWaiver::new(
            obligation_id("ob-billing-credits-verification"),
            subject.clone(),
            Principal::new("compliance.lead").expect("non-blank"),
            PolicyVersion::new("waiver-policy-3").expect("non-blank"),
            "   ",
            None,
        ),
        Err(ObligationError::InvalidJustification)
    );

    let mut ledger = ObligationLedger::new();
    ledger.open(open_record(&subject)).expect("opens");
    let id = obligation_id("ob-billing-credits-verification");

    let unknown = ObligationWaiver::new(
        obligation_id("ob-unknown"),
        subject.clone(),
        Principal::new("compliance.lead").expect("non-blank"),
        PolicyVersion::new("waiver-policy-3").expect("non-blank"),
        "bound to nothing",
        None,
    )
    .expect("valid waiver shape");
    assert_eq!(ledger.waive(unknown), Err(ObligationError::UnknownObligation { id: obligation_id("ob-unknown") }));

    let wrong_version = ObligationWaiver::new(
        id.clone(),
        other_subject.clone(),
        Principal::new("compliance.lead").expect("non-blank"),
        PolicyVersion::new("waiver-policy-3").expect("non-blank"),
        "bound to another version",
        None,
    )
    .expect("valid waiver shape");
    assert_eq!(ledger.waive(wrong_version), Err(ObligationError::WaiverBindingMismatch { id: id.clone() }));

    ledger.record_state(&id, ObligationState::Satisfied).expect("satisfiable");
    assert_eq!(
        ledger.waive(waiver_for(&subject, None)),
        Err(ObligationError::NotWaivable { id: id.clone() }),
        "only an open obligation is waivable"
    );
}

#[test]
fn expired_waiver_reopens_its_obligation_as_blocking() {
    let subject = imported_subject();
    let id = obligation_id("ob-approval-attestation");
    let mut ledger = ObligationLedger::new();
    ledger.open(record(&subject, "ob-approval-attestation", ObligationStage::Approval, None)).expect("opens");
    ledger.waive(waiver(&subject, "ob-approval-attestation", Some(EventOrdinal(5)))).expect("waives");
    let policy = informational_policy(Vec::new());

    let held = ledger.assess(&id, &policy, EventOrdinal(5)).expect("assessed");
    assert_eq!(held.state, ObligationState::Waived);
    assert!(ledger.approval_blockers(&policy, EventOrdinal(5)).is_empty());

    let lapsed = ledger.assess(&id, &policy, EventOrdinal(6)).expect("assessed");
    assert_eq!(lapsed.state, ObligationState::Open, "expiry reopens");
    assert_eq!(
        lapsed.classification,
        ObligationClassification::Blocking,
        "a stale waiver never authorizes — reopened obligations block regardless of policy"
    );
    assert_eq!(ledger.approval_blockers(&policy, EventOrdinal(6)), vec![id]);
}

#[test]
fn blank_rule_matchers_fail_closed() {
    assert_eq!(
        ObligationPolicyRule::new(ObligationStage::Approval, Some(String::new()), None, ObligationClassification::Blocking),
        Err(ObligationError::InvalidRuleMatcher)
    );
    assert_eq!(
        ObligationPolicyRule::new(ObligationStage::AgentAction, None, Some(" ".to_string()), ObligationClassification::Blocking),
        Err(ObligationError::InvalidRuleMatcher)
    );
}

#[test]
fn padded_match_keys_are_unrepresentable() {
    assert_eq!(
        ProofObligationRecord::open(
            obligation_id("ob-1"),
            imported_subject(),
            "reason",
            Vec::new(),
            ObligationStage::AgentAction,
            Some("high ".to_string()),
        ),
        Err(ObligationError::InvalidRisk)
    );
    assert_eq!(
        ObligationPolicyRule::new(ObligationStage::AgentAction, Some(" high".to_string()), None, ObligationClassification::Blocking),
        Err(ObligationError::InvalidRuleMatcher)
    );
    assert_eq!(
        ObligationPolicyRule::new(
            ObligationStage::AgentAction,
            None,
            Some("writeback ".to_string()),
            ObligationClassification::Blocking
        ),
        Err(ObligationError::InvalidRuleMatcher)
    );
}

// ---- further cases ----

#[test]
fn approval_gate_blocks_only_gate_stage_blocking_obligations() {
    let subject = imported_subject();
    let mut ledger = ObligationLedger::new();
    for (id, stage, risk) in [
        ("ob-gate", ObligationStage::Approval, Some("high")),
        ("ob-gate-note", ObligationStage::Approval, Some("low")),
        ("ob-verify", ObligationStage::Verification, None),
        ("ob-effect", ObligationStage::Effectivity, None),
        ("ob-sync", ObligationStage::ConnectorSynchronization, None),
        ("ob-agent", ObligationStage::AgentAction, Some("high")),
    ] {
        ledger.open(record(&subject, id, stage, risk)).expect("opens");
    }
    let policy = informational_policy(vec![
        rule(ObligationStage::Approval, Some("high"), None, ObligationClassification::Blocking),
        rule(ObligationStage::Verification, None, None, ObligationClassification::Blocking),
        rule(ObligationStage::Effectivity, None, None, ObligationClassification::Blocking),
        rule(ObligationStage::ConnectorSynchronization, None, None, ObligationClassification::Blocking),
        rule(ObligationStage::AgentAction, Some("high"), None, ObligationClassification::Blocking),
    ]);
    assert_eq!(ledger.approval_blockers(&policy, EventOrdinal(3)), vec![obligation_id("ob-gate")]);
    assert_eq!(
        ledger.assess(&obligation_id("ob-agent"), &policy, EventOrdinal(3)).expect("assessed").classification,
        ObligationClassification::Blocking
    );
}

#[test]
fn waivers_from_another_workspace_fail_closed_despite_equal_version_ids() {
    let subject = imported_subject();
    let foreign = foreign_workspace_subject();
    assert_eq!(subject.version_id, foreign.version_id, "both mint mv-1");
    assert_ne!(subject.canonical, foreign.canonical);
    let mut ledger = ObligationLedger::new();
    ledger.open(open_record(&subject)).expect("opens");
    assert_eq!(
        ledger.waive(waiver_for(&foreign, None)),
        Err(ObligationError::WaiverBindingMismatch { id: obligation_id("ob-billing-credits-verification") }),
        "a waiver never crosses workspaces"
    );
}

#[test]
fn a_waived_obligation_stays_waived_and_cannot_be_waived_again() {
    let subject = imported_subject();
    let id = obligation_id("ob-billing-credits-verification");
    let mut ledger = ObligationLedger::new();
    ledger.open(open_record(&subject)).expect("opens");
    ledger.waive(waiver_for(&subject, Some(EventOrdinal(2)))).expect("waives");
    assert_eq!(standing_state(&ledger, &id), ObligationState::Waived);
    // a lapsed waiver is assessed open, but its recorded state stays waived
    let lapsed = ledger.assess(&id, &informational_policy(Vec::new()), EventOrdinal(3)).expect("assessed");
    assert_eq!(lapsed.state, ObligationState::Open);
    assert_eq!(ledger.waive(waiver_for(&subject, None)), Err(ObligationError::NotWaivable { id: id.clone() }));
    assert_eq!(ledger.events().len(), 2);
    assert!(!waiver_for(&subject, Some(EventOrdinal(2))).is_expired(EventOrdinal(2)));
    assert!(waiver_for(&subject, Some(EventOrdinal(2))).is_expired(EventOrdinal(3)));
    assert!(!waiver_for(&subject, None).is_expired(EventOrdinal(u64::MAX)));
}

#[test]
fn an_unknown_obligation_cannot_be_assessed() {
    let ledger = ObligationLedger::new();
    assert_eq!(
        ledger.assess(&obligation_id("ob-none"), &informational_policy(Vec::new()), EventOrdinal(0)),
        Err(ObligationError::UnknownObligation { id: obligation_id("ob-none") })
    );
    assert!(ledger.standing().is_empty());
}

#[test]
fn standing_lists_records_in_id_order() {
    let subject = imported_subject();
    let mut ledger = ObligationLedger::new();
    for id in ["ob-c", "ob-a", "ob-b"] {
        ledger.open(record(&subject, id, ObligationStage::Verification, None)).expect("opens");
    }
    ledger.record_state(&obligation_id("ob-b"), ObligationState::Failed).expect("records");
    let standing = ledger.standing();
    let ids: Vec<&str> = standing.iter().map(|r| r.obligation_id().as_str()).collect();
    assert_eq!(ids, vec!["ob-a", "ob-b", "ob-c"]);
    assert_eq!(standing[1].state(), ObligationState::Failed);
    assert_eq!(standing[0].state(), ObligationState::Open);
    assert_eq!(standing[0].schema_version(), "adoc.proof_obligation.v0");
}

#[test]
fn vocabularies_spell_their_wire_values() {
    let states: Vec<&str> = ObligationState::all().into_iter().map(ObligationState::as_str).collect();
    assert_eq!(states, vec!["open", "satisfied", "waived", "failed", "expired"]);
    let stages: Vec<&str> = ObligationStage::all().into_iter().map(ObligationStage::as_str).collect();
    assert_eq!(
        stages,
        vec!["proposal_validation", "approval", "verification", "effectivity", "connector_synchronization", "agent_action"]
    );
}

// ---- obligations beside the managed-state event store ----

#[derive(Default)]
struct InMemoryAuditSink {
    records: Vec<AuditRecord>,
}

impl AuditSink for InMemoryAuditSink {
    fn record(&mut self, record: &AuditRecord) -> Result<(), AuditSinkError> {
        self.records.push(record.clone());
        Ok(())
    }
}

fn state_event(subject: StateEventSubject, change: ManagedStateChange) -> ManagedStateEvent {
    ManagedStateEvent {
        subject,
        change,
        emitter: EventEmitter::new("cloud.governance_service").expect("non-blank"),
        policy_version: PolicyVersion::new("state-policy-1").expect("non-blank"),
        corrects: None,
    }
}

fn append_event(store: &mut ManagedStateEventStore, sink: &mut InMemoryAuditSink, event: ManagedStateEvent) {
    let bytes = format!("event-{}", store.events().len());
    let digest = format!("digest-of:{}", store.digest_input(&bytes));
    store.append(sink, event, bytes, digest).expect("append accepted");
}

fn state_of<'a>(states: &'a [SubjectState], subject: &StateEventSubject) -> &'a ManagedVersionState {
    &states.iter().find(|s| &s.subject == subject).expect("subject has state").state
}

#[test]
fn approved_not_verified_pending_effectivity_coexist_and_discharge_nothing() {
    let subject = imported_subject();
    let mut sink = InMemoryAuditSink::default();
    let mut store = ManagedStateEventStore::new(RetentionFloor(1));
    for change in [
        ManagedStateChange::Governance { state: GovernanceState::Approved },
        ManagedStateChange::Verification { state: VerificationState::Unverified },
        ManagedStateChange::Effectivity { state: EffectivityState::Pending },
    ] {
        append_event(&mut store, &mut sink, state_event(subject.clone(), change));
    }
    let state = state_of(store.current_state(), &subject);
    assert_eq!(state.governance, RecordedDimension::Recorded(GovernanceState::Approved));
    assert_eq!(state.verification, RecordedDimension::Recorded(VerificationState::Unverified));
    assert_eq!(state.effectivity, RecordedDimension::Recorded(EffectivityState::Pending));

    let mut ledger = ObligationLedger::new();
    ledger.open(open_record(&subject)).expect("opens");
    assert_eq!(
        standing_state(&ledger, &obligation_id("ob-billing-credits-verification")),
        ObligationState::Open,
        "approval never discharges a verification-stage obligation"
    );
}

#[test]
fn the_k8_vocabularies_are_closed_and_wire_stable() {
    let states: Vec<&str> = ObligationState::all().into_iter().map(ObligationState::as_str).collect();
    assert_eq!(states, ["open", "satisfied", "waived", "failed", "expired"]);
    let stages: Vec<&str> = ObligationStage::all().into_iter().map(ObligationStage::as_str).collect();
    assert_eq!(
        stages,
        ["proposal_validation", "approval", "verification", "effectivity", "connector_synchronization", "agent_action"]
    );
}

#[test]
fn waiving_a_verification_obligation_never_converts_unverified_to_verified() {
    let subject = imported_subject();
    let mut sink = InMemoryAuditSink::default();
    let mut store = ManagedStateEventStore::new(RetentionFloor(1));
    append_event(
        &mut store,
        &mut sink,
        state_event(subject.clone(), ManagedStateChange::Verification { state: VerificationState::Unverified }),
    );
    let recorded_before = store.events().to_vec();

    let mut ledger = ObligationLedger::new();
    ledger.open(open_record(&subject)).expect("opens");
    ledger.waive(waiver_for(&subject, None)).expect("waives");

    let id = obligation_id("ob-billing-credits-verification");
    assert_eq!(standing_state(&ledger, &id), ObligationState::Waived);
    assert_eq!(
        state_of(store.current_state(), &subject).verification,
        RecordedDimension::Recorded(VerificationState::Unverified),
        "a waiver never converts unverified to verified"
    );
    assert_eq!(
        store.events(),
        &recorded_before,
        "waiver application must leave every recorded event byte-identical"
    );
}

#[test]
fn state_only_and_approval_events_never_alter_recorded_bytes_or_outcomes() {
    let subject = imported_subject();
    let mut sink = InMemoryAuditSink::default();
    let mut store = ManagedStateEventStore::new(RetentionFloor(1));
    for change in [
        ManagedStateChange::Verification { state: VerificationState::Unverified },
        ManagedStateChange::Effectivity { state: EffectivityState::Pending },
    ] {
        append_event(&mut store, &mut sink, state_event(subject.clone(), change));
    }
    let recorded: Vec<(String, String)> =
        store.events().iter().map(|r| (r.event_bytes.clone(), r.digest.clone())).collect();

    append_event(
        &mut store,
        &mut sink,
        state_event(subject.clone(), ManagedStateChange::Governance { state: GovernanceState::Approved }),
    );
    let mut ledger = ObligationLedger::new();
    ledger.open(open_record(&subject)).expect("opens");
    ledger.waive(waiver_for(&subject, Some(EventOrdinal(2)))).expect("waives");
    let policy = informational_policy(Vec::new());
    let id = obligation_id("ob-billing-credits-verification");
    ledger.assess(&id, &policy, EventOrdinal(9)).expect("assessed");

    for (index, (event_bytes, digest)) in recorded.iter().enumerate() {
        assert_eq!(&store.events()[index].event_bytes, event_bytes, "recorded event bytes must stay byte-identical");
        assert_eq!(&store.events()[index].digest, digest, "the digest chain over the recorded prefix must stand");
    }
    let historical = store.reconstruct_through(EventOrdinal(1));
    assert_eq!(
        state_of(&historical, &subject).verification,
        RecordedDimension::Recorded(VerificationState::Unverified)
    );
    let current = state_of(store.current_state(), &subject);
    assert_eq!(current.governance, RecordedDimension::Recorded(GovernanceState::Approved));
    assert_eq!(
        current.verification,
        RecordedDimension::Recorded(VerificationState::Unverified),
        "approval never upgrades a recorded verification outcome"
    );
}
