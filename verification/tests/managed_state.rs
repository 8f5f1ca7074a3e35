use adoc_core::diagnostic::DiagnosticCode;
use adoc_core::managed_state::{
    audit_coverage_diff, audit_emitter_registry, AuditedTransition, ConnectorId, EventEmitter, EventOrdinal,
    GovernanceState, IntegrityState, ManagedStateEventError, ReplayPosture, StateEventStoreError, SynchronizationState,
    APPEND_EMITTER,
};

#[test]
fn audit_emitter_registry_covers_every_transition() {
    let registry = audit_emitter_registry();
    let diff = audit_coverage_diff(&registry);
    assert_eq!(
        diff.unaudited,
        Vec::<(String, String)>::new(),
        "unaudited transitions — extend the audit emitter registry and wire the emitter"
    );
    assert_eq!(diff.unknown, Vec::<(String, String)>::new(), "registry entries naming no known transition — stale or misspelled");
    for entry in &registry {
        assert!(!entry.emitter.trim().is_empty(), "every audited transition names its emitter");
    }
}

#[test]
fn an_unwired_or_unknown_fixture_transition_fails_the_coverage_guard() {
    let unwired: Vec<AuditedTransition> = audit_emitter_registry()
        .into_iter()
        .filter(|entry| !(entry.dimension == "freshness" && entry.state == "stale"))
        .collect();
    let diff = audit_coverage_diff(&unwired);
    assert_eq!(
        diff.unaudited,
        vec![("freshness".to_string(), "stale".to_string())],
        "the dropped transition must surface as unaudited"
    );

    let mut with_unknown: Vec<AuditedTransition> = audit_emitter_registry();
    with_unknown.push(AuditedTransition {
        dimension: "freshness",
        state: "fresh",
        emitter: "managed_state_event_store.append",
    });
    let diff = audit_coverage_diff(&with_unknown);
    assert_eq!(
        diff.unknown,
        vec![("freshness".to_string(), "fresh".to_string())],
        "an entry outside the closed vocabularies must be flagged"
    );
}

#[test]
fn blank_or_padded_connector_and_emitter_are_rejected() {
    for invalid in ["", "  ", " confluence", "confluence "] {
        assert_eq!(ConnectorId::new(invalid), Err(ManagedStateEventError::InvalidConnector), "{invalid:?} must be rejected");
        assert_eq!(EventEmitter::new(invalid), Err(ManagedStateEventError::InvalidEmitter), "{invalid:?} must be rejected");
    }
}

#[test]
fn event_serialization_failure_maps_to_audit_persistence_failed() {
    assert_eq!(StateEventStoreError::EventSerializationUnavailable.diagnostic_code().as_str(), "audit.persistence_failed");
}

// ---- further cases ----

#[test]
fn conflicts_and_floor_violations_map_to_their_codes() {
    assert_eq!(
        StateEventStoreError::RecordConflict { claimed: EventOrdinal(3) }.diagnostic_code(),
        DiagnosticCode::GovernanceRecordConflict
    );
    assert_eq!(
        StateEventStoreError::CorrectionTargetMissing { corrects: EventOrdinal(9) }.diagnostic_code().as_str(),
        "governance.record_conflict"
    );
    assert_eq!(
        StateEventStoreError::RetentionFloorViolation { delete_below: EventOrdinal(2), protected_from: EventOrdinal(1) }
            .diagnostic_code()
            .as_str(),
        "store.retention_floor_violation"
    );
    assert_eq!(StateEventStoreError::AuditPersistenceFailed.diagnostic_code(), DiagnosticCode::AuditPersistenceFailed);
}

#[test]
fn the_registry_has_one_row_per_vocabulary_value() {
    let registry = audit_emitter_registry();
    assert_eq!(registry.len(), 27);
    assert!(registry.iter().all(|entry| entry.emitter == APPEND_EMITTER));
    let governance: Vec<&str> = GovernanceState::all().into_iter().map(GovernanceState::as_str).collect();
    assert_eq!(governance, vec!["proposed", "approved", "rejected", "revoked"]);
    assert_eq!(SynchronizationState::PendingExternalApproval.as_str(), "pending_external_approval");
}

#[test]
fn valid_connector_and_emitter_keep_their_spelling() {
    assert_eq!(ConnectorId::new("jira").expect("valid").as_str(), "jira");
    assert_eq!(EventEmitter::new("cloud.governance_service").expect("valid").as_str(), "cloud.governance_service");
}

// ---- the event store ----

use adoc_core::graph::{
    FieldMap, GraphArtifactDocument, GraphKnowledgeObjectNode, GraphNode, GraphRelations, GraphRepositoryIdentity,
    GraphSourceSpan,
};
use adoc_core::managed::identity::WorkspaceId;
use adoc_core::managed::reconciliation::PolicyVersion;
use adoc_core::managed::workspace::ManagedWorkspace;
use adoc_core::managed_state::{
    AuditRecord, AuditSink, AuditSinkError, ConnectorSyncRecord, EffectivityState, FreshnessState, ManagedStateChange,
    ManagedStateEvent, ManagedStateEventStore, ManagedVersionState, RecordedDimension, RetentionFloor, StateEventSubject,
    SubjectState, VerificationState,
};

#[derive(Default)]
struct InMemoryAuditSink {
    records: Vec<AuditRecord>,
}

impl AuditSink for InMemoryAuditSink {
    fn record(&mut self, record: &AuditRecord) -> Result<(), AuditSinkError> {
        self.records.push(record.clone());
        Ok(())
    }
}

struct FailingAuditSink;

impl AuditSink for FailingAuditSink {
    fn record(&mut self, _record: &AuditRecord) -> Result<(), AuditSinkError> {
        Err(AuditSinkError)
    }
}

fn knowledge_object(id: &str, content_hash: &str) -> GraphKnowledgeObjectNode {
    GraphKnowledgeObjectNode {
        id: id.to_string(),
        kind: "claim".to_string(),
        content_hash: content_hash.to_string(),
        status: None,
        body: "Credits apply after payment.".to_string(),
        page_id: "team.page".to_string(),
        source_span: GraphSourceSpan { path: "docs/team.adoc".to_string(), line: 1, column: 1 },
        source_binding: None,
        fields: FieldMap::new(),
        relations: GraphRelations::default(),
        impacts: Vec::new(),
        approved_by: Vec::new(),
        allowed_actions: Vec::new(),
        forbidden_actions: Vec::new(),
        contradiction_claims: Vec::new(),
        evidence: Vec::new(),
        effective_status: None,
        effective_reason: None,
    }
}

fn subjects() -> (StateEventSubject, StateEventSubject) {
    let mut workspace = ManagedWorkspace::new(WorkspaceId::new("ws-acme").expect("workspace id is non-blank"));
    let artifact = GraphArtifactDocument {
        schema_version: "adoc.graph.v6".to_string(),
        repository_identity: GraphRepositoryIdentity::local_project("agentdoc.config.yaml".to_string()),
        nodes: vec![
            GraphNode::KnowledgeObject(knowledge_object("billing.credits", "sha256:aaa")),
            GraphNode::KnowledgeObject(knowledge_object("billing.tax", "sha256:bbb")),
        ],
    };
    let outcome = workspace.import_artifact(&artifact).expect("import accepted");
    let subject = |i: usize| {
        StateEventSubject::bound(&workspace, &outcome.imported[i].canonical, &outcome.imported[i].version_id).expect("binds")
    };
    (subject(0), subject(1))
}

fn event(subject: &StateEventSubject, change: ManagedStateChange) -> ManagedStateEvent {
    ManagedStateEvent {
        subject: subject.clone(),
        change,
        emitter: EventEmitter::new("cloud.governance_service").expect("non-blank"),
        policy_version: PolicyVersion::new("state-policy-1").expect("non-blank"),
        corrects: None,
    }
}

fn state_of<'a>(states: &'a [SubjectState], subject: &StateEventSubject) -> &'a ManagedVersionState {
    &states.iter().find(|s| &s.subject == subject).expect("subject has state").state
}

fn append(store: &mut ManagedStateEventStore, sink: &mut InMemoryAuditSink, e: ManagedStateEvent) -> EventOrdinal {
    let bytes = format!("event-{}", store.events().len());
    let digest = format!("digest-of:{}", store.digest_input(&bytes));
    store.append(sink, e, bytes, digest).expect("append accepted")
}

#[test]
fn appends_take_the_next_ordinal_and_are_audited_first() {
    let (subject, _) = subjects();
    let mut store = ManagedStateEventStore::new(RetentionFloor(1));
    let mut sink = InMemoryAuditSink::default();
    let first = append(&mut store, &mut sink, event(&subject, ManagedStateChange::Governance { state: GovernanceState::Approved }));
    let second = append(&mut store, &mut sink, event(&subject, ManagedStateChange::Freshness { state: FreshnessState::Stale }));
    assert_eq!((first, second), (EventOrdinal(0), EventOrdinal(1)));
    assert_eq!(sink.records.len(), 2);
    assert_eq!(sink.records[1].ordinal, EventOrdinal(1));
    assert_eq!(store.events()[1].digest, "digest-of:digest-of:event-0event-1");
    let state = state_of(store.current_state(), &subject);
    assert_eq!(state.governance, RecordedDimension::Recorded(GovernanceState::Approved));
    assert_eq!(state.freshness, RecordedDimension::Recorded(FreshnessState::Stale));
    assert_eq!(state.verification, RecordedDimension::Gap, "unrecorded dimensions render explicit gaps");
}

#[test]
fn a_failing_sink_fails_the_append_closed() {
    let (subject, _) = subjects();
    let mut store = ManagedStateEventStore::new(RetentionFloor(1));
    let result = store.append(
        &mut FailingAuditSink,
        event(&subject, ManagedStateChange::Migration),
        "bytes".to_string(),
        "digest".to_string(),
    );
    assert_eq!(result, Err(StateEventStoreError::AuditPersistenceFailed));
    assert!(store.events().is_empty());
    assert!(store.current_state().is_empty());
}

#[test]
fn conflicting_ordinals_and_dangling_corrections_are_rejected() {
    let (subject, _) = subjects();
    let mut store = ManagedStateEventStore::new(RetentionFloor(1));
    let mut sink = InMemoryAuditSink::default();
    append(&mut store, &mut sink, event(&subject, ManagedStateChange::Verification { state: VerificationState::Unverified }));
    for claimed in [EventOrdinal(0), EventOrdinal(2)] {
        assert_eq!(
            store.append_at(&mut sink, claimed, event(&subject, ManagedStateChange::Declassification), "b".to_string(), "d".to_string()),
            Err(StateEventStoreError::RecordConflict { claimed })
        );
    }
    let mut correction = event(&subject, ManagedStateChange::Verification { state: VerificationState::Verified });
    correction.corrects = Some(EventOrdinal(1));
    assert_eq!(
        store.append(&mut sink, correction.clone(), "b".to_string(), "d".to_string()),
        Err(StateEventStoreError::CorrectionTargetMissing { corrects: EventOrdinal(1) })
    );
    correction.corrects = Some(EventOrdinal(0));
    assert_eq!(
        store.append_at(&mut sink, EventOrdinal(1), correction, "b".to_string(), "d".to_string()),
        Ok(EventOrdinal(1))
    );
    assert_eq!(store.events().len(), 2);
    assert_eq!(store.events()[0].event.change, ManagedStateChange::Verification { state: VerificationState::Unverified });
}

#[test]
fn historical_state_reconstructs_exactly_and_full_replay_matches_the_cache() {
    let (subject, other) = subjects();
    let mut store = ManagedStateEventStore::new(RetentionFloor(1));
    let mut sink = InMemoryAuditSink::default();
    append(&mut store, &mut sink, event(&subject, ManagedStateChange::Effectivity { state: EffectivityState::Pending }));
    append(&mut store, &mut sink, event(&other, ManagedStateChange::Integrity { state: IntegrityState::Clear }));
    append(&mut store, &mut sink, event(&subject, ManagedStateChange::Effectivity { state: EffectivityState::Effective }));
    let at_zero = store.reconstruct_through(EventOrdinal(0));
    assert_eq!(at_zero.len(), 1);
    assert_eq!(state_of(&at_zero, &subject).effectivity, RecordedDimension::Recorded(EffectivityState::Pending));
    let full = store.reconstruct_through(EventOrdinal(99));
    assert_eq!(&full, store.current_state());
    assert_eq!(state_of(&full, &subject).effectivity, RecordedDimension::Recorded(EffectivityState::Effective));
    assert_eq!(state_of(&full, &other).integrity, RecordedDimension::Recorded(IntegrityState::Clear));
}

#[test]
fn synchronization_reconstructs_per_connector_and_other_families_advance_nothing() {
    let (subject, _) = subjects();
    let mut store = ManagedStateEventStore::new(RetentionFloor(1));
    let mut sink = InMemoryAuditSink::default();
    let jira = ConnectorId::new("jira").expect("valid");
    let confluence = ConnectorId::new("confluence").expect("valid");
    for (connector, state) in [
        (&jira, SynchronizationState::PendingWriteback),
        (&confluence, SynchronizationState::InSync),
        (&jira, SynchronizationState::WritebackFailed),
    ] {
        append(
            &mut store,
            &mut sink,
            event(&subject, ManagedStateChange::Synchronization { connector: connector.clone(), state, required_before_effective: true }),
        );
    }
    append(&mut store, &mut sink, event(&subject, ManagedStateChange::AuthorizationAffectingSourceChange { connector: jira.clone() }));
    append(&mut store, &mut sink, event(&subject, ManagedStateChange::DeletionTombstone { replay_posture: ReplayPosture::SourceAccessRequired }));
    let state = state_of(store.current_state(), &subject);
    let sync: Vec<(&str, ConnectorSyncRecord)> = state.synchronization.entries().iter().map(|e| (e.connector.as_str(), e.record)).collect();
    assert_eq!(
        sync,
        vec![
            ("confluence", ConnectorSyncRecord { state: SynchronizationState::InSync, required_before_effective: true }),
            ("jira", ConnectorSyncRecord { state: SynchronizationState::WritebackFailed, required_before_effective: true }),
        ]
    );
    assert_eq!(state.governance, RecordedDimension::Gap);
}

#[test]
fn a_retention_sweep_into_the_protected_span_is_rejected() {
    let (subject, _) = subjects();
    let mut store = ManagedStateEventStore::new(RetentionFloor(2));
    let mut sink = InMemoryAuditSink::default();
    for _ in 0..5 {
        append(&mut store, &mut sink, event(&subject, ManagedStateChange::Migration));
    }
    assert_eq!(
        store.plan_retention_sweep(EventOrdinal(3)).expect("below the floor").sweepable,
        vec![EventOrdinal(0), EventOrdinal(1), EventOrdinal(2)]
    );
    assert_eq!(
        store.plan_retention_sweep(EventOrdinal(4)),
        Err(StateEventStoreError::RetentionFloorViolation { delete_below: EventOrdinal(4), protected_from: EventOrdinal(3) })
    );
    let short = ManagedStateEventStore::new(RetentionFloor(10));
    assert!(short.plan_retention_sweep(EventOrdinal(0)).expect("empty plan").sweepable.is_empty());
    assert!(short.plan_retention_sweep(EventOrdinal(1)).is_err(), "a short log is entirely floor protected");
}

// ---- the store's contract, case by case ----

fn single_subject() -> (ManagedWorkspace, StateEventSubject) {
    let mut workspace = ManagedWorkspace::new(WorkspaceId::new("ws-acme").expect("workspace id is non-blank"));
    let artifact = GraphArtifactDocument {
        schema_version: "adoc.graph.v6".to_string(),
        repository_identity: GraphRepositoryIdentity::local_project("agentdoc.config.yaml".to_string()),
        nodes: vec![GraphNode::KnowledgeObject(knowledge_object("billing.credits", "sha256:aaa"))],
    };
    let outcome = workspace.import_artifact(&artifact).expect("import accepted");
    let imported = &outcome.imported[0];
    let subject = StateEventSubject { canonical: imported.canonical.clone(), version_id: imported.version_id.clone() };
    (workspace, subject)
}

fn freshness_event(subject: &StateEventSubject, state: FreshnessState) -> ManagedStateEvent {
    ManagedStateEvent {
        subject: subject.clone(),
        change: ManagedStateChange::Freshness { state },
        emitter: EventEmitter::new("cloud.freshness_evaluator").expect("non-blank"),
        policy_version: PolicyVersion::new("freshness-policy-1").expect("non-blank"),
        corrects: None,
    }
}

fn try_append(
    store: &mut ManagedStateEventStore,
    sink: &mut InMemoryAuditSink,
    e: ManagedStateEvent,
) -> Result<EventOrdinal, StateEventStoreError> {
    let bytes = format!("event-{}", store.events().len());
    let digest = format!("digest-of:{}", store.digest_input(&bytes));
    store.append(sink, e, bytes, digest)
}

#[test]
fn state_only_freshness_transition_leaves_versions_untouched() {
    let (workspace, subject) = single_subject();
    let before = workspace.duplicate();
    let mut sink = InMemoryAuditSink::default();
    let mut store = ManagedStateEventStore::new(RetentionFloor(1));
    append(&mut store, &mut sink, freshness_event(&subject, FreshnessState::Current));
    append(&mut store, &mut sink, freshness_event(&subject, FreshnessState::Stale));

    assert_eq!(workspace, before, "a state-only transition must not touch any version record");
    let object = workspace.managed_object(&subject.canonical).expect("object recorded");
    assert_eq!(object.versions.len(), 1, "no new content version");
    assert_eq!(object.versions[0].version_id, subject.version_id);
    assert_eq!(object.versions[0].content_hash, "sha256:aaa");
    assert_eq!(store.events().len(), 2);
    assert_eq!(store.events()[1].ordinal, EventOrdinal(1));
}

#[test]
fn dimension_vocabularies_are_closed_and_wire_stable() {
    let governance: Vec<&str> = GovernanceState::all().into_iter().map(GovernanceState::as_str).collect();
    assert_eq!(governance, ["proposed", "approved", "rejected", "revoked"]);
    let verification: Vec<&str> = VerificationState::all().into_iter().map(VerificationState::as_str).collect();
    assert_eq!(verification, ["unverified", "partially_verified", "verified", "failed"]);
    let effectivity: Vec<&str> = EffectivityState::all().into_iter().map(EffectivityState::as_str).collect();
    assert_eq!(effectivity, ["pending", "scheduled", "effective", "suspended", "expired"]);
    let freshness: Vec<&str> = FreshnessState::all().into_iter().map(FreshnessState::as_str).collect();
    assert_eq!(freshness, ["current", "needs_review", "stale"]);
    let integrity: Vec<&str> = IntegrityState::all().into_iter().map(IntegrityState::as_str).collect();
    assert_eq!(integrity, ["clear", "potentially_conflicting", "contradicted"]);
    let synchronization: Vec<&str> =
        SynchronizationState::all().into_iter().map(SynchronizationState::as_str).collect();
    assert_eq!(
        synchronization,
        [
            "in_sync",
            "pending_writeback",
            "pending_external_approval",
            "writeback_failed",
            "source_ahead",
            "source_diverged",
            "paused",
            "not_applicable"
        ]
    );
}

#[test]
fn write_at_an_occupied_or_future_ordinal_is_a_record_conflict() {
    let (_workspace, subject) = single_subject();
    let mut sink = InMemoryAuditSink::default();
    let mut store = ManagedStateEventStore::new(RetentionFloor(1));
    append(&mut store, &mut sink, freshness_event(&subject, FreshnessState::Current));
    let events_before = store.events().clone();
    let state_before = store.current_state().clone();

    for claimed in [EventOrdinal(0), EventOrdinal(2)] {
        let error = store
            .append_at(&mut sink, claimed, freshness_event(&subject, FreshnessState::Stale), "b".to_string(), "d".to_string())
            .expect_err("occupied or future ordinal must be rejected");
        assert_eq!(error, StateEventStoreError::RecordConflict { claimed });
        assert_eq!(error.diagnostic_code().as_str(), "governance.record_conflict");
    }
    assert_eq!(store.events(), &events_before, "a rejected write must change nothing");
    assert_eq!(store.current_state(), &state_before);

    let bytes = "event-1".to_string();
    let digest = format!("digest-of:{}", store.digest_input(&bytes));
    store
        .append_at(&mut sink, EventOrdinal(1), freshness_event(&subject, FreshnessState::Stale), bytes, digest)
        .expect("the exact next ordinal appends");
    assert_eq!(store.events().len(), 2);
}

#[test]
fn a_correction_appends_a_new_record_and_rewrites_nothing() {
    let (_workspace, subject) = single_subject();
    let mut sink = InMemoryAuditSink::default();
    let mut store = ManagedStateEventStore::new(RetentionFloor(1));
    append(&mut store, &mut sink, freshness_event(&subject, FreshnessState::Stale));
    let original = store.events()[0].clone();

    let mut correction = freshness_event(&subject, FreshnessState::Current);
    correction.corrects = Some(EventOrdinal(0));
    try_append(&mut store, &mut sink, correction).expect("correction appends");

    assert_eq!(store.events().len(), 2);
    assert_eq!(store.events()[0], original, "the corrected record is never rewritten");
    assert_eq!(store.events()[1].event.corrects, Some(EventOrdinal(0)));
}

#[test]
fn a_correction_referencing_an_unrecorded_ordinal_is_rejected() {
    let (_workspace, subject) = single_subject();
    let mut sink = InMemoryAuditSink::default();
    let mut store = ManagedStateEventStore::new(RetentionFloor(1));
    let mut correction = freshness_event(&subject, FreshnessState::Current);
    correction.corrects = Some(EventOrdinal(3));

    let error = try_append(&mut store, &mut sink, correction).expect_err("a dangling correction must be rejected");
    assert_eq!(error, StateEventStoreError::CorrectionTargetMissing { corrects: EventOrdinal(3) });
    assert_eq!(error.diagnostic_code().as_str(), "governance.record_conflict");
    assert!(store.events().is_empty(), "nothing may be appended");
}

#[test]
fn a_short_log_is_entirely_floor_protected() {
    let (_workspace, subject) = single_subject();
    let mut sink = InMemoryAuditSink::default();
    let mut store = ManagedStateEventStore::new(RetentionFloor(3));
    append(&mut store, &mut sink, freshness_event(&subject, FreshnessState::Stale));

    let error = store.plan_retention_sweep(EventOrdinal(1)).expect_err("the whole short log is protected");
    assert_eq!(
        error,
        StateEventStoreError::RetentionFloorViolation { delete_below: EventOrdinal(1), protected_from: EventOrdinal(0) }
    );
}

fn governed_event(subject: &StateEventSubject, change: ManagedStateChange, emitter: &str, policy: &str) -> ManagedStateEvent {
    ManagedStateEvent {
        subject: subject.clone(),
        change,
        emitter: EventEmitter::new(emitter).expect("non-blank"),
        policy_version: PolicyVersion::new(policy).expect("non-blank"),
        corrects: None,
    }
}

#[test]
fn full_replay_matches_the_derived_cache() {
    let (_workspace, subject) = single_subject();
    let mut sink = InMemoryAuditSink::default();
    let mut store = ManagedStateEventStore::new(RetentionFloor(1));
    let connector = ConnectorId::new("confluence").expect("non-blank");
    for change in [
        ManagedStateChange::Governance { state: GovernanceState::Proposed },
        ManagedStateChange::Verification { state: VerificationState::PartiallyVerified },
        ManagedStateChange::Governance { state: GovernanceState::Approved },
        ManagedStateChange::Effectivity { state: EffectivityState::Effective },
        ManagedStateChange::Synchronization {
            connector: connector.clone(),
            state: SynchronizationState::PendingWriteback,
            required_before_effective: false,
        },
        ManagedStateChange::Freshness { state: FreshnessState::Stale },
    ] {
        append(&mut store, &mut sink, governed_event(&subject, change, "cloud.governance", "policy-1"));
    }
    assert_eq!(
        &store.reconstruct_through(EventOrdinal(5)),
        store.current_state(),
        "full replay must reproduce the derived cache exactly"
    );
}

#[test]
fn historical_state_at_an_event_ordinal_reconstructs_exactly() {
    let (_workspace, subject) = single_subject();
    let mut sink = InMemoryAuditSink::default();
    let mut store = ManagedStateEventStore::new(RetentionFloor(1));
    append(
        &mut store,
        &mut sink,
        governed_event(&subject, ManagedStateChange::Governance { state: GovernanceState::Proposed }, "cloud.governance", "policy-1"),
    );
    append(
        &mut store,
        &mut sink,
        governed_event(
            &subject,
            ManagedStateChange::Freshness { state: FreshnessState::Stale },
            "cloud.freshness_evaluator",
            "policy-1",
        ),
    );
    append(
        &mut store,
        &mut sink,
        governed_event(&subject, ManagedStateChange::Governance { state: GovernanceState::Approved }, "cloud.governance", "policy-2"),
    );

    let at_one = store.reconstruct_through(EventOrdinal(1));
    let state = state_of(&at_one, &subject);
    assert_eq!(
        state.governance,
        RecordedDimension::Recorded(GovernanceState::Proposed),
        "the ordinal-2 approval must be invisible at T=1"
    );
    assert_eq!(state.freshness, RecordedDimension::Recorded(FreshnessState::Stale));

    let now = store.reconstruct_through(EventOrdinal(2));
    assert_eq!(state_of(&now, &subject).governance, RecordedDimension::Recorded(GovernanceState::Approved));
}

#[test]
fn unrecorded_dimensions_render_explicit_gap_markers() {
    let (_workspace, subject) = single_subject();
    let mut sink = InMemoryAuditSink::default();
    let mut store = ManagedStateEventStore::new(RetentionFloor(1));
    append(
        &mut store,
        &mut sink,
        governed_event(
            &subject,
            ManagedStateChange::Freshness { state: FreshnessState::Current },
            "cloud.freshness_evaluator",
            "policy-1",
        ),
    );
    let state = state_of(store.current_state(), &subject);
    assert_eq!(state.governance, RecordedDimension::Gap);
    assert_eq!(state.verification, RecordedDimension::Gap);
    assert_eq!(state.effectivity, RecordedDimension::Gap);
    assert_eq!(state.integrity, RecordedDimension::Gap);
    assert!(state.synchronization.is_empty());
    assert_eq!(state.freshness, RecordedDimension::Recorded(FreshnessState::Current));
}

#[test]
fn a_correction_applies_at_its_own_ordinal_never_retroactively() {
    let (_workspace, subject) = single_subject();
    let mut sink = InMemoryAuditSink::default();
    let mut store = ManagedStateEventStore::new(RetentionFloor(1));
    append(
        &mut store,
        &mut sink,
        governed_event(
            &subject,
            ManagedStateChange::Freshness { state: FreshnessState::Stale },
            "cloud.freshness_evaluator",
            "policy-1",
        ),
    );
    let mut correction = governed_event(
        &subject,
        ManagedStateChange::Freshness { state: FreshnessState::Current },
        "cloud.freshness_evaluator",
        "policy-1",
    );
    correction.corrects = Some(EventOrdinal(0));
    try_append(&mut store, &mut sink, correction).expect("correction appends");

    assert_eq!(
        state_of(&store.reconstruct_through(EventOrdinal(0)), &subject).freshness,
        RecordedDimension::Recorded(FreshnessState::Stale),
        "history at T=0 keeps the uncorrected record — never rewritten"
    );
    assert_eq!(state_of(store.current_state(), &subject).freshness, RecordedDimension::Recorded(FreshnessState::Current));
}

#[test]
fn synchronization_reconstructs_per_connector() {
    let (_workspace, subject) = single_subject();
    let mut sink = InMemoryAuditSink::default();
    let mut store = ManagedStateEventStore::new(RetentionFloor(1));
    for (connector, state, required) in [
        ("confluence", SynchronizationState::InSync, true),
        ("github", SynchronizationState::SourceDiverged, false),
    ] {
        append(
            &mut store,
            &mut sink,
            governed_event(
                &subject,
                ManagedStateChange::Synchronization {
                    connector: ConnectorId::new(connector).expect("non-blank"),
                    state,
                    required_before_effective: required,
                },
                "cloud.sync_observer",
                "policy-1",
            ),
        );
    }
    let sync = &state_of(store.current_state(), &subject).synchronization.entries();
    assert_eq!(sync.len(), 2);
    let confluence = &sync.iter().find(|e| e.connector.as_str() == "confluence").expect("confluence").record;
    assert_eq!(confluence.state, SynchronizationState::InSync);
    assert!(confluence.required_before_effective);
    let github = &sync.iter().find(|e| e.connector.as_str() == "github").expect("github").record;
    assert_eq!(github.state, SynchronizationState::SourceDiverged);
    assert!(!github.required_before_effective);
}

#[test]
fn forced_audit_sink_failure_fails_the_append_closed() {
    let (_workspace, subject) = single_subject();
    let mut sink = InMemoryAuditSink::default();
    let mut store = ManagedStateEventStore::new(RetentionFloor(1));

    let error = store
        .append(&mut FailingAuditSink, freshness_event(&subject, FreshnessState::Stale), "b".to_string(), "d".to_string())
        .expect_err("a failed audit write must fail the owning operation");
    assert_eq!(error, StateEventStoreError::AuditPersistenceFailed);
    assert_eq!(error.diagnostic_code().as_str(), "audit.persistence_failed");
    assert!(store.events().is_empty(), "nothing may append");
    assert!(store.current_state().is_empty(), "no cache entry may exist");

    append(&mut store, &mut sink, freshness_event(&subject, FreshnessState::Stale));
    assert_eq!(store.events().len(), 1);
    assert_eq!(sink.records.len(), 1);
    assert_eq!(sink.records[0].ordinal, EventOrdinal(0));
}

#[test]
fn replay_posture_vocabulary_is_closed_and_wire_stable() {
    let wire: Vec<&str> = ReplayPosture::all().into_iter().map(ReplayPosture::as_str).collect();
    assert_eq!(
        wire,
        [
            "fully_replayable",
            "source_access_required",
            "intentionally_non_replayable",
            "no_longer_replayable_after_deletion"
        ]
    );
}

#[test]
fn non_dimension_families_advance_no_state_dimension() {
    let (workspace, subject) = single_subject();
    let before = workspace.duplicate();
    let mut sink = InMemoryAuditSink::default();
    let mut store = ManagedStateEventStore::new(RetentionFloor(1));
    let changes = [
        ManagedStateChange::AuthorizationAffectingSourceChange {
            connector: ConnectorId::new("confluence").expect("non-blank"),
        },
        ManagedStateChange::Declassification,
        ManagedStateChange::Migration,
        ManagedStateChange::DeletionTombstone { replay_posture: ReplayPosture::NoLongerReplayableAfterDeletion },
    ];
    for change in changes {
        append(&mut store, &mut sink, governed_event(&subject, change, "cloud.governance", "policy-1"));
    }
    assert_eq!(store.events().len(), 4, "every family appends a record");
    let state = state_of(store.current_state(), &subject);
    assert_eq!(state.governance, RecordedDimension::Gap);
    assert_eq!(state.verification, RecordedDimension::Gap);
    assert_eq!(state.effectivity, RecordedDimension::Gap);
    assert_eq!(state.freshness, RecordedDimension::Gap);
    assert_eq!(state.integrity, RecordedDimension::Gap);
    assert!(state.synchronization.is_empty());
    assert_eq!(
        store.current_state(),
        &store.reconstruct_through(EventOrdinal(3)),
        "replay must match the derived cache for every family"
    );
    assert_eq!(workspace, before, "no family may touch any managed version record");
}

#[test]
fn the_sink_receives_exactly_the_appended_record_once() {
    let (subject, _) = subjects();
    let mut store = ManagedStateEventStore::new(RetentionFloor(1));
    let mut sink = InMemoryAuditSink::default();
    let ordinal = store
        .append(
            &mut sink,
            event(&subject, ManagedStateChange::Governance { state: GovernanceState::Approved }),
            "bytes-0".to_string(),
            "digest-0".to_string(),
        )
        .expect("append accepted");
    assert_eq!(ordinal, EventOrdinal(0));
    assert_eq!(
        sink.records,
        vec![AuditRecord { ordinal: EventOrdinal(0), event_bytes: "bytes-0".to_string(), digest: "digest-0".to_string() }]
    );
    assert_eq!(store.events()[0].event_bytes, "bytes-0");
    assert_eq!(store.events()[0].digest, "digest-0");
}

#[test]
fn a_missing_correction_target_never_reaches_the_sink() {
    let (subject, _) = subjects();
    let mut store = ManagedStateEventStore::new(RetentionFloor(1));
    let mut sink = InMemoryAuditSink::default();
    let mut correction = event(&subject, ManagedStateChange::Freshness { state: FreshnessState::Stale });
    correction.corrects = Some(EventOrdinal(0));
    assert_eq!(
        store.append(&mut sink, correction, "bytes".to_string(), "digest".to_string()),
        Err(StateEventStoreError::CorrectionTargetMissing { corrects: EventOrdinal(0) })
    );
    assert!(sink.records.is_empty(), "the sink is never called");
    assert!(store.events().is_empty());
}
