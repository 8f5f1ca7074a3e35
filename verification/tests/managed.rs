use adoc_core::graph::{
    FieldMap, GraphArtifactDocument, GraphKnowledgeObjectNode, GraphNode, GraphRelations, GraphRepositoryIdentity,
    GraphSourceBinding, GraphSourceSpan,
};
use adoc_core::managed::identity::{
    ManagedIdentityError, RepositorySlotId, SourceAssertionIdentity, WorkspaceCanonicalIdentity, WorkspaceId,
};
use adoc_core::managed::model::ReconciliationReason;
use adoc_core::managed::reconciliation::{
    DecisionParty, PolicyVersion, Principal, ReconciliationDecision, ReconciliationDecisionError, ReconciliationVerb,
};
use adoc_core::managed::workspace::{ImportedVersion, ManagedWorkspace, ReconciliationCandidate, ReconciliationParty};

fn workspace() -> ManagedWorkspace {
    ManagedWorkspace::new(WorkspaceId::new("ws-acme").expect("workspace id is non-blank"))
}

fn local_repo(config_path: &str) -> GraphRepositoryIdentity {
    GraphRepositoryIdentity::local_project(config_path.to_string())
}

fn knowledge_object(id: &str, content_hash: &str) -> GraphKnowledgeObjectNode {
    GraphKnowledgeObjectNode {
        id: id.to_string(),
        kind: "claim".to_string(),
        content_hash: content_hash.to_string(),
        status: None,
        body: "Credits apply after payment.".to_string(),
        page_id: "team.page".to_string(),
        source_span: GraphSourceSpan { path: "docs/team.adoc".to_string(), line: 1, column: 1 },
        source_binding: None,
        fields: FieldMap::new(),
        relations: GraphRelations::default(),
        impacts: Vec::new(),
        approved_by: Vec::new(),
        allowed_actions: Vec::new(),
        forbidden_actions: Vec::new(),
        contradiction_claims: Vec::new(),
        evidence: Vec::new(),
        effective_status: None,
        effective_reason: None,
    }
}

fn artifact(repository_identity: GraphRepositoryIdentity, nodes: Vec<GraphKnowledgeObjectNode>) -> GraphArtifactDocument {
    GraphArtifactDocument {
        schema_version: "adoc.graph.v6".to_string(),
        repository_identity,
        nodes: nodes.into_iter().map(GraphNode::KnowledgeObject).collect(),
    }
}

fn party(of: &ReconciliationParty) -> DecisionParty {
    DecisionParty { canonical: of.canonical.clone(), version_id: of.version_id.clone() }
}

fn principal() -> Principal {
    Principal::new("user:alex").expect("principal is non-blank")
}

fn policy() -> PolicyVersion {
    PolicyVersion::new("reconciliation-policy/1").expect("policy version is non-blank")
}

fn collided_workspace() -> (ManagedWorkspace, ReconciliationCandidate) {
    let mut workspace = workspace();
    workspace
        .import_artifact(&artifact(local_repo("a/agentdoc.config.yaml"), vec![knowledge_object("billing.credits", "sha256:aaa")]))
        .expect("import accepted");
    let outcome = workspace
        .import_artifact(&artifact(local_repo("b/agentdoc.config.yaml"), vec![knowledge_object("billing.credits", "sha256:bbb")]))
        .expect("import accepted");
    let candidate = outcome.reconciliation_candidates[0].clone();
    (workspace, candidate)
}

fn bound_object(id: &str, hash: &str, path: &str, digest: &str) -> GraphKnowledgeObjectNode {
    let mut node = knowledge_object(id, hash);
    node.source_binding = Some(GraphSourceBinding {
        connector: "local_fs".to_string(),
        source: "team.page".to_string(),
        revision: None,
        path: path.to_string(),
        anchor: id.to_string(),
        source_revision_digest: digest.to_string(),
    });
    node
}

fn collided_workspace_with_bindings() -> (ManagedWorkspace, DecisionParty, DecisionParty) {
    let mut workspace = workspace();
    let repo_a = local_repo("a/agentdoc.config.yaml");
    let repo_b = local_repo("b/agentdoc.config.yaml");
    workspace
        .import_artifact(&artifact(repo_a.clone(), vec![bound_object("billing.credits", "sha256:aaa", "docs/team.adoc", "sha256:feed")]))
        .expect("import accepted");
    workspace
        .import_artifact(&artifact(repo_a, vec![bound_object("billing.credits", "sha256:aa2", "docs/team.adoc", "sha256:f00d")]))
        .expect("import accepted");
    let outcome = workspace
        .import_artifact(&artifact(repo_b, vec![bound_object("billing.credits", "sha256:bbb", "docs/other.adoc", "sha256:beef")]))
        .expect("import accepted");
    let candidate = &outcome.reconciliation_candidates[0];
    let (subject, counterpart) = (party(&candidate.existing), party(&candidate.incoming));
    (workspace, subject, counterpart)
}

fn decision_preserves_every_original_record(verb: ReconciliationVerb) {
    let (mut workspace, subject, counterpart) = collided_workspace_with_bindings();
    let before = workspace.clone();
    let decision = ReconciliationDecision::new(verb, subject.clone(), counterpart.clone(), principal(), policy())
        .expect("two distinct parties");

    workspace.record_decision(decision).expect("decision recorded");

    for repo in [local_repo("a/agentdoc.config.yaml"), local_repo("b/agentdoc.config.yaml")] {
        assert_eq!(
            workspace.repository(&repo),
            before.repository(&repo),
            "a decision must not rewrite or drop any repository record"
        );
    }
    let subject_object = workspace.managed_object(&subject.canonical).expect("subject stays queryable");
    assert_eq!(subject_object.versions.len(), 2);
    assert!(
        subject_object.versions.iter().all(|version| version.source_binding.is_some()),
        "every original Source Binding survives the decision"
    );
    let counterpart_object = workspace.managed_object(&counterpart.canonical).expect("counterpart stays queryable");
    assert_eq!(counterpart_object.versions.len(), 1);
    assert!(counterpart_object.versions[0].source_binding.is_some());

    let state = workspace.reconciliation_state();
    assert_eq!(state.standing.len(), 1);
    assert_eq!(state.standing[0].verb(), verb);
    assert_eq!(state.standing[0].subject(), &subject);
    assert_eq!(state.standing[0].counterpart(), &counterpart);
}

fn three_way_collision() -> (ManagedWorkspace, DecisionParty, DecisionParty, DecisionParty) {
    let mut workspace = workspace();
    let mut parties = Vec::new();
    for (repo, hash) in [
        ("a/agentdoc.config.yaml", "sha256:aaa"),
        ("b/agentdoc.config.yaml", "sha256:bbb"),
        ("c/agentdoc.config.yaml", "sha256:ccc"),
    ] {
        let outcome = workspace
            .import_artifact(&artifact(local_repo(repo), vec![knowledge_object("billing.credits", hash)]))
            .expect("import accepted");
        parties.push(DecisionParty {
            canonical: outcome.imported[0].canonical.clone(),
            version_id: outcome.imported[0].version_id.clone(),
        });
    }
    let c = parties.pop().expect("three imports");
    let b = parties.pop().expect("three imports");
    let a = parties.pop().expect("three imports");
    (workspace, a, b, c)
}

fn decide(verb: ReconciliationVerb, subject: &DecisionParty, counterpart: &DecisionParty) -> ReconciliationDecision {
    ReconciliationDecision::new(verb, subject.clone(), counterpart.clone(), principal(), policy()).expect("two distinct parties")
}

#[test]
fn same_object_id_in_two_repositories_retains_both_and_emits_candidate() {
    let mut workspace = workspace();
    let repo_a = local_repo("a/agentdoc.config.yaml");
    let repo_b = local_repo("b/agentdoc.config.yaml");

    let first = workspace
        .import_artifact(&artifact(repo_a.clone(), vec![knowledge_object("billing.credits", "sha256:aaa")]))
        .expect("import accepted");
    assert!(first.reconciliation_candidates.is_empty());

    let second = workspace
        .import_artifact(&artifact(repo_b.clone(), vec![knowledge_object("billing.credits", "sha256:bbb")]))
        .expect("import accepted");

    let object_a = workspace
        .repository(&repo_a)
        .expect("identity unambiguous")
        .expect("repo a recorded")
        .objects
        .get("billing.credits")
        .unwrap()
        .clone();
    let object_b = workspace
        .repository(&repo_b)
        .expect("identity unambiguous")
        .expect("repo b recorded")
        .objects
        .get("billing.credits")
        .unwrap()
        .clone();
    assert_eq!(object_a.object_id, "billing.credits");
    assert_eq!(object_b.object_id, "billing.credits");
    assert_ne!(object_a.canonical, object_b.canonical, "colliding Object IDs must never share a canonical identity");

    assert_eq!(second.reconciliation_candidates.len(), 1);
    let candidate = &second.reconciliation_candidates[0];
    assert_eq!(candidate.object_id, "billing.credits");
    assert_eq!(candidate.reason, ReconciliationReason::ObjectIdCollision);
    assert_eq!(candidate.existing.canonical, object_a.canonical);
    assert_eq!(candidate.existing.repository_identity, repo_a);
    assert_eq!(candidate.incoming.canonical, object_b.canonical);
    assert_eq!(candidate.incoming.repository_identity, repo_b);

    let third = workspace
        .import_artifact(&artifact(repo_b.clone(), vec![knowledge_object("billing.credits", "sha256:ccc")]))
        .expect("import accepted");
    assert_eq!(third.imported.len(), 1);
    assert!(third.reconciliation_candidates.is_empty(), "a candidate is emitted exactly once, not per revision");
    let object_b = workspace.repository(&repo_b).expect("repo b recorded").unwrap().objects.get("billing.credits").unwrap();
    assert_eq!(object_b.versions.len(), 2);
}

#[test]
fn revisions_mint_unique_version_ids_under_a_stable_object_identity() {
    let mut workspace = workspace();
    let repo = local_repo("a/agentdoc.config.yaml");

    let first = workspace
        .import_artifact(&artifact(repo.clone(), vec![knowledge_object("billing.credits", "sha256:aaa")]))
        .expect("import accepted");
    let second = workspace
        .import_artifact(&artifact(repo.clone(), vec![knowledge_object("billing.credits", "sha256:ccc")]))
        .expect("import accepted");

    let object = workspace
        .repository(&repo)
        .expect("identity unambiguous")
        .expect("repo recorded")
        .objects
        .get("billing.credits")
        .unwrap();
    assert_eq!(object.versions.len(), 2);
    assert_ne!(object.versions[0].version_id, object.versions[1].version_id);
    assert_eq!(first.imported[0].canonical, second.imported[0].canonical);
    assert_eq!(second.imported[0].object_id, "billing.credits");
    assert!(second.reconciliation_candidates.is_empty());
}

#[test]
fn reimporting_unchanged_content_with_a_new_binding_keeps_the_original() {
    let mut workspace = workspace();
    let repo = local_repo("a/agentdoc.config.yaml");
    let binding = |path: &str, digest: &str| GraphSourceBinding {
        connector: "local_fs".to_string(),
        source: "team.page".to_string(),
        revision: None,
        path: path.to_string(),
        anchor: "billing.credits".to_string(),
        source_revision_digest: digest.to_string(),
    };
    let mut node = knowledge_object("billing.credits", "sha256:aaa");
    node.source_binding = Some(binding("docs/team.adoc", "sha256:feed"));
    let original = node.source_binding.clone();
    workspace.import_artifact(&artifact(repo.clone(), vec![node])).expect("import accepted");

    let mut moved = knowledge_object("billing.credits", "sha256:aaa");
    moved.source_binding = Some(binding("docs/moved.adoc", "sha256:beef"));
    let again = workspace.import_artifact(&artifact(repo.clone(), vec![moved])).expect("import accepted");

    assert!(again.imported.is_empty());
    let object = workspace
        .repository(&repo)
        .expect("identity unambiguous")
        .expect("repo recorded")
        .objects
        .get("billing.credits")
        .unwrap();
    assert_eq!(object.versions.len(), 1);
    assert_eq!(
        object.versions[0].source_binding, original,
        "an immutable version keeps the binding observed when it was minted"
    );
}

#[test]
fn reimporting_unchanged_content_mints_no_new_version() {
    let mut workspace = workspace();
    let repo = local_repo("a/agentdoc.config.yaml");
    let document = artifact(repo.clone(), vec![knowledge_object("billing.credits", "sha256:aaa")]);

    workspace.import_artifact(&document).expect("import accepted");
    let again = workspace.import_artifact(&document).expect("import accepted");

    assert!(again.imported.is_empty());
    assert!(again.reconciliation_candidates.is_empty());
    let object = workspace
        .repository(&repo)
        .expect("identity unambiguous")
        .expect("repo recorded")
        .objects
        .get("billing.credits")
        .unwrap();
    assert_eq!(object.versions.len(), 1);
}

#[test]
fn canonical_identity_is_workspace_qualified() {
    let mut workspace_a = ManagedWorkspace::new(WorkspaceId::new("ws-a").expect("non-blank"));
    let mut workspace_b = ManagedWorkspace::new(WorkspaceId::new("ws-b").expect("non-blank"));
    let repo = local_repo("a/agentdoc.config.yaml");
    let document = artifact(repo.clone(), vec![knowledge_object("billing.credits", "sha256:aaa")]);

    let in_a = workspace_a.import_artifact(&document).expect("import accepted");
    let in_b = workspace_b.import_artifact(&document).expect("import accepted");

    assert_eq!(in_a.imported[0].canonical.canonical_id, "mo-1");
    assert_eq!(in_b.imported[0].canonical.canonical_id, "mo-1");
    assert_ne!(
        in_a.imported[0].canonical, in_b.imported[0].canonical,
        "workspace qualification must separate identical opaque suffixes"
    );
}

#[test]
fn blank_or_padded_workspace_id_is_rejected() {
    assert!(WorkspaceId::new("").is_err());
    assert!(WorkspaceId::new(" \t").is_err());
    assert!(WorkspaceId::new(" ws-acme").is_err());
    assert!(WorkspaceId::new("ws-acme ").is_err());
}

#[test]
fn blank_object_id_on_import_is_rejected_without_partial_state() {
    let mut workspace = workspace();
    let repo = local_repo("a/agentdoc.config.yaml");

    for blank in ["", "  "] {
        let outcome = workspace.import_artifact(&artifact(
            repo.clone(),
            vec![knowledge_object("billing.credits", "sha256:aaa"), knowledge_object(blank, "sha256:bbb")],
        ));
        assert_eq!(outcome, Err(ManagedIdentityError::BlankObjectId));
    }
    assert_eq!(
        workspace.repository(&repo),
        Ok(None),
        "a rejected import must not bind the repository slot or mint anything"
    );
}

#[test]
fn duplicate_object_ids_in_one_artifact_are_rejected_without_partial_state() {
    let mut workspace = workspace();
    let repo = local_repo("a/agentdoc.config.yaml");

    for hashes in [["sha256:aaa", "sha256:bbb"], ["sha256:5a3e", "sha256:5a3e"]] {
        let outcome = workspace.import_artifact(&artifact(
            repo.clone(),
            vec![knowledge_object("billing.credits", hashes[0]), knowledge_object("billing.credits", hashes[1])],
        ));
        assert_eq!(outcome, Err(ManagedIdentityError::DuplicateObjectId));
    }
    assert_eq!(
        workspace.repository(&repo),
        Ok(None),
        "a rejected import must not bind the repository slot or mint anything"
    );
}

#[test]
fn object_ids_violating_the_grammar_are_rejected_without_partial_state() {
    let mut workspace = workspace();
    let repo = local_repo("a/agentdoc.config.yaml");

    for invalid in ["billing.credits ", " billing.credits", "Billing.Credits", "billing", "billing.-credits"] {
        let outcome = workspace.import_artifact(&artifact(repo.clone(), vec![knowledge_object(invalid, "sha256:aaa")]));
        assert_eq!(outcome, Err(ManagedIdentityError::InvalidObjectId), "{invalid:?} must be rejected");
    }
    assert_eq!(
        workspace.repository(&repo),
        Ok(None),
        "a rejected import must not bind the repository slot or mint anything"
    );
}

#[test]
fn malformed_content_hashes_on_import_are_rejected_without_partial_state() {
    let mut workspace = workspace();
    let repo = local_repo("a/agentdoc.config.yaml");

    for invalid in ["", "  ", "sha256:", "sha256:  ", "md5:abc", "sha256:not-a-digest", "sha256:abc ", " sha256:abc", "sha256:ABC"] {
        let outcome = workspace.import_artifact(&artifact(repo.clone(), vec![knowledge_object("billing.credits", invalid)]));
        assert_eq!(outcome, Err(ManagedIdentityError::InvalidContentHash), "{invalid:?} must be rejected");
    }
    assert_eq!(
        workspace.repository(&repo),
        Ok(None),
        "a rejected import must not bind the repository slot or mint anything"
    );
}

#[test]
fn imported_versions_preserve_the_source_binding() {
    let mut workspace = workspace();
    let repo = local_repo("a/agentdoc.config.yaml");
    let mut node = knowledge_object("billing.credits", "sha256:aaa");
    node.source_binding = Some(GraphSourceBinding {
        connector: "local_fs".to_string(),
        source: "team.page".to_string(),
        revision: None,
        path: "docs/team.adoc".to_string(),
        anchor: "billing.credits".to_string(),
        source_revision_digest: "sha256:feed".to_string(),
    });
    let expected = node.source_binding.clone();

    workspace.import_artifact(&artifact(repo.clone(), vec![node])).expect("import accepted");

    let object = workspace
        .repository(&repo)
        .expect("identity unambiguous")
        .expect("repo recorded")
        .objects
        .get("billing.credits")
        .unwrap();
    assert_eq!(object.versions[0].source_binding, expected);
    assert!(object.versions[0].source_assertions.is_empty());
}

#[test]
fn same_content_hash_under_two_object_ids_stays_two_objects() {
    let mut workspace = workspace();
    let repo = local_repo("a/agentdoc.config.yaml");

    let outcome = workspace
        .import_artifact(&artifact(
            repo.clone(),
            vec![knowledge_object("billing.credits", "sha256:5a3e"), knowledge_object("billing.refunds", "sha256:5a3e")],
        ))
        .expect("import accepted");

    assert!(outcome.reconciliation_candidates.is_empty());
    let objects = &workspace.repository(&repo).expect("identity unambiguous").expect("repo recorded").objects;
    assert_eq!(objects.len(), 2);
    assert_ne!(
        objects.get("billing.credits").unwrap().canonical,
        objects.get("billing.refunds").unwrap().canonical,
        "equal hashes must never collapse two Object IDs into one identity"
    );
    assert_ne!(
        objects.get("billing.credits").unwrap().versions[0].version_id,
        objects.get("billing.refunds").unwrap().versions[0].version_id
    );
}

#[test]
fn equal_hashes_across_repositories_without_id_collision_produce_nothing() {
    let mut workspace = workspace();
    let repo_a = local_repo("a/agentdoc.config.yaml");
    let repo_b = local_repo("b/agentdoc.config.yaml");

    workspace
        .import_artifact(&artifact(repo_a.clone(), vec![knowledge_object("billing.credits", "sha256:5a3e")]))
        .expect("import accepted");
    let outcome = workspace
        .import_artifact(&artifact(repo_b.clone(), vec![knowledge_object("billing.refunds", "sha256:5a3e")]))
        .expect("import accepted");

    assert!(outcome.reconciliation_candidates.is_empty());
    assert_eq!(workspace.repository(&repo_a).expect("identity unambiguous").expect("repo a").objects.len(), 1);
    assert_eq!(workspace.repository(&repo_b).expect("identity unambiguous").expect("repo b").objects.len(), 1);
}

#[test]
fn identical_titles_and_bodies_never_unify() {
    let mut workspace = workspace();
    let repo = local_repo("a/agentdoc.config.yaml");
    let mut first = knowledge_object("billing.credits", "sha256:5a3e");
    first.fields.insert("title".to_string(), "Credit policy".to_string());
    let mut second = knowledge_object("billing.credit-rules", "sha256:5a3e");
    second.fields.insert("title".to_string(), "Credit policy".to_string());
    assert_eq!(first.body, second.body);

    let outcome = workspace.import_artifact(&artifact(repo.clone(), vec![first, second])).expect("import accepted");

    assert!(outcome.reconciliation_candidates.is_empty());
    let objects = &workspace.repository(&repo).expect("identity unambiguous").expect("repo recorded").objects;
    assert_eq!(objects.len(), 2);
    assert_ne!(
        objects.get("billing.credits").unwrap().canonical,
        objects.get("billing.credit-rules").unwrap().canonical
    );
}

#[test]
fn crafted_replay_of_id_and_hash_is_retained_distinct_candidate_only() {
    let mut workspace = workspace();
    let repo_a = local_repo("a/agentdoc.config.yaml");
    let repo_b = local_repo("b/agentdoc.config.yaml");

    workspace
        .import_artifact(&artifact(repo_a.clone(), vec![knowledge_object("billing.credits", "sha256:5a3e")]))
        .expect("import accepted");
    let outcome = workspace
        .import_artifact(&artifact(repo_b.clone(), vec![knowledge_object("billing.credits", "sha256:5a3e")]))
        .expect("import accepted");

    assert_eq!(outcome.reconciliation_candidates.len(), 1);
    let candidate = &outcome.reconciliation_candidates[0];
    assert_eq!(candidate.reason, ReconciliationReason::ObjectIdCollision);
    assert_eq!(candidate.existing.content_hash, candidate.incoming.content_hash);
    assert_ne!(
        candidate.existing.canonical, candidate.incoming.canonical,
        "an identical hash must not let the replay adopt the existing identity"
    );
    let object_a = workspace.repository(&repo_a).expect("identity unambiguous").expect("repo a").objects.get("billing.credits").unwrap();
    let object_b = workspace.repository(&repo_b).expect("identity unambiguous").expect("repo b").objects.get("billing.credits").unwrap();
    assert_ne!(object_a.canonical, object_b.canonical);
    assert_eq!(object_a.versions.len(), 1);
    assert_eq!(object_b.versions.len(), 1);
}

#[test]
fn reserved_repository_slot_exists_before_the_first_artifact() {
    let mut workspace = workspace();
    let repo = local_repo("a/agentdoc.config.yaml");

    workspace.reserve_repository(repo.clone()).expect("identity unambiguous");

    let record = workspace.repository(&repo).expect("identity unambiguous").expect("slot reserved");
    assert_eq!(record.repository_identity, repo);
    assert!(record.objects.is_empty());
}

#[test]
fn import_binds_to_the_reserved_record_and_reserve_is_idempotent() {
    let mut workspace = workspace();
    let repo = local_repo("a/agentdoc.config.yaml");
    let first = workspace.reserve_repository(repo.clone()).expect("identity unambiguous");
    let again = workspace.reserve_repository(repo.clone()).expect("identity unambiguous");
    assert_eq!(first, again, "identity-idempotent reserve never forks");

    workspace
        .import_artifact(&artifact(repo.clone(), vec![knowledge_object("billing.credits", "sha256:aaa")]))
        .expect("import accepted");
    workspace.reserve_repository(repo.clone()).expect("identity unambiguous");

    let record = workspace.repository(&repo).expect("identity unambiguous").expect("repo recorded");
    assert!(record.objects.contains_key("billing.credits"));
}

#[test]
fn import_without_knowledge_objects_still_records_the_repository() {
    let mut workspace = workspace();
    let repo = local_repo("a/agentdoc.config.yaml");

    let outcome = workspace.import_artifact(&artifact(repo.clone(), Vec::new())).expect("import accepted");

    assert!(outcome.imported.is_empty());
    let record = workspace.repository(&repo).expect("identity unambiguous").expect("repo recorded on arrival");
    assert!(record.objects.is_empty());
}

#[test]
fn replaying_against_a_mismatched_import_history_fails_closed() {
    let (mut first_run, candidate) = collided_workspace();
    let decision = ReconciliationDecision::new(
        ReconciliationVerb::KeepDistinct,
        party(&candidate.existing),
        party(&candidate.incoming),
        principal(),
        policy(),
    )
    .expect("two distinct parties");
    first_run.record_decision(decision).expect("decision recorded");

    let mut fresh = ManagedWorkspace::new(WorkspaceId::new("ws-acme").expect("workspace id is non-blank"));
    assert_eq!(
        fresh.replay_decision(first_run.decisions()[0].clone()),
        Err(ReconciliationDecisionError::UnknownParty),
        "a decision whose parties are absent from the import history must not replay"
    );
    assert!(fresh.decisions().is_empty(), "nothing may be appended on rejection");
}

#[test]
fn later_decision_for_the_same_pair_stands_while_history_is_kept() {
    let (mut workspace, candidate) = collided_workspace();
    for verb in [ReconciliationVerb::KeepDistinct, ReconciliationVerb::LinkAlias] {
        let decision =
            ReconciliationDecision::new(verb, party(&candidate.existing), party(&candidate.incoming), principal(), policy())
                .expect("two distinct parties");
        workspace.record_decision(decision).expect("decision recorded");
    }

    assert_eq!(workspace.decisions().len(), 2, "the log is append-only");
    let state = workspace.reconciliation_state();
    assert_eq!(state.standing.len(), 1);
    assert_eq!(state.standing[0].verb(), ReconciliationVerb::LinkAlias);
}

#[test]
fn link_alias_decision_preserves_every_original_record() {
    decision_preserves_every_original_record(ReconciliationVerb::LinkAlias);
}

#[test]
fn supersede_decision_preserves_every_original_record() {
    decision_preserves_every_original_record(ReconciliationVerb::Supersede);
}

#[test]
fn merged_state_is_reachable_only_through_a_recorded_decision() {
    let mut workspace = workspace();
    let repo_a = local_repo("a/agentdoc.config.yaml");
    let repo_b = local_repo("b/agentdoc.config.yaml");
    workspace
        .import_artifact(&artifact(repo_a.clone(), vec![bound_object("billing.credits", "sha256:5a3e", "docs/team.adoc", "sha256:feed")]))
        .expect("import accepted");
    let outcome = workspace
        .import_artifact(&artifact(repo_b.clone(), vec![bound_object("billing.credits", "sha256:5a3e", "docs/other.adoc", "sha256:beef")]))
        .expect("import accepted");

    assert_eq!(outcome.reconciliation_candidates.len(), 1);
    let candidate = &outcome.reconciliation_candidates[0];
    let survivor = party(&candidate.existing);
    let antecedent = party(&candidate.incoming);
    assert_ne!(survivor.canonical, antecedent.canonical);
    assert!(workspace.reconciliation_state().standing.is_empty());
    assert!(workspace.merged_antecedents(&survivor.canonical).is_empty());
    assert!(workspace.merged_antecedents(&antecedent.canonical).is_empty());

    let decision = ReconciliationDecision::new(
        ReconciliationVerb::MergeRehome,
        survivor.clone(),
        antecedent.clone(),
        principal(),
        policy(),
    )
    .expect("two distinct parties");
    workspace.record_decision(decision).expect("decision recorded");

    let state = workspace.reconciliation_state();
    assert_eq!(state.standing.len(), 1);
    assert_eq!(state.standing[0].verb(), ReconciliationVerb::MergeRehome);
    assert_eq!(workspace.merged_antecedents(&survivor.canonical), vec![antecedent.canonical.clone()]);
    assert!(workspace.merged_antecedents(&antecedent.canonical).is_empty(), "merge direction must not invert");

    for bound in [&survivor, &antecedent] {
        let object = workspace.managed_object(&bound.canonical).expect("antecedent stays queryable");
        assert_eq!(object.versions.len(), 1);
        assert!(object.versions[0].source_binding.is_some());
    }
    assert_eq!(workspace.repository(&repo_a).expect("identity unambiguous").expect("repo a retained").objects.len(), 1);
    assert_eq!(workspace.repository(&repo_b).expect("identity unambiguous").expect("repo b retained").objects.len(), 1);
}

#[test]
fn unbound_authority_context_is_unconstructible() {
    for invalid in ["", " \t", " user:alex", "user:alex "] {
        assert_eq!(Principal::new(invalid), Err(ReconciliationDecisionError::InvalidPrincipal));
        assert_eq!(PolicyVersion::new(invalid), Err(ReconciliationDecisionError::InvalidPolicyVersion));
    }

    let (_, subject, _) = collided_workspace_with_bindings();
    assert_eq!(
        ReconciliationDecision::new(ReconciliationVerb::MergeRehome, subject.clone(), subject, principal(), policy()),
        Err(ReconciliationDecisionError::SelfDecision),
        "one object is not a pair to adjudicate"
    );
}

#[test]
fn recording_rejects_unknown_parties_and_stale_version_bindings() {
    let (mut workspace, subject, counterpart) = collided_workspace_with_bindings();

    let foreign = DecisionParty {
        canonical: WorkspaceCanonicalIdentity {
            workspace_id: WorkspaceId::new("ws-other").expect("non-blank"),
            canonical_id: subject.canonical.canonical_id.clone(),
        },
        version_id: subject.version_id.clone(),
    };
    let decision = ReconciliationDecision::new(ReconciliationVerb::MergeRehome, subject.clone(), foreign, principal(), policy())
        .expect("two distinct parties");
    assert_eq!(
        workspace.record_decision(decision),
        Err(ReconciliationDecisionError::UnknownParty),
        "an equal opaque suffix in another workspace is not this party"
    );

    workspace
        .import_artifact(&artifact(
            local_repo("a/agentdoc.config.yaml"),
            vec![bound_object("billing.credits", "sha256:aa3", "docs/team.adoc", "sha256:cafe")],
        ))
        .expect("import accepted");
    let stale = ReconciliationDecision::new(ReconciliationVerb::MergeRehome, subject, counterpart, principal(), policy())
        .expect("two distinct parties");
    assert_eq!(workspace.record_decision(stale), Err(ReconciliationDecisionError::StaleVersionBinding));
    assert!(workspace.decisions().is_empty(), "a rejected decision must not enter the log");
}

#[test]
fn recording_rejects_decisions_naming_a_merged_away_party() {
    let (mut workspace, a, b, c) = three_way_collision();
    workspace.record_decision(decide(ReconciliationVerb::MergeRehome, &a, &c)).expect("first merge stands");

    assert_eq!(
        workspace.record_decision(decide(ReconciliationVerb::MergeRehome, &b, &c)),
        Err(ReconciliationDecisionError::PartyAlreadyMerged),
        "one counterpart must not be re-homed into two survivors"
    );
    assert_eq!(
        workspace.record_decision(decide(ReconciliationVerb::KeepDistinct, &c, &b)),
        Err(ReconciliationDecisionError::PartyAlreadyMerged),
        "a merged-away party is frozen for every verb"
    );
    assert_eq!(workspace.merged_antecedents(&a.canonical), vec![c.canonical.clone()]);
    assert!(workspace.merged_antecedents(&b.canonical).is_empty());

    workspace
        .record_decision(decide(ReconciliationVerb::KeepDistinct, &a, &c))
        .expect("a same-pair decision supersedes the standing merge");
    workspace
        .record_decision(decide(ReconciliationVerb::MergeRehome, &b, &c))
        .expect("an un-merged party is decidable again");
    assert!(workspace.merged_antecedents(&a.canonical).is_empty());
    assert_eq!(workspace.merged_antecedents(&b.canonical), vec![c.canonical.clone()]);
}

#[test]
fn recording_rejects_a_merge_chain_into_a_standing_survivor() {
    let (mut workspace, a, b, c) = three_way_collision();
    workspace.record_decision(decide(ReconciliationVerb::MergeRehome, &b, &c)).expect("first merge stands");

    assert_eq!(
        workspace.record_decision(decide(ReconciliationVerb::MergeRehome, &a, &b)),
        Err(ReconciliationDecisionError::NestedMergeUnsupported)
    );
    assert_eq!(workspace.merged_antecedents(&b.canonical), vec![c.canonical.clone()]);
    assert!(workspace.merged_antecedents(&a.canonical).is_empty());

    workspace
        .record_decision(decide(ReconciliationVerb::KeepDistinct, &a, &b))
        .expect("a non-merge decision on the survivor stays legal");
}

#[test]
fn one_survivor_may_absorb_multiple_antecedents() {
    let (mut workspace, a, b, c) = three_way_collision();
    workspace.record_decision(decide(ReconciliationVerb::MergeRehome, &a, &c)).expect("first merge stands");
    workspace
        .record_decision(decide(ReconciliationVerb::MergeRehome, &a, &b))
        .expect("a survivor may absorb another antecedent");
    assert_eq!(workspace.merged_antecedents(&a.canonical), vec![b.canonical.clone(), c.canonical.clone()]);
}

#[test]
fn recording_rejects_parties_that_never_formed_a_candidate_pair() {
    let mut workspace = workspace();
    let first = workspace
        .import_artifact(&artifact(local_repo("a/agentdoc.config.yaml"), vec![knowledge_object("billing.credits", "sha256:aaa")]))
        .expect("import accepted");
    let second = workspace
        .import_artifact(&artifact(local_repo("b/agentdoc.config.yaml"), vec![knowledge_object("billing.refunds", "sha256:bbb")]))
        .expect("import accepted");

    let uncollided = |of: &ImportedVersion| DecisionParty { canonical: of.canonical.clone(), version_id: of.version_id.clone() };
    for verb in [
        ReconciliationVerb::KeepDistinct,
        ReconciliationVerb::LinkAlias,
        ReconciliationVerb::Supersede,
        ReconciliationVerb::MergeRehome,
    ] {
        let decision = ReconciliationDecision::new(
            verb,
            uncollided(&first.imported[0]),
            uncollided(&second.imported[0]),
            principal(),
            policy(),
        )
        .expect("two distinct parties");
        assert_eq!(workspace.record_decision(decision), Err(ReconciliationDecisionError::NotACandidatePair));
    }
    assert!(workspace.decisions().is_empty(), "a rejected decision must not enter the log");
}

#[test]
fn two_slots_sharing_a_degenerate_identity_stay_distinct_and_reconcile() {
    let mut workspace = workspace();
    let degenerate = local_repo("agentdoc.config.yaml");
    let slot_a = workspace.reserve_repository_slot(degenerate.clone());
    let slot_b = workspace.reserve_repository_slot(degenerate.clone());
    assert_ne!(slot_a, slot_b);

    let first = workspace
        .import_artifact_into(&slot_a, &artifact(degenerate.clone(), vec![knowledge_object("billing.credits", "sha256:aaa")]))
        .expect("routed import accepted");
    assert!(first.reconciliation_candidates.is_empty());

    let second = workspace
        .import_artifact_into(&slot_b, &artifact(degenerate.clone(), vec![knowledge_object("billing.credits", "sha256:bbb")]))
        .expect("routed import accepted");

    let object_a = workspace.repository_slot(&slot_a).expect("slot a").objects.get("billing.credits").unwrap();
    let object_b = workspace.repository_slot(&slot_b).expect("slot b").objects.get("billing.credits").unwrap();
    assert_ne!(object_a.canonical, object_b.canonical, "slots sharing an identity must keep distinct object registries");
    assert_eq!(object_a.versions[0].content_hash, "sha256:aaa");
    assert_eq!(object_b.versions[0].content_hash, "sha256:bbb");

    assert_eq!(second.reconciliation_candidates.len(), 1);
    let candidate = &second.reconciliation_candidates[0];
    assert_eq!(candidate.reason, ReconciliationReason::ObjectIdCollision);
    assert_eq!(candidate.existing.canonical, object_a.canonical);
    assert_eq!(candidate.incoming.canonical, object_b.canonical);
}

#[test]
fn identity_routed_import_fails_closed_when_two_slots_share_the_identity() {
    let mut workspace = workspace();
    let degenerate = local_repo("agentdoc.config.yaml");
    let slot_a = workspace.reserve_repository_slot(degenerate.clone());
    workspace.reserve_repository_slot(degenerate.clone());

    let outcome = workspace.import_artifact(&artifact(degenerate.clone(), vec![knowledge_object("billing.credits", "sha256:aaa")]));

    assert_eq!(outcome, Err(ManagedIdentityError::AmbiguousRepositoryIdentity));
    assert_eq!(
        workspace.repository(&degenerate),
        Err(ManagedIdentityError::AmbiguousRepositoryIdentity),
        "the read lookup distinguishes ambiguity from absence"
    );
    assert!(
        workspace.repository_slot(&slot_a).expect("slot reserved").objects.is_empty(),
        "an ambiguous import must not touch any slot"
    );
    assert!(workspace.reserve_repository(degenerate).is_err(), "identity-idempotent reservation is equally ambiguous");
}

#[test]
fn routed_import_rejects_unknown_slot_and_identity_mismatch_without_state() {
    let mut workspace = workspace();
    let repo = local_repo("a/agentdoc.config.yaml");
    let slot = workspace.reserve_repository_slot(repo.clone());
    let document = artifact(repo.clone(), vec![knowledge_object("billing.credits", "sha256:aaa")]);

    let unreserved = RepositorySlotId::new("slot-99");
    assert_eq!(workspace.import_artifact_into(&unreserved, &document), Err(ManagedIdentityError::UnknownRepositorySlot));

    let mismatched = artifact(local_repo("b/agentdoc.config.yaml"), vec![knowledge_object("billing.credits", "sha256:aaa")]);
    assert_eq!(workspace.import_artifact_into(&slot, &mismatched), Err(ManagedIdentityError::RepositoryIdentityMismatch));
    assert!(
        workspace.repository_slot(&slot).expect("slot reserved").objects.is_empty(),
        "a rejected routed import must not mint anything"
    );
}

#[test]
fn object_ids_stay_repository_local_across_null_and_project_keys() {
    let mut workspace = workspace();
    let project = local_repo("a/agentdoc.config.yaml");
    let standalone = GraphRepositoryIdentity::standalone();

    workspace
        .import_artifact(&artifact(project.clone(), vec![knowledge_object("billing.credits", "sha256:aaa")]))
        .expect("import accepted");
    let outcome = workspace
        .import_artifact(&artifact(standalone.clone(), vec![knowledge_object("billing.credits", "sha256:bbb")]))
        .expect("import accepted");

    assert_eq!(outcome.reconciliation_candidates.len(), 1);
    let in_project =
        workspace.repository(&project).expect("identity unambiguous").expect("project repo").objects.get("billing.credits").unwrap();
    let in_standalone = workspace
        .repository(&standalone)
        .expect("identity unambiguous")
        .expect("standalone repo")
        .objects
        .get("billing.credits")
        .unwrap();
    assert_ne!(in_project.canonical, in_standalone.canonical);
    assert_eq!(in_project.versions[0].content_hash, "sha256:aaa");
    assert_eq!(in_standalone.versions[0].content_hash, "sha256:bbb");
}

#[test]
fn identical_producer_identities_collapse_into_one_repository_record() {
    let mut workspace = workspace();
    let producer = local_repo("agentdoc.config.yaml");

    workspace
        .import_artifact(&artifact(producer.clone(), vec![knowledge_object("billing.credits", "sha256:aaa")]))
        .expect("import accepted");
    let second = workspace
        .import_artifact(&artifact(producer.clone(), vec![knowledge_object("billing.credits", "sha256:bbb")]))
        .expect("import accepted");

    assert!(
        second.reconciliation_candidates.is_empty(),
        "equal keys are one repository: no cross-repository collision exists to announce"
    );
    let object = workspace
        .repository(&producer)
        .expect("one record under the producer identity")
        .unwrap()
        .objects
        .get("billing.credits")
        .unwrap();
    assert_eq!(object.versions.len(), 2, "the second import appends a revision of the first repository's object");
}

#[test]
fn source_assertion_identity_is_typed_and_rejects_blank_values() {
    assert!(SourceAssertionIdentity::new("  ").is_err());
    assert!(SourceAssertionIdentity::new(" a:b").is_err());
    assert!(SourceAssertionIdentity::new("a:b ").is_err());
    let identity = SourceAssertionIdentity::new("confluence:page-9:rev-4:assertion-2").expect("non-blank");
    assert_eq!(identity.as_str(), "confluence:page-9:rev-4:assertion-2");
}

#[test]
fn keep_distinct_decision_is_principal_bound_and_replays_to_identical_state() {
    let (mut first_run, candidate) = collided_workspace();
    let decision = ReconciliationDecision::new(
        ReconciliationVerb::KeepDistinct,
        party(&candidate.existing),
        party(&candidate.incoming),
        principal(),
        policy(),
    )
    .expect("two distinct parties");
    first_run.record_decision(decision).expect("decision recorded");

    let (mut replayed, _) = collided_workspace();
    for event in first_run.decisions().to_vec() {
        replayed.replay_decision(event).expect("replay accepted");
    }

    assert_eq!(first_run, replayed, "replay must rebuild the workspace");
    assert_eq!(
        first_run.reconciliation_state(),
        replayed.reconciliation_state(),
        "replayed reconciliation state must be identical"
    );
    assert_ne!(candidate.existing.canonical, candidate.incoming.canonical, "keep-distinct leaves both objects distinct");
    assert_eq!(first_run.reconciliation_state().standing.len(), 1);
}

#[test]
fn decision_recorded_between_imports_replays_from_the_trusted_log() {
    let (mut first_run, candidate) = collided_workspace();
    let decision = ReconciliationDecision::new(
        ReconciliationVerb::KeepDistinct,
        party(&candidate.existing),
        party(&candidate.incoming),
        principal(),
        policy(),
    )
    .expect("two distinct parties");
    first_run.record_decision(decision).expect("decision recorded");
    first_run
        .import_artifact(&artifact(local_repo("a/agentdoc.config.yaml"), vec![knowledge_object("billing.credits", "sha256:aa2")]))
        .expect("import accepted");

    let (mut replayed, _) = collided_workspace();
    replayed
        .import_artifact(&artifact(local_repo("a/agentdoc.config.yaml"), vec![knowledge_object("billing.credits", "sha256:aa2")]))
        .expect("import accepted");
    for event in first_run.decisions().to_vec() {
        replayed.replay_decision(event).expect("replay accepted");
    }

    assert_eq!(first_run, replayed, "replay must rebuild the workspace");
    assert_eq!(
        first_run.reconciliation_state(),
        replayed.reconciliation_state(),
        "replayed reconciliation state must be identical"
    );
}

#[test]
fn decision_verbs_are_a_closed_wire_vocabulary() {
    for (verb, wire) in [
        (ReconciliationVerb::KeepDistinct, "keep_distinct"),
        (ReconciliationVerb::LinkAlias, "link_alias"),
        (ReconciliationVerb::Supersede, "supersede"),
        (ReconciliationVerb::MergeRehome, "merge_rehome"),
    ] {
        assert_eq!(verb.as_str(), wire);
    }
}

#[test]
fn non_hex_content_hash_digits_are_rejected() {
    let mut workspace = workspace();
    let repo = local_repo("a/agentdoc.config.yaml");
    for invalid in ["sha256:g", "sha256:abcz", "sha256:0123456789abcdeg"] {
        let outcome = workspace.import_artifact(&artifact(repo.clone(), vec![knowledge_object("a.b", invalid)]));
        assert_eq!(outcome, Err(ManagedIdentityError::InvalidContentHash), "{invalid:?} must be rejected");
    }
    assert!(workspace.import_artifact(&artifact(repo, vec![knowledge_object("a.b", "sha256:0123456789abcdef")])).is_ok());
}
