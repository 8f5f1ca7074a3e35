//! The managed-import domain service: one workspace's reserved repository
//! slots, their Managed Objects and versions, and the append-only log of
//! reconciliation decisions.

use vstd::prelude::*;

use crate::graph::{clone_binding, is_object_id, knowledge_objects, GraphArtifactDocument, GraphKnowledgeObjectNode, GraphNode, GraphRepositoryIdentity};
use crate::managed::identity::{ManagedIdentityError, ManagedVersionId, RepositorySlotId, WorkspaceCanonicalIdentity, WorkspaceId};
use crate::managed::model::{
    artifact_error, check_upto, colliding, colliding_slots, holds, import_node, import_nodes, is_content_hash, lemma_import_node_wf,
    lemma_import_nodes_wf, lemma_mint_fresh, lemma_mint_new, mint, minted, node_error, object_wf, party_of, wf_model, CandidateView,
    ImportState, ImportedView, PartyView, ReconciliationReason, WorkspaceModel,
};
use crate::managed::reconciliation::{
    antecedents, conflict_with, decisions_view, first_conflict, standing_list, DecisionParty, DecisionView, PartyBinding,
    ReconciliationDecision, ReconciliationDecisionError, ReconciliationState, ReconciliationVerb,
};
use crate::managed::records::{identity_view, ids_unique, object_map, lemma_object_map_get, lemma_object_map_keys, ObjectModel, ManagedObjectRecord, ManagedRepositoryRecord, ManagedVersionRecord, ObjectRegistry, RepoModel};
use crate::sorted::{has_key, insert_sorted, lemma_one_component, lemma_sorted_key_unique, sorted_by_key, Keyed};
use crate::string_set::{lemma_lists_sorted_unique, lists_sorted, sorted_elems};
use crate::text::{append_decimal, chars_of, owned, str_eq, str_is_blank};

verus! {

/// One reserved binding slot: its handle and repository record.
#[derive(Debug, Clone, PartialEq, Eq)]
pub struct SlotEntry {
    pub slot: RepositorySlotId,
    pub record: ManagedRepositoryRecord,
}

impl Keyed for SlotEntry {
    open spec fn key(&self) -> Seq<Seq<char>> {
        seq![self.slot@]
    }

    fn key_less(&self, other: &Self) -> (r: bool) {
        let r = crate::text::str_lt(self.slot.as_str(), other.slot.as_str());
        proof { lemma_one_component(self.slot@, other.slot@); }
        r
    }
}

/// The slots as a map from handle.
pub open spec fn slot_map(s: Seq<SlotEntry>) -> Map<Seq<char>, RepoModel>
    decreases s.len(),
{
    if s.len() == 0 {
        Map::empty()
    } else {
        slot_map(s.drop_last()).insert(s.last().slot@, s.last().record@)
    }
}

pub proof fn lemma_slot_handles_unique(s: Seq<SlotEntry>, i: int, j: int)
    requires
        sorted_by_key(s),
        0 <= i < s.len(),
        0 <= j < s.len(),
        s[i].slot@ == s[j].slot@,
    ensures
        i == j,
{
    assert(s[i].key() =~= s[j].key());
    lemma_sorted_key_unique(s, i, j);
}

pub proof fn lemma_slot_map_get(s: Seq<SlotEntry>, i: int)
    requires
        sorted_by_key(s),
        0 <= i < s.len(),
    ensures
        slot_map(s).contains_key(s[i].slot@),
        slot_map(s)[s[i].slot@] == s[i].record@,
    decreases s.len(),
{
    if i < s.len() - 1 {
        lemma_slot_map_get(s.drop_last(), i);
        assert(s.drop_last()[i] == s[i]);
        if s.last().slot@ == s[i].slot@ {
            lemma_slot_handles_unique(s, i, s.len() - 1);
        }
    }
}

pub proof fn lemma_slot_map_keys(s: Seq<SlotEntry>, k: Seq<char>)
    ensures
        slot_map(s).contains_key(k) <==> exists|i: int| 0 <= i < s.len() && (#[trigger] s[i]).slot@ == k,
    decreases s.len(),
{
    if s.len() > 0 {
        lemma_slot_map_keys(s.drop_last(), k);
        if slot_map(s.drop_last()).contains_key(k) {
            let i = choose|i: int| 0 <= i < s.drop_last().len() && (#[trigger] s.drop_last()[i]).slot@ == k;
            assert(s[i] == s.drop_last()[i]);
        } else if slot_map(s).contains_key(k) {
            assert(s[s.len() - 1].slot@ == k);
        }
        if exists|i: int| 0 <= i < s.len() && (#[trigger] s[i]).slot@ == k {
            let i = choose|i: int| 0 <= i < s.len() && (#[trigger] s[i]).slot@ == k;
            if i < s.len() - 1 {
                assert(s.drop_last()[i] == s[i]);
            }
        }
    }
}

/// Replacing one slot's record changes that handle's entry only.
pub proof fn lemma_slot_map_update(s: Seq<SlotEntry>, i: int, e: SlotEntry)
    requires
        sorted_by_key(s),
        0 <= i < s.len(),
        e.slot@ == s[i].slot@,
    ensures
        sorted_by_key(s.update(i, e)),
        slot_map(s.update(i, e)) == slot_map(s).insert(e.slot@, e.record@),
{
    let t = s.update(i, e);
    assert forall|a: int, b: int| 0 <= a < b < t.len() implies crate::text::key_lt(#[trigger] t[a].key(), #[trigger] t[b].key()) by {
        assert(t[a].key() =~= s[a].key());
        assert(t[b].key() =~= s[b].key());
    }
    let expected = slot_map(s).insert(e.slot@, e.record@);
    assert forall|k: Seq<char>| #[trigger] slot_map(t).contains_key(k) <==> expected.contains_key(k) by {
        lemma_slot_map_keys(t, k);
        lemma_slot_map_keys(s, k);
        if expected.contains_key(k) && k != e.slot@ {
            let j = choose|j: int| 0 <= j < s.len() && (#[trigger] s[j]).slot@ == k;
            assert(t[j].slot@ == k);
        }
        if expected.contains_key(k) && k == e.slot@ {
            assert(t[i].slot@ == k);
        }
        if slot_map(t).contains_key(k) {
            let j = choose|j: int| 0 <= j < t.len() && (#[trigger] t[j]).slot@ == k;
            assert(s[j].slot@ == k);
        }
    }
    assert(sorted_by_key(t));
    assert forall|k: Seq<char>| #[trigger] slot_map(t).contains_key(k) implies slot_map(t)[k] == expected[k] by {
        lemma_slot_map_keys(t, k);
        let j = choose|j: int| 0 <= j < t.len() && (#[trigger] t[j]).slot@ == k;
        lemma_slot_map_get(t, j);
        if j != i {
            if t[j].slot@ == e.slot@ {
                lemma_slot_handles_unique(t, i, j);
            }
            assert(t[j] == s[j]);
            lemma_slot_map_get(s, j);
        }
    }
    assert(slot_map(t) =~= expected);
}

/// One workspace's reserved repository slots, Managed Objects and
/// versions, minting counters, and append-only decision log.
#[derive(Debug, PartialEq, Eq)]
pub struct ManagedWorkspace {
    workspace_id: WorkspaceId,
    repositories: Vec<SlotEntry>,
    minted_canonical_ids: u64,
    minted_version_ids: u64,
    minted_slot_ids: u64,
    decisions: Vec<ReconciliationDecision>,
}

impl View for ManagedWorkspace {
    type V = WorkspaceModel;

    closed spec fn view(&self) -> WorkspaceModel {
        WorkspaceModel {
            workspace_id: self.workspace_id@,
            slots: slot_map(self.repositories@),
            minted_canonical: self.minted_canonical_ids as nat,
            minted_version: self.minted_version_ids as nat,
            minted_slot: self.minted_slot_ids as nat,
            decisions: decisions_view(self.decisions@),
        }
    }
}

/// `prefix` followed by the decimal spelling of `n`.
fn minted_name(prefix: &str, n: u64) -> (r: String)
    ensures
        r@ == mint(prefix@, n as nat),
{
    let mut s = owned(prefix);
    append_decimal(&mut s, n);
    s
}

impl ManagedWorkspace {
    #[verifier::type_invariant]
    spec fn wf(self) -> bool {
        &&& sorted_by_key(self.repositories@)
        &&& wf_model(self@)
    }

    /// The handles of the reserved slots, in increasing order.
    pub closed spec fn handles(self) -> Seq<Seq<char>> {
        self.repositories@.map_values(|e: SlotEntry| e.slot@)
    }

    /// An empty workspace.
    pub fn new(workspace_id: WorkspaceId) -> (r: Self)
        ensures
            r@.workspace_id == workspace_id@,
            r@.slots == Map::<Seq<char>, RepoModel>::empty(),
            r@.minted_canonical == 0,
            r@.minted_version == 0,
            r@.minted_slot == 0,
            r@.decisions == Seq::<DecisionView>::empty(),
    {
        let r = ManagedWorkspace {
            workspace_id,
            repositories: Vec::new(),
            minted_canonical_ids: 0,
            minted_version_ids: 0,
            minted_slot_ids: 0,
            decisions: Vec::new(),
        };
        proof {
            assert(r.decisions@.map_values(|d: ReconciliationDecision| d@) =~= Seq::<DecisionView>::empty());
        }
        r
    }

    fn slot_index(&self, slot: &str) -> (r: Option<usize>)
        ensures
            match r {
                Some(i) => i < self.repositories@.len() && self.repositories@[i as int].slot@ == slot@,
                None => !self@.slots.contains_key(slot@),
            },
    {
        let mut i: usize = 0;
        while i < self.repositories.len()
            invariant
                i <= self.repositories@.len(),
                forall|j: int| 0 <= j < i ==> (#[trigger] self.repositories@[j]).slot@ != slot@,
            decreases self.repositories.len() - i,
        {
            if str_eq(self.repositories[i].slot.as_str(), slot) {
                return Some(i);
            }
            i = i + 1;
        }
        proof {
            lemma_slot_map_keys(self.repositories@, slot@);
        }
        None
    }

    /// The repository record reserved under `slot`.
    pub fn repository_slot(&self, slot: &RepositorySlotId) -> (r: Option<&ManagedRepositoryRecord>)
        ensures
            match r {
                Some(rec) => self@.slots.contains_key(slot@) && self@.slots[slot@] == rec@,
                None => !self@.slots.contains_key(slot@),
            },
    {
        proof {
            use_type_invariant(self);
        }
        match self.slot_index(slot.as_str()) {
            Some(i) => {
                proof {
                    lemma_slot_map_get(self.repositories@, i as int);
                }
                Some(&self.repositories[i].record)
            },
            None => None,
        }
    }

    /// The positions of the slots reserved for `identity`, in handle order.
    fn identity_positions(&self, identity: &GraphRepositoryIdentity) -> (r: Vec<usize>)
        ensures
            lists_sorted(r@.map_values(|i: usize| self.repositories@[i as int].slot@), slots_for(self@, identity_view(*identity))),
            forall|j: int| 0 <= j < r@.len() ==> #[trigger] r@[j] < self.repositories@.len(),
    {
        proof {
            use_type_invariant(self);
        }
        let ghost target = slots_for(self@, identity_view(*identity));
        let mut out: Vec<usize> = Vec::new();
        let mut i: usize = 0;
        while i < self.repositories.len()
            invariant
                sorted_by_key(self.repositories@),
                i <= self.repositories@.len(),
                forall|j: int| 0 <= j < out@.len() ==> #[trigger] out@[j] < i,
                forall|a: int, b: int| 0 <= a < b < out@.len() ==> #[trigger] out@[a] < #[trigger] out@[b],
                forall|j: int| 0 <= j < out@.len() ==> identity_view((#[trigger] self.repositories@[out@[j] as int]).record.repository_identity)
                    == identity_view(*identity),
                forall|j: int| 0 <= j < i && identity_view((#[trigger] self.repositories@[j]).record.repository_identity) == identity_view(*identity)
                    ==> out@.contains(j as usize),
            decreases self.repositories.len() - i,
        {
            let ghost prev = out@;
            if self.repositories[i].record.repository_identity.same_as(identity) {
                out.push(i);
            }
            proof {
                assert forall|j: int| 0 <= j < i + 1 && identity_view((#[trigger] self.repositories@[j]).record.repository_identity)
                    == identity_view(*identity) implies out@.contains(j as usize) by {
                    if j == i {
                        assert(out@[out@.len() - 1] == i);
                    } else {
                        let x = choose|x: int| 0 <= x < prev.len() && prev[x] == j as usize;
                        assert(out@[x] == j as usize);
                    }
                }
            }
            i = i + 1;
        }
        proof {
            let hs = out@.map_values(|i: usize| self.repositories@[i as int].slot@);
            let rs = self.repositories@;
            assert forall|a: int, b: int| 0 <= a < b < hs.len() implies crate::text::seq_lt(#[trigger] hs[a], #[trigger] hs[b]) by {
                assert(crate::text::key_lt(rs[out@[a] as int].key(), rs[out@[b] as int].key()));
                lemma_one_component(rs[out@[a] as int].slot@, rs[out@[b] as int].slot@);
            }
            assert forall|h: Seq<char>| #[trigger] hs.contains(h) <==> target.contains(h) by {
                lemma_slot_map_keys(rs, h);
                if hs.contains(h) {
                    let j = choose|j: int| 0 <= j < hs.len() && hs[j] == h;
                    lemma_slot_map_get(rs, out@[j] as int);
                }
                if target.contains(h) {
                    let k = choose|k: int| 0 <= k < rs.len() && (#[trigger] rs[k]).slot@ == h;
                    lemma_slot_map_get(rs, k);
                    assert(out@.contains(k as usize));
                    let j = choose|j: int| 0 <= j < out@.len() && out@[j] == k as usize;
                    assert(hs[j] == h);
                }
            }
        }
        out
    }

    /// The repository reserved for `identity` when exactly one slot is;
    /// `Ok(None)` when none is; ambiguous when several are.
    pub fn repository(&self, identity: &GraphRepositoryIdentity) -> (r: Result<Option<&ManagedRepositoryRecord>, ManagedIdentityError>)
        ensures
            match r {
                Ok(Some(rec)) => sorted_elems(slots_for(self@, identity_view(*identity))).len() == 1 && rec@
                    == self@.slots[sorted_elems(slots_for(self@, identity_view(*identity)))[0]],
                Ok(None) => sorted_elems(slots_for(self@, identity_view(*identity))).len() == 0,
                Err(e) => e == ManagedIdentityError::AmbiguousRepositoryIdentity && sorted_elems(
                    slots_for(self@, identity_view(*identity)),
                ).len() >= 2,
            },
    {
        proof {
            use_type_invariant(self);
        }
        let positions = self.identity_positions(identity);
        proof {
            let hs = positions@.map_values(|i: usize| self.repositories@[i as int].slot@);
            let target = slots_for(self@, identity_view(*identity));
            lemma_lists_sorted_unique(hs, sorted_elems(target), target);
        }
        if positions.len() == 0 {
            Ok(None)
        } else if positions.len() == 1 {
            proof {
                lemma_slot_map_get(self.repositories@, positions@[0] as int);
            }
            Ok(Some(&self.repositories[positions[0]].record))
        } else {
            Err(ManagedIdentityError::AmbiguousRepositoryIdentity)
        }
    }
}

/// The handles of the slots reserved for repository identity `identity`.
pub open spec fn slots_for(m: WorkspaceModel, identity: Option<(Seq<char>, Seq<char>)>) -> Set<Seq<char>> {
    Set::new(|h: Seq<char>| m.slots.contains_key(h) && m.slots[h].identity == identity)
}

/// One minted version: the identity layers an import assigned.
#[derive(Debug, Clone, PartialEq, Eq)]
pub struct ImportedVersion {
    pub object_id: String,
    pub canonical: WorkspaceCanonicalIdentity,
    pub version_id: ManagedVersionId,
}

impl View for ImportedVersion {
    type V = ImportedView;

    open spec fn view(&self) -> ImportedView {
        ImportedView { object_id: self.object_id@, canonical: self.canonical@, version_id: self.version_id@ }
    }
}

/// One side of a reconciliation candidate.
#[derive(Debug, Clone, PartialEq, Eq)]
pub struct ReconciliationParty {
    pub canonical: WorkspaceCanonicalIdentity,
    pub repository_identity: GraphRepositoryIdentity,
    pub version_id: ManagedVersionId,
    pub content_hash: String,
}

impl View for ReconciliationParty {
    type V = PartyView;

    open spec fn view(&self) -> PartyView {
        PartyView {
            canonical: self.canonical@,
            identity: identity_view(self.repository_identity),
            version_id: self.version_id@,
            content_hash: self.content_hash@,
        }
    }
}

impl ReconciliationParty {
    pub fn duplicate(&self) -> (r: Self)
        ensures
            r@ == self@,
    {
        ReconciliationParty {
            canonical: self.canonical.duplicate(),
            repository_identity: self.repository_identity.duplicate(),
            version_id: self.version_id.duplicate(),
            content_hash: self.content_hash.clone(),
        }
    }
}

/// A same-ID collision across two repository slots: both objects stay
/// distinct; deciding the pair is a governed action.
#[derive(Debug, Clone, PartialEq, Eq)]
pub struct ReconciliationCandidate {
    pub object_id: String,
    pub reason: ReconciliationReason,
    pub existing: ReconciliationParty,
    pub incoming: ReconciliationParty,
}

impl View for ReconciliationCandidate {
    type V = CandidateView;

    open spec fn view(&self) -> CandidateView {
        CandidateView { object_id: self.object_id@, reason: self.reason, existing: self.existing@, incoming: self.incoming@ }
    }
}

/// What one import did: the versions it minted and the collisions it
/// announced.
#[derive(Debug, Clone, PartialEq, Eq)]
pub struct ManagedImportOutcome {
    pub imported: Vec<ImportedVersion>,
    pub reconciliation_candidates: Vec<ReconciliationCandidate>,
}

pub open spec fn imported_view(s: Seq<ImportedVersion>) -> Seq<ImportedView> {
    s.map_values(|v: ImportedVersion| v@)
}

pub open spec fn candidates_view(s: Seq<ReconciliationCandidate>) -> Seq<CandidateView> {
    s.map_values(|c: ReconciliationCandidate| c@)
}

/// The workspace after reserving a fresh slot for `identity`.
pub open spec fn reserved(m: WorkspaceModel, identity: Option<(Seq<char>, Seq<char>)>) -> WorkspaceModel {
    WorkspaceModel {
        slots: m.slots.insert(
            mint("slot-"@, m.minted_slot + 1),
            RepoModel { identity, objects: Map::empty() },
        ),
        minted_slot: m.minted_slot + 1,
        ..m
    }
}

/// Reserving a fresh slot keeps the workspace well formed and extends it
/// by one empty slot.
pub proof fn lemma_reserved_wf(m: WorkspaceModel, identity: Option<(Seq<char>, Seq<char>)>)
    requires
        wf_model(m),
    ensures
        wf_model(reserved(m, identity)),
        !m.slots.contains_key(mint("slot-"@, m.minted_slot + 1)),
{
    let m2 = reserved(m, identity);
    let h = mint("slot-"@, m.minted_slot + 1);
    lemma_mint_new("slot-"@, m.minted_slot);
    if m.slots.contains_key(h) {
        lemma_mint_fresh(h, "slot-"@, m.minted_slot);
    }
    assert forall|g: Seq<char>| #[trigger] m2.slots.contains_key(g) implies minted(g, "slot-"@, m2.minted_slot) by {
        if g != h {
            lemma_mint_fresh(g, "slot-"@, m.minted_slot);
        }
    }
    assert forall|g: Seq<char>, k: Seq<char>| #[trigger] holds(m2, g, k) implies object_wf(m2, m2.slots[g].objects[k], k) by {
        assert(g != h);
        assert(holds(m, g, k));
    }
    assert forall|h1: Seq<char>, k1: Seq<char>, h2: Seq<char>, k2: Seq<char>|
        #[trigger] holds(m2, h1, k1) && #[trigger] holds(m2, h2, k2) && (h1 != h2 || k1 != k2) implies m2.slots[h1].objects[k1].canonical
            != m2.slots[h2].objects[k2].canonical by {
        assert(holds(m, h1, k1));
        assert(holds(m, h2, k2));
    }
}

/// Where an identity-routed import lands: the one slot reserved for the
/// identity, or a freshly reserved one when none is.
pub open spec fn route(m: WorkspaceModel, identity: Option<(Seq<char>, Seq<char>)>) -> (WorkspaceModel, Seq<char>) {
    let existing = sorted_elems(slots_for(m, identity));
    if existing.len() == 1 {
        (m, existing[0])
    } else {
        (reserved(m, identity), mint("slot-"@, m.minted_slot + 1))
    }
}

/// `Some(..)` of `q` agrees with `p` on a prefix.
pub proof fn lemma_check_prefix(p: Seq<GraphKnowledgeObjectNode>, q: Seq<GraphKnowledgeObjectNode>, i: int)
    requires
        p.is_prefix_of(q),
        0 <= i <= p.len(),
    ensures
        check_upto(p, i) == check_upto(q, i),
    decreases i,
{
    if i > 0 {
        lemma_check_prefix(p, q, i - 1);
        assert(p[i - 1] == q[i - 1]);
        assert((exists|k: int| 0 <= k < i - 1 && (#[trigger] p[k]).id@ == p[i - 1].id@) <==> (exists|k: int|
            0 <= k < i - 1 && (#[trigger] q[k]).id@ == q[i - 1].id@)) by {
            if exists|k: int| 0 <= k < i - 1 && (#[trigger] p[k]).id@ == p[i - 1].id@ {
                let k = choose|k: int| 0 <= k < i - 1 && (#[trigger] p[k]).id@ == p[i - 1].id@;
                assert(q[k] == p[k]);
            }
            if exists|k: int| 0 <= k < i - 1 && (#[trigger] q[k]).id@ == q[i - 1].id@ {
                let k = choose|k: int| 0 <= k < i - 1 && (#[trigger] q[k]).id@ == q[i - 1].id@;
                assert(q[k] == p[k]);
            }
        }
    }
}

/// A refusal, once found, stands.
pub proof fn lemma_check_sticky(q: Seq<GraphKnowledgeObjectNode>, i: int, j: int)
    requires
        0 <= i <= j,
        check_upto(q, i) is Some,
    ensures
        check_upto(q, j) == check_upto(q, i),
    decreases j - i,
{
    if j > i {
        lemma_check_sticky(q, i, j - 1);
    }
}

pub proof fn lemma_knowledge_step(nodes: Seq<GraphNode>, i: int)
    requires
        0 <= i < nodes.len(),
    ensures
        knowledge_objects(nodes.take(i + 1)) == match nodes[i] {
            GraphNode::KnowledgeObject(n) => knowledge_objects(nodes.take(i)).push(n),
            GraphNode::Page(_) => knowledge_objects(nodes.take(i)),
        },
{
    assert(nodes.take(i + 1).drop_last() =~= nodes.take(i));
}

pub proof fn lemma_knowledge_prefix(nodes: Seq<GraphNode>, i: int)
    requires
        0 <= i <= nodes.len(),
    ensures
        knowledge_objects(nodes.take(i)).is_prefix_of(knowledge_objects(nodes)),
    decreases nodes.len() - i,
{
    if i == nodes.len() {
        assert(nodes.take(i) =~= nodes);
        let k = knowledge_objects(nodes);
        assert(k =~= k.subrange(0, k.len() as int));
    } else {
        lemma_knowledge_prefix(nodes, i + 1);
        lemma_knowledge_step(nodes, i);
        let a = knowledge_objects(nodes.take(i));
        let b = knowledge_objects(nodes.take(i + 1));
        let c = knowledge_objects(nodes);
        assert(a =~= b.subrange(0, a.len() as int));
        assert(b =~= c.subrange(0, b.len() as int));
        assert(a =~= c.subrange(0, a.len() as int));
    }
}

pub open spec fn ko_ids(s: Seq<GraphKnowledgeObjectNode>) -> Seq<Seq<char>> {
    s.map_values(|n: GraphKnowledgeObjectNode| n.id@)
}

fn is_published_content_hash(value: &str) -> (r: bool)
    ensures
        r == is_content_hash(value@),
{
    let cs = chars_of(value);
    proof {
        reveal_strlit("sha256:");
    }
    if cs.len() <= 7 {
        return false;
    }
    if !(cs[0] == 's' && cs[1] == 'h' && cs[2] == 'a' && cs[3] == '2' && cs[4] == '5' && cs[5] == '6' && cs[6] == ':') {
        proof {
            if value@.subrange(0, 7) == "sha256:"@ {
                assert(value@.subrange(0, 7)[0] == 's' && value@.subrange(0, 7)[1] == 'h' && value@.subrange(0, 7)[2] == 'a'
                    && value@.subrange(0, 7)[3] == '2' && value@.subrange(0, 7)[4] == '5' && value@.subrange(0, 7)[5]
                    == '6' && value@.subrange(0, 7)[6] == ':');
            }
        }
        return false;
    }
    proof {
        assert(value@.subrange(0, 7) =~= "sha256:"@);
    }
    let mut i: usize = 7;
    while i < cs.len()
        invariant
            cs@ == value@,
            7 <= i <= cs@.len(),
            forall|j: int| 7 <= j < i ==> crate::managed::model::is_lower_hex(#[trigger] cs@[j]),
        decreases cs.len() - i,
    {
        let c = cs[i];
        if !(('0' <= c && c <= '9') || ('a' <= c && c <= 'f')) {
            return false;
        }
        i = i + 1;
    }
    true
}

impl ManagedWorkspace {
    /// Refuse an artifact carrying a blank, grammar-violating or repeated
    /// Object ID, or a content hash outside `sha256:` and lowercase hex:
    /// the first such Knowledge Object decides the error.
    pub fn validate_artifact_object_ids(artifact: &GraphArtifactDocument) -> (r: Result<(), ManagedIdentityError>)
        ensures
            match artifact_error(knowledge_objects(artifact.nodes@)) {
                Some(e) => r == Err::<(), ManagedIdentityError>(e),
                None => r is Ok,
            },
    {
        let ghost all = knowledge_objects(artifact.nodes@);
        let mut seen: Vec<String> = Vec::new();
        let mut i: usize = 0;
        while i < artifact.nodes.len()
            invariant
                all == knowledge_objects(artifact.nodes@),
                i <= artifact.nodes@.len(),
                check_upto(knowledge_objects(artifact.nodes@.take(i as int)), knowledge_objects(artifact.nodes@.take(i as int)).len() as int) is None,
                crate::graph::strs_view(seen@) == ko_ids(knowledge_objects(artifact.nodes@.take(i as int))),
            decreases artifact.nodes.len() - i,
        {
            let ghost ks = knowledge_objects(artifact.nodes@.take(i as int));
            proof {
                lemma_knowledge_step(artifact.nodes@, i as int);
            }
            match &artifact.nodes[i] {
                GraphNode::KnowledgeObject(node) => {
                    let ghost ks2 = ks.push(*node);
                    let ghost j = ks.len() as int;
                    proof {
                        lemma_check_prefix(ks, ks2, j);
                        assert(ks2[j] == *node);
                        lemma_knowledge_prefix(artifact.nodes@, i + 1);
                        lemma_check_prefix(ks2, all, j + 1);
                        assert((exists|k: int| 0 <= k < j && (#[trigger] ks2[k]).id@ == node.id@) <==> crate::graph::strs_view(seen@).contains(node.id@)) by {
                            if exists|k: int| 0 <= k < j && (#[trigger] ks2[k]).id@ == node.id@ {
                                let k = choose|k: int| 0 <= k < j && (#[trigger] ks2[k]).id@ == node.id@;
                                assert(ks2[k] == ks[k]);
                                assert(ko_ids(ks)[k] == node.id@);
                            }
                            if crate::graph::strs_view(seen@).contains(node.id@) {
                                let k = choose|k: int| 0 <= k < ko_ids(ks).len() && ko_ids(ks)[k] == node.id@;
                                assert(ks2[k] == ks[k]);
                            }
                        }
                    }
                    let err = if str_is_blank(node.id.as_str()) {
                        Some(ManagedIdentityError::BlankObjectId)
                    } else if !is_object_id(node.id.as_str()) {
                        Some(ManagedIdentityError::InvalidObjectId)
                    } else if crate::string_set::contains_str(&seen, node.id.as_str()) {
                        Some(ManagedIdentityError::DuplicateObjectId)
                    } else if !is_published_content_hash(node.content_hash.as_str()) {
                        Some(ManagedIdentityError::InvalidContentHash)
                    } else {
                        None
                    };
                    match err {
                        Some(e) => {
                            proof {
                                assert(node_error(ks2, j) == Some(e));
                                assert(check_upto(ks2, j + 1) == Some(e));
                                lemma_check_sticky(all, j + 1, all.len() as int);
                            }
                            return Err(e);
                        },
                        None => {
                            let ghost prev_seen = seen@;
                            seen.push(node.id.clone());
                            proof {
                                assert(crate::graph::strs_view(seen@) =~= crate::graph::strs_view(prev_seen).push(node.id@));
                                assert(ko_ids(ks2) =~= ko_ids(ks).push(node.id@));
                                assert(node_error(ks2, j) is None);
                                assert(crate::graph::strs_view(seen@) =~= ko_ids(ks2));
                            }
                        },
                    }
                },
                GraphNode::Page(_) => {},
            }
            i = i + 1;
        }
        proof {
            assert(artifact.nodes@.take(i as int) =~= artifact.nodes@);
        }
        Ok(())
    }

    /// Reserve a fresh binding slot for one physical repository. Always
    /// mints a new handle.
    pub fn reserve_repository_slot(&mut self, repository_identity: GraphRepositoryIdentity) -> (r: RepositorySlotId)
        requires
            old(self)@.minted_slot < u64::MAX,
        ensures
            r@ == mint("slot-"@, old(self)@.minted_slot + 1),
            final(self)@ == reserved(old(self)@, identity_view(repository_identity)),
    {
        proof {
            use_type_invariant(&*self);
            lemma_reserved_wf(self@, identity_view(repository_identity));
        }
        let ghost m = self@;
        let ghost ident = identity_view(repository_identity);
        let n = self.minted_slot_ids + 1;
        let handle = minted_name("slot-", n);
        let entry = SlotEntry {
            slot: RepositorySlotId::from_string(handle.clone()),
            record: ManagedRepositoryRecord { repository_identity, objects: ObjectRegistry::new() },
        };
        let ghost ev = entry;
        let mut repos: Vec<SlotEntry> = Vec::new();
        std::mem::swap(&mut repos, &mut self.repositories);
        let ghost before = repos@;
        self.minted_slot_ids = n;
        proof {
            assert(!has_key(before, ev.key())) by {
                if has_key(before, ev.key()) {
                    let k = choose|k: int| 0 <= k < before.len() && #[trigger] before[k].key() == ev.key();
                    assert(before[k].key()[0] == ev.key()[0]);
                    lemma_slot_map_get(before, k);
                }
            }
        }
        insert_sorted(&mut repos, entry, false);
        proof {
            let after = repos@;
            let expected = m.slots.insert(ev.slot@, ev.record@);
            assert forall|k: Seq<char>| #[trigger] slot_map(after).contains_key(k) <==> expected.contains_key(k) by {
                lemma_slot_map_keys(after, k);
                lemma_slot_map_keys(before, k);
                if expected.contains_key(k) && k != ev.slot@ {
                    let j = choose|j: int| 0 <= j < before.len() && (#[trigger] before[j]).slot@ == k;
                    assert(after.contains(before[j]));
                    let x = choose|x: int| 0 <= x < after.len() && after[x] == before[j];
                    assert(after[x].slot@ == k);
                }
                if k == ev.slot@ {
                    let x = choose|x: int| 0 <= x < after.len() && after[x] == ev;
                    assert(after[x].slot@ == k);
                }
                if slot_map(after).contains_key(k) {
                    let x = choose|x: int| 0 <= x < after.len() && (#[trigger] after[x]).slot@ == k;
                    if after[x] != ev {
                        let j = choose|j: int| 0 <= j < before.len() && before[j] == after[x];
                        assert(before[j].slot@ == k);
                    }
                }
            }
            assert forall|k: Seq<char>| #[trigger] slot_map(after).contains_key(k) implies slot_map(after)[k] == expected[k] by {
                lemma_slot_map_keys(after, k);
                let x = choose|x: int| 0 <= x < after.len() && (#[trigger] after[x]).slot@ == k;
                lemma_slot_map_get(after, x);
                if after[x] != ev {
                    let j = choose|j: int| 0 <= j < before.len() && before[j] == after[x];
                    lemma_slot_map_get(before, j);
                }
            }
            assert(slot_map(after) =~= expected);
            assert(ev.record@.objects == Map::<Seq<char>, crate::managed::records::ObjectModel>::empty());
            assert(ev.record@ == (RepoModel { identity: ident, objects: Map::empty() }));
        }
        self.repositories = repos;
        RepositorySlotId::from_string(handle)
    }

    /// Reserve the slot for `repository_identity` before its first
    /// artifact arrives: the one slot already reserved for it, a fresh one
    /// when none is, and ambiguous once several are.
    pub fn reserve_repository(&mut self, repository_identity: GraphRepositoryIdentity) -> (r: Result<RepositorySlotId, ManagedIdentityError>)
        requires
            old(self)@.minted_slot < u64::MAX,
        ensures
            sorted_elems(slots_for(old(self)@, identity_view(repository_identity))).len() >= 2 ==> r == Err::<
                RepositorySlotId,
                ManagedIdentityError,
            >(ManagedIdentityError::AmbiguousRepositoryIdentity) && final(self)@ == old(self)@,
            sorted_elems(slots_for(old(self)@, identity_view(repository_identity))).len() < 2 ==> (r matches Ok(s) && s@
                == route(old(self)@, identity_view(repository_identity)).1 && final(self)@ == route(
                old(self)@,
                identity_view(repository_identity),
            ).0),
            r matches Ok(s) ==> final(self)@.slots.contains_key(s@),
    {
        proof {
            use_type_invariant(&*self);
        }
        let positions = self.identity_positions(&repository_identity);
        proof {
            let hs = positions@.map_values(|i: usize| self.repositories@[i as int].slot@);
            let target = slots_for(self@, identity_view(repository_identity));
            lemma_lists_sorted_unique(hs, sorted_elems(target), target);
        }
        if positions.len() == 1 {
            proof {
                lemma_slot_map_get(self.repositories@, positions@[0] as int);
            }
            Ok(self.repositories[positions[0]].slot.duplicate())
        } else if positions.len() >= 2 {
            Err(ManagedIdentityError::AmbiguousRepositoryIdentity)
        } else {
            Ok(self.reserve_repository_slot(repository_identity))
        }
    }
}

pub open spec fn parties_view(s: Seq<ReconciliationParty>) -> Seq<PartyView> {
    s.map_values(|p: ReconciliationParty| p@)
}

impl ManagedWorkspace {
    /// The latest version of every object with Object ID `object_id` in a
    /// slot other than `slot`, in slot-handle order.
    fn colliding_parties(&self, slot: &str, object_id: &str) -> (r: Vec<ReconciliationParty>)
        ensures
            parties_view(r@) == colliding(self@, slot@, object_id@),
    {
        proof {
            use_type_invariant(self);
        }
        let ghost m = self@;
        let ghost rs = self.repositories@;
        let ghost target = colliding_slots(m, slot@, object_id@);
        let ghost mut hs: Seq<Seq<char>> = Seq::empty();
        let ghost mut idxs: Seq<int> = Seq::empty();
        let mut out: Vec<ReconciliationParty> = Vec::new();
        let mut i: usize = 0;
        while i < self.repositories.len()
            invariant
                m == self@,
                rs == self.repositories@,
                sorted_by_key(rs),
                wf_model(m),
                target == colliding_slots(m, slot@, object_id@),
                i <= rs.len(),
                hs.len() == idxs.len(),
                forall|j: int| 0 <= j < idxs.len() ==> 0 <= #[trigger] idxs[j] < i && hs[j] == rs[idxs[j]].slot@,
                forall|a: int, b: int| 0 <= a < b < idxs.len() ==> #[trigger] idxs[a] < #[trigger] idxs[b],
                forall|j: int| 0 <= j < hs.len() ==> target.contains(#[trigger] hs[j]),
                forall|j: int| 0 <= j < i && target.contains((#[trigger] rs[j]).slot@) ==> hs.contains(rs[j].slot@),
                parties_view(out@) == hs.map_values(|h: Seq<char>| party_of(m, h, object_id@)),
            decreases rs.len() - i,
        {
            let entry = &self.repositories[i];
            proof {
                lemma_slot_map_get(rs, i as int);
            }
            let ghost prev_hs = hs;
            if !str_eq(entry.slot.as_str(), slot) {
                match entry.record.objects.get(object_id) {
                    Some(o) => {
                        proof {
                            assert(holds(m, entry.slot@, object_id@));
                            assert(object_wf(m, m.slots[entry.slot@].objects[object_id@], object_id@));
                        }
                        match o.latest() {
                            Some(latest) => {
                                let party = ReconciliationParty {
                                    canonical: o.canonical.duplicate(),
                                    repository_identity: entry.record.repository_identity.duplicate(),
                                    version_id: latest.version_id.duplicate(),
                                    content_hash: latest.content_hash.clone(),
                                };
                                let ghost pv = party@;
                                let ghost prev_out = out@;
                                out.push(party);
                                proof {
                                    assert(parties_view(out@) =~= parties_view(prev_out).push(pv));
                                    assert(hs.push(entry.slot@).map_values(|h: Seq<char>| party_of(m, h, object_id@)) =~= hs.map_values(
                                        |h: Seq<char>| party_of(m, h, object_id@),
                                    ).push(party_of(m, entry.slot@, object_id@)));
                                    assert(o@.versions.last() == latest@);
                                    assert(pv == party_of(m, entry.slot@, object_id@));
                                    hs = hs.push(entry.slot@);
                                    idxs = idxs.push(i as int);
                                    assert(parties_view(out@) =~= hs.map_values(|h: Seq<char>| party_of(m, h, object_id@)));
                                    assert(target.contains(entry.slot@));
                                }
                            },
                            None => {},
                        }
                    },
                    None => {},
                }
            }
            proof {
                assert forall|j: int| 0 <= j < i + 1 && target.contains((#[trigger] rs[j]).slot@) implies hs.contains(rs[j].slot@) by {
                    if j < i {
                        let x = choose|x: int| 0 <= x < prev_hs.len() && prev_hs[x] == rs[j].slot@;
                        assert(hs[x] == prev_hs[x]);
                    } else {
                        lemma_slot_map_get(rs, j);
                        assert(hs[hs.len() - 1] == rs[j].slot@);
                    }
                }
            }
            i = i + 1;
        }
        proof {
            assert forall|a: int, b: int| 0 <= a < b < hs.len() implies crate::text::seq_lt(#[trigger] hs[a], #[trigger] hs[b]) by {
                assert(crate::text::key_lt(rs[idxs[a]].key(), rs[idxs[b]].key()));
                lemma_one_component(rs[idxs[a]].slot@, rs[idxs[b]].slot@);
            }
            assert forall|h: Seq<char>| #[trigger] hs.contains(h) <==> target.contains(h) by {
                if target.contains(h) {
                    lemma_slot_map_keys(rs, h);
                    let k = choose|k: int| 0 <= k < rs.len() && (#[trigger] rs[k]).slot@ == h;
                }
            }
            assert(lists_sorted(hs, target));
            lemma_lists_sorted_unique(hs, sorted_elems(target), target);
        }
        out
    }

    /// Import one Knowledge Object into the reserved slot `slot`.
    #[verifier::rlimit(60)]
    fn import_one(
        &mut self,
        slot: &RepositorySlotId,
        identity: &GraphRepositoryIdentity,
        node: &GraphKnowledgeObjectNode,
        imported: &mut Vec<ImportedVersion>,
        candidates: &mut Vec<ReconciliationCandidate>,
    )
        requires
            old(self)@.slots.contains_key(slot@),
            old(self)@.minted_version < u64::MAX,
            old(self)@.minted_canonical < u64::MAX,
        ensures
            (ImportState { ws: final(self)@, imported: imported_view(final(imported)@), candidates: candidates_view(final(candidates)@) })
                == import_node(
                ImportState { ws: old(self)@, imported: imported_view(old(imported)@), candidates: candidates_view(old(candidates)@) },
                slot@,
                identity_view(*identity),
                *node,
            ),
    {
        proof {
            use_type_invariant(&*self);
        }
        let ghost m = self@;
        let ghost st = ImportState { ws: m, imported: imported_view(imported@), candidates: candidates_view(candidates@) };
        let ghost id = node.id@;
        proof {
            lemma_import_node_wf(st, slot@, identity_view(*identity), *node);
        }
        let idx = match self.slot_index(slot.as_str()) {
            Some(i) => i,
            None => {
                return;
            },
        };
        proof {
            lemma_slot_map_get(self.repositories@, idx as int);
        }
        let mut existing_canonical: Option<WorkspaceCanonicalIdentity> = None;
        match self.repositories[idx].record.objects.get(node.id.as_str()) {
            Some(o) => {
                proof {
                    assert(holds(m, slot@, id));
                    assert(object_wf(m, m.slots[slot@].objects[id], id));
                }
                let unchanged = match o.latest() {
                    Some(v) => str_eq(v.content_hash.as_str(), node.content_hash.as_str()),
                    None => false,
                };
                proof {
                    if o.versions@.len() > 0 {
                        assert(o@.versions.last() == o.versions@.last()@);
                    }
                }
                if unchanged {
                    return;
                }
                existing_canonical = Some(o.canonical.duplicate());
            },
            None => {},
        }
        let vnum = self.minted_version_ids + 1;
        let v_str = minted_name("mv-", vnum);
        let version = ManagedVersionRecord {
            version_id: ManagedVersionId::from_string(v_str.clone()),
            content_hash: node.content_hash.clone(),
            source_binding: clone_binding(&node.source_binding),
            source_assertions: Vec::new(),
        };
        let ghost vv = version@;
        proof {
            assert(vv.assertions =~= Seq::<Seq<char>>::empty());
            assert(vv.binding == crate::managed::records::binding_view(node.source_binding));
        }
        match existing_canonical {
            Some(canonical) => {
                let mut repos: Vec<SlotEntry> = Vec::new();
                std::mem::swap(&mut repos, &mut self.repositories);
                let ghost before = repos@;
                self.minted_version_ids = vnum;
                let mut entry = repos.remove(idx);
                entry.record.objects.push_version(node.id.as_str(), version);
                let ghost ev = entry;
                repos.insert(idx, entry);
                proof {
                    assert(repos@ =~= before.update(idx as int, ev));
                    lemma_slot_map_update(before, idx as int, ev);
                    let r = import_node(st, slot@, identity_view(*identity), *node);
                    assert(slot_map(repos@) =~= r.ws.slots);
                }
                self.repositories = repos;
                imported.push(ImportedVersion {
                    object_id: node.id.clone(),
                    canonical,
                    version_id: ManagedVersionId::from_string(v_str),
                });
                proof {
                    let r = import_node(st, slot@, identity_view(*identity), *node);
                    assert(imported_view(imported@) =~= r.imported);
                }
            },
            None => {
                let parties = self.colliding_parties(slot.as_str(), node.id.as_str());
                let cnum = self.minted_canonical_ids + 1;
                let canonical = WorkspaceCanonicalIdentity {
                    workspace_id: self.workspace_id.duplicate(),
                    canonical_id: minted_name("mo-", cnum),
                };
                let mut versions: Vec<ManagedVersionRecord> = Vec::new();
                versions.push(version);
                let record = ManagedObjectRecord { canonical: canonical.duplicate(), object_id: node.id.clone(), versions };
                let ghost rv = record@;
                proof {
                    assert(rv.versions =~= seq![vv]);
                }
                let mut repos: Vec<SlotEntry> = Vec::new();
                std::mem::swap(&mut repos, &mut self.repositories);
                let ghost before = repos@;
                self.minted_version_ids = vnum;
                self.minted_canonical_ids = cnum;
                let mut entry = repos.remove(idx);
                entry.record.objects.insert_new(record);
                let ghost ev = entry;
                repos.insert(idx, entry);
                proof {
                    assert(repos@ =~= before.update(idx as int, ev));
                    lemma_slot_map_update(before, idx as int, ev);
                    let r = import_node(st, slot@, identity_view(*identity), *node);
                    assert(slot_map(repos@) =~= r.ws.slots);
                }
                self.repositories = repos;
                let incoming = ReconciliationParty {
                    canonical: canonical.duplicate(),
                    repository_identity: identity.duplicate(),
                    version_id: ManagedVersionId::from_string(v_str.clone()),
                    content_hash: node.content_hash.clone(),
                };
                let ghost iv = incoming@;
                let ghost start_c = candidates_view(candidates@);
                let ghost pvs = parties_view(parties@);
                let mut j: usize = 0;
                while j < parties.len()
                    invariant
                        j <= parties@.len(),
                        pvs == parties_view(parties@),
                        iv == incoming@,
                        candidates_view(candidates@) == start_c + pvs.take(j as int).map_values(
                            |e: PartyView| CandidateView { object_id: id, reason: ReconciliationReason::ObjectIdCollision, existing: e, incoming: iv },
                        ),
                        id == node.id@,
                    decreases parties.len() - j,
                {
                    let ghost prev = candidates@;
                    let c = ReconciliationCandidate {
                        object_id: node.id.clone(),
                        reason: ReconciliationReason::ObjectIdCollision,
                        existing: parties[j].duplicate(),
                        incoming: incoming.duplicate(),
                    };
                    let ghost cv = c@;
                    candidates.push(c);
                    proof {
                        assert(candidates_view(candidates@) =~= candidates_view(prev).push(cv));
                        assert(pvs.take(j + 1) =~= pvs.take(j as int).push(pvs[j as int]));
                        assert(pvs.take(j + 1).map_values(
                            |e: PartyView| CandidateView { object_id: id, reason: ReconciliationReason::ObjectIdCollision, existing: e, incoming: iv },
                        ) =~= pvs.take(j as int).map_values(
                            |e: PartyView| CandidateView { object_id: id, reason: ReconciliationReason::ObjectIdCollision, existing: e, incoming: iv },
                        ).push(cv));
                    }
                    j = j + 1;
                }
                proof {
                    assert(pvs.take(j as int) =~= pvs);
                }
                imported.push(ImportedVersion {
                    object_id: node.id.clone(),
                    canonical,
                    version_id: ManagedVersionId::from_string(v_str),
                });
                proof {
                    let r = import_node(st, slot@, identity_view(*identity), *node);
                    assert(imported_view(imported@) =~= r.imported);
                    assert(candidates_view(candidates@) =~= r.candidates);
                }
            },
        }
    }
}

impl SlotEntry {
    pub fn duplicate(&self) -> (r: Self)
        ensures
            r.slot@ == self.slot@,
            r.record@ == self.record@,
    {
        SlotEntry {
            slot: self.slot.duplicate(),
            record: ManagedRepositoryRecord {
                repository_identity: self.record.repository_identity.duplicate(),
                objects: self.record.objects.duplicate(),
            },
        }
    }
}

impl ManagedWorkspace {
    /// A copy with the same view.
    pub fn duplicate(&self) -> (r: Self)
        ensures
            r@ == self@,
    {
        proof {
            use_type_invariant(self);
        }
        let mut repos: Vec<SlotEntry> = Vec::new();
        let mut i: usize = 0;
        while i < self.repositories.len()
            invariant
                i <= self.repositories@.len(),
                repos@.len() == i,
                forall|j: int| 0 <= j < i ==> (#[trigger] repos@[j]).slot@ == self.repositories@[j].slot@
                    && repos@[j].record@ == self.repositories@[j].record@,
            decreases self.repositories.len() - i,
        {
            repos.push(self.repositories[i].duplicate());
            i = i + 1;
        }
        let mut decisions: Vec<ReconciliationDecision> = Vec::new();
        let mut k: usize = 0;
        while k < self.decisions.len()
            invariant
                k <= self.decisions@.len(),
                decisions@.len() == k,
                forall|j: int| 0 <= j < k ==> (#[trigger] decisions@[j])@ == self.decisions@[j]@,
            decreases self.decisions.len() - k,
        {
            decisions.push(self.decisions[k].duplicate());
            k = k + 1;
        }
        proof {
            lemma_slot_map_same(repos@, self.repositories@);
            assert(decisions_view(decisions@) =~= decisions_view(self.decisions@));
            assert forall|a: int, b: int| 0 <= a < b < repos@.len() implies crate::text::key_lt(#[trigger] repos@[a].key(), #[trigger] repos@[b].key()) by {
                assert(repos@[a].key() =~= self.repositories@[a].key());
                assert(repos@[b].key() =~= self.repositories@[b].key());
            }
        }
        ManagedWorkspace {
            workspace_id: self.workspace_id.duplicate(),
            repositories: repos,
            minted_canonical_ids: self.minted_canonical_ids,
            minted_version_ids: self.minted_version_ids,
            minted_slot_ids: self.minted_slot_ids,
            decisions,
        }
    }

    pub fn workspace_id(&self) -> (r: &WorkspaceId)
        ensures
            r@ == self@.workspace_id,
    {
        &self.workspace_id
    }

    /// The recorded decision history, in order: the replay input.
    pub fn decisions(&self) -> (r: &Vec<ReconciliationDecision>)
        ensures
            decisions_view(r@) == self@.decisions,
    {
        &self.decisions
    }

    /// Import the Knowledge Objects of an already validated artifact into
    /// the reserved slot `slot`.
    fn import_validated(&mut self, slot: &RepositorySlotId, identity: &GraphRepositoryIdentity, nodes: &Vec<GraphNode>) -> (r: ManagedImportOutcome)
        requires
            old(self)@.slots.contains_key(slot@),
            old(self)@.minted_version + knowledge_objects(nodes@).len() <= u64::MAX,
            old(self)@.minted_canonical + knowledge_objects(nodes@).len() <= u64::MAX,
        ensures
            (ImportState { ws: final(self)@, imported: imported_view(r.imported@), candidates: candidates_view(r.reconciliation_candidates@) })
                == import_nodes(
                ImportState { ws: old(self)@, imported: Seq::empty(), candidates: Seq::empty() },
                slot@,
                identity_view(*identity),
                knowledge_objects(nodes@),
            ),
    {
        proof {
            use_type_invariant(&*self);
        }
        let ghost start = ImportState { ws: self@, imported: Seq::empty(), candidates: Seq::empty() };
        let ghost ident = identity_view(*identity);
        let mut imported: Vec<ImportedVersion> = Vec::new();
        let mut candidates: Vec<ReconciliationCandidate> = Vec::new();
        proof {
            assert(imported_view(imported@) =~= Seq::<ImportedView>::empty());
            assert(candidates_view(candidates@) =~= Seq::<CandidateView>::empty());
            assert(nodes@.take(0) =~= Seq::<GraphNode>::empty());
        }
        let mut i: usize = 0;
        while i < nodes.len()
            invariant
                i <= nodes@.len(),
                wf_model(start.ws),
                start.ws.slots.contains_key(slot@),
                start.ws.minted_version + knowledge_objects(nodes@).len() <= u64::MAX,
                start.ws.minted_canonical + knowledge_objects(nodes@).len() <= u64::MAX,
                (ImportState { ws: self@, imported: imported_view(imported@), candidates: candidates_view(candidates@) }) == import_nodes(
                    start,
                    slot@,
                    ident,
                    knowledge_objects(nodes@.take(i as int)),
                ),
                ident == identity_view(*identity),
            decreases nodes.len() - i,
        {
            let ghost ks = knowledge_objects(nodes@.take(i as int));
            proof {
                lemma_knowledge_step(nodes@, i as int);
                lemma_knowledge_prefix(nodes@, i + 1);
                lemma_import_nodes_wf(start, slot@, ident, ks);
            }
            match &nodes[i] {
                GraphNode::KnowledgeObject(node) => {
                    proof {
                        let ks2 = ks.push(*node);
                        assert(ks2.drop_last() =~= ks);
                    }
                    self.import_one(slot, identity, node, &mut imported, &mut candidates);
                },
                GraphNode::Page(_) => {},
            }
            i = i + 1;
        }
        proof {
            assert(nodes@.take(i as int) =~= nodes@);
        }
        ManagedImportOutcome { imported, reconciliation_candidates: candidates }
    }

    /// Import an artifact into the slot reserved for its repository
    /// identity, reserving one on first arrival. A refused artifact, or an
    /// identity that several slots share, changes nothing.
    pub fn import_artifact(&mut self, artifact: &GraphArtifactDocument) -> (r: Result<ManagedImportOutcome, ManagedIdentityError>)
        requires
            old(self)@.minted_slot < u64::MAX,
            old(self)@.minted_version + knowledge_objects(artifact.nodes@).len() <= u64::MAX,
            old(self)@.minted_canonical + knowledge_objects(artifact.nodes@).len() <= u64::MAX,
        ensures
            artifact_error(knowledge_objects(artifact.nodes@)) matches Some(e) ==> r == Err::<ManagedImportOutcome, _>(e)
                && final(self)@ == old(self)@,
            artifact_error(knowledge_objects(artifact.nodes@)) is None && sorted_elems(
                slots_for(old(self)@, identity_view(artifact.repository_identity)),
            ).len() >= 2 ==> r == Err::<ManagedImportOutcome, _>(ManagedIdentityError::AmbiguousRepositoryIdentity)
                && final(self)@ == old(self)@,
            artifact_error(knowledge_objects(artifact.nodes@)) is None && sorted_elems(
                slots_for(old(self)@, identity_view(artifact.repository_identity)),
            ).len() < 2 ==> (r matches Ok(o) && (ImportState {
                ws: final(self)@,
                imported: imported_view(o.imported@),
                candidates: candidates_view(o.reconciliation_candidates@),
            }) == import_nodes(
                ImportState {
                    ws: route(old(self)@, identity_view(artifact.repository_identity)).0,
                    imported: Seq::empty(),
                    candidates: Seq::empty(),
                },
                route(old(self)@, identity_view(artifact.repository_identity)).1,
                identity_view(artifact.repository_identity),
                knowledge_objects(artifact.nodes@),
            )),
    {
        match Self::validate_artifact_object_ids(artifact) {
            Err(e) => {
                return Err(e);
            },
            Ok(()) => {},
        }
        let slot = match self.reserve_repository(artifact.repository_identity.duplicate()) {
            Ok(s) => s,
            Err(e) => {
                return Err(e);
            },
        };
        Ok(self.import_validated(&slot, &artifact.repository_identity, &artifact.nodes))
    }

    /// Import an artifact into the slot named by handle. An unknown
    /// handle, an artifact whose identity differs from the slot's, or a
    /// refused artifact changes nothing.
    pub fn import_artifact_into(&mut self, slot: &RepositorySlotId, artifact: &GraphArtifactDocument) -> (r: Result<
        ManagedImportOutcome,
        ManagedIdentityError,
    >)
        requires
            old(self)@.minted_version + knowledge_objects(artifact.nodes@).len() <= u64::MAX,
            old(self)@.minted_canonical + knowledge_objects(artifact.nodes@).len() <= u64::MAX,
        ensures
            !old(self)@.slots.contains_key(slot@) ==> r == Err::<ManagedImportOutcome, _>(ManagedIdentityError::UnknownRepositorySlot)
                && final(self)@ == old(self)@,
            old(self)@.slots.contains_key(slot@) && old(self)@.slots[slot@].identity != identity_view(artifact.repository_identity)
                ==> r == Err::<ManagedImportOutcome, _>(ManagedIdentityError::RepositoryIdentityMismatch) && final(self)@ == old(self)@,
            old(self)@.slots.contains_key(slot@) && old(self)@.slots[slot@].identity == identity_view(artifact.repository_identity)
                ==> match artifact_error(knowledge_objects(artifact.nodes@)) {
                Some(e) => r == Err::<ManagedImportOutcome, _>(e) && final(self)@ == old(self)@,
                None => r matches Ok(o) && (ImportState {
                    ws: final(self)@,
                    imported: imported_view(o.imported@),
                    candidates: candidates_view(o.reconciliation_candidates@),
                }) == import_nodes(
                    ImportState { ws: old(self)@, imported: Seq::empty(), candidates: Seq::empty() },
                    slot@,
                    identity_view(artifact.repository_identity),
                    knowledge_objects(artifact.nodes@),
                ),
            },
    {
        match self.repository_slot(slot) {
            None => {
                return Err(ManagedIdentityError::UnknownRepositorySlot);
            },
            Some(record) => {
                if !record.repository_identity.same_as(&artifact.repository_identity) {
                    return Err(ManagedIdentityError::RepositoryIdentityMismatch);
                }
            },
        }
        match Self::validate_artifact_object_ids(artifact) {
            Err(e) => {
                return Err(e);
            },
            Ok(()) => {},
        }
        Ok(self.import_validated(slot, &artifact.repository_identity, &artifact.nodes))
    }
}

impl Clone for ManagedWorkspace {
    fn clone(&self) -> (r: Self)
        ensures
            r@ == self@,
    {
        self.duplicate()
    }
}

/// Element-wise equal entries give equal maps.
pub proof fn lemma_slot_map_same(a: Seq<SlotEntry>, b: Seq<SlotEntry>)
    requires
        a.len() == b.len(),
        forall|j: int| 0 <= j < a.len() ==> (#[trigger] a[j]).slot@ == b[j].slot@ && a[j].record@ == b[j].record@,
    ensures
        slot_map(a) == slot_map(b),
    decreases a.len(),
{
    if a.len() > 0 {
        lemma_slot_map_same(a.drop_last(), b.drop_last());
        assert(a.last().slot@ == b.last().slot@);
    }
}

/// `o` is the Managed Object recorded under canonical identity `c`.
pub open spec fn names(m: WorkspaceModel, c: (Seq<char>, Seq<char>), o: ObjectModel) -> bool {
    &&& o.canonical == c
    &&& exists|h: Seq<char>, k: Seq<char>| #[trigger] holds(m, h, k) && m.slots[h].objects[k] == o
}

/// Some Managed Object carries canonical identity `c`.
pub open spec fn known(m: WorkspaceModel, c: (Seq<char>, Seq<char>)) -> bool {
    exists|h: Seq<char>, k: Seq<char>| #[trigger] holds(m, h, k) && m.slots[h].objects[k].canonical == c
}

/// The Managed Object named `c` exists and holds a version with ID `v`.
pub open spec fn has_version(m: WorkspaceModel, c: (Seq<char>, Seq<char>), v: Seq<char>) -> bool {
    &&& known(m, c)
    &&& exists|i: int| 0 <= i < object_named(m, c).versions.len() && (#[trigger] object_named(m, c).versions[i]).version_id == v
}

/// The Managed Object named by `c`.
pub open spec fn object_named(m: WorkspaceModel, c: (Seq<char>, Seq<char>)) -> ObjectModel {
    choose|o: ObjectModel| names(m, c, o)
}

/// A canonical identity names at most one object.
pub proof fn lemma_names_unique(m: WorkspaceModel, c: (Seq<char>, Seq<char>), o: ObjectModel)
    requires
        wf_model(m),
        names(m, c, o),
    ensures
        object_named(m, c) == o,
        known(m, c),
{
    let o2 = object_named(m, c);
    let (h1, k1) = choose|h: Seq<char>, k: Seq<char>| #[trigger] holds(m, h, k) && m.slots[h].objects[k] == o;
    let (h2, k2) = choose|h: Seq<char>, k: Seq<char>| #[trigger] holds(m, h, k) && m.slots[h].objects[k] == o2;
    if h1 != h2 || k1 != k2 {
        assert(m.slots[h1].objects[k1].canonical != m.slots[h2].objects[k2].canonical);
    }
}

/// Why a party binding cannot be decided: its object is unknown here, or
/// the binding is not that object's latest version.
pub open spec fn bound_error(m: WorkspaceModel, p: PartyBinding) -> Option<ReconciliationDecisionError> {
    if !known(m, p.canonical) {
        Some(ReconciliationDecisionError::UnknownParty)
    } else if object_named(m, p.canonical).versions.last().version_id != p.version_id {
        Some(ReconciliationDecisionError::StaleVersionBinding)
    } else {
        None
    }
}

/// Why recording `d` is refused, if it is: both parties bound to their
/// latest versions, a candidate pair (same Object ID), and no conflicting
/// standing merge.
pub open spec fn admission(m: WorkspaceModel, d: DecisionView) -> Option<ReconciliationDecisionError> {
    match bound_error(m, d.subject) {
        Some(e) => Some(e),
        None => match bound_error(m, d.counterpart) {
            Some(e) => Some(e),
            None => if object_named(m, d.subject.canonical).object_id != object_named(m, d.counterpart.canonical).object_id {
                Some(ReconciliationDecisionError::NotACandidatePair)
            } else {
                first_conflict(standing_list(m.decisions), d, standing_list(m.decisions).len() as int)
            },
        },
    }
}

pub open spec fn canonicals_view(s: Seq<WorkspaceCanonicalIdentity>) -> Seq<(Seq<char>, Seq<char>)> {
    s.map_values(|c: WorkspaceCanonicalIdentity| c@)
}

impl ManagedWorkspace {
    /// The Managed Object carrying canonical identity `canonical`, in
    /// whichever slot holds it.
    pub fn managed_object(&self, canonical: &WorkspaceCanonicalIdentity) -> (r: Option<&ManagedObjectRecord>)
        ensures
            match r {
                Some(o) => names(self@, canonical@, o@),
                None => !known(self@, canonical@),
            },
    {
        proof {
            use_type_invariant(self);
        }
        let ghost m = self@;
        let ghost rs = self.repositories@;
        let mut i: usize = 0;
        while i < self.repositories.len()
            invariant
                m == self@,
                rs == self.repositories@,
                sorted_by_key(rs),
                i <= rs.len(),
                forall|ii: int, k: Seq<char>| 0 <= ii < i && #[trigger] holds(m, (#[trigger] rs[ii]).slot@, k) ==> m.slots[rs[ii].slot@].objects[k].canonical
                    != canonical@,
            decreases rs.len() - i,
        {
            proof {
                lemma_slot_map_get(rs, i as int);
            }
            let records = self.repositories[i].record.objects.records();
            let mut j: usize = 0;
            while j < records.len()
                invariant
                    m == self@,
                    rs == self.repositories@,
                    i < rs.len(),
                    ids_unique(records@),
                    object_map(records@) == m.slots[rs[i as int].slot@].objects,
                    m.slots.contains_key(rs[i as int].slot@),
                    j <= records@.len(),
                    forall|jj: int| 0 <= jj < j ==> (#[trigger] records@[jj]).canonical@ != canonical@,
                decreases records.len() - j,
            {
                if records[j].canonical.same_as(canonical) {
                    proof {
                        lemma_object_map_get(records@, j as int);
                        assert(holds(m, rs[i as int].slot@, records@[j as int].object_id@));
                    }
                    return Some(&records[j]);
                }
                j = j + 1;
            }
            proof {
                assert forall|ii: int, k: Seq<char>| 0 <= ii < i + 1 && #[trigger] holds(m, (#[trigger] rs[ii]).slot@, k) implies m.slots[rs[ii].slot@].objects[k].canonical
                    != canonical@ by {
                    if ii == i {
                        lemma_object_map_keys(records@, k);
                        let x = choose|x: int| 0 <= x < records@.len() && (#[trigger] records@[x]).object_id@ == k;
                        lemma_object_map_get(records@, x);
                    }
                }
            }
            i = i + 1;
        }
        proof {
            if known(m, canonical@) {
                let (h, k) = choose|h: Seq<char>, k: Seq<char>| #[trigger] holds(m, h, k) && m.slots[h].objects[k].canonical == canonical@;
                lemma_slot_map_keys(rs, h);
                let ii = choose|ii: int| 0 <= ii < rs.len() && (#[trigger] rs[ii]).slot@ == h;
                assert(holds(m, rs[ii].slot@, k));
            }
        }
        None
    }

    /// Whether the Managed Object named `canonical` holds a version with ID
    /// `version_id`: the exact content version a state event may bind to.
    pub fn holds_version(&self, canonical: &WorkspaceCanonicalIdentity, version_id: &ManagedVersionId) -> (r: bool)
        ensures
            r == has_version(self@, canonical@, version_id@),
    {
        proof {
            use_type_invariant(self);
        }
        let object = match self.managed_object(canonical) {
            Some(o) => o,
            None => {
                return false;
            },
        };
        proof {
            lemma_names_unique(self@, canonical@, object@);
        }
        let mut i: usize = 0;
        while i < object.versions.len()
            invariant
                i <= object.versions@.len(),
                object_named(self@, canonical@) == object@,
                known(self@, canonical@),
                forall|j: int| 0 <= j < i ==> (#[trigger] object.versions@[j]).version_id@ != version_id@,
            decreases object.versions.len() - i,
        {
            if object.versions[i].version_id.same_as(version_id) {
                proof {
                    assert(object@.versions[i as int].version_id == version_id@);
                    assert(object_named(self@, canonical@).versions[i as int].version_id == version_id@);
                }
                return true;
            }
            i = i + 1;
        }
        proof {
            assert forall|j: int| 0 <= j < object@.versions.len() implies (#[trigger] object@.versions[j]).version_id != version_id@ by {
                assert(object@.versions[j] == object.versions@[j]@);
            }
        }
        false
    }

    /// Resolve a decision party: its object must exist here and the
    /// binding must be its latest version.
    fn bound_party(&self, bound: &DecisionParty) -> (r: Result<&ManagedObjectRecord, ReconciliationDecisionError>)
        ensures
            match bound_error(self@, bound@) {
                Some(e) => r == Err::<&ManagedObjectRecord, ReconciliationDecisionError>(e),
                None => r matches Ok(o) && object_named(self@, bound@.canonical) == o@,
            },
    {
        proof {
            use_type_invariant(self);
        }
        let object = match self.managed_object(&bound.canonical) {
            Some(o) => o,
            None => {
                return Err(ReconciliationDecisionError::UnknownParty);
            },
        };
        proof {
            lemma_names_unique(self@, bound@.canonical, object@);
            let (h, k) = choose|h: Seq<char>, k: Seq<char>| #[trigger] holds(self@, h, k) && self@.slots[h].objects[k] == object@;
            assert(object_wf(self@, self@.slots[h].objects[k], k));
        }
        match object.latest() {
            Some(latest) => {
                proof {
                    assert(object@.versions.last() == latest@);
                }
                if !latest.version_id.same_as(&bound.version_id) {
                    return Err(ReconciliationDecisionError::StaleVersionBinding);
                }
                Ok(object)
            },
            None => Err(ReconciliationDecisionError::UnknownParty),
        }
    }

    /// The derived reconciliation state.
    pub fn reconciliation_state(&self) -> (r: ReconciliationState)
        ensures
            decisions_view(r.standing@) == standing_list(self@.decisions),
    {
        ReconciliationState::derive(self.decisions.as_slice())
    }

    /// Record one decision: both parties must be known here and bound to
    /// their latest versions, form a candidate pair, and not conflict with
    /// a standing merge of another pair. Recording appends to the log and
    /// touches no object or version.
    pub fn record_decision(&mut self, decision: ReconciliationDecision) -> (r: Result<(), ReconciliationDecisionError>)
        ensures
            match admission(old(self)@, decision@) {
                Some(e) => r == Err::<(), ReconciliationDecisionError>(e) && final(self)@ == old(self)@,
                None => r is Ok && final(self)@ == (WorkspaceModel { decisions: old(self)@.decisions.push(decision@), ..old(self)@ }),
            },
    {
        proof {
            use_type_invariant(&*self);
        }
        let ghost m = self@;
        let subject = match self.bound_party(decision.subject()) {
            Ok(o) => o,
            Err(e) => {
                return Err(e);
            },
        };
        let counterpart = match self.bound_party(decision.counterpart()) {
            Ok(o) => o,
            Err(e) => {
                return Err(e);
            },
        };
        if !str_eq(subject.object_id.as_str(), counterpart.object_id.as_str()) {
            return Err(ReconciliationDecisionError::NotACandidatePair);
        }
        let state = self.reconciliation_state();
        let ghost st = decisions_view(state.standing@);
        let mut i: usize = 0;
        while i < state.standing.len()
            invariant
                st == decisions_view(state.standing@),
                st == standing_list(m.decisions),
                m == self@,
                bound_error(m, decision@.subject) is None,
                bound_error(m, decision@.counterpart) is None,
                object_named(m, decision@.subject.canonical).object_id == object_named(m, decision@.counterpart.canonical).object_id,
                i <= st.len(),
                first_conflict(st, decision@, i as int) is None,
            decreases state.standing.len() - i,
        {
            let standing = &state.standing[i];
            if standing.verb() == ReconciliationVerb::MergeRehome && !standing.same_pair(&decision) {
                let merged_away = &standing.counterpart().canonical;
                if merged_away.same_as(&decision.subject().canonical) || merged_away.same_as(&decision.counterpart().canonical) {
                    proof {
                        assert(conflict_with(st[i as int], decision@) == Some(ReconciliationDecisionError::PartyAlreadyMerged));
                        lemma_conflict_sticky(st, decision@, i + 1, st.len() as int);
                    }
                    return Err(ReconciliationDecisionError::PartyAlreadyMerged);
                }
                if decision.verb() == ReconciliationVerb::MergeRehome && standing.subject().canonical.same_as(
                    &decision.counterpart().canonical,
                ) {
                    proof {
                        assert(conflict_with(st[i as int], decision@) == Some(ReconciliationDecisionError::NestedMergeUnsupported));
                        lemma_conflict_sticky(st, decision@, i + 1, st.len() as int);
                    }
                    return Err(ReconciliationDecisionError::NestedMergeUnsupported);
                }
            }
            proof {
                assert(conflict_with(st[i as int], decision@) is None);
            }
            i = i + 1;
        }
        let ghost dv = decision@;
        let mut log: Vec<ReconciliationDecision> = Vec::new();
        proof {
            lemma_wf_decisions(self@, decisions_view(log@));
        }
        std::mem::swap(&mut log, &mut self.decisions);
        log.push(decision);
        proof {
            lemma_wf_decisions(m, decisions_view(log@));
        }
        self.decisions = log;
        proof {
            assert(decisions_view(self.decisions@) =~= m.decisions.push(dv));
        }
        Ok(())
    }

    /// Replay one decision from a trusted recorded log: only party
    /// existence is re-checked; nothing is appended on refusal.
    pub fn replay_decision(&mut self, decision: ReconciliationDecision) -> (r: Result<(), ReconciliationDecisionError>)
        ensures
            !known(old(self)@, decision@.subject.canonical) || !known(old(self)@, decision@.counterpart.canonical) ==> r
                == Err::<(), ReconciliationDecisionError>(ReconciliationDecisionError::UnknownParty) && final(self)@ == old(self)@,
            known(old(self)@, decision@.subject.canonical) && known(old(self)@, decision@.counterpart.canonical) ==> r is Ok
                && final(self)@ == (WorkspaceModel { decisions: old(self)@.decisions.push(decision@), ..old(self)@ }),
    {
        proof {
            use_type_invariant(&*self);
        }
        let ghost m = self@;
        match self.managed_object(&decision.subject().canonical) {
            Some(o) => {
                proof {
                    lemma_names_unique(m, decision@.subject.canonical, o@);
                }
            },
            None => {
                return Err(ReconciliationDecisionError::UnknownParty);
            },
        }
        match self.managed_object(&decision.counterpart().canonical) {
            Some(o) => {
                proof {
                    lemma_names_unique(m, decision@.counterpart.canonical, o@);
                }
            },
            None => {
                return Err(ReconciliationDecisionError::UnknownParty);
            },
        }
        let ghost dv = decision@;
        let mut log: Vec<ReconciliationDecision> = Vec::new();
        proof {
            lemma_wf_decisions(self@, decisions_view(log@));
        }
        std::mem::swap(&mut log, &mut self.decisions);
        log.push(decision);
        proof {
            lemma_wf_decisions(m, decisions_view(log@));
        }
        self.decisions = log;
        proof {
            assert(decisions_view(self.decisions@) =~= m.decisions.push(dv));
        }
        Ok(())
    }

    /// The canonical identities merged into `survivor` by standing
    /// merge decisions, in pair-key order.
    pub fn merged_antecedents(&self, survivor: &WorkspaceCanonicalIdentity) -> (r: Vec<WorkspaceCanonicalIdentity>)
        ensures
            canonicals_view(r@) == antecedents(standing_list(self@.decisions), survivor@),
    {
        let state = self.reconciliation_state();
        let ghost st = decisions_view(state.standing@);
        let mut out: Vec<WorkspaceCanonicalIdentity> = Vec::new();
        let mut i: usize = 0;
        while i < state.standing.len()
            invariant
                st == decisions_view(state.standing@),
                i <= st.len(),
                canonicals_view(out@) == antecedents(st.take(i as int), survivor@),
            decreases state.standing.len() - i,
        {
            let ghost prev = out@;
            proof {
                assert(st.take(i + 1).drop_last() =~= st.take(i as int));
                assert(st.take(i + 1).last() == st[i as int]);
            }
            let d = &state.standing[i];
            if d.verb() == ReconciliationVerb::MergeRehome && d.subject().canonical.same_as(survivor) {
                out.push(d.counterpart().canonical.duplicate());
                proof {
                    assert(canonicals_view(out@) =~= canonicals_view(prev).push(st[i as int].counterpart.canonical));
                }
            }
            i = i + 1;
        }
        proof {
            assert(st.take(i as int) =~= st);
        }
        out
    }
}

/// The decision log plays no part in well-formedness.
pub proof fn lemma_wf_decisions(m: WorkspaceModel, log: Seq<DecisionView>)
    requires
        wf_model(m),
    ensures
        wf_model(WorkspaceModel { decisions: log, ..m }),
{
    let m2 = WorkspaceModel { decisions: log, ..m };
    assert forall|h: Seq<char>, k: Seq<char>| #[trigger] holds(m2, h, k) implies object_wf(m2, m2.slots[h].objects[k], k) by {
        assert(holds(m, h, k));
    }
    assert forall|h1: Seq<char>, k1: Seq<char>, h2: Seq<char>, k2: Seq<char>|
        #[trigger] holds(m2, h1, k1) && #[trigger] holds(m2, h2, k2) && (h1 != h2 || k1 != k2) implies m2.slots[h1].objects[k1].canonical
            != m2.slots[h2].objects[k2].canonical by {
        assert(holds(m, h1, k1));
        assert(holds(m, h2, k2));
    }
}

/// A conflict, once found, stands.
pub proof fn lemma_conflict_sticky(st: Seq<DecisionView>, d: DecisionView, i: int, j: int)
    requires
        0 <= i <= j,
        first_conflict(st, d, i) is Some,
    ensures
        first_conflict(st, d, j) == first_conflict(st, d, i),
    decreases j - i,
{
    if j > i {
        lemma_conflict_sticky(st, d, i, j - 1);
    }
}

} // verus!
