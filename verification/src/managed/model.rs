//! The mathematical model of a managed workspace and of what one import
//! does to it: every Knowledge Object is retained under its own canonical
//! identity, versions are only ever appended, unchanged governed meaning
//! mints nothing, and an exact Object-ID collision with another slot is
//! announced as a candidate — never merged.

use vstd::prelude::*;

use crate::graph::{is_object_id_text, GraphKnowledgeObjectNode};
use crate::managed::records::{binding_view, ObjectModel, RepoModel, VersionModel};
use crate::managed::reconciliation::DecisionView;
use crate::string_set::sorted_elems;
use crate::text::{decimal, is_blank, lemma_decimal_injective};

verus! {

pub struct WorkspaceModel {
    pub workspace_id: Seq<char>,
    pub slots: Map<Seq<char>, RepoModel>,
    pub minted_canonical: nat,
    pub minted_version: nat,
    pub minted_slot: nat,
    pub decisions: Seq<DecisionView>,
}

/// `s` is `prefix` and the decimal spelling of a number from 1 to `bound`.
pub open spec fn minted(s: Seq<char>, prefix: Seq<char>, bound: nat) -> bool {
    exists|k: nat| 1 <= k <= bound && s == prefix + decimal(k)
}

pub open spec fn mint(prefix: Seq<char>, n: nat) -> Seq<char> {
    prefix + decimal(n)
}

/// The next name minted under `prefix` differs from every earlier one.
pub proof fn lemma_mint_fresh(s: Seq<char>, prefix: Seq<char>, bound: nat)
    requires
        minted(s, prefix, bound),
    ensures
        s != mint(prefix, bound + 1),
        minted(s, prefix, bound + 1),
{
    let k = choose|k: nat| 1 <= k <= bound && s == prefix + decimal(k);
    if s == mint(prefix, bound + 1) {
        assert((prefix + decimal(k)).skip(prefix.len() as int) =~= decimal(k));
        assert((prefix + decimal(bound + 1)).skip(prefix.len() as int) =~= decimal(bound + 1));
        lemma_decimal_injective(k, bound + 1);
    }
}

pub proof fn lemma_mint_new(prefix: Seq<char>, bound: nat)
    ensures
        minted(mint(prefix, bound + 1), prefix, bound + 1),
{
    assert(mint(prefix, bound + 1) == prefix + decimal(bound + 1));
}

/// One object is well formed in the workspace: keyed by its own Object ID,
/// with at least one version, under a canonical identity and version IDs
/// this workspace minted.
pub open spec fn object_wf(m: WorkspaceModel, o: ObjectModel, k: Seq<char>) -> bool {
    &&& o.object_id == k
    &&& o.versions.len() >= 1
    &&& o.canonical.0 == m.workspace_id
    &&& minted(o.canonical.1, "mo-"@, m.minted_canonical)
    &&& forall|i: int| 0 <= i < o.versions.len() ==> minted(#[trigger] o.versions[i].version_id, "mv-"@, m.minted_version)
}

pub open spec fn holds(m: WorkspaceModel, h: Seq<char>, k: Seq<char>) -> bool {
    m.slots.contains_key(h) && m.slots[h].objects.contains_key(k)
}

/// The workspace invariant: slot handles and identities are minted here,
/// and no two Managed Objects share a canonical identity.
pub open spec fn wf_model(m: WorkspaceModel) -> bool {
    &&& forall|h: Seq<char>| #[trigger] m.slots.contains_key(h) ==> minted(h, "slot-"@, m.minted_slot)
    &&& forall|h: Seq<char>, k: Seq<char>| #[trigger] holds(m, h, k) ==> object_wf(m, m.slots[h].objects[k], k)
    &&& forall|h1: Seq<char>, k1: Seq<char>, h2: Seq<char>, k2: Seq<char>|
        #[trigger] holds(m, h1, k1) && #[trigger] holds(m, h2, k2) && (h1 != h2 || k1 != k2) ==> m.slots[h1].objects[k1].canonical
            != m.slots[h2].objects[k2].canonical
}

/// One minted version, as reported by an import.
pub struct ImportedView {
    pub object_id: Seq<char>,
    pub canonical: (Seq<char>, Seq<char>),
    pub version_id: Seq<char>,
}

/// One side of a candidate: identity, repository and latest version.
pub struct PartyView {
    pub canonical: (Seq<char>, Seq<char>),
    pub identity: Option<(Seq<char>, Seq<char>)>,
    pub version_id: Seq<char>,
    pub content_hash: Seq<char>,
}

/// Why a candidate was emitted: only an exact Object-ID collision ever
/// produces one.
#[derive(Debug, Clone, Copy, PartialEq, Eq, Structural)]
pub enum ReconciliationReason {
    ObjectIdCollision,
}

pub struct CandidateView {
    pub object_id: Seq<char>,
    pub reason: ReconciliationReason,
    pub existing: PartyView,
    pub incoming: PartyView,
}

pub struct ImportState {
    pub ws: WorkspaceModel,
    pub imported: Seq<ImportedView>,
    pub candidates: Seq<CandidateView>,
}

/// The latest version of object `id` in slot `h`, as a party.
pub open spec fn party_of(m: WorkspaceModel, h: Seq<char>, id: Seq<char>) -> PartyView {
    let repo = m.slots[h];
    let o = repo.objects[id];
    PartyView {
        canonical: o.canonical,
        identity: repo.identity,
        version_id: o.versions.last().version_id,
        content_hash: o.versions.last().content_hash,
    }
}

/// The other slots that hold an object with Object ID `id`.
pub open spec fn colliding_slots(m: WorkspaceModel, slot: Seq<char>, id: Seq<char>) -> Set<Seq<char>> {
    Set::new(|h: Seq<char>| h != slot && holds(m, h, id))
}

/// The colliding parties, in slot-handle order.
pub open spec fn colliding(m: WorkspaceModel, slot: Seq<char>, id: Seq<char>) -> Seq<PartyView> {
    sorted_elems(colliding_slots(m, slot, id)).map_values(|h: Seq<char>| party_of(m, h, id))
}

/// Import one Knowledge Object into slot `slot` of an artifact whose
/// repository identity is `identity`.
pub open spec fn import_node(
    st: ImportState,
    slot: Seq<char>,
    identity: Option<(Seq<char>, Seq<char>)>,
    n: GraphKnowledgeObjectNode,
) -> ImportState {
    let m = st.ws;
    let repo = m.slots[slot];
    let id = n.id@;
    let v_id = mint("mv-"@, m.minted_version + 1);
    let version = VersionModel {
        version_id: v_id,
        content_hash: n.content_hash@,
        binding: binding_view(n.source_binding),
        assertions: Seq::empty(),
    };
    if repo.objects.contains_key(id) {
        let o = repo.objects[id];
        if o.versions.len() > 0 && o.versions.last().content_hash == n.content_hash@ {
            st
        } else {
            let o2 = ObjectModel { versions: o.versions.push(version), ..o };
            let ws2 = WorkspaceModel {
                slots: m.slots.insert(slot, RepoModel { objects: repo.objects.insert(id, o2), ..repo }),
                minted_version: m.minted_version + 1,
                ..m
            };
            ImportState {
                ws: ws2,
                imported: st.imported.push(ImportedView { object_id: id, canonical: o.canonical, version_id: v_id }),
                candidates: st.candidates,
            }
        }
    } else {
        let parties = colliding(m, slot, id);
        let c = (m.workspace_id, mint("mo-"@, m.minted_canonical + 1));
        let o = ObjectModel { canonical: c, object_id: id, versions: seq![version] };
        let ws2 = WorkspaceModel {
            slots: m.slots.insert(slot, RepoModel { objects: repo.objects.insert(id, o), ..repo }),
            minted_canonical: m.minted_canonical + 1,
            minted_version: m.minted_version + 1,
            ..m
        };
        let incoming = PartyView { canonical: c, identity, version_id: v_id, content_hash: n.content_hash@ };
        ImportState {
            ws: ws2,
            imported: st.imported.push(ImportedView { object_id: id, canonical: c, version_id: v_id }),
            candidates: st.candidates + parties.map_values(
                |e: PartyView| CandidateView { object_id: id, reason: ReconciliationReason::ObjectIdCollision, existing: e, incoming },
            ),
        }
    }
}

/// Import the Knowledge Objects `nodes`, in order.
pub open spec fn import_nodes(
    st: ImportState,
    slot: Seq<char>,
    identity: Option<(Seq<char>, Seq<char>)>,
    nodes: Seq<GraphKnowledgeObjectNode>,
) -> ImportState
    decreases nodes.len(),
{
    if nodes.len() == 0 {
        st
    } else {
        import_node(import_nodes(st, slot, identity, nodes.drop_last()), slot, identity, nodes.last())
    }
}

/// `sha256:` followed by at least one lowercase hexadecimal digit.
pub open spec fn is_content_hash(s: Seq<char>) -> bool {
    &&& s.len() > 7
    &&& s.subrange(0, 7) == "sha256:"@
    &&& forall|i: int| 7 <= i < s.len() ==> is_lower_hex(#[trigger] s[i])
}

/// A lowercase hexadecimal digit.
pub open spec fn is_lower_hex(c: char) -> bool {
    ('0' <= c && c <= '9') || ('a' <= c && c <= 'f')
}

/// Why node `j` of an artifact's Knowledge Objects is refused, given the
/// nodes before it passed.
pub open spec fn node_error(nodes: Seq<GraphKnowledgeObjectNode>, j: int) -> Option<crate::managed::identity::ManagedIdentityError> {
    let n = nodes[j];
    if is_blank(n.id@) {
        Some(crate::managed::identity::ManagedIdentityError::BlankObjectId)
    } else if !is_object_id_text(n.id@) {
        Some(crate::managed::identity::ManagedIdentityError::InvalidObjectId)
    } else if exists|k: int| 0 <= k < j && (#[trigger] nodes[k]).id@ == n.id@ {
        Some(crate::managed::identity::ManagedIdentityError::DuplicateObjectId)
    } else if !is_content_hash(n.content_hash@) {
        Some(crate::managed::identity::ManagedIdentityError::InvalidContentHash)
    } else {
        None
    }
}

/// The first refusal among the first `i` Knowledge Objects.
pub open spec fn check_upto(nodes: Seq<GraphKnowledgeObjectNode>, i: int) -> Option<crate::managed::identity::ManagedIdentityError>
    decreases i,
{
    if i <= 0 {
        None
    } else {
        match check_upto(nodes, i - 1) {
            Some(e) => Some(e),
            None => node_error(nodes, i - 1),
        }
    }
}

/// Why an artifact is refused, if it is.
pub open spec fn artifact_error(nodes: Seq<GraphKnowledgeObjectNode>) -> Option<crate::managed::identity::ManagedIdentityError> {
    check_upto(nodes, nodes.len() as int)
}

/// `m2` keeps everything `m1` recorded: the same workspace, slots and
/// decision log, every object with its canonical identity, and every
/// version list as a prefix.
pub open spec fn extends(m1: WorkspaceModel, m2: WorkspaceModel) -> bool {
    &&& m2.workspace_id == m1.workspace_id
    &&& m2.decisions == m1.decisions
    &&& m2.slots.dom() == m1.slots.dom()
    &&& m1.minted_canonical <= m2.minted_canonical
    &&& m1.minted_version <= m2.minted_version
    &&& m1.minted_slot <= m2.minted_slot
    &&& forall|h: Seq<char>| #[trigger] m1.slots.contains_key(h) ==> m2.slots[h].identity == m1.slots[h].identity
    &&& forall|h: Seq<char>, k: Seq<char>| #[trigger] holds(m1, h, k) ==> {
        &&& holds(m2, h, k)
        &&& m2.slots[h].objects[k].canonical == m1.slots[h].objects[k].canonical
        &&& m1.slots[h].objects[k].versions.is_prefix_of(m2.slots[h].objects[k].versions)
    }
}

pub proof fn lemma_extends_trans(m1: WorkspaceModel, m2: WorkspaceModel, m3: WorkspaceModel)
    requires
        extends(m1, m2),
        extends(m2, m3),
    ensures
        extends(m1, m3),
{
    assert forall|h: Seq<char>, k: Seq<char>| #[trigger] holds(m1, h, k) implies {
        &&& holds(m3, h, k)
        &&& m3.slots[h].objects[k].canonical == m1.slots[h].objects[k].canonical
        &&& m1.slots[h].objects[k].versions.is_prefix_of(m3.slots[h].objects[k].versions)
    } by {
        assert(holds(m2, h, k));
        let a = m1.slots[h].objects[k].versions;
        let b = m2.slots[h].objects[k].versions;
        let c = m3.slots[h].objects[k].versions;
        assert(a =~= b.subrange(0, a.len() as int));
        assert(b =~= c.subrange(0, b.len() as int));
        assert(a =~= c.subrange(0, a.len() as int));
    }
    assert forall|h: Seq<char>| #[trigger] m1.slots.contains_key(h) implies m3.slots[h].identity == m1.slots[h].identity by {
        assert(m2.slots.contains_key(h));
    }
}

pub proof fn lemma_extends_refl(m: WorkspaceModel)
    ensures
        extends(m, m),
{
    assert forall|h: Seq<char>, k: Seq<char>| #[trigger] holds(m, h, k) implies m.slots[h].objects[k].versions.is_prefix_of(
        m.slots[h].objects[k].versions,
    ) by {
        assert(m.slots[h].objects[k].versions =~= m.slots[h].objects[k].versions.subrange(
            0,
            m.slots[h].objects[k].versions.len() as int,
        ));
    }
}

/// One import step keeps the workspace well formed and extends it.
#[verifier::rlimit(60)]
pub proof fn lemma_import_node_wf(
    st: ImportState,
    slot: Seq<char>,
    identity: Option<(Seq<char>, Seq<char>)>,
    n: GraphKnowledgeObjectNode,
)
    requires
        wf_model(st.ws),
        st.ws.slots.contains_key(slot),
    ensures
        wf_model(import_node(st, slot, identity, n).ws),
        extends(st.ws, import_node(st, slot, identity, n).ws),
        import_node(st, slot, identity, n).ws.slots.contains_key(slot),
        import_node(st, slot, identity, n).ws.minted_version <= st.ws.minted_version + 1,
        import_node(st, slot, identity, n).ws.minted_canonical <= st.ws.minted_canonical + 1,
        import_node(st, slot, identity, n).ws.minted_slot == st.ws.minted_slot,
{
    let m = st.ws;
    let r = import_node(st, slot, identity, n);
    let m2 = r.ws;
    let repo = m.slots[slot];
    let id = n.id@;
    let v_id = mint("mv-"@, m.minted_version + 1);
    lemma_mint_new("mv-"@, m.minted_version);
    if repo.objects.contains_key(id) && repo.objects[id].versions.len() > 0 && repo.objects[id].versions.last().content_hash == n.content_hash@ {
        lemma_extends_refl(m);
    } else {
        let fresh = !repo.objects.contains_key(id);
        if fresh {
            lemma_mint_new("mo-"@, m.minted_canonical);
        }
        assert(m2.slots.dom() =~= m.slots.dom());
        assert forall|h: Seq<char>| #[trigger] m2.slots.contains_key(h) implies minted(h, "slot-"@, m2.minted_slot) by {
            assert(m.slots.contains_key(h));
        }
        assert forall|h: Seq<char>, k: Seq<char>| #[trigger] holds(m2, h, k) implies object_wf(m2, m2.slots[h].objects[k], k) by {
            if h == slot && k == id {
                let o2 = m2.slots[h].objects[k];
                assert forall|i: int| 0 <= i < o2.versions.len() implies minted(#[trigger] o2.versions[i].version_id, "mv-"@, m2.minted_version) by {
                    if i < o2.versions.len() - 1 {
                        assert(holds(m, h, k));
                        assert(o2.versions[i] == m.slots[h].objects[k].versions[i]);
                        lemma_mint_fresh(o2.versions[i].version_id, "mv-"@, m.minted_version);
                    }
                }
                if !fresh {
                    assert(holds(m, h, k));
                    lemma_mint_fresh(o2.canonical.1, "mo-"@, m.minted_canonical);
                }
            } else {
                assert(holds(m, h, k));
                let o = m.slots[h].objects[k];
                assert(m2.slots[h].objects[k] == o);
                assert forall|i: int| 0 <= i < o.versions.len() implies minted(#[trigger] o.versions[i].version_id, "mv-"@, m2.minted_version) by {
                    lemma_mint_fresh(o.versions[i].version_id, "mv-"@, m.minted_version);
                }
                if fresh {
                    lemma_mint_fresh(o.canonical.1, "mo-"@, m.minted_canonical);
                }
            }
        }
        assert forall|h1: Seq<char>, k1: Seq<char>, h2: Seq<char>, k2: Seq<char>|
            #[trigger] holds(m2, h1, k1) && #[trigger] holds(m2, h2, k2) && (h1 != h2 || k1 != k2) implies m2.slots[h1].objects[k1].canonical
                != m2.slots[h2].objects[k2].canonical by {
            let new1 = h1 == slot && k1 == id;
            let new2 = h2 == slot && k2 == id;
            if fresh && new1 {
                assert(holds(m, h2, k2));
                lemma_mint_fresh(m.slots[h2].objects[k2].canonical.1, "mo-"@, m.minted_canonical);
            } else if fresh && new2 {
                assert(holds(m, h1, k1));
                lemma_mint_fresh(m.slots[h1].objects[k1].canonical.1, "mo-"@, m.minted_canonical);
            } else {
                assert(holds(m, h1, k1));
                assert(holds(m, h2, k2));
                assert(m2.slots[h1].objects[k1].canonical == m.slots[h1].objects[k1].canonical);
                assert(m2.slots[h2].objects[k2].canonical == m.slots[h2].objects[k2].canonical);
            }
        }
        assert forall|h: Seq<char>, k: Seq<char>| #[trigger] holds(m, h, k) implies {
            &&& holds(m2, h, k)
            &&& m2.slots[h].objects[k].canonical == m.slots[h].objects[k].canonical
            &&& m.slots[h].objects[k].versions.is_prefix_of(m2.slots[h].objects[k].versions)
        } by {
            let a = m.slots[h].objects[k].versions;
            let b = m2.slots[h].objects[k].versions;
            if h == slot && k == id {
                assert(a =~= b.subrange(0, a.len() as int));
            } else {
                assert(a =~= b.subrange(0, a.len() as int));
            }
        }
    }
}

/// A whole import keeps the workspace well formed and extends it.
pub proof fn lemma_import_nodes_wf(
    st: ImportState,
    slot: Seq<char>,
    identity: Option<(Seq<char>, Seq<char>)>,
    nodes: Seq<GraphKnowledgeObjectNode>,
)
    requires
        wf_model(st.ws),
        st.ws.slots.contains_key(slot),
    ensures
        wf_model(import_nodes(st, slot, identity, nodes).ws),
        extends(st.ws, import_nodes(st, slot, identity, nodes).ws),
        import_nodes(st, slot, identity, nodes).ws.slots.contains_key(slot),
        import_nodes(st, slot, identity, nodes).ws.minted_version <= st.ws.minted_version + nodes.len(),
        import_nodes(st, slot, identity, nodes).ws.minted_canonical <= st.ws.minted_canonical + nodes.len(),
        import_nodes(st, slot, identity, nodes).ws.minted_slot == st.ws.minted_slot,
    decreases nodes.len(),
{
    if nodes.len() == 0 {
        lemma_extends_refl(st.ws);
    } else {
        let prev = import_nodes(st, slot, identity, nodes.drop_last());
        lemma_import_nodes_wf(st, slot, identity, nodes.drop_last());
        lemma_import_node_wf(prev, slot, identity, nodes.last());
        lemma_extends_trans(st.ws, prev.ws, import_node(prev, slot, identity, nodes.last()).ws);
    }
}

} // verus!
