//! Source-path impact analysis: which verified Knowledge Objects declare,
//! or cite as evidence, a path in a change set.

use vstd::prelude::*;

use crate::graph::{opt_view, strs_view, GraphKnowledgeObjectNode};
use crate::rel_path::{names_path, path_set, RelPath};
use crate::review::object_diff::{heads, ObjectDiff};
use crate::sorted::{insert_sorted, insert_stable, lemma_one_component, lists_set, sorted_by_key, sorted_le, Keyed};
use crate::text::{key_lt, str_eq};

verus! {

/// Verified claims, accepted decisions and verified APIs are the subjects
/// whose declarations impact analysis trusts.
pub open spec fn is_verified_subject(node: GraphKnowledgeObjectNode) -> bool {
    match opt_view(node.status) {
        None => false,
        Some(status) => {
            ||| node.kind@ == "claim"@ && status == "verified"@
            ||| node.kind@ == "decision"@ && status == "accepted"@
            ||| node.kind@ == "api"@ && status == "verified"@
        },
    }
}

pub fn verified_subject(node: &GraphKnowledgeObjectNode) -> (r: bool)
    ensures
        r == is_verified_subject(*node),
{
    match &node.status {
        None => false,
        Some(status) => {
            let kind = node.kind.as_str();
            let status = status.as_str();
            (str_eq(kind, "claim") && str_eq(status, "verified")) || (str_eq(kind, "decision")
                && str_eq(status, "accepted")) || (str_eq(kind, "api") && str_eq(status, "verified"))
        },
    }
}

/// The declared `impacts:` paths of `node` that the change set names.
pub open spec fn impact_hits(node: GraphKnowledgeObjectNode, changed: Set<Seq<char>>) -> Set<Seq<char>> {
    Set::new(|p: Seq<char>| strs_view(node.impacts@).contains(p) && changed.contains(p))
}

/// One impacted Knowledge Object and its declared paths in the change set.
#[derive(Debug, Clone, PartialEq, Eq)]
pub struct ImpactedObject {
    pub id: String,
    pub paths: Vec<String>,
}

impl Keyed for ImpactedObject {
    open spec fn key(&self) -> Seq<Seq<char>> {
        seq![self.id@]
    }

    fn key_less(&self, other: &Self) -> (r: bool) {
        let r = crate::text::str_lt(self.id.as_str(), other.id.as_str());
        proof { lemma_one_component(self.id@, other.id@); }
        r
    }
}

/// `e` is the impact entry of `node` for the change set.
pub open spec fn entry_for(e: ImpactedObject, node: GraphKnowledgeObjectNode, changed: Set<Seq<char>>) -> bool {
    &&& is_verified_subject(node)
    &&& e.id@ == node.id@
    &&& lists_set(e.paths@, impact_hits(node, changed))
    &&& e.paths@.len() > 0
}

/// `e` is the impact entry of one of `nodes`.
pub open spec fn entry_of_some(e: ImpactedObject, nodes: Seq<GraphKnowledgeObjectNode>, changed: Set<Seq<char>>) -> bool {
    exists|j: int| 0 <= j < nodes.len() && entry_for(e, #[trigger] nodes[j], changed)
}

/// `node` is impacted: a verified subject with a declared path in the set.
pub open spec fn is_impacted(node: GraphKnowledgeObjectNode, changed: Set<Seq<char>>) -> bool {
    is_verified_subject(node) && exists|p: Seq<char>| #[trigger] impact_hits(node, changed).contains(p)
}

/// Verified claims, accepted decisions and verified APIs alike are
/// impacted by a change set that names one of their declared `impacts:`
/// paths: the record is impacted, any impact entry for it lists that path,
/// and it is implicated with that path as an `impacts_path` reason.
pub proof fn lemma_declared_paths_of_trusted_records_are_impacts(
    objects: Seq<&GraphKnowledgeObjectNode>,
    node: GraphKnowledgeObjectNode,
    changed: Set<Seq<char>>,
    p: Seq<char>,
)
    requires
        (node.kind@ == "claim"@ && opt_view(node.status) == Some("verified"@)) || (node.kind@ == "decision"@
            && opt_view(node.status) == Some("accepted"@)) || (node.kind@ == "api"@ && opt_view(node.status) == Some(
            "verified"@,
        )),
        strs_view(node.impacts@).contains(p),
        changed.contains(p),
    ensures
        is_impacted(node, changed),
        forall|e: ImpactedObject| #[trigger] entry_for(e, node, changed) ==> strs_view(e.paths@).contains(p),
        is_reason(objects, node, changed, ReasonView { path: p, kind: ImpactReasonKind::ImpactsPath, via: None }),
        qualifies(objects, node, changed),
{
    assert(impact_hits(node, changed).contains(p));
    assert forall|e: ImpactedObject| #[trigger] entry_for(e, node, changed) implies strs_view(e.paths@).contains(p) by {
        let i = choose|i: int| 0 <= i < e.paths@.len() && #[trigger] e.paths@[i]@ == p;
        assert(strs_view(e.paths@)[i] == p);
    }
    let rv = ReasonView { path: p, kind: ImpactReasonKind::ImpactsPath, via: None };
    assert(is_reason(objects, node, changed, rv));
}

/// Only those records are ever impacted or implicated: any other record
/// (draft claims, proposed decisions, unverified APIs, every other kind)
/// never is, whatever it declares.
pub proof fn lemma_only_trusted_records_are_impacted(
    objects: Seq<&GraphKnowledgeObjectNode>,
    node: GraphKnowledgeObjectNode,
    changed: Set<Seq<char>>,
)
    requires
        !((node.kind@ == "claim"@ && opt_view(node.status) == Some("verified"@)) || (node.kind@ == "decision"@
            && opt_view(node.status) == Some("accepted"@)) || (node.kind@ == "api"@ && opt_view(node.status) == Some(
            "verified"@,
        ))),
    ensures
        !is_impacted(node, changed),
        !qualifies(objects, node, changed),
{
}

/// The impact entry of one node, if it is impacted.
fn impact_entry_for(node: &GraphKnowledgeObjectNode, changed: &[RelPath]) -> (r: Option<ImpactedObject>)
    ensures
        r is None <==> !is_impacted(*node, path_set(changed@)),
        r matches Some(e) ==> entry_for(e, *node, path_set(changed@)),
{
    let ghost hits = impact_hits(*node, path_set(changed@));
    if !verified_subject(node) || node.impacts.len() == 0 {
        proof {
            if node.impacts@.len() == 0 {
                assert forall|p: Seq<char>| !(#[trigger] hits.contains(p)) by {
                    if hits.contains(p) {
                        let i = choose|i: int| 0 <= i < strs_view(node.impacts@).len() && strs_view(node.impacts@)[i] == p;
                    }
                }
            }
        }
        return None;
    }
    let mut paths: Vec<String> = Vec::new();
    let mut i: usize = 0;
    while i < node.impacts.len()
        invariant
            i <= node.impacts@.len(),
            hits == impact_hits(*node, path_set(changed@)),
            sorted_by_key(paths@),
            forall|k: int| 0 <= k < paths@.len() ==> hits.contains(#[trigger] paths@[k]@),
            forall|j: int|
                0 <= j < i && #[trigger] path_set(changed@).contains(node.impacts@[j]@) ==> exists|k: int|
                    0 <= k < paths@.len() && #[trigger] paths@[k]@ == node.impacts@[j]@,
        decreases node.impacts.len() - i,
    {
        let declared = &node.impacts[i];
        if names_path(changed, declared.as_str()) {
            let ghost before = paths@;
            proof {
                assert(strs_view(node.impacts@)[i as int] == declared@);
                assert(hits.contains(declared@));
            }
            insert_sorted(&mut paths, declared.clone(), false);
            proof {
                assert forall|k: int| 0 <= k < paths@.len() implies hits.contains(#[trigger] paths@[k]@) by {
                    if paths@[k] != *declared {
                        let m = choose|m: int| 0 <= m < before.len() && before[m] == paths@[k];
                    }
                }
                assert forall|j: int|
                    0 <= j < i + 1 && #[trigger] path_set(changed@).contains(node.impacts@[j]@) implies exists|k: int|
                        0 <= k < paths@.len() && #[trigger] paths@[k]@ == node.impacts@[j]@ by {
                    if j == i {
                        if crate::sorted::has_key(before, declared.key()) {
                            let m = choose|m: int| 0 <= m < before.len() && #[trigger] before[m].key() == declared.key();
                            assert(before[m].key()[0] == declared.key()[0]);
                            assert(paths@.contains(before[m]));
                            let k = choose|k: int| 0 <= k < paths@.len() && paths@[k] == before[m];
                            assert(paths@[k]@ == node.impacts@[j]@);
                        } else {
                            let k = choose|k: int| 0 <= k < paths@.len() && paths@[k] == *declared;
                            assert(paths@[k]@ == node.impacts@[j]@);
                        }
                    } else {
                        let k0 = choose|k: int| 0 <= k < before.len() && #[trigger] before[k]@ == node.impacts@[j]@;
                        assert(paths@.contains(before[k0]));
                        let k = choose|k: int| 0 <= k < paths@.len() && paths@[k] == before[k0];
                        assert(paths@[k]@ == node.impacts@[j]@);
                    }
                }
            }
        }
        i = i + 1;
    }
    proof {
        assert forall|p: Seq<char>| #[trigger] hits.contains(p) implies exists|k: int|
            0 <= k < paths@.len() && #[trigger] paths@[k]@ == p by {
            let j = choose|j: int| 0 <= j < strs_view(node.impacts@).len() && strs_view(node.impacts@)[j] == p;
            assert(node.impacts@[j]@ == p);
            assert(path_set(changed@).contains(node.impacts@[j]@));
        }
    }
    if paths.len() == 0 {
        proof {
            assert forall|p: Seq<char>| !(#[trigger] hits.contains(p)) by {
                if hits.contains(p) {
                    let k = choose|k: int| 0 <= k < paths@.len() && #[trigger] paths@[k]@ == p;
                }
            }
        }
        return None;
    }
    proof {
        assert(hits.contains(paths@[0]@));
    }
    Some(ImpactedObject { id: node.id.clone(), paths })
}

/// The head-side subjects of a diff: created nodes, then the head of
/// every changed entry.
pub open spec fn subjects(diff: ObjectDiff) -> Seq<GraphKnowledgeObjectNode> {
    diff.created_view() + heads(diff.changed_view())
}

/// The first `j` subjects have been considered: `impacted` holds, in ID
/// order, exactly the entries of the impacted ones.
pub open spec fn impact_progress(
    impacted: Seq<ImpactedObject>,
    subj: Seq<GraphKnowledgeObjectNode>,
    changed: Set<Seq<char>>,
    j: int,
) -> bool {
    &&& sorted_by_key(impacted)
    &&& forall|i: int|
        0 <= i < impacted.len() ==> exists|k: int|
            0 <= k < j && entry_for(#[trigger] impacted[i], #[trigger] subj[k], changed)
    &&& forall|k: int|
        0 <= k < j && is_impacted(#[trigger] subj[k], changed) ==> exists|i: int|
            0 <= i < impacted.len() && #[trigger] impacted[i].id@ == subj[k].id@
}

proof fn lemma_progress_witness(
    impacted: Seq<ImpactedObject>,
    subj: Seq<GraphKnowledgeObjectNode>,
    changed: Set<Seq<char>>,
    t: int,
    i: int,
) -> (k: int)
    requires
        impact_progress(impacted, subj, changed, t),
        0 <= i < impacted.len(),
    ensures
        0 <= k < t,
        entry_for(impacted[i], subj[k], changed),
{
    choose|k: int| 0 <= k < t && entry_for(#[trigger] impacted[i], #[trigger] subj[k], changed)
}

fn consider_subject(
    impacted: &mut Vec<ImpactedObject>,
    node: &GraphKnowledgeObjectNode,
    changed_files: &[RelPath],
    Ghost(subj): Ghost<Seq<GraphKnowledgeObjectNode>>,
    Ghost(j): Ghost<int>,
)
    requires
        0 <= j < subj.len(),
        subj[j] == *node,
        impact_progress(old(impacted)@, subj, path_set(changed_files@), j),
    ensures
        impact_progress(final(impacted)@, subj, path_set(changed_files@), j + 1),
{
    let ghost changed = path_set(changed_files@);
    let entry = impact_entry_for(node, changed_files);
    match entry {
        Some(e) => {
            let ghost before = impacted@;
            let ghost ev = e;
            insert_sorted(impacted, e, false);
            proof {
                assert forall|i: int|
                    0 <= i < impacted@.len() implies exists|k: int|
                        0 <= k < j + 1 && entry_for(#[trigger] impacted@[i], #[trigger] subj[k], changed) by {
                    if impacted@[i] == ev {
                        assert(entry_for(impacted@[i], subj[j], changed));
                    } else {
                        let m = choose|m: int| 0 <= m < before.len() && before[m] == impacted@[i];
                        let k = choose|k: int| 0 <= k < j && entry_for(#[trigger] before[m], #[trigger] subj[k], changed);
                    }
                }
                assert forall|k: int|
                    0 <= k < j + 1 && is_impacted(#[trigger] subj[k], changed) implies exists|i: int|
                        0 <= i < impacted@.len() && #[trigger] impacted@[i].id@ == subj[k].id@ by {
                    if k == j {
                        if crate::sorted::has_key(before, ev.key()) {
                            let m = choose|m: int| 0 <= m < before.len() && #[trigger] before[m].key() == ev.key();
                            assert(before[m].key()[0] == ev.key()[0]);
                            assert(impacted@.contains(before[m]));
                            let i = choose|i: int| 0 <= i < impacted@.len() && impacted@[i] == before[m];
                            assert(impacted@[i].id@ == subj[k].id@);
                        } else {
                            let i = choose|i: int| 0 <= i < impacted@.len() && impacted@[i] == ev;
                            assert(impacted@[i].id@ == subj[k].id@);
                        }
                    } else {
                        let i0 = choose|i: int| 0 <= i < before.len() && #[trigger] before[i].id@ == subj[k].id@;
                        assert(impacted@.contains(before[i0]));
                        let i = choose|i: int| 0 <= i < impacted@.len() && impacted@[i] == before[i0];
                        assert(impacted@[i].id@ == subj[k].id@);
                    }
                }
            }
        },
        None => {},
    }
}

/// Flag the verified subjects among the diff's created and changed-head
/// nodes whose declared `impacts:` intersect the change set; one entry per
/// object, in Object ID order, each with its matching paths in order.
/// Deleted nodes never appear.
pub fn compute_impact(diff: &ObjectDiff, changed_files: &[RelPath]) -> (r: Vec<ImpactedObject>)
    ensures
        changed_files@.len() == 0 ==> r@.len() == 0,
        sorted_by_key(r@),
        forall|i: int| 0 <= i < r@.len() ==> entry_of_some(#[trigger] r@[i], subjects(*diff), path_set(changed_files@)),
        forall|j: int|
            0 <= j < subjects(*diff).len() && is_impacted(#[trigger] subjects(*diff)[j], path_set(changed_files@))
                ==> exists|i: int| 0 <= i < r@.len() && #[trigger] r@[i].id@ == subjects(*diff)[j].id@,
{
    let ghost changed = path_set(changed_files@);
    let ghost subj = subjects(*diff);
    let mut impacted: Vec<ImpactedObject> = Vec::new();
    if changed_files.len() == 0 {
        proof {
            assert forall|j: int| 0 <= j < subj.len() implies !is_impacted(#[trigger] subj[j], changed) by {
                assert forall|p: Seq<char>| !(#[trigger] impact_hits(subj[j], changed).contains(p)) by {
                    if impact_hits(subj[j], changed).contains(p) {
                        assert(changed.contains(p));
                        let i = choose|i: int| 0 <= i < changed_files@.len() && (#[trigger] changed_files@[i]).spec_str() == p;
                    }
                }
            }
        }
        return impacted;
    }
    let created = diff.created();
    let changed_entries = diff.changed();
    let n_created = created.len();
    let mut j: usize = 0;
    while j < n_created
        invariant
            subj == subjects(*diff),
            created@ == diff.created_view(),
            n_created == created@.len(),
            j <= n_created,
            impact_progress(impacted@, subj, path_set(changed_files@), j as int),
        decreases n_created - j,
    {
        proof {
            assert(subj[j as int] == created@[j as int]);
        }
        consider_subject(&mut impacted, &created[j], changed_files, Ghost(subj), Ghost(j as int));
        j = j + 1;
    }
    let mut m: usize = 0;
    while m < changed_entries.len()
        invariant
            subj == subjects(*diff),
            created@ == diff.created_view(),
            changed_entries@ == diff.changed_view(),
            n_created == created@.len(),
            m <= changed_entries@.len(),
            impact_progress(impacted@, subj, path_set(changed_files@), n_created + m),
        decreases changed_entries.len() - m,
    {
        proof {
            assert(subj[n_created + m] == heads(changed_entries@)[m as int]);
        }
        consider_subject(&mut impacted, &changed_entries[m].head, changed_files, Ghost(subj), Ghost(n_created + m));
        m = m + 1;
    }
    proof {
        assert(subj.len() == n_created + changed_entries@.len());
        assert forall|i: int| 0 <= i < impacted@.len() implies entry_of_some(#[trigger] impacted@[i], subjects(*diff), path_set(changed_files@)) by {
            let k = lemma_progress_witness(impacted@, subj, path_set(changed_files@), (n_created + m) as int, i);
        }
    }
    impacted
}

/// Why a changed path implicates a Knowledge Object. Declaration order is
/// the sort order: `impacts_path` before `evidence_path`.
#[derive(Debug, Clone, Copy, PartialEq, Eq, Structural)]
pub enum ImpactReasonKind {
    ImpactsPath,
    EvidencePath,
}

/// One (path, kind, via) reason an object is impacted.
#[derive(Debug, Clone, PartialEq, Eq)]
pub struct ImpactReasonHit {
    pub matched_path: String,
    pub kind: ImpactReasonKind,
    pub via_source_object: Option<String>,
}

/// A reason as characters.
pub struct ReasonView {
    pub path: Seq<char>,
    pub kind: ImpactReasonKind,
    pub via: Option<Seq<char>>,
}

impl ImpactReasonHit {
    pub open spec fn view_of(&self) -> ReasonView {
        ReasonView { path: self.matched_path@, kind: self.kind, via: opt_view(self.via_source_object) }
    }
}

/// The kind as a sort component: `impacts_path` first.
pub open spec fn kind_rank(k: ImpactReasonKind) -> Seq<char> {
    match k {
        ImpactReasonKind::ImpactsPath => seq!['0'],
        ImpactReasonKind::EvidencePath => seq!['1'],
    }
}

/// The via object as a sort component: absent sorts before any present
/// object, present ones by their ID.
pub open spec fn via_rank(v: Option<Seq<char>>) -> Seq<char> {
    match v {
        None => Seq::empty(),
        Some(s) => seq!['+'] + s,
    }
}

proof fn lemma_rank_injective(a: ReasonView, b: ReasonView)
    ensures
        kind_rank(a.kind) == kind_rank(b.kind) ==> a.kind == b.kind,
        via_rank(a.via) == via_rank(b.via) ==> a.via == b.via,
{
    if kind_rank(a.kind) == kind_rank(b.kind) {
        assert(kind_rank(a.kind)[0] == kind_rank(b.kind)[0]);
    }
    if via_rank(a.via) == via_rank(b.via) {
        match (a.via, b.via) {
            (Some(x), Some(y)) => {
                assert(x =~= via_rank(a.via).drop_first());
                assert(y =~= via_rank(b.via).drop_first());
            },
            (Some(x), None) => {
                assert(via_rank(a.via).len() > 0);
            },
            (None, Some(y)) => {
                assert(via_rank(b.via).len() > 0);
            },
            _ => {},
        }
    }
}

/// The (path, kind, via) order of reasons.
pub open spec fn reason_key(v: ReasonView) -> Seq<Seq<char>> {
    seq![v.path, kind_rank(v.kind), via_rank(v.via)]
}

impl Keyed for ImpactReasonHit {
    open spec fn key(&self) -> Seq<Seq<char>> {
        reason_key(self.view_of())
    }

    fn key_less(&self, other: &Self) -> (r: bool) {
        let ghost ka = self.key();
        let ghost kb = other.key();
        proof {
            lemma_key3(ka[0], ka[1], ka[2], kb[0], kb[1], kb[2]);
            assert(ka =~= seq![ka[0], ka[1], ka[2]]);
            assert(kb =~= seq![kb[0], kb[1], kb[2]]);
        }
        if !str_eq(self.matched_path.as_str(), other.matched_path.as_str()) {
            return crate::text::str_lt(self.matched_path.as_str(), other.matched_path.as_str());
        }
        let rank_a: u8 = match self.kind {
            ImpactReasonKind::ImpactsPath => 0,
            ImpactReasonKind::EvidencePath => 1,
        };
        let rank_b: u8 = match other.kind {
            ImpactReasonKind::ImpactsPath => 0,
            ImpactReasonKind::EvidencePath => 1,
        };
        if rank_a != rank_b {
            proof {
                assert(ka[1][0] != kb[1][0]);
                assert(ka[1] != kb[1]);
            }
            return rank_a < rank_b;
        }
        proof {
            assert(ka[1] =~= kb[1]);
        }
        match (&self.via_source_object, &other.via_source_object) {
            (None, None) => {
                proof {
                    assert(ka[2] =~= kb[2]);
                    crate::text::lemma_seq_lt_irreflexive(ka[2]);
                }
                false
            },
            (None, Some(_)) => {
                proof {
                    assert(ka[2].len() == 0);
                    assert(kb[2].len() > 0);
                }
                true
            },
            (Some(_), None) => {
                proof {
                    assert(ka[2].len() > 0);
                    assert(kb[2].len() == 0);
                }
                false
            },
            (Some(x), Some(y)) => {
                proof {
                    assert(ka[2].take(1) =~= kb[2].take(1));
                    crate::text::lemma_seq_lt_skip(ka[2], kb[2], 1);
                    assert(ka[2].skip(1) =~= x@);
                    assert(kb[2].skip(1) =~= y@);
                    if x@ == y@ {
                        assert(ka[2] =~= kb[2]);
                        crate::text::lemma_seq_lt_irreflexive(ka[2]);
                    }
                }
                crate::text::str_lt(x.as_str(), y.as_str())
            },
        }
    }
}

/// Three-component keys order by the first differing component.
pub proof fn lemma_key3(a0: Seq<char>, a1: Seq<char>, a2: Seq<char>, b0: Seq<char>, b1: Seq<char>, b2: Seq<char>)
    ensures
        key_lt(seq![a0, a1, a2], seq![b0, b1, b2]) == if a0 != b0 {
            crate::text::seq_lt(a0, b0)
        } else if a1 != b1 {
            crate::text::seq_lt(a1, b1)
        } else if a2 != b2 {
            crate::text::seq_lt(a2, b2)
        } else {
            false
        },
{
    reveal_with_fuel(key_lt, 4);
    let a = seq![a0, a1, a2];
    let b = seq![b0, b1, b2];
    assert(a.drop_first() =~= seq![a1, a2]);
    assert(b.drop_first() =~= seq![b1, b2]);
    assert(a.drop_first().drop_first() =~= seq![a2]);
    assert(b.drop_first().drop_first() =~= seq![b2]);
    assert(a.drop_first().drop_first().drop_first() =~= Seq::<Seq<char>>::empty());
    assert(b.drop_first().drop_first().drop_first() =~= Seq::<Seq<char>>::empty());
}

/// The path of the last `source` object with Object ID `reference` that
/// declares a `path` field.
pub open spec fn source_path_for(objects: Seq<&GraphKnowledgeObjectNode>, reference: Seq<char>) -> Option<Seq<char>>
    decreases objects.len(),
{
    if objects.len() == 0 {
        None
    } else if objects.last().kind@ == "source"@ && objects.last().id@ == reference
        && objects.last().fields.spec_get("path"@) is Some {
        objects.last().fields.spec_get("path"@)
    } else {
        source_path_for(objects.drop_last(), reference)
    }
}

fn source_path(objects: &[&GraphKnowledgeObjectNode], reference: &str) -> (r: Option<String>)
    ensures
        opt_view(r) == source_path_for(objects@, reference@),
{
    let mut n = objects.len();
    proof {
        assert(objects@.take(n as int) =~= objects@);
    }
    while n > 0
        invariant
            n <= objects@.len(),
            source_path_for(objects@.take(n as int), reference@) == source_path_for(objects@, reference@),
        decreases n,
    {
        let node = objects[n - 1];
        proof {
            assert(objects@.take(n as int).drop_last() =~= objects@.take(n - 1));
            assert(objects@.take(n as int).last() == objects@[n - 1]);
        }
        if str_eq(node.kind.as_str(), "source") && str_eq(node.id.as_str(), reference) {
            match node.fields.get("path") {
                Some(p) => {
                    return Some(p.clone());
                },
                None => {},
            }
        }
        n = n - 1;
    }
    None
}

/// An inline evidence kind whose value is a repository-relative path.
pub open spec fn is_path_evidence_kind(k: Seq<char>) -> bool {
    k == "source_code"@ || k == "test"@
}

/// `rv` is a reason `node` is implicated, from its declared impacts or
/// from one of its first `ne` evidence entries.
pub open spec fn is_reason_upto(
    objects: Seq<&GraphKnowledgeObjectNode>,
    node: GraphKnowledgeObjectNode,
    changed: Set<Seq<char>>,
    rv: ReasonView,
    ne: int,
) -> bool {
    ||| (rv.kind == ImpactReasonKind::ImpactsPath && rv.via is None && impact_hits(node, changed).contains(rv.path))
    ||| (rv.kind == ImpactReasonKind::EvidencePath && changed.contains(rv.path) && exists|k: int|
        0 <= k < ne && #[trigger] evidence_reason(objects, node.evidence@[k], rv))
}

/// Evidence entry `ev` yields reason `rv` (before the change-set test).
pub open spec fn evidence_reason(
    objects: Seq<&GraphKnowledgeObjectNode>,
    ev: crate::graph::GraphEvidence,
    rv: ReasonView,
) -> bool {
    match (opt_view(ev.value), opt_view(ev.reference)) {
        (Some(v), None) => is_path_evidence_kind(ev.kind@) && rv.path == v && rv.via is None,
        (None, Some(r)) => source_path_for(objects, r) == Some(rv.path) && rv.via == Some(r),
        _ => false,
    }
}

pub open spec fn is_reason(
    objects: Seq<&GraphKnowledgeObjectNode>,
    node: GraphKnowledgeObjectNode,
    changed: Set<Seq<char>>,
    rv: ReasonView,
) -> bool {
    is_reason_upto(objects, node, changed, rv, node.evidence@.len() as int)
}

/// `reasons` lists exactly the reasons of `node`, in (path, kind, via)
/// order.
pub open spec fn lists_reasons(
    reasons: Seq<ImpactReasonHit>,
    objects: Seq<&GraphKnowledgeObjectNode>,
    node: GraphKnowledgeObjectNode,
    changed: Set<Seq<char>>,
    ne: int,
) -> bool {
    &&& sorted_by_key(reasons)
    &&& forall|i: int| 0 <= i < reasons.len() ==> is_reason_upto(objects, node, changed, (#[trigger] reasons[i]).view_of(), ne)
    &&& forall|rv: ReasonView| #[trigger] is_reason_upto(objects, node, changed, rv, ne) ==> reason_listed(reasons, rv)
}

pub open spec fn reason_listed(reasons: Seq<ImpactReasonHit>, rv: ReasonView) -> bool {
    exists|i: int| 0 <= i < reasons.len() && (#[trigger] reasons[i]).view_of() == rv
}

/// One impacted verified subject with all its reasons.
#[derive(Debug)]
pub struct ImpactedHit<'a> {
    pub node: &'a GraphKnowledgeObjectNode,
    pub reasons: Vec<ImpactReasonHit>,
}

impl<'a> Keyed for ImpactedHit<'a> {
    open spec fn key(&self) -> Seq<Seq<char>> {
        seq![self.node.id@]
    }

    fn key_less(&self, other: &Self) -> (r: bool) {
        let r = crate::text::str_lt(self.node.id.as_str(), other.node.id.as_str());
        proof { lemma_one_component(self.node.id@, other.node.id@); }
        r
    }
}

/// Insert one reason; the list stays exact for the reasons now covered.
fn add_reason(reasons: &mut Vec<ImpactReasonHit>, x: ImpactReasonHit)
    requires
        sorted_by_key(old(reasons)@),
    ensures
        sorted_by_key(final(reasons)@),
        forall|i: int| 0 <= i < old(reasons)@.len() ==> final(reasons)@.contains(#[trigger] old(reasons)@[i]),
        forall|i: int|
            0 <= i < final(reasons)@.len() ==> (old(reasons)@.contains(#[trigger] final(reasons)@[i]) || final(reasons)@[i] == x),
        reason_listed(final(reasons)@, x.view_of()),
        forall|rv: ReasonView| reason_listed(old(reasons)@, rv) ==> reason_listed(final(reasons)@, rv),
{
    let ghost before = reasons@;
    let ghost xv = x;
    insert_sorted(reasons, x, false);
    proof {
        if crate::sorted::has_key(before, xv.key()) {
            let m = choose|m: int| 0 <= m < before.len() && #[trigger] before[m].key() == xv.key();
            lemma_reason_key_injective(before[m].view_of(), xv.view_of());
            assert(reasons@.contains(before[m]));
            let i = choose|i: int| 0 <= i < reasons@.len() && reasons@[i] == before[m];
            assert(reasons@[i].view_of() == xv.view_of());
        } else {
            let i = choose|i: int| 0 <= i < reasons@.len() && reasons@[i] == xv;
            assert(reasons@[i].view_of() == xv.view_of());
        }
        assert forall|rv: ReasonView| reason_listed(before, rv) implies reason_listed(reasons@, rv) by {
            let i0 = choose|i: int| 0 <= i < before.len() && (#[trigger] before[i]).view_of() == rv;
            assert(reasons@.contains(before[i0]));
            let i = choose|i: int| 0 <= i < reasons@.len() && reasons@[i] == before[i0];
            assert(reasons@[i].view_of() == rv);
        }
    }
}

proof fn lemma_reason_key_injective(a: ReasonView, b: ReasonView)
    requires
        reason_key(a) == reason_key(b),
    ensures
        a == b,
{
    assert(reason_key(a)[0] == reason_key(b)[0]);
    assert(reason_key(a)[1] == reason_key(b)[1]);
    assert(reason_key(a)[2] == reason_key(b)[2]);
    lemma_rank_injective(a, b);
}


/// The one reason evidence entry `ev` yields for the change set, if any.
pub open spec fn evidence_candidate(
    objects: Seq<&GraphKnowledgeObjectNode>,
    ev: crate::graph::GraphEvidence,
    changed: Set<Seq<char>>,
) -> Option<ReasonView> {
    match (opt_view(ev.value), opt_view(ev.reference)) {
        (Some(v), None) => if is_path_evidence_kind(ev.kind@) && changed.contains(v) {
            Some(ReasonView { path: v, kind: ImpactReasonKind::EvidencePath, via: None })
        } else {
            None
        },
        (None, Some(r)) => match source_path_for(objects, r) {
            Some(p) => if changed.contains(p) {
                Some(ReasonView { path: p, kind: ImpactReasonKind::EvidencePath, via: Some(r) })
            } else {
                None
            },
            None => None,
        },
        _ => None,
    }
}

proof fn lemma_evidence_candidate(
    objects: Seq<&GraphKnowledgeObjectNode>,
    ev: crate::graph::GraphEvidence,
    changed: Set<Seq<char>>,
    rv: ReasonView,
)
    ensures
        (changed.contains(rv.path) && rv.kind == ImpactReasonKind::EvidencePath && evidence_reason(objects, ev, rv))
            <==> evidence_candidate(objects, ev, changed) == Some(rv),
{
}

fn evidence_candidate_of(
    objects: &[&GraphKnowledgeObjectNode],
    ev: &crate::graph::GraphEvidence,
    changed_files: &[RelPath],
) -> (r: Option<ImpactReasonHit>)
    ensures
        match r {
            Some(c) => evidence_candidate(objects@, *ev, path_set(changed_files@)) == Some(c.view_of()),
            None => evidence_candidate(objects@, *ev, path_set(changed_files@)) is None,
        },
{
    match (&ev.value, &ev.reference) {
        (Some(value), None) => {
            let kind = ev.kind.as_str();
            if (str_eq(kind, "source_code") || str_eq(kind, "test")) && names_path(changed_files, value.as_str()) {
                Some(ImpactReasonHit { matched_path: value.clone(), kind: ImpactReasonKind::EvidencePath, via_source_object: None })
            } else {
                None
            }
        },
        (None, Some(reference)) => {
            match source_path(objects, reference.as_str()) {
                Some(path) => {
                    if names_path(changed_files, path.as_str()) {
                        Some(ImpactReasonHit { matched_path: path, kind: ImpactReasonKind::EvidencePath, via_source_object: Some(reference.clone()) })
                    } else {
                        None
                    }
                },
                None => None,
            }
        },
        _ => None,
    }
}

/// The reasons a verified subject is implicated, in (path, kind, via)
/// order without repeats.
fn reasons_for(
    objects: &[&GraphKnowledgeObjectNode],
    node: &GraphKnowledgeObjectNode,
    changed_files: &[RelPath],
) -> (r: Vec<ImpactReasonHit>)
    requires
        is_verified_subject(*node),
    ensures
        lists_reasons(r@, objects@, *node, path_set(changed_files@), node.evidence@.len() as int),
{
    let ghost changed = path_set(changed_files@);
    let mut reasons: Vec<ImpactReasonHit> = Vec::new();
    let entry = impact_entry_for(node, changed_files);
    match entry {
        Some(e) => {
            let mut q: usize = 0;
            while q < e.paths.len()
                invariant
                    changed == path_set(changed_files@),
                    entry_for(e, *node, changed),
                    q <= e.paths@.len(),
                    sorted_by_key(reasons@),
                    forall|i: int| 0 <= i < reasons@.len() ==> is_reason_upto(objects@, *node, changed, (#[trigger] reasons@[i]).view_of(), 0),
                    forall|t: int| 0 <= t < q ==> reason_listed(reasons@, ReasonView { path: (#[trigger] e.paths@[t])@, kind: ImpactReasonKind::ImpactsPath, via: None }),
                decreases e.paths.len() - q,
            {
                let hit = ImpactReasonHit { matched_path: e.paths[q].clone(), kind: ImpactReasonKind::ImpactsPath, via_source_object: None };
                let ghost before = reasons@;
                proof {
                    assert(impact_hits(*node, changed).contains(e.paths@[q as int]@));
                }
                add_reason(&mut reasons, hit);
                proof {
                    assert forall|i: int| 0 <= i < reasons@.len() implies is_reason_upto(objects@, *node, changed, (#[trigger] reasons@[i]).view_of(), 0) by {
                        if reasons@[i] != hit {
                            let m = choose|m: int| 0 <= m < before.len() && before[m] == reasons@[i];
                        }
                    }
                }
                q = q + 1;
            }
            proof {
                assert forall|rv: ReasonView| #[trigger] is_reason_upto(objects@, *node, changed, rv, 0) implies reason_listed(reasons@, rv) by {
                    let t = choose|t: int| 0 <= t < e.paths@.len() && #[trigger] e.paths@[t]@ == rv.path;
                    assert(reason_listed(reasons@, ReasonView { path: e.paths@[t]@, kind: ImpactReasonKind::ImpactsPath, via: None }));
                }
            }
        },
        None => {
            proof {
                assert forall|rv: ReasonView| !#[trigger] is_reason_upto(objects@, *node, changed, rv, 0) by {
                    if impact_hits(*node, changed).contains(rv.path) {
                        assert(is_impacted(*node, changed));
                    }
                }
            }
        },
    }
    let mut k: usize = 0;
    while k < node.evidence.len()
        invariant
            changed == path_set(changed_files@),
            k <= node.evidence@.len(),
            lists_reasons(reasons@, objects@, *node, changed, k as int),
        decreases node.evidence.len() - k,
    {
        let ev = &node.evidence[k];
        let ghost before = reasons@;
        let candidate = evidence_candidate_of(objects, ev, changed_files);
        proof {
            assert forall|rv: ReasonView| changed.contains(rv.path) && rv.kind == ImpactReasonKind::EvidencePath && #[trigger] evidence_reason(objects@, node.evidence@[k as int], rv) implies (candidate is Some && candidate->0.view_of() == rv) by {
                lemma_evidence_candidate(objects@, node.evidence@[k as int], changed, rv);
            }
            if candidate is Some {
                lemma_evidence_candidate(objects@, node.evidence@[k as int], changed, candidate->0.view_of());
            }
        }
        match candidate {
            Some(c) => {
                let ghost cv = c;
                add_reason(&mut reasons, c);
                proof {
                    assert(is_reason_upto(objects@, *node, changed, cv.view_of(), k + 1));
                    assert forall|i: int| 0 <= i < reasons@.len() implies is_reason_upto(objects@, *node, changed, (#[trigger] reasons@[i]).view_of(), k + 1) by {
                        if reasons@[i] != cv {
                            let m = choose|m: int| 0 <= m < before.len() && before[m] == reasons@[i];
                            assert(is_reason_upto(objects@, *node, changed, before[m].view_of(), k as int));
                        }
                    }
                    assert forall|rv: ReasonView| #[trigger] is_reason_upto(objects@, *node, changed, rv, k + 1) implies reason_listed(reasons@, rv) by {
                        if is_reason_upto(objects@, *node, changed, rv, k as int) {
                            assert(reason_listed(before, rv));
                        } else {
                            let t = choose|t: int| 0 <= t < k + 1 && #[trigger] evidence_reason(objects@, node.evidence@[t], rv);
                            if t < k {
                                assert(is_reason_upto(objects@, *node, changed, rv, k as int));
                            }
                        }
                    }
                }
            },
            None => {
                proof {
                    assert forall|i: int| 0 <= i < reasons@.len() implies is_reason_upto(objects@, *node, changed, (#[trigger] reasons@[i]).view_of(), k + 1) by {
                        assert(is_reason_upto(objects@, *node, changed, reasons@[i].view_of(), k as int));
                    }
                    assert forall|rv: ReasonView| #[trigger] is_reason_upto(objects@, *node, changed, rv, k + 1) implies reason_listed(reasons@, rv) by {
                        if !is_reason_upto(objects@, *node, changed, rv, k as int) {
                            let t = choose|t: int| 0 <= t < k + 1 && #[trigger] evidence_reason(objects@, node.evidence@[t], rv);
                            if t < k {
                                assert(is_reason_upto(objects@, *node, changed, rv, k as int));
                            }
                        }
                    }
                }
            },
        }
        k = k + 1;
    }
    reasons
}

/// `node` is implicated: a verified subject with at least one reason.
pub open spec fn qualifies(objects: Seq<&GraphKnowledgeObjectNode>, node: GraphKnowledgeObjectNode, changed: Set<Seq<char>>) -> bool {
    is_verified_subject(node) && exists|rv: ReasonView| #[trigger] is_reason(objects, node, changed, rv)
}

/// `h` is the impacted record of its node.
pub open spec fn hit_ok(h: ImpactedHit, objects: Seq<&GraphKnowledgeObjectNode>, changed: Set<Seq<char>>) -> bool {
    &&& is_verified_subject(*h.node)
    &&& lists_reasons(h.reasons@, objects, *h.node, changed, h.node.evidence@.len() as int)
    &&& h.reasons@.len() > 0
}

pub open spec fn hit_nodes<'a>(hits: Seq<ImpactedHit<'a>>) -> Seq<&'a GraphKnowledgeObjectNode> {
    hits.map_values(|h: ImpactedHit<'a>| h.node)
}

pub open spec fn qualifying<'a>(objects: Seq<&'a GraphKnowledgeObjectNode>, changed: Set<Seq<char>>) -> Seq<&'a GraphKnowledgeObjectNode> {
    objects.filter(|n: &'a GraphKnowledgeObjectNode| qualifies(objects, *n, changed))
}

/// Which verified claims, accepted decisions and verified APIs among
/// `objects` a change set implicates, and why: a declared `impacts:` path
/// in the set, an inline `source_code`/`test` evidence value in the set, or
/// a referenced `source` object whose `path` is in the set. One record per
/// implicated object, ordered by Object ID, with its reasons in (path,
/// kind, via) order.
pub fn impacted_objects<'a>(objects: &[&'a GraphKnowledgeObjectNode], changed_files: &[RelPath]) -> (r: Vec<ImpactedHit<'a>>)
    ensures
        changed_files@.len() == 0 ==> r@.len() == 0,
        sorted_le(r@),
        forall|i: int| 0 <= i < r@.len() ==> hit_ok(#[trigger] r@[i], objects@, path_set(changed_files@)),
        hit_nodes(r@).to_multiset() == qualifying(objects@, path_set(changed_files@)).to_multiset(),
{
    let ghost changed = path_set(changed_files@);
    let ghost pred = |n: &'a GraphKnowledgeObjectNode| qualifies(objects@, *n, changed);
    let mut out: Vec<ImpactedHit<'a>> = Vec::new();
    if changed_files.len() == 0 {
        proof {
            assert forall|j: int| 0 <= j < objects@.len() implies !pred(#[trigger] objects@[j]) by {
                assert forall|rv: ReasonView| !#[trigger] is_reason(objects@, *objects@[j], changed, rv) by {
                    if changed.contains(rv.path) {
                        let i = choose|i: int| 0 <= i < changed_files@.len() && (#[trigger] changed_files@[i]).spec_str() == rv.path;
                    }
                    if impact_hits(*objects@[j], changed).contains(rv.path) {
                        assert(changed.contains(rv.path));
                    }
                }
            }
            assert(objects@.filter(pred) =~= Seq::<&'a GraphKnowledgeObjectNode>::empty()) by {
                lemma_filter_none(objects@, pred);
            }
            assert(hit_nodes(out@) =~= Seq::<&'a GraphKnowledgeObjectNode>::empty());
        }
        return out;
    }
    let mut j: usize = 0;
    proof {
        lemma_filter_none(objects@.take(0), pred);
        assert(hit_nodes(out@) =~= Seq::<&'a GraphKnowledgeObjectNode>::empty());
    }
    while j < objects.len()
        invariant
            changed == path_set(changed_files@),
            pred == (|n: &'a GraphKnowledgeObjectNode| qualifies(objects@, *n, changed)),
            j <= objects@.len(),
            sorted_le(out@),
            forall|i: int| 0 <= i < out@.len() ==> hit_ok(#[trigger] out@[i], objects@, changed),
            hit_nodes(out@).to_multiset() == objects@.take(j as int).filter(pred).to_multiset(),
        decreases objects.len() - j,
    {
        let node: &'a GraphKnowledgeObjectNode = objects[j];
        let ghost before = out@;
        proof {
            assert(objects@.take(j + 1) =~= objects@.take(j as int).push(node));
            objects@.take(j as int).lemma_filter_push(node, pred);
        }
        if verified_subject(node) {
            let reasons = reasons_for(objects, node, changed_files);
            if reasons.len() > 0 {
                let hit = ImpactedHit { node, reasons };
                let ghost hv = hit;
                proof {
                    assert(is_reason(objects@, *node, changed, hv.reasons@[0].view_of()));
                    assert(pred(node));
                }
                insert_stable(&mut out, hit);
                proof {
                    let pos = choose|pos: int| 0 <= pos <= before.len() && out@ == before.insert(pos, hv);
                    assert(hit_nodes(out@) =~= hit_nodes(before).insert(pos, node));
                    vstd::seq_lib::to_multiset_insert(hit_nodes(before), pos, node);
                    vstd::seq_lib::to_multiset_build(objects@.take(j as int).filter(pred), node);
                    assert forall|i: int| 0 <= i < out@.len() implies hit_ok(#[trigger] out@[i], objects@, changed) by {
                        if i < pos {
                            assert(out@[i] == before[i]);
                        } else if i > pos {
                            assert(out@[i] == before[i - 1]);
                        }
                    }
                }
            } else {
                proof {
                    assert forall|rv: ReasonView| !#[trigger] is_reason(objects@, *node, changed, rv) by {
                        if is_reason(objects@, *node, changed, rv) {
                            assert(reason_listed(reasons@, rv));
                        }
                    }
                    assert(!pred(node));
                }
            }
        } else {
            proof {
                assert(!pred(node));
            }
        }
        j = j + 1;
    }
    proof {
        assert(objects@.take(objects@.len() as int) =~= objects@);
    }
    out
}

proof fn lemma_filter_none<A>(s: Seq<A>, pred: spec_fn(A) -> bool)
    requires
        forall|j: int| 0 <= j < s.len() ==> !pred(#[trigger] s[j]),
    ensures
        s.filter(pred) =~= Seq::<A>::empty(),
    decreases s.len(),
{
    reveal(Seq::filter);
    if s.len() > 0 {
        assert forall|j: int| 0 <= j < s.drop_last().len() implies !pred(#[trigger] s.drop_last()[j]) by {
            assert(s.drop_last()[j] == s[j]);
        }
        lemma_filter_none(s.drop_last(), pred);
        assert(!pred(s.last()));
    }
}

} // verus!
