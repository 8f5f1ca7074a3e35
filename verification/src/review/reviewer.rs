//! Required sign-off owners: the owners of every changed verified Knowledge
//! Object and of every impacted object, with the Object IDs each must
//! review.

use vstd::prelude::*;

use crate::graph::{strs_view, GraphKnowledgeObjectNode};
use crate::review::impact::{subjects, ImpactedObject};
use crate::review::object_diff::{heads, last_index, lemma_last_index, ObjectDiff};
use crate::sorted::{has_key, insert_sorted, lemma_one_component, sorted_by_key, Keyed};
use crate::text::str_eq;

verus! {

/// One owner and every Object ID they must sign off, in order.
#[derive(Debug, Clone, PartialEq, Eq)]
pub struct RequiredReviewer {
    pub owner: String,
    pub object_ids: Vec<String>,
}

impl Keyed for RequiredReviewer {
    open spec fn key(&self) -> Seq<Seq<char>> {
        seq![self.owner@]
    }

    fn key_less(&self, other: &Self) -> (r: bool) {
        let r = crate::text::str_lt(self.owner.as_str(), other.owner.as_str());
        proof { lemma_one_component(self.owner@, other.owner@); }
        r
    }
}

/// A verified claim or an accepted decision.
pub open spec fn is_review_subject(node: GraphKnowledgeObjectNode) -> bool {
    match crate::graph::opt_view(node.status) {
        None => false,
        Some(status) => {
            ||| node.kind@ == "claim"@ && status == "verified"@
            ||| node.kind@ == "decision"@ && status == "accepted"@
        },
    }
}

fn review_subject(node: &GraphKnowledgeObjectNode) -> (r: bool)
    ensures
        r == is_review_subject(*node),
{
    match &node.status {
        None => false,
        Some(status) => (str_eq(node.kind.as_str(), "claim") && str_eq(status.as_str(), "verified")) || (str_eq(
            node.kind.as_str(),
            "decision",
        ) && str_eq(status.as_str(), "accepted")),
    }
}

/// The `owner` field of a node.
pub open spec fn owner_of(node: GraphKnowledgeObjectNode) -> Option<Seq<char>> {
    node.fields.spec_get("owner"@)
}

/// `owner` must review `id`: it owns a changed or created verified claim /
/// accepted decision with that ID, or it owns the head record of an
/// impacted object with that ID (the last head-side record for the ID).
pub open spec fn is_review_pair(diff: ObjectDiff, impact: Seq<ImpactedObject>, owner: Seq<char>, id: Seq<char>) -> bool {
    let subj = subjects(diff);
    ||| exists|k: int|
        0 <= k < subj.len() && is_review_subject(#[trigger] subj[k]) && owner_of(subj[k]) == Some(owner) && subj[k].id@ == id
    ||| exists|t: int|
        0 <= t < impact.len() && (#[trigger] impact[t]).id@ == id && last_index(subj, id) >= 0 && owner_of(
            subj[last_index(subj, id)],
        ) == Some(owner)
}

/// Only head-side records ask for sign-off: every pair `(owner, id)` comes
/// from a created record or the head of a changed one that carries ID
/// `id` and `owner` in its `owner` field. Records without an owner, and
/// records only on the base side (deleted), never contribute; a record
/// that is no verified claim or accepted decision contributes only for
/// an impacted ID.
pub proof fn lemma_sign_off_comes_from_owned_head_records(
    diff: ObjectDiff,
    impact: Seq<ImpactedObject>,
    owner: Seq<char>,
    id: Seq<char>,
)
    requires
        is_review_pair(diff, impact, owner, id),
    ensures
        exists|k: int|
            0 <= k < subjects(diff).len() && (#[trigger] subjects(diff)[k]).id@ == id && owner_of(subjects(diff)[k])
                == Some(owner) && (is_review_subject(subjects(diff)[k]) || exists|t: int|
                0 <= t < impact.len() && (#[trigger] impact[t]).id@ == id),
{
    let subj = subjects(diff);
    lemma_last_index(subj, id);
    if exists|k: int|
        0 <= k < subj.len() && is_review_subject(#[trigger] subj[k]) && owner_of(subj[k]) == Some(owner) && subj[k].id@
            == id {
        let k = choose|k: int|
            0 <= k < subj.len() && is_review_subject(#[trigger] subj[k]) && owner_of(subj[k]) == Some(owner)
                && subj[k].id@ == id;
        assert(subj[k].id@ == id);
    } else {
        let t = choose|t: int|
            0 <= t < impact.len() && (#[trigger] impact[t]).id@ == id && last_index(subj, id) >= 0 && owner_of(
                subj[last_index(subj, id)],
            ) == Some(owner);
        let k = last_index(subj, id);
        assert(impact[t].id@ == id);
        assert(subj[k].id@ == id);
    }
}

/// Every created record, and every changed record's head, that is a
/// `claim` with status `verified` or a `decision` with status `accepted`
/// and names an owner asks that owner to sign off on its Object ID,
/// whatever the impact list holds (empty included).
pub proof fn lemma_owned_claims_and_decisions_need_sign_off(
    diff: ObjectDiff,
    impact: Seq<ImpactedObject>,
    k: int,
    owner: Seq<char>,
)
    requires
        0 <= k < subjects(diff).len(),
        (subjects(diff)[k].kind@ == "claim"@ && crate::graph::opt_view(subjects(diff)[k].status) == Some("verified"@)) || (
        subjects(diff)[k].kind@ == "decision"@ && crate::graph::opt_view(subjects(diff)[k].status) == Some("accepted"@)),
        subjects(diff)[k].fields.spec_get("owner"@) == Some(owner),
    ensures
        is_review_pair(diff, impact, owner, subjects(diff)[k].id@),
{
    let subj = subjects(diff);
    assert(is_review_subject(subj[k]));
    assert(owner_of(subj[k]) == Some(owner));
}

/// Without an impacted entry for an ID, only an owned `claim` with status
/// `verified` or `decision` with status `accepted` among the created
/// records and changed heads asks for sign-off on it.
pub proof fn lemma_sign_off_without_impact_needs_claim_or_decision(
    diff: ObjectDiff,
    impact: Seq<ImpactedObject>,
    owner: Seq<char>,
    id: Seq<char>,
)
    requires
        is_review_pair(diff, impact, owner, id),
        forall|t: int| 0 <= t < impact.len() ==> (#[trigger] impact[t]).id@ != id,
    ensures
        exists|k: int|
            0 <= k < subjects(diff).len() && (#[trigger] subjects(diff)[k]).id@ == id && subjects(diff)[k].fields.spec_get(
                "owner"@,
            ) == Some(owner) && ((subjects(diff)[k].kind@ == "claim"@ && crate::graph::opt_view(subjects(diff)[k].status)
                == Some("verified"@)) || (subjects(diff)[k].kind@ == "decision"@ && crate::graph::opt_view(
                subjects(diff)[k].status,
            ) == Some("accepted"@))),
{
    let subj = subjects(diff);
    let k = choose|k: int|
        0 <= k < subj.len() && is_review_subject(#[trigger] subj[k]) && owner_of(subj[k]) == Some(owner) && subj[k].id@
            == id;
    assert(subj[k].id@ == id);
}

/// The sign-off list holds pair `(owner, id)`.
pub open spec fn has_pair(out: Seq<RequiredReviewer>, owner: Seq<char>, id: Seq<char>) -> bool {
    exists|i: int| 0 <= i < out.len() && (#[trigger] out[i]).owner@ == owner && strs_view(out[i].object_ids@).contains(id)
}

/// Entries in strict owner order, each with a non-empty strictly ordered
/// ID list.
pub open spec fn reviewers_wf(out: Seq<RequiredReviewer>) -> bool {
    &&& sorted_by_key(out)
    &&& forall|i: int| 0 <= i < out.len() ==> sorted_by_key((#[trigger] out[i]).object_ids@) && out[i].object_ids@.len() > 0
}

/// Record that `owner` must review `id`.
fn add_pair(out: &mut Vec<RequiredReviewer>, owner: &str, id: &str)
    requires
        reviewers_wf(old(out)@),
    ensures
        reviewers_wf(final(out)@),
        forall|o: Seq<char>, x: Seq<char>|
            #[trigger] has_pair(final(out)@, o, x) <==> (has_pair(old(out)@, o, x) || (o == owner@ && x == id@)),
{
    let ghost before = out@;
    let mut i: usize = 0;
    while i < out.len() && !str_eq(out[i].owner.as_str(), owner)
        invariant
            out@ == before,
            i <= out@.len(),
            forall|k: int| 0 <= k < i ==> (#[trigger] out@[k]).owner@ != owner@,
        decreases out.len() - i,
    {
        i = i + 1;
    }
    if i < out.len() && str_eq(out[i].owner.as_str(), owner) {
        let mut entry = out.remove(i);
        let ghost old_ids = entry.object_ids@;
        let ghost ev = entry;
        let new_id = crate::text::owned(id);
        let ghost nid = new_id;
        insert_sorted(&mut entry.object_ids, new_id, false);
        let ghost new_ids = entry.object_ids@;
        proof {
            assert(entry.key() =~= ev.key());
        }
        out.insert(i, entry);
        proof {
            assert(out@ =~= before.update(i as int, entry));
            assert forall|a: int, b: int| 0 <= a < b < out@.len() implies crate::text::key_lt(
                #[trigger] out@[a].key(),
                #[trigger] out@[b].key(),
            ) by {
                assert(before[a].key() == out@[a].key());
                assert(before[b].key() == out@[b].key());
            }
            // the ID set of the touched entry grows by exactly `id`
            assert forall|x: Seq<char>| strs_view(new_ids).contains(x) <==> (strs_view(old_ids).contains(x) || x == id@) by {
if strs_view(new_ids).contains(x) {
                    let k = choose|k: int| 0 <= k < new_ids.len() && strs_view(new_ids)[k] == x;
                    if new_ids[k] != nid {
                        let m = choose|m: int| 0 <= m < old_ids.len() && old_ids[m] == new_ids[k];
assert(strs_view(old_ids)[m] == x);
                    }
                }
if strs_view(old_ids).contains(x) {
                    let m = choose|m: int| 0 <= m < old_ids.len() && strs_view(old_ids)[m] == x;
                    assert(new_ids.contains(old_ids[m]));
                    let k = choose|k: int| 0 <= k < new_ids.len() && new_ids[k] == old_ids[m];
assert(strs_view(new_ids)[k] == x);
                }
                if x == id@ {
                    if has_key(old_ids, nid.key()) {
                        let m = choose|m: int| 0 <= m < old_ids.len() && #[trigger] old_ids[m].key() == nid.key();
                        assert(old_ids[m].key()[0] == nid.key()[0]);
assert(strs_view(old_ids)[m] == x);
                    } else {
                        let k = choose|k: int| 0 <= k < new_ids.len() && new_ids[k] == nid;
assert(strs_view(new_ids)[k] == x);
                    }
                }
            }
            assert forall|o: Seq<char>, x: Seq<char>|
                #[trigger] has_pair(out@, o, x) <==> (has_pair(before, o, x) || (o == owner@ && x == id@)) by {
                if has_pair(out@, o, x) {
                    let w = choose|w: int| 0 <= w < out@.len() && (#[trigger] out@[w]).owner@ == o && strs_view(out@[w].object_ids@).contains(x);
                    if w != i {
                        assert(out@[w] == before[w]);
                    }
                }
                if has_pair(before, o, x) {
                    let w = choose|w: int| 0 <= w < before.len() && (#[trigger] before[w]).owner@ == o && strs_view(before[w].object_ids@).contains(x);
                    if w != i {
                        assert(out@[w] == before[w]);
                    } else {
                        assert(out@[w].owner@ == o);
                    }
                }
                if o == owner@ && x == id@ {
                    assert(out@[i as int].owner@ == o);
                }
            }
        }
    } else {
        let mut ids: Vec<String> = Vec::new();
        ids.push(crate::text::owned(id));
        let entry = RequiredReviewer { owner: crate::text::owned(owner), object_ids: ids };
        let ghost ev = entry;
        proof {
            assert(!has_key(before, ev.key())) by {
                if has_key(before, ev.key()) {
                    let m = choose|m: int| 0 <= m < before.len() && #[trigger] before[m].key() == ev.key();
                    assert(before[m].key()[0] == ev.key()[0]);
                }
            }
assert(strs_view(ev.object_ids@)[0] == id@);
        }
        insert_sorted(out, entry, false);
        proof {
            assert forall|k: int| 0 <= k < out@.len() implies sorted_by_key((#[trigger] out@[k]).object_ids@) && out@[k].object_ids@.len() > 0 by {
                if out@[k] != ev {
                    let m = choose|m: int| 0 <= m < before.len() && before[m] == out@[k];
                }
            }
            assert forall|o: Seq<char>, x: Seq<char>|
                #[trigger] has_pair(out@, o, x) <==> (has_pair(before, o, x) || (o == owner@ && x == id@)) by {
                if has_pair(out@, o, x) {
                    let w = choose|w: int| 0 <= w < out@.len() && (#[trigger] out@[w]).owner@ == o && strs_view(out@[w].object_ids@).contains(x);
                    if out@[w] != ev {
                        let m = choose|m: int| 0 <= m < before.len() && before[m] == out@[w];
                        assert(before[m].owner@ == o);
                    } else {
                        let k = choose|k: int| 0 <= k < ev.object_ids@.len() && strs_view(ev.object_ids@)[k] == x;
                    }
                }
                if has_pair(before, o, x) {
                    let w = choose|w: int| 0 <= w < before.len() && (#[trigger] before[w]).owner@ == o && strs_view(before[w].object_ids@).contains(x);
                    assert(out@.contains(before[w]));
                    let m = choose|m: int| 0 <= m < out@.len() && out@[m] == before[w];
                    assert(out@[m].owner@ == o);
                }
                if o == owner@ && x == id@ {
                    let m = choose|m: int| 0 <= m < out@.len() && out@[m] == ev;
                    assert(out@[m].owner@ == o);
                }
            }
        }
    }
}

/// The last head-side record of `id`: created nodes, then changed heads.
fn last_head<'a>(diff: &'a ObjectDiff, id: &str) -> (r: Option<&'a GraphKnowledgeObjectNode>)
    ensures
        match r {
            Some(n) => last_index(subjects(*diff), id@) >= 0 && *n == subjects(*diff)[last_index(subjects(*diff), id@)],
            None => last_index(subjects(*diff), id@) == -1,
        },
{
    let ghost subj = subjects(*diff);
    let created = diff.created();
    let changed = diff.changed();
    let n_created = created.len();
    let mut m = changed.len();
    while m > 0
        invariant
            subj == subjects(*diff),
            created@ == diff.created_view(),
            changed@ == diff.changed_view(),
            n_created == created@.len(),
            m <= changed@.len(),
            subj.len() == n_created + changed@.len(),
            forall|j: int| n_created + m <= j < subj.len() ==> (#[trigger] subj[j]).id@ != id@,
        decreases m,
    {
        proof {
            assert(subj[n_created + m - 1] == heads(changed@)[m - 1]);
        }
        if str_eq(changed[m - 1].head.id.as_str(), id) {
            proof {
                lemma_last_index_from(subj, id@, n_created + m - 1);
            }
            return Some(&changed[m - 1].head);
        }
        m = m - 1;
    }
    let mut c = n_created;
    while c > 0
        invariant
            subj == subjects(*diff),
            created@ == diff.created_view(),
            n_created == created@.len(),
            c <= n_created,
            subj.len() >= n_created,
            forall|j: int| c <= j < subj.len() ==> (#[trigger] subj[j]).id@ != id@,
        decreases c,
    {
        proof {
            assert(subj[c - 1] == created@[c - 1]);
        }
        if str_eq(created[c - 1].id.as_str(), id) {
            proof {
                lemma_last_index_from(subj, id@, c - 1);
            }
            return Some(&created[c - 1]);
        }
        c = c - 1;
    }
    proof {
        lemma_last_index(subj, id@);
        if last_index(subj, id@) >= 0 {
            assert(subj[last_index(subj, id@)].id@ == id@);
        }
    }
    None
}

/// The last occurrence of `id` sits at `p` when nothing after `p` carries it.
proof fn lemma_last_index_from(nodes: Seq<GraphKnowledgeObjectNode>, id: Seq<char>, p: int)
    requires
        0 <= p < nodes.len(),
        nodes[p].id@ == id,
        forall|j: int| p < j < nodes.len() ==> (#[trigger] nodes[j]).id@ != id,
    ensures
        last_index(nodes, id) == p,
    decreases nodes.len(),
{
    if p < nodes.len() - 1 {
        assert(nodes.last() == nodes[nodes.len() - 1]);
        assert forall|j: int| p < j < nodes.drop_last().len() implies (#[trigger] nodes.drop_last()[j]).id@ != id by {
            assert(nodes.drop_last()[j] == nodes[j]);
        }
        lemma_last_index_from(nodes.drop_last(), id, p);
    }
}

/// The required sign-off owners of a diff and its impact list: one entry per
/// owner, in owner order, listing in order and without repeats every
/// Object ID that owner must review (see [`is_review_pair`]). Records
/// without an `owner` field contribute nothing.
pub fn required_reviewers(diff: &ObjectDiff, impact: &[ImpactedObject]) -> (r: Vec<RequiredReviewer>)
    ensures
        reviewers_wf(r@),
        forall|o: Seq<char>, x: Seq<char>| #[trigger] has_pair(r@, o, x) <==> is_review_pair(*diff, impact@, o, x),
{
    let ghost subj = subjects(*diff);
    let mut out: Vec<RequiredReviewer> = Vec::new();
    let created = diff.created();
    let changed = diff.changed();
    let n_created = created.len();
    let mut j: usize = 0;
    while j < n_created
        invariant
            subj == subjects(*diff),
            created@ == diff.created_view(),
            n_created == created@.len(),
            subj.len() == n_created + changed@.len(),
            changed@ == diff.changed_view(),
            j <= n_created,
            reviewers_wf(out@),
            forall|o: Seq<char>, x: Seq<char>|
                #[trigger] has_pair(out@, o, x) <==> subject_pair_upto(subj, o, x, j as int),
        decreases n_created - j,
    {
        let node = &created[j];
        proof { assert(subj[j as int] == created@[j as int]); }
        consider(&mut out, node, Ghost(subj), Ghost(j as int));
        j = j + 1;
    }
    let mut m: usize = 0;
    while m < changed.len()
        invariant
            subj == subjects(*diff),
            created@ == diff.created_view(),
            n_created == created@.len(),
            changed@ == diff.changed_view(),
            subj.len() == n_created + changed@.len(),
            m <= changed@.len(),
            reviewers_wf(out@),
            forall|o: Seq<char>, x: Seq<char>|
                #[trigger] has_pair(out@, o, x) <==> subject_pair_upto(subj, o, x, n_created + m),
        decreases changed.len() - m,
    {
        let node = &changed[m].head;
        proof { assert(subj[n_created + m] == heads(changed@)[m as int]); }
        consider(&mut out, node, Ghost(subj), Ghost(n_created + m));
        m = m + 1;
    }
    let mut t: usize = 0;
    while t < impact.len()
        invariant
            subj == subjects(*diff),
            reviewers_wf(out@),
            t <= impact@.len(),
            forall|o: Seq<char>, x: Seq<char>|
                #[trigger] has_pair(out@, o, x) <==> (subject_pair_upto(subj, o, x, subj.len() as int) || impact_pair_upto(subj, impact@, o, x, t as int)),
        decreases impact.len() - t,
    {
        let entry = &impact[t];
        let ghost before = out@;
        match last_head(diff, entry.id.as_str()) {
            Some(node) => {
                match node.fields.get("owner") {
                    Some(owner) => {
                        add_pair(&mut out, owner.as_str(), entry.id.as_str());
                        proof {
                            assert forall|o: Seq<char>, x: Seq<char>|
                                #[trigger] has_pair(out@, o, x) <==> (subject_pair_upto(subj, o, x, subj.len() as int) || impact_pair_upto(subj, impact@, o, x, t + 1)) by {
                                assert(has_pair(before, o, x) == (subject_pair_upto(subj, o, x, subj.len() as int) || impact_pair_upto(subj, impact@, o, x, t as int)));
                                if impact_pair_upto(subj, impact@, o, x, t + 1) && !impact_pair_upto(subj, impact@, o, x, t as int) {
                                    let w = choose|w: int| 0 <= w < t + 1 && (#[trigger] impact@[w]).id@ == x && last_index(subj, x) >= 0 && owner_of(subj[last_index(subj, x)]) == Some(o);
                                    assert(w == t);
                                }
                                if o == owner@ && x == entry.id@ {
                                    assert(impact_pair_upto(subj, impact@, o, x, t + 1)) by {
                                        assert(impact@[t as int].id@ == x);
                                    }
                                }
                            }
                        }
                    },
                    None => {
                        proof { lemma_impact_step_none(subj, impact@, t as int); }
                    },
                }
            },
            None => {
                proof { lemma_impact_step_none(subj, impact@, t as int); }
            },
        }
        t = t + 1;
    }
    proof {
        assert forall|o: Seq<char>, x: Seq<char>| #[trigger] has_pair(out@, o, x) <==> is_review_pair(*diff, impact@, o, x) by {
            if subject_pair_upto(subj, o, x, subj.len() as int) {
                let k = choose|k: int| 0 <= k < subj.len() && is_review_subject(#[trigger] subj[k]) && owner_of(subj[k]) == Some(o) && subj[k].id@ == x;
            }
            if impact_pair_upto(subj, impact@, o, x, impact@.len() as int) {
                let w = choose|w: int| 0 <= w < impact@.len() && (#[trigger] impact@[w]).id@ == x && last_index(subj, x) >= 0 && owner_of(subj[last_index(subj, x)]) == Some(o);
            }
        }
    }
    out
}

pub open spec fn subject_pair_upto(subj: Seq<GraphKnowledgeObjectNode>, o: Seq<char>, x: Seq<char>, j: int) -> bool {
    exists|k: int| 0 <= k < j && is_review_subject(#[trigger] subj[k]) && owner_of(subj[k]) == Some(o) && subj[k].id@ == x
}

pub open spec fn impact_pair_upto(subj: Seq<GraphKnowledgeObjectNode>, impact: Seq<ImpactedObject>, o: Seq<char>, x: Seq<char>, t: int) -> bool {
    exists|w: int| 0 <= w < t && (#[trigger] impact[w]).id@ == x && last_index(subj, x) >= 0 && owner_of(subj[last_index(subj, x)]) == Some(o)
}

proof fn lemma_impact_step_none(subj: Seq<GraphKnowledgeObjectNode>, impact: Seq<ImpactedObject>, t: int)
    requires
        0 <= t < impact.len(),
        last_index(subj, impact[t].id@) == -1 || owner_of(subj[last_index(subj, impact[t].id@)]) is None,
    ensures
        forall|o: Seq<char>, x: Seq<char>| impact_pair_upto(subj, impact, o, x, t + 1) == impact_pair_upto(subj, impact, o, x, t),
{
    assert forall|o: Seq<char>, x: Seq<char>| impact_pair_upto(subj, impact, o, x, t + 1) implies impact_pair_upto(subj, impact, o, x, t) by {
        let w = choose|w: int| 0 <= w < t + 1 && (#[trigger] impact[w]).id@ == x && last_index(subj, x) >= 0 && owner_of(subj[last_index(subj, x)]) == Some(o);
        if w == t {
            assert(false);
        }
    }
}

fn consider(
    out: &mut Vec<RequiredReviewer>,
    node: &GraphKnowledgeObjectNode,
    Ghost(subj): Ghost<Seq<GraphKnowledgeObjectNode>>,
    Ghost(j): Ghost<int>,
)
    requires
        0 <= j < subj.len(),
        subj[j] == *node,
        reviewers_wf(old(out)@),
        forall|o: Seq<char>, x: Seq<char>| #[trigger] has_pair(old(out)@, o, x) <==> subject_pair_upto(subj, o, x, j),
    ensures
        reviewers_wf(final(out)@),
        forall|o: Seq<char>, x: Seq<char>| #[trigger] has_pair(final(out)@, o, x) <==> subject_pair_upto(subj, o, x, j + 1),
{
    let ghost before = out@;
    if review_subject(node) {
        match node.fields.get("owner") {
            Some(owner) => {
                add_pair(out, owner.as_str(), node.id.as_str());
                proof {
                    assert forall|o: Seq<char>, x: Seq<char>| #[trigger] has_pair(out@, o, x) <==> subject_pair_upto(subj, o, x, j + 1) by {
                        assert(has_pair(before, o, x) == subject_pair_upto(subj, o, x, j));
                        if subject_pair_upto(subj, o, x, j + 1) && !subject_pair_upto(subj, o, x, j) {
                            let k = choose|k: int| 0 <= k < j + 1 && is_review_subject(#[trigger] subj[k]) && owner_of(subj[k]) == Some(o) && subj[k].id@ == x;
                            assert(k == j);
                        }
                    }
                }
                return;
            },
            None => {},
        }
    }
    proof {
        assert forall|o: Seq<char>, x: Seq<char>| #[trigger] has_pair(out@, o, x) <==> subject_pair_upto(subj, o, x, j + 1) by {
            assert(has_pair(before, o, x) == subject_pair_upto(subj, o, x, j));
            if subject_pair_upto(subj, o, x, j + 1) && !subject_pair_upto(subj, o, x, j) {
                let k = choose|k: int| 0 <= k < j + 1 && is_review_subject(#[trigger] subj[k]) && owner_of(subj[k]) == Some(o) && subj[k].id@ == x;
                assert(k == j);
            }
        }
    }
}

} // verus!
