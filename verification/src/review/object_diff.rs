//! The Object Diff aggregate: the Knowledge Objects created, deleted and
//! changed between two snapshots, each list in Object ID order.

use vstd::prelude::*;

use crate::graph::GraphKnowledgeObjectNode;
use crate::review::field_change::changes_view;
use crate::review::object_change::ChangedObject;
use crate::review::projection::{project_changed, projection};
use crate::sorted::{insert_sorted, lemma_one_component, sorted_by_key, Keyed};
use crate::text::{key_lt, lemma_key_lt_transitive, str_eq};

verus! {

/// Index of the last node carrying Object ID `id`, or -1 when none does.
/// A repeated ID resolves to its last occurrence.
pub open spec fn last_index(nodes: Seq<GraphKnowledgeObjectNode>, id: Seq<char>) -> int
    decreases nodes.len(),
{
    if nodes.len() == 0 {
        -1
    } else if nodes.last().id@ == id {
        nodes.len() - 1
    } else {
        last_index(nodes.drop_last(), id)
    }
}

pub proof fn lemma_last_index(nodes: Seq<GraphKnowledgeObjectNode>, id: Seq<char>)
    ensures
        -1 <= last_index(nodes, id) < nodes.len(),
        last_index(nodes, id) >= 0 ==> nodes[last_index(nodes, id)].id@ == id,
        last_index(nodes, id) == -1 ==> forall|j: int| 0 <= j < nodes.len() ==> (#[trigger] nodes[j]).id@ != id,
        forall|j: int| last_index(nodes, id) < j < nodes.len() ==> (#[trigger] nodes[j]).id@ != id,
    decreases nodes.len(),
{
    if nodes.len() > 0 {
        let rest = nodes.drop_last();
        lemma_last_index(rest, id);
        assert forall|j: int| 0 <= j < nodes.len() - 1 implies nodes[j] == #[trigger] rest[j] by {}
        if nodes.last().id@ == id {
            assert(last_index(nodes, id) == nodes.len() - 1);
        } else {
            assert(last_index(nodes, id) == last_index(rest, id));
            assert(nodes[nodes.len() - 1].id@ != id);
            assert forall|j: int| last_index(nodes, id) < j < nodes.len() implies (#[trigger] nodes[j]).id@ != id by {
                if j < nodes.len() - 1 {
                    assert(nodes[j] == rest[j]);
                }
            }
            if last_index(nodes, id) == -1 {
                assert forall|j: int| 0 <= j < nodes.len() implies (#[trigger] nodes[j]).id@ != id by {
                    if j < nodes.len() - 1 {
                        assert(nodes[j] == rest[j]);
                    }
                }
            }
        }
    }
}

/// One slot of an Object ID index: the ID and the position of its last
/// occurrence.
pub struct IdSlot {
    pub id: String,
    pub pos: usize,
}

impl Keyed for IdSlot {
    open spec fn key(&self) -> Seq<Seq<char>> {
        seq![self.id@]
    }

    fn key_less(&self, other: &Self) -> (r: bool) {
        let r = crate::text::str_lt(self.id.as_str(), other.id.as_str());
        proof { lemma_one_component(self.id@, other.id@); }
        r
    }
}

/// The index is exact for `nodes`: sorted, one slot per distinct ID,
/// pointing at that ID's last occurrence.
#[verifier::opaque]
pub open spec fn indexes(idx: Seq<IdSlot>, nodes: Seq<GraphKnowledgeObjectNode>) -> bool {
    &&& sorted_by_key(idx)
    &&& forall|i: int|
        0 <= i < idx.len() ==> (#[trigger] idx[i]).pos < nodes.len() && nodes[idx[i].pos as int].id@
            == idx[i].id@ && last_index(nodes, idx[i].id@) == idx[i].pos
    &&& forall|j: int|
        0 <= j < nodes.len() ==> exists|i: int| 0 <= i < idx.len() && (#[trigger] idx[i]).id@ == (
        #[trigger] nodes[j]).id@
}

pub proof fn lemma_indexes_sorted(idx: Seq<IdSlot>, nodes: Seq<GraphKnowledgeObjectNode>)
    requires
        indexes(idx, nodes),
    ensures
        sorted_by_key(idx),
{
    reveal(indexes);
}

/// A slot the index holds names its ID's last occurrence.
pub proof fn lemma_indexes_found(idx: Seq<IdSlot>, nodes: Seq<GraphKnowledgeObjectNode>, i: int)
    requires
        indexes(idx, nodes),
        0 <= i < idx.len(),
    ensures
        idx[i].pos < nodes.len(),
        last_index(nodes, idx[i].id@) == idx[i].pos,
        nodes[idx[i].pos as int].id@ == idx[i].id@,
{
    reveal(indexes);
}

/// An ID no slot holds occurs nowhere.
pub proof fn lemma_indexes_absent(idx: Seq<IdSlot>, nodes: Seq<GraphKnowledgeObjectNode>, id: Seq<char>)
    requires
        indexes(idx, nodes),
        forall|i: int| 0 <= i < idx.len() ==> (#[trigger] idx[i]).id@ != id,
    ensures
        last_index(nodes, id) == -1,
{
    reveal(indexes);
    lemma_last_index(nodes, id);
    if last_index(nodes, id) >= 0 {
        let j = last_index(nodes, id);
        let w = choose|w: int| 0 <= w < idx.len() && (#[trigger] idx[w]).id@ == (#[trigger] nodes[j]).id@;
        assert(idx[w].id@ == id);
    }
}

/// An ID that occurs has a slot.
pub proof fn lemma_indexes_covers(idx: Seq<IdSlot>, nodes: Seq<GraphKnowledgeObjectNode>, id: Seq<char>) -> (w: int)
    requires
        indexes(idx, nodes),
        last_index(nodes, id) >= 0,
    ensures
        0 <= w < idx.len(),
        idx[w].id@ == id,
{
    reveal(indexes);
    lemma_last_index(nodes, id);
    let j = last_index(nodes, id);
    let w = choose|w: int| 0 <= w < idx.len() && (#[trigger] idx[w]).id@ == (#[trigger] nodes[j]).id@;
    w
}

/// Index nodes by Object ID; a repeated ID keeps its last occurrence.
pub fn index_by_id(nodes: &[GraphKnowledgeObjectNode]) -> (r: Vec<IdSlot>)
    ensures
        indexes(r@, nodes@),
{
    let mut idx: Vec<IdSlot> = Vec::new();
    let mut j: usize = 0;
    proof { reveal(indexes); }
    while j < nodes.len()
        invariant
            j <= nodes@.len(),
            indexes(idx@, nodes@.take(j as int)),
        decreases nodes.len() - j,
    {
        proof { reveal(indexes); }
        let ghost old_idx = idx@;
        let ghost pre = nodes@.take(j as int);
        let ghost post = nodes@.take(j + 1);
        let slot = IdSlot { id: nodes[j].id.clone(), pos: j };
        let ghost x = slot;
        insert_sorted(&mut idx, slot, true);
        proof {
            assert(post.drop_last() =~= pre);
            assert(post.last() == nodes@[j as int]);
            assert forall|i: int| 0 <= i < idx@.len() implies (#[trigger] idx@[i]).pos < post.len()
                && post[idx@[i].pos as int].id@ == idx@[i].id@ && last_index(post, idx@[i].id@)
                == idx@[i].pos by {
                if idx@[i] == x {
                } else {
                    let k = choose|k: int| 0 <= k < old_idx.len() && old_idx[k] == idx@[i];
                    assert(old_idx[k].pos < pre.len());
                    assert(post[idx@[i].pos as int] == pre[idx@[i].pos as int]);
                    if idx@[i].id@ == x.id@ {
                        assert(idx@[i].key() =~= x.key());
                    }
                }
            }
            assert forall|m: int| 0 <= m < post.len() implies exists|i: int|
                0 <= i < idx@.len() && (#[trigger] idx@[i]).id@ == (#[trigger] post[m]).id@ by {
                if m == j {
                    let w = choose|w: int| 0 <= w < idx@.len() && idx@[w] == x;
                    assert(idx@[w].id@ == post[m].id@);
                } else {
                    assert(post[m] == pre[m]);
                    let i0 = choose|i: int| 0 <= i < old_idx.len() && (#[trigger] old_idx[i]).id@ == pre[m].id@;
                    if old_idx[i0].id@ == x.id@ {
                        let w = choose|w: int| 0 <= w < idx@.len() && idx@[w] == x;
                        assert(idx@[w].id@ == post[m].id@);
                    } else {
                        assert(old_idx[i0].key() != x.key()) by {
                            if old_idx[i0].key() == x.key() {
                                assert(old_idx[i0].key()[0] == x.key()[0]);
                            }
                        }
                        assert(idx@.contains(old_idx[i0]));
                        let w = choose|w: int| 0 <= w < idx@.len() && idx@[w] == old_idx[i0];
                        assert(idx@[w].id@ == post[m].id@);
                    }
                }
            }
        }
        j = j + 1;
    }
    assert(nodes@.take(nodes@.len() as int) =~= nodes@);
    proof { reveal(indexes); }
    idx
}

/// The position recorded for `id`, if the index holds it.
pub fn find_slot(idx: &Vec<IdSlot>, id: &str) -> (r: Option<usize>)
    requires
        sorted_by_key(idx@),
    ensures
        match r {
            Some(p) => exists|i: int| 0 <= i < idx@.len() && (#[trigger] idx@[i]).id@ == id@ && idx@[i].pos == p,
            None => forall|i: int| 0 <= i < idx@.len() ==> (#[trigger] idx@[i]).id@ != id@,
        },
{
    let mut i: usize = 0;
    while i < idx.len()
        invariant
            i <= idx@.len(),
            forall|k: int| 0 <= k < i ==> (#[trigger] idx@[k]).id@ != id@,
        decreases idx.len() - i,
    {
        if str_eq(idx[i].id.as_str(), id) {
            return Some(idx[i].pos);
        }
        i = i + 1;
    }
    None
}

/// The Object Diff aggregate. Its sole constructor is
/// [`ObjectDiff::compute`], so its lists are always in strict Object ID
/// order and no ID is both created and changed.
#[derive(Debug, PartialEq, Eq)]
pub struct ObjectDiff {
    created: Vec<GraphKnowledgeObjectNode>,
    deleted: Vec<GraphKnowledgeObjectNode>,
    changed: Vec<ChangedObject>,
}

/// Each changed entry's head node, in order.
pub open spec fn heads(changed: Seq<ChangedObject>) -> Seq<GraphKnowledgeObjectNode> {
    changed.map_values(|c: ChangedObject| c.head)
}

/// Present on one side only.
pub open spec fn only_in(
    present: Seq<GraphKnowledgeObjectNode>,
    absent: Seq<GraphKnowledgeObjectNode>,
    id: Seq<char>,
) -> bool {
    last_index(present, id) >= 0 && last_index(absent, id) == -1
}

/// Present on both sides under different governed-meaning hashes.
pub open spec fn changed_between(
    base: Seq<GraphKnowledgeObjectNode>,
    head: Seq<GraphKnowledgeObjectNode>,
    id: Seq<char>,
) -> bool {
    &&& last_index(base, id) >= 0
    &&& last_index(head, id) >= 0
    &&& base[last_index(base, id)].content_hash@ != head[last_index(head, id)].content_hash@
}

/// `out` lists, in Object ID order, exactly the (last-occurrence) nodes of
/// `present` whose ID is absent from `absent`.
pub open spec fn one_sided(
    out: Seq<GraphKnowledgeObjectNode>,
    present: Seq<GraphKnowledgeObjectNode>,
    absent: Seq<GraphKnowledgeObjectNode>,
) -> bool {
    &&& sorted_by_key(out)
    &&& forall|i: int|
        0 <= i < out.len() ==> only_in(present, absent, (#[trigger] out[i]).id@) && out[i].same(
            &present[last_index(present, out[i].id@)],
        )
    &&& forall|id: Seq<char>|
        only_in(present, absent, id) ==> exists|i: int| 0 <= i < out.len() && (#[trigger] out[i]).id@ == id
}

/// `out` lists, in Object ID order, exactly the changed entries.
pub open spec fn changed_entries(
    out: Seq<ChangedObject>,
    base: Seq<GraphKnowledgeObjectNode>,
    head: Seq<GraphKnowledgeObjectNode>,
) -> bool {
    &&& sorted_by_key(out)
    &&& forall|i: int|
        0 <= i < out.len() ==> {
            let c = #[trigger] out[i];
            &&& changed_between(base, head, c.id@)
            &&& c.base.same(&base[last_index(base, c.id@)])
            &&& c.head.same(&head[last_index(head, c.id@)])
            &&& changes_view(c.field_changes@) == projection(c.base, c.head)
        }
    &&& forall|id: Seq<char>|
        changed_between(base, head, id) ==> exists|i: int| 0 <= i < out.len() && (#[trigger] out[i]).id@ == id
}

/// The (last-occurrence) nodes of `present` whose ID `absent` lacks, in ID
/// order.
#[verifier::rlimit(40)]
fn one_side(
    present: &[GraphKnowledgeObjectNode],
    present_idx: &Vec<IdSlot>,
    absent: &[GraphKnowledgeObjectNode],
    absent_idx: &Vec<IdSlot>,
) -> (out: Vec<GraphKnowledgeObjectNode>)
    requires
        indexes(present_idx@, present@),
        indexes(absent_idx@, absent@),
    ensures
        one_sided(out@, present@, absent@),
{
    proof {
        lemma_indexes_sorted(present_idx@, present@);
        lemma_indexes_sorted(absent_idx@, absent@);
    }
    let mut out: Vec<GraphKnowledgeObjectNode> = Vec::new();
    let mut i: usize = 0;
    while i < present_idx.len()
        invariant
            indexes(present_idx@, present@),
            indexes(absent_idx@, absent@),
            sorted_by_key(present_idx@),
            sorted_by_key(absent_idx@),
            i <= present_idx@.len(),
            sorted_by_key(out@),
            i < present_idx@.len() ==> forall|c: int|
                0 <= c < out@.len() ==> key_lt((#[trigger] out@[c]).key(), present_idx@[i as int].key()),
            forall|c: int|
                0 <= c < out@.len() ==> only_in(present@, absent@, (#[trigger] out@[c]).id@)
                    && out@[c].same(&present@[last_index(present@, out@[c].id@)]),
            forall|k: int|
                0 <= k < i && only_in(present@, absent@, (#[trigger] present_idx@[k]).id@) ==> exists|c: int|
                    0 <= c < out@.len() && (#[trigger] out@[c]).id@ == present_idx@[k].id@,
        decreases present_idx.len() - i,
    {
        let ghost old_out = out@;
        let slot = &present_idx[i];
        let found = find_slot(absent_idx, slot.id.as_str());
        proof {
            lemma_indexes_found(present_idx@, present@, i as int);
        }
        if found.is_none() {
            let node = present[slot.pos].duplicate();
            proof {
                lemma_indexes_absent(absent_idx@, absent@, slot.id@);
                assert(present_idx@[i as int].key() =~= node.key());
            }
            out.push(node);
        } else {
            proof {
                let w = choose|w: int| 0 <= w < absent_idx@.len() && (#[trigger] absent_idx@[w]).id@ == slot.id@ && absent_idx@[w].pos == found.unwrap();
                lemma_indexes_found(absent_idx@, absent@, w);
            }
        }
        proof {
            if i + 1 < present_idx@.len() {
                assert(key_lt(present_idx@[i as int].key(), present_idx@[i + 1].key()));
                assert forall|c: int| 0 <= c < out@.len() implies key_lt(
                    (#[trigger] out@[c]).key(),
                    present_idx@[i + 1].key(),
                ) by {
                    if c == out@.len() - 1 && found.is_none() {
                        assert(out@[c].key() =~= present_idx@[i as int].key());
                    } else {
                        lemma_key_lt_transitive(out@[c].key(), present_idx@[i as int].key(), present_idx@[i + 1].key());
                    }
                }
            }
            if found.is_none() {
                assert(out@[out@.len() - 1].id@ == present_idx@[i as int].id@);
            }
            assert forall|k: int|
                0 <= k < i + 1 && only_in(present@, absent@, (#[trigger] present_idx@[k]).id@) implies exists|c: int|
                    0 <= c < out@.len() && (#[trigger] out@[c]).id@ == present_idx@[k].id@ by {
                if k == i {
                    if found.is_some() {
                        let w = choose|w: int| 0 <= w < absent_idx@.len() && (#[trigger] absent_idx@[w]).id@ == slot.id@ && absent_idx@[w].pos == found.unwrap();
                        lemma_indexes_found(absent_idx@, absent@, w);
                    }
                    assert(out@[out@.len() - 1].id@ == present_idx@[k].id@);
                } else {
                    let c = choose|c: int| 0 <= c < old_out.len() && (#[trigger] old_out[c]).id@ == present_idx@[k].id@;
                    assert(out@[c] == old_out[c]);
                }
            }
        }
        i = i + 1;
    }
    proof {
        assert forall|id: Seq<char>| only_in(present@, absent@, id) implies exists|c: int|
            0 <= c < out@.len() && (#[trigger] out@[c]).id@ == id by {
            let k = lemma_indexes_covers(present_idx@, present@, id);
            assert(only_in(present@, absent@, present_idx@[k].id@));
        }
    }
    out
}

impl ObjectDiff {
    #[verifier::type_invariant]
    spec fn wf(self) -> bool {
        &&& sorted_by_key(self.created@)
        &&& sorted_by_key(self.deleted@)
        &&& sorted_by_key(self.changed@)
        &&& forall|i: int, j: int|
            0 <= i < self.created@.len() && 0 <= j < self.changed@.len() ==> (#[trigger] self.created@[i]).id@
                != (#[trigger] self.changed@[j]).id@
        &&& forall|j: int| 0 <= j < self.changed@.len() ==> (#[trigger] self.changed@[j]).head.id@ == self.changed@[j].id@
    }

    pub closed spec fn created_view(self) -> Seq<GraphKnowledgeObjectNode> {
        self.created@
    }

    pub closed spec fn deleted_view(self) -> Seq<GraphKnowledgeObjectNode> {
        self.deleted@
    }

    pub closed spec fn changed_view(self) -> Seq<ChangedObject> {
        self.changed@
    }

    /// The diff between two Knowledge Object snapshots: `created` holds the
    /// head nodes whose ID the base lacks, `deleted` the base nodes whose
    /// ID the head lacks, `changed` the IDs on both sides whose
    /// `content_hash` differs; each list in Object ID order.
    pub fn compute(base: &[GraphKnowledgeObjectNode], head: &[GraphKnowledgeObjectNode]) -> (r: Self)
        ensures
            one_sided(r.created_view(), head@, base@),
            one_sided(r.deleted_view(), base@, head@),
            changed_entries(r.changed_view(), base@, head@),
    {
        let base_idx = index_by_id(base);
        let head_idx = index_by_id(head);
        let created = one_side(head, &head_idx, base, &base_idx);
        let deleted = one_side(base, &base_idx, head, &head_idx);
        let changed = changed_side(base, &base_idx, head, &head_idx);
        proof {
            assert forall|i: int, j: int|
                0 <= i < created@.len() && 0 <= j < changed@.len() implies (#[trigger] created@[i]).id@
                    != (#[trigger] changed@[j]).id@ by {
                assert(only_in(head@, base@, created@[i].id@));
                assert(changed_between(base@, head@, changed@[j].id@));
            }
            assert forall|j: int| 0 <= j < changed@.len() implies (#[trigger] changed@[j]).head.id@ == changed@[j].id@ by {
                lemma_last_index(head@, changed@[j].id@);
            }
        }
        ObjectDiff { created, deleted, changed }
    }

    pub fn is_empty(&self) -> (r: bool)
        ensures
            r == (self.created_view().len() == 0 && self.deleted_view().len() == 0
                && self.changed_view().len() == 0),
    {
        self.created.len() == 0 && self.deleted.len() == 0 && self.changed.len() == 0
    }

    pub fn created(&self) -> (r: &Vec<GraphKnowledgeObjectNode>)
        ensures
            r@ == self.created_view(),
    {
        &self.created
    }

    pub fn deleted(&self) -> (r: &Vec<GraphKnowledgeObjectNode>)
        ensures
            r@ == self.deleted_view(),
    {
        &self.deleted
    }

    pub fn changed(&self) -> (r: &Vec<ChangedObject>)
        ensures
            r@ == self.changed_view(),
    {
        &self.changed
    }
}

#[verifier::rlimit(40)]
fn changed_side(
    base: &[GraphKnowledgeObjectNode],
    base_idx: &Vec<IdSlot>,
    head: &[GraphKnowledgeObjectNode],
    head_idx: &Vec<IdSlot>,
) -> (out: Vec<ChangedObject>)
    requires
        indexes(base_idx@, base@),
        indexes(head_idx@, head@),
    ensures
        changed_entries(out@, base@, head@),
{
    proof {
        lemma_indexes_sorted(base_idx@, base@);
        lemma_indexes_sorted(head_idx@, head@);
    }
    let mut out: Vec<ChangedObject> = Vec::new();
    let mut i: usize = 0;
    while i < base_idx.len()
        invariant
            indexes(base_idx@, base@),
            indexes(head_idx@, head@),
            sorted_by_key(base_idx@),
            sorted_by_key(head_idx@),
            i <= base_idx@.len(),
            sorted_by_key(out@),
            i < base_idx@.len() ==> forall|c: int|
                0 <= c < out@.len() ==> key_lt((#[trigger] out@[c]).key(), base_idx@[i as int].key()),
            forall|c: int|
                0 <= c < out@.len() ==> {
                    let e = #[trigger] out@[c];
                    &&& changed_between(base@, head@, e.id@)
                    &&& e.base.same(&base@[last_index(base@, e.id@)])
                    &&& e.head.same(&head@[last_index(head@, e.id@)])
                    &&& changes_view(e.field_changes@) == projection(e.base, e.head)
                },
            forall|k: int|
                0 <= k < i && changed_between(base@, head@, (#[trigger] base_idx@[k]).id@) ==> exists|c: int|
                    0 <= c < out@.len() && (#[trigger] out@[c]).id@ == base_idx@[k].id@,
        decreases base_idx.len() - i,
    {
        let ghost old_out = out@;
        let slot = &base_idx[i];
        proof {
            lemma_indexes_found(base_idx@, base@, i as int);
        }
        let found = find_slot(head_idx, slot.id.as_str());
        let mut pushed = false;
        match found {
            Some(hp) => {
                proof {
                    let w = choose|w: int| 0 <= w < head_idx@.len() && (#[trigger] head_idx@[w]).id@ == slot.id@ && head_idx@[w].pos == hp;
                    lemma_indexes_found(head_idx@, head@, w);
                }
                if !str_eq(base[slot.pos].content_hash.as_str(), head[hp].content_hash.as_str()) {
                    let mut entry = ChangedObject::new(slot.id.clone(), base[slot.pos].duplicate(), head[hp].duplicate());
                    entry.field_changes = project_changed(&entry);
                    proof {
                        assert(base_idx@[i as int].key() =~= entry.key());
                    }
                    out.push(entry);
                    pushed = true;
                }
            },
            None => {
                proof {
                    lemma_indexes_absent(head_idx@, head@, slot.id@);
                }
            },
        }
        proof {
            if i + 1 < base_idx@.len() {
                assert(key_lt(base_idx@[i as int].key(), base_idx@[i + 1].key()));
                assert forall|c: int| 0 <= c < out@.len() implies key_lt(
                    (#[trigger] out@[c]).key(),
                    base_idx@[i + 1].key(),
                ) by {
                    if c == out@.len() - 1 && pushed {
                        assert(out@[c].key() =~= base_idx@[i as int].key());
                    } else {
                        lemma_key_lt_transitive(out@[c].key(), base_idx@[i as int].key(), base_idx@[i + 1].key());
                    }
                }
            }
            if pushed {
                assert(out@[out@.len() - 1].id@ == base_idx@[i as int].id@);
            }
            assert forall|k: int|
                0 <= k < i + 1 && changed_between(base@, head@, (#[trigger] base_idx@[k]).id@) implies exists|c: int|
                    0 <= c < out@.len() && (#[trigger] out@[c]).id@ == base_idx@[k].id@ by {
                if k == i {
                    if found.is_none() {
                        assert(last_index(head@, slot.id@) == -1);
                    } else {
                        let w = choose|w: int| 0 <= w < head_idx@.len() && (#[trigger] head_idx@[w]).id@ == slot.id@ && head_idx@[w].pos == found.unwrap();
                        lemma_indexes_found(head_idx@, head@, w);
                    }
                    assert(pushed);
                    assert(out@[out@.len() - 1].id@ == base_idx@[k].id@);
                } else {
                    let c = choose|c: int| 0 <= c < old_out.len() && (#[trigger] old_out[c]).id@ == base_idx@[k].id@;
                    assert(out@[c] == old_out[c]);
                }
            }
        }
        i = i + 1;
    }
    proof {
        assert forall|id: Seq<char>| changed_between(base@, head@, id) implies exists|c: int|
            0 <= c < out@.len() && (#[trigger] out@[c]).id@ == id by {
            let k = lemma_indexes_covers(base_idx@, base@, id);
            assert(changed_between(base@, head@, base_idx@[k].id@));
        }
    }
    out
}

} // verus!
