//! The field-level projection of a changed Knowledge Object: what differs
//! between its base and head records, in the typed [`FieldChange`]
//! vocabulary, in a fixed visit order. Relation, impact, approver, action
//! and contradiction lists compare as sets; evidence compares by which
//! kinds carry an inline value, not by the values.

use vstd::prelude::*;

use crate::graph::{opt_view, strs_view, GraphEvidence, GraphKnowledgeObjectNode};
use crate::review::field_change::{changes_view, FieldChange, FieldChangeView, RelationKind};
use crate::review::object_change::ChangedObject;
use crate::review::obligation_rules::{present_evidence, present_evidence_fields};
use crate::string_set::{lemma_sorted_minus, set_minus, sorted_minus, strictly_sorted};
use crate::text::str_eq;

verus! {

/// One change when `cond` holds, none otherwise.
pub open spec fn when(cond: bool, fc: FieldChangeView) -> Seq<FieldChangeView> {
    if cond {
        seq![fc]
    } else {
        Seq::empty()
    }
}

/// The status slot's change, labelled by what the slot holds for the
/// head's kind: a `constraint`'s severity, an `agent_instruction`'s trust,
/// else a lifecycle status.
pub open spec fn status_changes(base: GraphKnowledgeObjectNode, head: GraphKnowledgeObjectNode) -> Seq<FieldChangeView> {
    let before = opt_view(base.status);
    let after = opt_view(head.status);
    when(
        before != after,
        if head.kind@ == "constraint"@ {
            FieldChangeView::Severity { before, after }
        } else if head.kind@ == "agent_instruction"@ {
            FieldChangeView::Trust { before, after }
        } else {
            FieldChangeView::Status { before, after }
        },
    )
}

/// The inline value of the last evidence entry of kind `k` that carries
/// one (the entry a kind-keyed map keeps).
pub open spec fn evidence_value(ev: Seq<GraphEvidence>, k: Seq<char>) -> Seq<char>
    decreases ev.len(),
{
    if ev.len() == 0 {
        Seq::empty()
    } else if ev.last().kind@ == k && ev.last().value is Some {
        ev.last().value.unwrap()@
    } else {
        evidence_value(ev.drop_last(), k)
    }
}

/// Evidence kinds that gained an inline value (with the head's value),
/// then those that lost it (with the base's value), each in kind order.
pub open spec fn evidence_changes(base: GraphKnowledgeObjectNode, head: GraphKnowledgeObjectNode) -> Seq<FieldChangeView> {
    let b = present_evidence(base.evidence@);
    let h = present_evidence(head.evidence@);
    sorted_minus(h, b).map_values(
        |k: Seq<char>| FieldChangeView::EvidenceAdded { field: k, value: evidence_value(head.evidence@, k) },
    ) + sorted_minus(b, h).map_values(
        |k: Seq<char>| FieldChangeView::EvidenceRemoved { field: k, value: evidence_value(base.evidence@, k) },
    )
}

/// Set difference of a list field: members new in head, then members gone
/// from base, each in increasing order.
pub open spec fn list_changes(
    base: Seq<Seq<char>>,
    head: Seq<Seq<char>>,
    added: spec_fn(Seq<char>) -> FieldChangeView,
    removed: spec_fn(Seq<char>) -> FieldChangeView,
) -> Seq<FieldChangeView> {
    sorted_minus(head, base).map_values(added) + sorted_minus(base, head).map_values(removed)
}

pub open spec fn relation_changes(kind: RelationKind, base: Seq<Seq<char>>, head: Seq<Seq<char>>) -> Seq<FieldChangeView> {
    list_changes(
        base,
        head,
        |t: Seq<char>| FieldChangeView::RelationAdded { kind, target: t },
        |t: Seq<char>| FieldChangeView::RelationRemoved { kind, target: t },
    )
}

pub open spec fn impact_changes(base: Seq<Seq<char>>, head: Seq<Seq<char>>) -> Seq<FieldChangeView> {
    list_changes(
        base,
        head,
        |p: Seq<char>| FieldChangeView::ImpactsAdded { path: p },
        |p: Seq<char>| FieldChangeView::ImpactsRemoved { path: p },
    )
}

/// A change of the authored field `name`.
pub open spec fn field_differs(base: GraphKnowledgeObjectNode, head: GraphKnowledgeObjectNode, name: Seq<char>) -> bool {
    base.fields.spec_get(name) != head.fields.spec_get(name)
}

/// Every field-level difference between `base` and `head`, in visit
/// order: body, status slot, owner, verified_at, evidence, the three
/// relation kinds, impacts, effective_at, approvers, scope, allowed and
/// forbidden actions, contradiction claims.
pub open spec fn projection(base: GraphKnowledgeObjectNode, head: GraphKnowledgeObjectNode) -> Seq<FieldChangeView> {
    when(base.body@ != head.body@, FieldChangeView::Body { before: base.body@, after: head.body@ })
        + status_changes(base, head)
        + when(
            field_differs(base, head, "owner"@),
            FieldChangeView::Owner { before: base.fields.spec_get("owner"@), after: head.fields.spec_get("owner"@) },
        )
        + when(
            field_differs(base, head, "verified_at"@),
            FieldChangeView::VerifiedAt {
                before: base.fields.spec_get("verified_at"@),
                after: head.fields.spec_get("verified_at"@),
            },
        )
        + evidence_changes(base, head)
        + relation_changes(RelationKind::DependsOn, strs_view(base.relations.depends_on@), strs_view(head.relations.depends_on@))
        + relation_changes(RelationKind::Supersedes, strs_view(base.relations.supersedes@), strs_view(head.relations.supersedes@))
        + relation_changes(RelationKind::RelatedTo, strs_view(base.relations.related_to@), strs_view(head.relations.related_to@))
        + impact_changes(strs_view(base.impacts@), strs_view(head.impacts@))
        + when(
            field_differs(base, head, "effective_at"@),
            FieldChangeView::EffectiveAt {
                before: base.fields.spec_get("effective_at"@),
                after: head.fields.spec_get("effective_at"@),
            },
        )
        + list_changes(
            strs_view(base.approved_by@),
            strs_view(head.approved_by@),
            |v: Seq<char>| FieldChangeView::ApprovedByAdded { value: v },
            |v: Seq<char>| FieldChangeView::ApprovedByRemoved { value: v },
        )
        + when(
            field_differs(base, head, "scope"@),
            FieldChangeView::Scope { before: base.fields.spec_get("scope"@), after: head.fields.spec_get("scope"@) },
        )
        + list_changes(
            strs_view(base.allowed_actions@),
            strs_view(head.allowed_actions@),
            |v: Seq<char>| FieldChangeView::AllowedActionsAdded { value: v },
            |v: Seq<char>| FieldChangeView::AllowedActionsRemoved { value: v },
        )
        + list_changes(
            strs_view(base.forbidden_actions@),
            strs_view(head.forbidden_actions@),
            |v: Seq<char>| FieldChangeView::ForbiddenActionsAdded { value: v },
            |v: Seq<char>| FieldChangeView::ForbiddenActionsRemoved { value: v },
        )
        + list_changes(
            strs_view(base.contradiction_claims@),
            strs_view(head.contradiction_claims@),
            |v: Seq<char>| FieldChangeView::ContradictionClaimsAdded { value: v },
            |v: Seq<char>| FieldChangeView::ContradictionClaimsRemoved { value: v },
        )
}

/// A list field's changes are set differences: a member is reported
/// added exactly when head has it and base lacks it, removed exactly when
/// base has it and head lacks it, each listed once in increasing order.
pub proof fn lemma_list_changes_are_set_differences(
    base: Seq<Seq<char>>,
    head: Seq<Seq<char>>,
    added: spec_fn(Seq<char>) -> FieldChangeView,
    removed: spec_fn(Seq<char>) -> FieldChangeView,
)
    requires
        forall|t: Seq<char>, u: Seq<char>| #[trigger] added(t) == #[trigger] added(u) ==> t == u,
        forall|t: Seq<char>, u: Seq<char>| #[trigger] removed(t) == #[trigger] removed(u) ==> t == u,
        forall|t: Seq<char>, u: Seq<char>| #[trigger] added(t) != #[trigger] removed(u),
    ensures
        strictly_sorted(sorted_minus(head, base)),
        strictly_sorted(sorted_minus(base, head)),
        forall|t: Seq<char>|
            #[trigger] list_changes(base, head, added, removed).contains(added(t)) <==> (head.contains(t) && !base.contains(
                t,
            )),
        forall|t: Seq<char>|
            #[trigger] list_changes(base, head, added, removed).contains(removed(t)) <==> (base.contains(t)
                && !head.contains(t)),
{
    lemma_sorted_minus(head, base);
    lemma_sorted_minus(base, head);
    let a = sorted_minus(head, base);
    let b = sorted_minus(base, head);
    let l = list_changes(base, head, added, removed);
    assert(l == a.map_values(added) + b.map_values(removed));
    assert forall|t: Seq<char>| #[trigger] l.contains(added(t)) <==> (head.contains(t) && !base.contains(t)) by {
        if l.contains(added(t)) {
            let k = choose|k: int| 0 <= k < l.len() && l[k] == added(t);
            if k < a.len() {
                assert(l[k] == added(a[k]));
                assert(a.contains(t));
            } else {
                assert(l[k] == removed(b[k - a.len()]));
            }
        }
        if head.contains(t) && !base.contains(t) {
            assert(a.contains(t));
            let k = choose|k: int| 0 <= k < a.len() && a[k] == t;
            assert(l[k] == added(t));
        }
    }
    assert forall|t: Seq<char>| #[trigger] l.contains(removed(t)) <==> (base.contains(t) && !head.contains(t)) by {
        if l.contains(removed(t)) {
            let k = choose|k: int| 0 <= k < l.len() && l[k] == removed(t);
            if k < a.len() {
                assert(l[k] == added(a[k]));
            } else {
                assert(l[k] == removed(b[k - a.len()]));
                assert(b.contains(t));
            }
        }
        if base.contains(t) && !head.contains(t) {
            assert(b.contains(t));
            let k = choose|k: int| 0 <= k < b.len() && b[k] == t;
            assert(l[a.len() + k] == removed(t));
        }
    }
}

/// Relation targets compare as sets: `t` is reported added under `kind`
/// exactly when head lists it and base does not, removed exactly when
/// base lists it and head does not.
pub proof fn lemma_relation_changes_are_set_differences(kind: RelationKind, base: Seq<Seq<char>>, head: Seq<Seq<char>>)
    ensures
        forall|t: Seq<char>|
            #[trigger] relation_changes(kind, base, head).contains(FieldChangeView::RelationAdded { kind, target: t })
                <==> (head.contains(t) && !base.contains(t)),
        forall|t: Seq<char>|
            #[trigger] relation_changes(kind, base, head).contains(FieldChangeView::RelationRemoved { kind, target: t })
                <==> (base.contains(t) && !head.contains(t)),
{
    let added = |t: Seq<char>| FieldChangeView::RelationAdded { kind, target: t };
    let removed = |t: Seq<char>| FieldChangeView::RelationRemoved { kind, target: t };
    lemma_list_changes_are_set_differences(base, head, added, removed);
    assert forall|t: Seq<char>|
        #[trigger] relation_changes(kind, base, head).contains(FieldChangeView::RelationAdded { kind, target: t })
            <==> (head.contains(t) && !base.contains(t)) by {
        assert(added(t) == FieldChangeView::RelationAdded { kind, target: t });
    }
    assert forall|t: Seq<char>|
        #[trigger] relation_changes(kind, base, head).contains(FieldChangeView::RelationRemoved { kind, target: t })
            <==> (base.contains(t) && !head.contains(t)) by {
        assert(removed(t) == FieldChangeView::RelationRemoved { kind, target: t });
    }
}

/// Impacted paths compare as sets: `p` is reported added exactly when
/// head lists it and base does not, removed exactly when base lists it
/// and head does not.
pub proof fn lemma_impact_changes_are_set_differences(base: Seq<Seq<char>>, head: Seq<Seq<char>>)
    ensures
        forall|p: Seq<char>|
            #[trigger] impact_changes(base, head).contains(FieldChangeView::ImpactsAdded { path: p }) <==> (head.contains(p)
                && !base.contains(p)),
        forall|p: Seq<char>|
            #[trigger] impact_changes(base, head).contains(FieldChangeView::ImpactsRemoved { path: p }) <==> (base.contains(
                p,
            ) && !head.contains(p)),
{
    let added = |p: Seq<char>| FieldChangeView::ImpactsAdded { path: p };
    let removed = |p: Seq<char>| FieldChangeView::ImpactsRemoved { path: p };
    lemma_list_changes_are_set_differences(base, head, added, removed);
    assert forall|p: Seq<char>|
        #[trigger] impact_changes(base, head).contains(FieldChangeView::ImpactsAdded { path: p }) <==> (head.contains(p)
            && !base.contains(p)) by {
        assert(added(p) == FieldChangeView::ImpactsAdded { path: p });
    }
    assert forall|p: Seq<char>|
        #[trigger] impact_changes(base, head).contains(FieldChangeView::ImpactsRemoved { path: p }) <==> (base.contains(p)
            && !head.contains(p)) by {
        assert(removed(p) == FieldChangeView::ImpactsRemoved { path: p });
    }
}

/// Two records that differ at most in the order and repetition of the
/// members of their list fields.
pub open spec fn same_up_to_list_order(a: GraphKnowledgeObjectNode, b: GraphKnowledgeObjectNode) -> bool {
    &&& a.body@ == b.body@
    &&& a.kind@ == b.kind@
    &&& opt_view(a.status) == opt_view(b.status)
    &&& a.fields == b.fields
    &&& a.evidence@ == b.evidence@
    &&& strs_view(a.relations.depends_on@).to_set() == strs_view(b.relations.depends_on@).to_set()
    &&& strs_view(a.relations.supersedes@).to_set() == strs_view(b.relations.supersedes@).to_set()
    &&& strs_view(a.relations.related_to@).to_set() == strs_view(b.relations.related_to@).to_set()
    &&& strs_view(a.impacts@).to_set() == strs_view(b.impacts@).to_set()
    &&& strs_view(a.approved_by@).to_set() == strs_view(b.approved_by@).to_set()
    &&& strs_view(a.allowed_actions@).to_set() == strs_view(b.allowed_actions@).to_set()
    &&& strs_view(a.forbidden_actions@).to_set() == strs_view(b.forbidden_actions@).to_set()
    &&& strs_view(a.contradiction_claims@).to_set() == strs_view(b.contradiction_claims@).to_set()
}

/// Reordering or repeating the members of any list field, on either
/// side, never changes the projection.
pub proof fn lemma_projection_reads_lists_as_sets(
    base1: GraphKnowledgeObjectNode,
    head1: GraphKnowledgeObjectNode,
    base2: GraphKnowledgeObjectNode,
    head2: GraphKnowledgeObjectNode,
)
    requires
        same_up_to_list_order(base1, base2),
        same_up_to_list_order(head1, head2),
    ensures
        projection(base1, head1) == projection(base2, head2),
{
}

/// Which list field a set difference is taken of.
#[derive(Clone, Copy)]
enum ListSlot {
    Relation(RelationKind),
    Impacts,
    ApprovedBy,
    AllowedActions,
    ForbiddenActions,
    ContradictionClaims,
}

spec fn slot_change(slot: ListSlot, added: bool, v: Seq<char>) -> FieldChangeView {
    match slot {
        ListSlot::Relation(kind) => if added {
            FieldChangeView::RelationAdded { kind, target: v }
        } else {
            FieldChangeView::RelationRemoved { kind, target: v }
        },
        ListSlot::Impacts => if added {
            FieldChangeView::ImpactsAdded { path: v }
        } else {
            FieldChangeView::ImpactsRemoved { path: v }
        },
        ListSlot::ApprovedBy => if added {
            FieldChangeView::ApprovedByAdded { value: v }
        } else {
            FieldChangeView::ApprovedByRemoved { value: v }
        },
        ListSlot::AllowedActions => if added {
            FieldChangeView::AllowedActionsAdded { value: v }
        } else {
            FieldChangeView::AllowedActionsRemoved { value: v }
        },
        ListSlot::ForbiddenActions => if added {
            FieldChangeView::ForbiddenActionsAdded { value: v }
        } else {
            FieldChangeView::ForbiddenActionsRemoved { value: v }
        },
        ListSlot::ContradictionClaims => if added {
            FieldChangeView::ContradictionClaimsAdded { value: v }
        } else {
            FieldChangeView::ContradictionClaimsRemoved { value: v }
        },
    }
}

fn make_change(slot: ListSlot, added: bool, v: String) -> (r: FieldChange)
    ensures
        r@ == slot_change(slot, added, v@),
{
    match slot {
        ListSlot::Relation(kind) => if added {
            FieldChange::RelationAdded { kind, target: v }
        } else {
            FieldChange::RelationRemoved { kind, target: v }
        },
        ListSlot::Impacts => if added {
            FieldChange::ImpactsAdded { path: v }
        } else {
            FieldChange::ImpactsRemoved { path: v }
        },
        ListSlot::ApprovedBy => if added {
            FieldChange::ApprovedByAdded { value: v }
        } else {
            FieldChange::ApprovedByRemoved { value: v }
        },
        ListSlot::AllowedActions => if added {
            FieldChange::AllowedActionsAdded { value: v }
        } else {
            FieldChange::AllowedActionsRemoved { value: v }
        },
        ListSlot::ForbiddenActions => if added {
            FieldChange::ForbiddenActionsAdded { value: v }
        } else {
            FieldChange::ForbiddenActionsRemoved { value: v }
        },
        ListSlot::ContradictionClaims => if added {
            FieldChange::ContradictionClaimsAdded { value: v }
        } else {
            FieldChange::ContradictionClaimsRemoved { value: v }
        },
    }
}

/// Append one change per listed value.
fn push_each(out: &mut Vec<FieldChange>, values: &Vec<String>, slot: ListSlot, added: bool)
    ensures
        changes_view(final(out)@) == changes_view(old(out)@) + strs_view(values@).map_values(
            |v: Seq<char>| slot_change(slot, added, v),
        ),
{
    let ghost start = changes_view(out@);
    let mut j: usize = 0;
    while j < values.len()
        invariant
            j <= values@.len(),
            changes_view(out@) == start + strs_view(values@).take(j as int).map_values(
                |v: Seq<char>| slot_change(slot, added, v),
            ),
        decreases values.len() - j,
    {
        let ghost prev = out@;
        let fc = make_change(slot, added, values[j].clone());
        let ghost fv = fc@;
        out.push(fc);
        proof {
            assert(changes_view(out@) =~= changes_view(prev).push(fv));
            assert(strs_view(values@).take(j + 1) =~= strs_view(values@).take(j as int).push(values@[j as int]@));
            assert(strs_view(values@).take(j + 1).map_values(|v: Seq<char>| slot_change(slot, added, v))
                =~= strs_view(values@).take(j as int).map_values(|v: Seq<char>| slot_change(slot, added, v)).push(fv));
            assert(changes_view(out@) =~= start + strs_view(values@).take(j + 1).map_values(
                |v: Seq<char>| slot_change(slot, added, v),
            ));
        }
        j = j + 1;
    }
    proof {
        assert(strs_view(values@).take(j as int) =~= strs_view(values@));
    }
}

/// Append the set difference of one list field, added then removed.
fn project_list(out: &mut Vec<FieldChange>, base: &Vec<String>, head: &Vec<String>, slot: ListSlot)
    ensures
        changes_view(final(out)@) == changes_view(old(out)@) + list_changes(
            strs_view(base@),
            strs_view(head@),
            |v: Seq<char>| slot_change(slot, true, v),
            |v: Seq<char>| slot_change(slot, false, v),
        ),
{
    let added = set_minus(head, base);
    let removed = set_minus(base, head);
    let ghost start = changes_view(out@);
    push_each(out, &added, slot, true);
    push_each(out, &removed, slot, false);
    proof {
        assert(changes_view(out@) =~= start + list_changes(
            strs_view(base@),
            strs_view(head@),
            |v: Seq<char>| slot_change(slot, true, v),
            |v: Seq<char>| slot_change(slot, false, v),
        ));
    }
}

fn project_relation(out: &mut Vec<FieldChange>, kind: RelationKind, base: &Vec<String>, head: &Vec<String>)
    ensures
        changes_view(final(out)@) == changes_view(old(out)@) + relation_changes(kind, strs_view(base@), strs_view(head@)),
{
    let ghost start = changes_view(out@);
    project_list(out, base, head, ListSlot::Relation(kind));
    proof {
        let l = list_changes(
            strs_view(base@),
            strs_view(head@),
            |v: Seq<char>| slot_change(ListSlot::Relation(kind), true, v),
            |v: Seq<char>| slot_change(ListSlot::Relation(kind), false, v),
        );
        assert(l =~= relation_changes(kind, strs_view(base@), strs_view(head@)));
    }
}

fn project_impacts(out: &mut Vec<FieldChange>, base: &Vec<String>, head: &Vec<String>)
    ensures
        changes_view(final(out)@) == changes_view(old(out)@) + list_changes(
            strs_view(base@),
            strs_view(head@),
            |p: Seq<char>| FieldChangeView::ImpactsAdded { path: p },
            |p: Seq<char>| FieldChangeView::ImpactsRemoved { path: p },
        ),
{
    project_list(out, base, head, ListSlot::Impacts);
    proof {
        let l = list_changes(
            strs_view(base@),
            strs_view(head@),
            |v: Seq<char>| slot_change(ListSlot::Impacts, true, v),
            |v: Seq<char>| slot_change(ListSlot::Impacts, false, v),
        );
        assert(l =~= list_changes(
            strs_view(base@),
            strs_view(head@),
            |p: Seq<char>| FieldChangeView::ImpactsAdded { path: p },
            |p: Seq<char>| FieldChangeView::ImpactsRemoved { path: p },
        ));
    }
}

fn project_approved_by(out: &mut Vec<FieldChange>, base: &Vec<String>, head: &Vec<String>)
    ensures
        changes_view(final(out)@) == changes_view(old(out)@) + list_changes(
            strs_view(base@),
            strs_view(head@),
            |v: Seq<char>| FieldChangeView::ApprovedByAdded { value: v },
            |v: Seq<char>| FieldChangeView::ApprovedByRemoved { value: v },
        ),
{
    project_list(out, base, head, ListSlot::ApprovedBy);
    proof {
        let l = list_changes(
            strs_view(base@),
            strs_view(head@),
            |v: Seq<char>| slot_change(ListSlot::ApprovedBy, true, v),
            |v: Seq<char>| slot_change(ListSlot::ApprovedBy, false, v),
        );
        assert(l =~= list_changes(
            strs_view(base@),
            strs_view(head@),
            |v: Seq<char>| FieldChangeView::ApprovedByAdded { value: v },
            |v: Seq<char>| FieldChangeView::ApprovedByRemoved { value: v },
        ));
    }
}

fn project_action_list(out: &mut Vec<FieldChange>, base: &Vec<String>, head: &Vec<String>, allowed: bool)
    ensures
        allowed ==> changes_view(final(out)@) == changes_view(old(out)@) + list_changes(
            strs_view(base@),
            strs_view(head@),
            |v: Seq<char>| FieldChangeView::AllowedActionsAdded { value: v },
            |v: Seq<char>| FieldChangeView::AllowedActionsRemoved { value: v },
        ),
        !allowed ==> changes_view(final(out)@) == changes_view(old(out)@) + list_changes(
            strs_view(base@),
            strs_view(head@),
            |v: Seq<char>| FieldChangeView::ForbiddenActionsAdded { value: v },
            |v: Seq<char>| FieldChangeView::ForbiddenActionsRemoved { value: v },
        ),
{
    let slot = if allowed {
        ListSlot::AllowedActions
    } else {
        ListSlot::ForbiddenActions
    };
    project_list(out, base, head, slot);
    proof {
        let l = list_changes(
            strs_view(base@),
            strs_view(head@),
            |v: Seq<char>| slot_change(slot, true, v),
            |v: Seq<char>| slot_change(slot, false, v),
        );
        if allowed {
            assert(l =~= list_changes(
                strs_view(base@),
                strs_view(head@),
                |v: Seq<char>| FieldChangeView::AllowedActionsAdded { value: v },
                |v: Seq<char>| FieldChangeView::AllowedActionsRemoved { value: v },
            ));
        } else {
            assert(l =~= list_changes(
                strs_view(base@),
                strs_view(head@),
                |v: Seq<char>| FieldChangeView::ForbiddenActionsAdded { value: v },
                |v: Seq<char>| FieldChangeView::ForbiddenActionsRemoved { value: v },
            ));
        }
    }
}

fn project_contradiction_claims(out: &mut Vec<FieldChange>, base: &Vec<String>, head: &Vec<String>)
    ensures
        changes_view(final(out)@) == changes_view(old(out)@) + list_changes(
            strs_view(base@),
            strs_view(head@),
            |v: Seq<char>| FieldChangeView::ContradictionClaimsAdded { value: v },
            |v: Seq<char>| FieldChangeView::ContradictionClaimsRemoved { value: v },
        ),
{
    project_list(out, base, head, ListSlot::ContradictionClaims);
    proof {
        let l = list_changes(
            strs_view(base@),
            strs_view(head@),
            |v: Seq<char>| slot_change(ListSlot::ContradictionClaims, true, v),
            |v: Seq<char>| slot_change(ListSlot::ContradictionClaims, false, v),
        );
        assert(l =~= list_changes(
            strs_view(base@),
            strs_view(head@),
            |v: Seq<char>| FieldChangeView::ContradictionClaimsAdded { value: v },
            |v: Seq<char>| FieldChangeView::ContradictionClaimsRemoved { value: v },
        ));
    }
}

/// The inline value of the last entry of kind `k` that carries one.
fn evidence_value_of(ev: &Vec<GraphEvidence>, k: &str) -> (r: String)
    ensures
        r@ == evidence_value(ev@, k@),
{
    let mut i: usize = ev.len();
    proof {
        assert(ev@.take(i as int) =~= ev@);
    }
    while i > 0
        invariant
            i <= ev@.len(),
            evidence_value(ev@, k@) == evidence_value(ev@.take(i as int), k@),
        decreases i,
    {
        i = i - 1;
        proof {
            assert(ev@.take(i + 1).drop_last() =~= ev@.take(i as int));
            assert(ev@.take(i + 1).last() == ev@[i as int]);
        }
        if str_eq(ev[i].kind.as_str(), k) {
            match &ev[i].value {
                Some(v) => {
                    return v.clone();
                },
                None => {},
            }
        }
    }
    proof {
        assert(ev@.take(0).len() == 0);
    }
    String::new()
}

spec fn evidence_change(ev: Seq<GraphEvidence>, added: bool, k: Seq<char>) -> FieldChangeView {
    if added {
        FieldChangeView::EvidenceAdded { field: k, value: evidence_value(ev, k) }
    } else {
        FieldChangeView::EvidenceRemoved { field: k, value: evidence_value(ev, k) }
    }
}

/// Append one evidence change per listed kind, valued from `ev`.
fn push_evidence(out: &mut Vec<FieldChange>, kinds: &Vec<String>, ev: &Vec<GraphEvidence>, added: bool)
    ensures
        changes_view(final(out)@) == changes_view(old(out)@) + strs_view(kinds@).map_values(
            |k: Seq<char>| evidence_change(ev@, added, k),
        ),
{
    let ghost start = changes_view(out@);
    let mut j: usize = 0;
    while j < kinds.len()
        invariant
            j <= kinds@.len(),
            changes_view(out@) == start + strs_view(kinds@).take(j as int).map_values(
                |k: Seq<char>| evidence_change(ev@, added, k),
            ),
        decreases kinds.len() - j,
    {
        let ghost prev = out@;
        let value = evidence_value_of(ev, kinds[j].as_str());
        let field = kinds[j].clone();
        let fc = if added {
            FieldChange::EvidenceAdded { field, value }
        } else {
            FieldChange::EvidenceRemoved { field, value }
        };
        let ghost fv = fc@;
        out.push(fc);
        proof {
            assert(changes_view(out@) =~= changes_view(prev).push(fv));
            assert(strs_view(kinds@).take(j + 1) =~= strs_view(kinds@).take(j as int).push(kinds@[j as int]@));
            assert(strs_view(kinds@).take(j + 1).map_values(|k: Seq<char>| evidence_change(ev@, added, k))
                =~= strs_view(kinds@).take(j as int).map_values(|k: Seq<char>| evidence_change(ev@, added, k)).push(fv));
        }
        j = j + 1;
    }
    proof {
        assert(strs_view(kinds@).take(j as int) =~= strs_view(kinds@));
    }
}

fn project_evidence(out: &mut Vec<FieldChange>, base: &GraphKnowledgeObjectNode, head: &GraphKnowledgeObjectNode)
    ensures
        changes_view(final(out)@) == changes_view(old(out)@) + evidence_changes(*base, *head),
{
    let ghost start = changes_view(out@);
    let base_kinds = present_evidence_fields(base);
    let head_kinds = present_evidence_fields(head);
    let added = set_minus(&head_kinds, &base_kinds);
    let removed = set_minus(&base_kinds, &head_kinds);
    push_evidence(out, &added, &head.evidence, true);
    push_evidence(out, &removed, &base.evidence, false);
    proof {
        let b = present_evidence(base.evidence@);
        let h = present_evidence(head.evidence@);
        assert(strs_view(added@).map_values(|k: Seq<char>| evidence_change(head.evidence@, true, k))
            =~= sorted_minus(h, b).map_values(
            |k: Seq<char>| FieldChangeView::EvidenceAdded { field: k, value: evidence_value(head.evidence@, k) },
        ));
        assert(strs_view(removed@).map_values(|k: Seq<char>| evidence_change(base.evidence@, false, k))
            =~= sorted_minus(b, h).map_values(
            |k: Seq<char>| FieldChangeView::EvidenceRemoved { field: k, value: evidence_value(base.evidence@, k) },
        ));
        assert(changes_view(out@) =~= start + evidence_changes(*base, *head));
    }
}

/// An authored field's value, copied.
fn field_value(node: &GraphKnowledgeObjectNode, name: &str) -> (r: Option<String>)
    ensures
        opt_view(r) == node.fields.spec_get(name@),
{
    match node.fields.get(name) {
        Some(v) => Some(v.clone()),
        None => None,
    }
}

fn opt_str_eq(a: &Option<String>, b: &Option<String>) -> (r: bool)
    ensures
        r == (opt_view(*a) == opt_view(*b)),
{
    match (a, b) {
        (Some(x), Some(y)) => str_eq(x.as_str(), y.as_str()),
        (None, None) => true,
        _ => false,
    }
}

/// The differences between the base and head records of a changed
/// Knowledge Object, in visit order (see [`projection`]). Lists compare
/// as sets, so reordering or repeating members changes nothing; evidence
/// compares by the kinds that carry an inline value.
pub fn project_changed(c: &ChangedObject) -> (r: Vec<FieldChange>)
    ensures
        changes_view(r@) == projection(c.base, c.head),
{
    let base = &c.base;
    let head = &c.head;
    let mut out: Vec<FieldChange> = Vec::new();
    let ghost mut expect: Seq<FieldChangeView> = Seq::empty();

    if !str_eq(base.body.as_str(), head.body.as_str()) {
        out.push(FieldChange::Body { before: base.body.clone(), after: head.body.clone() });
    }
    proof {
        expect = expect + when(base.body@ != head.body@, FieldChangeView::Body { before: base.body@, after: head.body@ });
        assert(changes_view(out@) =~= expect);
    }

    if !opt_str_eq(&base.status, &head.status) {
        let before = crate::graph::clone_opt_string(&base.status);
        let after = crate::graph::clone_opt_string(&head.status);
        let fc = if str_eq(head.kind.as_str(), "constraint") {
            FieldChange::Severity { before, after }
        } else if str_eq(head.kind.as_str(), "agent_instruction") {
            FieldChange::Trust { before, after }
        } else {
            FieldChange::Status { before, after }
        };
        out.push(fc);
    }
    proof {
        reveal_strlit("constraint");
        reveal_strlit("agent_instruction");
        expect = expect + status_changes(*base, *head);
        assert(changes_view(out@) =~= expect);
    }

    let base_owner = field_value(base, "owner");
    let head_owner = field_value(head, "owner");
    if !opt_str_eq(&base_owner, &head_owner) {
        out.push(FieldChange::Owner { before: base_owner, after: head_owner });
    }
    proof {
        expect = expect + when(
            field_differs(*base, *head, "owner"@),
            FieldChangeView::Owner { before: base.fields.spec_get("owner"@), after: head.fields.spec_get("owner"@) },
        );
        assert(changes_view(out@) =~= expect);
    }

    let base_verified = field_value(base, "verified_at");
    let head_verified = field_value(head, "verified_at");
    if !opt_str_eq(&base_verified, &head_verified) {
        out.push(FieldChange::VerifiedAt { before: base_verified, after: head_verified });
    }
    proof {
        expect = expect + when(
            field_differs(*base, *head, "verified_at"@),
            FieldChangeView::VerifiedAt {
                before: base.fields.spec_get("verified_at"@),
                after: head.fields.spec_get("verified_at"@),
            },
        );
        assert(changes_view(out@) =~= expect);
    }

    project_evidence(&mut out, base, head);
    proof {
        expect = expect + evidence_changes(*base, *head);
    }
    project_relation(&mut out, RelationKind::DependsOn, &base.relations.depends_on, &head.relations.depends_on);
    project_relation(&mut out, RelationKind::Supersedes, &base.relations.supersedes, &head.relations.supersedes);
    project_relation(&mut out, RelationKind::RelatedTo, &base.relations.related_to, &head.relations.related_to);
    project_impacts(&mut out, &base.impacts, &head.impacts);
    proof {
        expect = expect
            + relation_changes(RelationKind::DependsOn, strs_view(base.relations.depends_on@), strs_view(head.relations.depends_on@))
            + relation_changes(RelationKind::Supersedes, strs_view(base.relations.supersedes@), strs_view(head.relations.supersedes@))
            + relation_changes(RelationKind::RelatedTo, strs_view(base.relations.related_to@), strs_view(head.relations.related_to@))
            + list_changes(
                strs_view(base.impacts@),
                strs_view(head.impacts@),
                |p: Seq<char>| FieldChangeView::ImpactsAdded { path: p },
                |p: Seq<char>| FieldChangeView::ImpactsRemoved { path: p },
            );
    }

    let base_effective = field_value(base, "effective_at");
    let head_effective = field_value(head, "effective_at");
    if !opt_str_eq(&base_effective, &head_effective) {
        out.push(FieldChange::EffectiveAt { before: base_effective, after: head_effective });
    }
    proof {
        expect = expect + when(
            field_differs(*base, *head, "effective_at"@),
            FieldChangeView::EffectiveAt {
                before: base.fields.spec_get("effective_at"@),
                after: head.fields.spec_get("effective_at"@),
            },
        );
        assert(changes_view(out@) =~= expect);
    }

    project_approved_by(&mut out, &base.approved_by, &head.approved_by);
    proof {
        expect = expect + list_changes(
            strs_view(base.approved_by@),
            strs_view(head.approved_by@),
            |v: Seq<char>| FieldChangeView::ApprovedByAdded { value: v },
            |v: Seq<char>| FieldChangeView::ApprovedByRemoved { value: v },
        );
    }

    let base_scope = field_value(base, "scope");
    let head_scope = field_value(head, "scope");
    if !opt_str_eq(&base_scope, &head_scope) {
        out.push(FieldChange::Scope { before: base_scope, after: head_scope });
    }
    proof {
        expect = expect + when(
            field_differs(*base, *head, "scope"@),
            FieldChangeView::Scope { before: base.fields.spec_get("scope"@), after: head.fields.spec_get("scope"@) },
        );
        assert(changes_view(out@) =~= expect);
    }

    project_action_list(&mut out, &base.allowed_actions, &head.allowed_actions, true);
    project_action_list(&mut out, &base.forbidden_actions, &head.forbidden_actions, false);
    project_contradiction_claims(&mut out, &base.contradiction_claims, &head.contradiction_claims);
    proof {
        expect = expect
            + list_changes(
                strs_view(base.allowed_actions@),
                strs_view(head.allowed_actions@),
                |v: Seq<char>| FieldChangeView::AllowedActionsAdded { value: v },
                |v: Seq<char>| FieldChangeView::AllowedActionsRemoved { value: v },
            )
            + list_changes(
                strs_view(base.forbidden_actions@),
                strs_view(head.forbidden_actions@),
                |v: Seq<char>| FieldChangeView::ForbiddenActionsAdded { value: v },
                |v: Seq<char>| FieldChangeView::ForbiddenActionsRemoved { value: v },
            )
            + list_changes(
                strs_view(base.contradiction_claims@),
                strs_view(head.contradiction_claims@),
                |v: Seq<char>| FieldChangeView::ContradictionClaimsAdded { value: v },
                |v: Seq<char>| FieldChangeView::ContradictionClaimsRemoved { value: v },
            );
        assert(changes_view(out@) =~= expect);
        assert(expect =~= projection(*base, *head));
    }
    out
}

} // verus!
