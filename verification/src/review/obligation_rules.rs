//! The proof-obligation trigger rules: which field changes on which kinds
//! of Knowledge Object oblige a re-proof, and which impact entries oblige a
//! review.

use vstd::prelude::*;

use crate::graph::{opt_view, strs_view, GraphKnowledgeObjectNode};
use crate::obligation::ProofObligation;
use crate::review::field_change::{FieldChange, FieldChangeView};
use crate::review::impact::ImpactedObject;
use crate::review::object_change::ChangedObject;
use crate::text::{owned, str_eq};

verus! {

/// An obligation as characters: object, reason, required evidence.
pub struct ObligationView {
    pub object_id: Seq<char>,
    pub reason: Seq<char>,
    pub required_evidence: Seq<Seq<char>>,
}

pub open spec fn ob_view(o: ProofObligation) -> ObligationView {
    ObligationView { object_id: o.object_id@, reason: o.reason@, required_evidence: strs_view(o.required_evidence@) }
}

pub open spec fn obs_view(s: Seq<ProofObligation>) -> Seq<ObligationView> {
    s.map_values(|o: ProofObligation| ob_view(o))
}

pub open spec fn is_verified_claim(node: GraphKnowledgeObjectNode) -> bool {
    node.kind@ == "claim"@ && opt_view(node.status) == Some("verified"@)
}

pub open spec fn is_active_policy(node: GraphKnowledgeObjectNode) -> bool {
    node.kind@ == "policy"@ && opt_view(node.status) == Some("active"@)
}

pub open spec fn is_agent_instruction(node: GraphKnowledgeObjectNode) -> bool {
    node.kind@ == "agent_instruction"@
}

/// A contradiction's lifecycle rides the `status` slot.
pub open spec fn is_unresolved_contradiction(node: GraphKnowledgeObjectNode) -> bool {
    node.kind@ == "contradiction"@ && opt_view(node.status) == Some("unresolved"@)
}

fn opt_is(o: &Option<String>, lit: &str) -> (r: bool)
    ensures
        r == (opt_view(*o) == Some(lit@)),
{
    match o {
        Some(s) => str_eq(s.as_str(), lit),
        None => false,
    }
}

fn verified_claim(node: &GraphKnowledgeObjectNode) -> (r: bool)
    ensures
        r == is_verified_claim(*node),
{
    str_eq(node.kind.as_str(), "claim") && opt_is(&node.status, "verified")
}

fn active_policy(node: &GraphKnowledgeObjectNode) -> (r: bool)
    ensures
        r == is_active_policy(*node),
{
    str_eq(node.kind.as_str(), "policy") && opt_is(&node.status, "active")
}

fn agent_instruction(node: &GraphKnowledgeObjectNode) -> (r: bool)
    ensures
        r == is_agent_instruction(*node),
{
    str_eq(node.kind.as_str(), "agent_instruction")
}

fn unresolved_contradiction(node: &GraphKnowledgeObjectNode) -> (r: bool)
    ensures
        r == is_unresolved_contradiction(*node),
{
    str_eq(node.kind.as_str(), "contradiction") && opt_is(&node.status, "unresolved")
}

/// The trust level an `agent_instruction` carries in its `status` slot,
/// lowest first; `None` for an unrecognized value.
pub open spec fn trust_rank(s: Seq<char>) -> Option<int> {
    if s == "team"@ {
        Some(0)
    } else if s == "system"@ {
        Some(1)
    } else if s == "authoritative"@ {
        Some(2)
    } else {
        None
    }
}

fn trust_rank_of(s: &String) -> (r: Option<u8>)
    ensures
        match r {
            Some(v) => trust_rank(s@) == Some(v as int),
            None => trust_rank(s@) is None,
        },
{
    if str_eq(s.as_str(), "team") {
        Some(0)
    } else if str_eq(s.as_str(), "system") {
        Some(1)
    } else if str_eq(s.as_str(), "authoritative") {
        Some(2)
    } else {
        None
    }
}

/// Both sides name a known trust level and the new one is higher.
pub open spec fn is_trust_upgrade(before: Option<Seq<char>>, after: Option<Seq<char>>) -> bool {
    match (before, after) {
        (Some(b), Some(a)) => match (trust_rank(b), trust_rank(a)) {
            (Some(rb), Some(ra)) => ra > rb,
            _ => false,
        },
        _ => false,
    }
}

fn trust_is_upgrade(before: &Option<String>, after: &Option<String>) -> (r: bool)
    ensures
        r == is_trust_upgrade(opt_view(*before), opt_view(*after)),
{
    match (before, after) {
        (Some(b), Some(a)) => match (trust_rank_of(b), trust_rank_of(a)) {
            (Some(rb), Some(ra)) => ra > rb,
            _ => false,
        },
        _ => false,
    }
}

/// The kinds of the node's evidence entries that carry an inline value,
/// in order.
pub open spec fn present_evidence(evidence: Seq<crate::graph::GraphEvidence>) -> Seq<Seq<char>>
    decreases evidence.len(),
{
    if evidence.len() == 0 {
        Seq::empty()
    } else {
        let rest = present_evidence(evidence.drop_last());
        if evidence.last().value is Some {
            rest.push(evidence.last().kind@)
        } else {
            rest
        }
    }
}

pub(crate) fn present_evidence_fields(node: &GraphKnowledgeObjectNode) -> (r: Vec<String>)
    ensures
        strs_view(r@) == present_evidence(node.evidence@),
{
    let mut out: Vec<String> = Vec::new();
    let mut i: usize = 0;
    while i < node.evidence.len()
        invariant
            i <= node.evidence@.len(),
            strs_view(out@) == present_evidence(node.evidence@.take(i as int)),
        decreases node.evidence.len() - i,
    {
        proof {
            assert(node.evidence@.take(i + 1).drop_last() =~= node.evidence@.take(i as int));
            assert(node.evidence@.take(i + 1).last() == node.evidence@[i as int]);
        }
        if node.evidence[i].value.is_some() {
            out.push(node.evidence[i].kind.clone());
            proof {
                assert(strs_view(out@) =~= present_evidence(node.evidence@.take(i as int)).push(node.evidence@[i as int].kind@));
            }
        }
        i = i + 1;
    }
    proof {
        assert(node.evidence@.take(i as int) =~= node.evidence@);
    }
    out
}

pub open spec fn ov(id: Seq<char>, reason: Seq<char>, evidence: Seq<Seq<char>>) -> ObligationView {
    ObligationView { object_id: id, reason: reason, required_evidence: evidence }
}

/// The obligations one field change on `head` (Object ID `id`) triggers.
pub open spec fn field_rule(id: Seq<char>, head: GraphKnowledgeObjectNode, fc: FieldChangeView) -> Seq<ObligationView> {
    match fc {
        FieldChangeView::Body { .. } => if is_verified_claim(head) {
            seq![ov(id, "re-verify body"@, present_evidence(head.evidence@))]
        } else {
            Seq::empty()
        },
        FieldChangeView::Status { before, after } => if before == Some("verified"@) && after == Some("needs_review"@) {
            seq![ov(id, "stale verified claim"@, Seq::empty())]
        } else if before == Some("verified"@) && after == Some("draft"@) {
            seq![ov(id, "verified claim demoted"@, Seq::empty())]
        } else {
            Seq::empty()
        },
        FieldChangeView::Owner { before, after } => if is_verified_claim(head) {
            match (before, after) {
                (Some(_), None) => seq![ov(id, "reassign owner"@, seq!["owner"@])],
                (Some(a), Some(b)) => if a != b {
                    seq![ov(id, "new owner must acknowledge"@, seq!["owner"@])]
                } else {
                    Seq::empty()
                },
                _ => Seq::empty(),
            }
        } else {
            Seq::empty()
        },
        FieldChangeView::VerifiedAt { before, after } => if is_verified_claim(head) && before is Some && after is None {
            seq![ov(id, "re-verify (verified_at cleared)"@, seq!["verified_at"@])]
        } else {
            Seq::empty()
        },
        FieldChangeView::EvidenceRemoved { field, .. } => if is_verified_claim(head) {
            seq![ov(id, "re-evidence: "@ + field, seq![field])]
        } else {
            Seq::empty()
        },
        FieldChangeView::EffectiveAt { .. } => if is_active_policy(head) {
            seq![ov(id, "re-approve (effective_at changed)"@, seq!["approved_by"@])]
        } else {
            Seq::empty()
        },
        FieldChangeView::ApprovedByRemoved { .. } => if is_active_policy(head) {
            seq![ov(id, "re-approve (approver removed)"@, seq!["approved_by"@])]
        } else {
            Seq::empty()
        },
        FieldChangeView::Trust { before, after } => if is_agent_instruction(head) && is_trust_upgrade(before, after) {
            seq![ov(id, "security review (trust upgraded)"@, Seq::empty())]
        } else {
            Seq::empty()
        },
        FieldChangeView::ForbiddenActionsRemoved { .. } => if is_agent_instruction(head) {
            seq![ov(id, "security review (forbidden action removed)"@, Seq::empty())]
        } else {
            Seq::empty()
        },
        _ => Seq::empty(),
    }
}

/// A status change's obligations depend on its before and after values
/// alone, never on the head's kind or status: `verified` to
/// `needs_review` is a stale verified claim, `verified` to `draft` a
/// demoted one, anything else nothing.
pub proof fn lemma_status_rule_reads_only_the_change(
    id: Seq<char>,
    head1: GraphKnowledgeObjectNode,
    head2: GraphKnowledgeObjectNode,
    before: Option<Seq<char>>,
    after: Option<Seq<char>>,
)
    ensures
        field_rule(id, head1, FieldChangeView::Status { before, after }) == field_rule(
            id,
            head2,
            FieldChangeView::Status { before, after },
        ),
        field_rule(id, head1, FieldChangeView::Status { before, after }) == (if before == Some("verified"@) && after
            == Some("needs_review"@) {
            seq![ov(id, "stale verified claim"@, Seq::empty())]
        } else if before == Some("verified"@) && after == Some("draft"@) {
            seq![ov(id, "verified claim demoted"@, Seq::empty())]
        } else {
            Seq::empty()
        }),
{
}

/// Additions of evidence, approvers, relations, impacts, allowed or
/// forbidden actions and contradiction claims, removals of relations,
/// impacts, allowed actions and contradiction claims, and severity and
/// scope changes trigger no obligation, whatever the object.
pub proof fn lemma_inert_changes_trigger_nothing(id: Seq<char>, head: GraphKnowledgeObjectNode, fc: FieldChangeView)
    requires
        fc is EvidenceAdded || fc is ApprovedByAdded || fc is RelationAdded || fc is RelationRemoved
            || fc is ImpactsAdded || fc is ImpactsRemoved || fc is AllowedActionsAdded || fc is AllowedActionsRemoved
            || fc is ForbiddenActionsAdded || fc is Severity || fc is Scope || fc is ContradictionClaimsAdded
            || fc is ContradictionClaimsRemoved,
    ensures
        field_rule(id, head, fc) == Seq::<ObligationView>::empty(),
{
}

/// Owner changes matter only on a verified claim: a removed owner asks
/// for reassignment, a different owner for acknowledgement, both naming
/// `owner` as the evidence owed; on any other object they trigger nothing.
pub proof fn lemma_owner_rule(
    id: Seq<char>,
    head: GraphKnowledgeObjectNode,
    before: Option<Seq<char>>,
    after: Option<Seq<char>>,
)
    ensures
        !is_verified_claim(head) ==> field_rule(id, head, FieldChangeView::Owner { before, after }) == Seq::<
            ObligationView,
        >::empty(),
        is_verified_claim(head) && before is Some && after is None ==> field_rule(
            id,
            head,
            FieldChangeView::Owner { before, after },
        ) == seq![ov(id, "reassign owner"@, seq!["owner"@])],
        is_verified_claim(head) && before is Some && after is Some && before != after ==> field_rule(
            id,
            head,
            FieldChangeView::Owner { before, after },
        ) == seq![ov(id, "new owner must acknowledge"@, seq!["owner"@])],
        before is None || before == after ==> field_rule(id, head, FieldChangeView::Owner { before, after }) == Seq::<
            ObligationView,
        >::empty(),
{
}

/// Changing `effective_at`, or removing an approver, asks for
/// re-approval exactly when the object is an active policy.
pub proof fn lemma_reapproval_rule(id: Seq<char>, head: GraphKnowledgeObjectNode, fc: FieldChangeView)
    requires
        fc is EffectiveAt || fc is ApprovedByRemoved,
    ensures
        !is_active_policy(head) ==> field_rule(id, head, fc) == Seq::<ObligationView>::empty(),
        is_active_policy(head) && fc is EffectiveAt ==> field_rule(id, head, fc) == seq![
            ov(id, "re-approve (effective_at changed)"@, seq!["approved_by"@]),
        ],
        is_active_policy(head) && fc is ApprovedByRemoved ==> field_rule(id, head, fc) == seq![
            ov(id, "re-approve (approver removed)"@, seq!["approved_by"@]),
        ],
{
}

/// Trust levels are strictly ordered `team` < `system` < `authoritative`:
/// a single trust change on an `agent_instruction` from a lower to a
/// higher of these levels yields exactly one security-review obligation
/// for the object, and a change to an equal or lower level yields none.
pub proof fn lemma_trust_upgrades_need_security_review(c: ChangedObject, i: int, j: int)
    requires
        c.head.kind@ == "agent_instruction"@,
        c.field_changes@.len() == 1,
        0 <= i < 3,
        0 <= j < 3,
        c.field_changes@[0]@ == (FieldChangeView::Trust {
            before: Some(seq!["team"@, "system"@, "authoritative"@][i]),
            after: Some(seq!["team"@, "system"@, "authoritative"@][j]),
        }),
    ensures
        i < j ==> change_obligations(c) == seq![ov(c.id@, "security review (trust upgraded)"@, Seq::empty())],
        j <= i ==> change_obligations(c) == Seq::<ObligationView>::empty(),
{
    reveal_strlit("team");
    reveal_strlit("system");
    reveal_strlit("authoritative");
    reveal_strlit("agent_instruction");
    reveal_strlit("contradiction");
    reveal_with_fuel(field_rules_upto, 2);
    let levels = seq!["team"@, "system"@, "authoritative"@];
    assert(levels[0] == "team"@ && levels[1] == "system"@ && levels[2] == "authoritative"@);
    assert("contradiction"@[0] != "agent_instruction"@[0]);
    assert(!is_unresolved_contradiction(c.head));
    assert(is_agent_instruction(c.head));
    assert("team"@[0] != "system"@[0] && "team"@[0] != "authoritative"@[0] && "system"@[0] != "authoritative"@[0]);
    assert(trust_rank("team"@) == Some(0int));
    assert(trust_rank("system"@) == Some(1int));
    assert(trust_rank("authoritative"@) == Some(2int));
    assert(trust_rank(levels[i]) == Some(i));
    assert(trust_rank(levels[j]) == Some(j));
    assert(is_trust_upgrade(Some(levels[i]), Some(levels[j])) == (i < j));
    assert(field_rules_upto(c.id@, c.head, c.field_changes@, 0) == Seq::<ObligationView>::empty());
    let r = field_rule(c.id@, c.head, c.field_changes@[0]@);
    assert(field_rules_upto(c.id@, c.head, c.field_changes@, 1) =~= r);
    assert(change_obligations(c) =~= r);
}

/// The obligations of the first `n` field changes, in order.
pub open spec fn field_rules_upto(id: Seq<char>, head: GraphKnowledgeObjectNode, fcs: Seq<FieldChange>, n: int) -> Seq<ObligationView>
    decreases n,
{
    if n <= 0 {
        Seq::empty()
    } else {
        field_rules_upto(id, head, fcs, n - 1) + field_rule(id, head, fcs[n - 1]@)
    }
}

/// The obligations one changed object triggers: each field change's, in
/// order, then one owner re-assertion if an unresolved contradiction
/// changed at all.
pub open spec fn change_obligations(c: ChangedObject) -> Seq<ObligationView> {
    field_rules_upto(c.id@, c.head, c.field_changes@, c.field_changes@.len() as int) + if c.field_changes@.len() > 0
        && is_unresolved_contradiction(c.head) {
        seq![ov(c.id@, "owner re-assert (unresolved contradiction changed)"@, seq!["owner"@])]
    } else {
        Seq::empty()
    }
}

fn obligation(id: &String, reason: &str, evidence: Vec<String>) -> (r: ProofObligation)
    ensures
        ob_view(r) == ov(id@, reason@, strs_view(evidence@)),
{
    ProofObligation { object_id: id.clone(), reason: owned(reason), required_evidence: evidence }
}

fn single(s: &str) -> (r: Vec<String>)
    ensures
        strs_view(r@) == seq![s@],
{
    let mut v: Vec<String> = Vec::new();
    v.push(owned(s));
    proof {
        assert(strs_view(v@) =~= seq![s@]);
    }
    v
}

fn none() -> (r: Vec<String>)
    ensures
        strs_view(r@) == Seq::<Seq<char>>::empty(),
{
    let v: Vec<String> = Vec::new();
    proof {
        assert(strs_view(v@) =~= Seq::<Seq<char>>::empty());
    }
    v
}

fn push_ob(out: &mut Vec<ProofObligation>, o: ProofObligation)
    ensures
        obs_view(final(out)@) == obs_view(old(out)@).push(ob_view(o)),
{
    out.push(o);
    proof {
        assert(obs_view(final(out)@) =~= obs_view(old(out)@).push(ob_view(o)));
    }
}

/// Append the obligations one field change triggers.
fn push_for_field_change(out: &mut Vec<ProofObligation>, changed: &ChangedObject, field_change: &FieldChange)
    ensures
        obs_view(final(out)@) == obs_view(old(out)@) + field_rule(changed.id@, changed.head, field_change@),
{
    let head = &changed.head;
    let id = &changed.id;
    let ghost before = obs_view(out@);
    let ghost expected = field_rule(changed.id@, changed.head, field_change@);
    match field_change {
        FieldChange::Body { .. } => {
            if verified_claim(head) {
                push_ob(out, obligation(id, "re-verify body", present_evidence_fields(head)));
            }
        },
        FieldChange::Status { before: b, after: a } => {
            if opt_is(b, "verified") && opt_is(a, "needs_review") {
                push_ob(out, obligation(id, "stale verified claim", none()));
            } else if opt_is(b, "verified") && opt_is(a, "draft") {
                push_ob(out, obligation(id, "verified claim demoted", none()));
            }
        },
        FieldChange::Owner { before: b, after: a } => {
            if verified_claim(head) {
                match (b, a) {
                    (Some(_), None) => {
                        push_ob(out, obligation(id, "reassign owner", single("owner")));
                    },
                    (Some(x), Some(y)) => {
                        if !str_eq(x.as_str(), y.as_str()) {
                            push_ob(out, obligation(id, "new owner must acknowledge", single("owner")));
                        }
                    },
                    _ => {},
                }
            }
        },
        FieldChange::VerifiedAt { before: b, after: a } => {
            if verified_claim(head) && b.is_some() && a.is_none() {
                push_ob(out, obligation(id, "re-verify (verified_at cleared)", single("verified_at")));
            }
        },
        FieldChange::EvidenceRemoved { field, .. } => {
            if verified_claim(head) {
                let mut reason = owned("re-evidence: ");
                reason.append(field.as_str());
                let mut evidence: Vec<String> = Vec::new();
                evidence.push(field.clone());
                let o = ProofObligation { object_id: id.clone(), reason, required_evidence: evidence };
                proof {
                    assert(strs_view(o.required_evidence@) =~= seq![field@]);
                }
                push_ob(out, o);
            }
        },
        FieldChange::EffectiveAt { .. } => {
            if active_policy(head) {
                push_ob(out, obligation(id, "re-approve (effective_at changed)", single("approved_by")));
            }
        },
        FieldChange::ApprovedByRemoved { .. } => {
            if active_policy(head) {
                push_ob(out, obligation(id, "re-approve (approver removed)", single("approved_by")));
            }
        },
        FieldChange::Trust { before: b, after: a } => {
            if agent_instruction(head) && trust_is_upgrade(b, a) {
                push_ob(out, obligation(id, "security review (trust upgraded)", none()));
            }
        },
        FieldChange::ForbiddenActionsRemoved { .. } => {
            if agent_instruction(head) {
                push_ob(out, obligation(id, "security review (forbidden action removed)", none()));
            }
        },
        _ => {},
    }
    proof {
        assert(obs_view(out@) =~= before + expected);
    }
}

/// Dispatch the trigger table against one changed entry's field changes:
/// each field change's obligations in order, then one owner re-assertion
/// when an unresolved contradiction changed at all.
pub fn obligations_for_change(changed: &ChangedObject) -> (r: Vec<ProofObligation>)
    ensures
        obs_view(r@) == change_obligations(*changed),
{
    let mut out: Vec<ProofObligation> = Vec::new();
    let changes = changed.field_changes();
    let mut i: usize = 0;
    proof {
        assert(obs_view(out@) =~= Seq::<ObligationView>::empty());
    }
    while i < changes.len()
        invariant
            changes == &changed.field_changes,
            i <= changes@.len(),
            obs_view(out@) == field_rules_upto(changed.id@, changed.head, changes@, i as int),
        decreases changes.len() - i,
    {
        push_for_field_change(&mut out, changed, &changes[i]);
        i = i + 1;
    }
    if changes.len() > 0 && unresolved_contradiction(&changed.head) {
        push_ob(&mut out, obligation(&changed.id, "owner re-assert (unresolved contradiction changed)", single("owner")));
    }
    proof {
        let tail = if changes@.len() > 0 && is_unresolved_contradiction(changed.head) {
            seq![ov(changed.id@, "owner re-assert (unresolved contradiction changed)"@, seq!["owner"@])]
        } else {
            Seq::<ObligationView>::empty()
        };
        assert(obs_view(out@) =~= field_rules_upto(changed.id@, changed.head, changes@, changes@.len() as int) + tail);
    }
    out
}

/// The impact-review obligation of one impact entry: review the impacted
/// object against its `source_code` evidence.
pub fn obligations_for_impact(impact: &ImpactedObject) -> (r: Vec<ProofObligation>)
    ensures
        obs_view(r@) == seq![ov(impact.id@, "review impacted claim"@, seq!["source_code"@])],
{
    let mut out: Vec<ProofObligation> = Vec::new();
    push_ob(&mut out, obligation(&impact.id, "review impacted claim", single("source_code")));
    proof {
        assert(obs_view(out@) =~= seq![ov(impact.id@, "review impacted claim"@, seq!["source_code"@])]);
    }
    out
}

} // verus!
