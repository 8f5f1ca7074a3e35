//! The typed vocabulary of what differs inside a Knowledge Object whose
//! governed meaning changed between two snapshots.

use vstd::prelude::*;

use crate::graph::opt_view;
use crate::text::owned;

verus! {

/// Discriminator for the three relation slots on a Knowledge Object.
#[derive(Debug, Clone, Copy, PartialEq, Eq, Structural)]
pub enum RelationKind {
    DependsOn,
    Supersedes,
    RelatedTo,
}

impl RelationKind {
    pub open spec fn spec_name(self) -> Seq<char> {
        match self {
            RelationKind::DependsOn => "depends_on"@,
            RelationKind::Supersedes => "supersedes"@,
            RelationKind::RelatedTo => "related_to"@,
        }
    }

    /// Canonical wire name for this kind.
    pub fn as_str(self) -> (r: &'static str)
        ensures
            r@ == self.spec_name(),
    {
        match self {
            Self::DependsOn => "depends_on",
            Self::Supersedes => "supersedes",
            Self::RelatedTo => "related_to",
        }
    }
}

/// One typed difference between the base and head sides of a changed
/// Knowledge Object.
#[derive(Debug, Clone, PartialEq, Eq)]
#[allow(inconsistent_fields)]
pub enum FieldChange {
    Body { before: String, after: String },
    Status { before: Option<String>, after: Option<String> },
    Owner { before: Option<String>, after: Option<String> },
    VerifiedAt { before: Option<String>, after: Option<String> },
    EvidenceAdded { field: String, value: String },
    EvidenceRemoved { field: String, value: String },
    RelationAdded { kind: RelationKind, target: String },
    RelationRemoved { kind: RelationKind, target: String },
    ImpactsAdded { path: String },
    ImpactsRemoved { path: String },
    Severity { before: Option<String>, after: Option<String> },
    Trust { before: Option<String>, after: Option<String> },
    EffectiveAt { before: Option<String>, after: Option<String> },
    ApprovedByAdded { value: String },
    ApprovedByRemoved { value: String },
    Scope { before: Option<String>, after: Option<String> },
    AllowedActionsAdded { value: String },
    AllowedActionsRemoved { value: String },
    ForbiddenActionsAdded { value: String },
    ForbiddenActionsRemoved { value: String },
    ContradictionClaimsAdded { value: String },
    ContradictionClaimsRemoved { value: String },
}

/// A [`FieldChange`] as characters.
#[allow(inconsistent_fields)]
pub enum FieldChangeView {
    Body { before: Seq<char>, after: Seq<char> },
    Status { before: Option<Seq<char>>, after: Option<Seq<char>> },
    Owner { before: Option<Seq<char>>, after: Option<Seq<char>> },
    VerifiedAt { before: Option<Seq<char>>, after: Option<Seq<char>> },
    EvidenceAdded { field: Seq<char>, value: Seq<char> },
    EvidenceRemoved { field: Seq<char>, value: Seq<char> },
    RelationAdded { kind: RelationKind, target: Seq<char> },
    RelationRemoved { kind: RelationKind, target: Seq<char> },
    ImpactsAdded { path: Seq<char> },
    ImpactsRemoved { path: Seq<char> },
    Severity { before: Option<Seq<char>>, after: Option<Seq<char>> },
    Trust { before: Option<Seq<char>>, after: Option<Seq<char>> },
    EffectiveAt { before: Option<Seq<char>>, after: Option<Seq<char>> },
    ApprovedByAdded { value: Seq<char> },
    ApprovedByRemoved { value: Seq<char> },
    Scope { before: Option<Seq<char>>, after: Option<Seq<char>> },
    AllowedActionsAdded { value: Seq<char> },
    AllowedActionsRemoved { value: Seq<char> },
    ForbiddenActionsAdded { value: Seq<char> },
    ForbiddenActionsRemoved { value: Seq<char> },
    ContradictionClaimsAdded { value: Seq<char> },
    ContradictionClaimsRemoved { value: Seq<char> },
}

impl View for FieldChange {
    type V = FieldChangeView;

    open spec fn view(&self) -> FieldChangeView {
        match self {
            FieldChange::Body { before, after } => FieldChangeView::Body { before: before@, after: after@ },
            FieldChange::Status { before, after } => FieldChangeView::Status { before: opt_view(*before), after: opt_view(*after) },
            FieldChange::Owner { before, after } => FieldChangeView::Owner { before: opt_view(*before), after: opt_view(*after) },
            FieldChange::VerifiedAt { before, after } => FieldChangeView::VerifiedAt { before: opt_view(*before), after: opt_view(*after) },
            FieldChange::EvidenceAdded { field, value } => FieldChangeView::EvidenceAdded { field: field@, value: value@ },
            FieldChange::EvidenceRemoved { field, value } => FieldChangeView::EvidenceRemoved { field: field@, value: value@ },
            FieldChange::RelationAdded { kind, target } => FieldChangeView::RelationAdded { kind: *kind, target: target@ },
            FieldChange::RelationRemoved { kind, target } => FieldChangeView::RelationRemoved { kind: *kind, target: target@ },
            FieldChange::ImpactsAdded { path } => FieldChangeView::ImpactsAdded { path: path@ },
            FieldChange::ImpactsRemoved { path } => FieldChangeView::ImpactsRemoved { path: path@ },
            FieldChange::Severity { before, after } => FieldChangeView::Severity { before: opt_view(*before), after: opt_view(*after) },
            FieldChange::Trust { before, after } => FieldChangeView::Trust { before: opt_view(*before), after: opt_view(*after) },
            FieldChange::EffectiveAt { before, after } => FieldChangeView::EffectiveAt { before: opt_view(*before), after: opt_view(*after) },
            FieldChange::ApprovedByAdded { value } => FieldChangeView::ApprovedByAdded { value: value@ },
            FieldChange::ApprovedByRemoved { value } => FieldChangeView::ApprovedByRemoved { value: value@ },
            FieldChange::Scope { before, after } => FieldChangeView::Scope { before: opt_view(*before), after: opt_view(*after) },
            FieldChange::AllowedActionsAdded { value } => FieldChangeView::AllowedActionsAdded { value: value@ },
            FieldChange::AllowedActionsRemoved { value } => FieldChangeView::AllowedActionsRemoved { value: value@ },
            FieldChange::ForbiddenActionsAdded { value } => FieldChangeView::ForbiddenActionsAdded { value: value@ },
            FieldChange::ForbiddenActionsRemoved { value } => FieldChangeView::ForbiddenActionsRemoved { value: value@ },
            FieldChange::ContradictionClaimsAdded { value } => FieldChangeView::ContradictionClaimsAdded { value: value@ },
            FieldChange::ContradictionClaimsRemoved { value } => FieldChangeView::ContradictionClaimsRemoved { value: value@ },
        }
    }
}

/// The views of a list of changes.
pub open spec fn changes_view(s: Seq<FieldChange>) -> Seq<FieldChangeView> {
    s.map_values(|c: FieldChange| c@)
}

impl FieldChangeView {
    /// The headline label of a change.
    pub open spec fn label(self) -> Seq<char> {
        match self {
            FieldChangeView::Body { .. } => "body changed"@,
            FieldChangeView::Status { .. } => "status changed"@,
            FieldChangeView::Owner { .. } => "owner changed"@,
            FieldChangeView::VerifiedAt { .. } => "verified_at changed"@,
            FieldChangeView::EvidenceAdded { .. } => "evidence added"@,
            FieldChangeView::EvidenceRemoved { .. } => "evidence removed"@,
            FieldChangeView::RelationAdded { .. } => "relation added"@,
            FieldChangeView::RelationRemoved { .. } => "relation removed"@,
            FieldChangeView::ImpactsAdded { .. } => "impacts added"@,
            FieldChangeView::ImpactsRemoved { .. } => "impacts removed"@,
            FieldChangeView::Severity { .. } => "severity changed"@,
            FieldChangeView::Trust { .. } => "trust changed"@,
            FieldChangeView::EffectiveAt { .. } => "effective_at changed"@,
            FieldChangeView::ApprovedByAdded { .. } => "approver added"@,
            FieldChangeView::ApprovedByRemoved { .. } => "approver removed"@,
            FieldChangeView::Scope { .. } => "scope changed"@,
            FieldChangeView::AllowedActionsAdded { .. } => "allowed action added"@,
            FieldChangeView::AllowedActionsRemoved { .. } => "allowed action removed"@,
            FieldChangeView::ForbiddenActionsAdded { .. } => "forbidden action added"@,
            FieldChangeView::ForbiddenActionsRemoved { .. } => "forbidden action removed"@,
            FieldChangeView::ContradictionClaimsAdded { .. } => "contradiction claim added"@,
            FieldChangeView::ContradictionClaimsRemoved { .. } => "contradiction claim removed"@,
        }
    }
}

impl FieldChange {
    /// Short headline label used by presenters' per-object summary line.
    pub fn summary_label(&self) -> (r: &'static str)
        ensures
            r@ == self@.label(),
    {
        match self {
            FieldChange::Body { .. } => "body changed",
            FieldChange::Status { .. } => "status changed",
            FieldChange::Owner { .. } => "owner changed",
            FieldChange::VerifiedAt { .. } => "verified_at changed",
            FieldChange::EvidenceAdded { .. } => "evidence added",
            FieldChange::EvidenceRemoved { .. } => "evidence removed",
            FieldChange::RelationAdded { .. } => "relation added",
            FieldChange::RelationRemoved { .. } => "relation removed",
            FieldChange::ImpactsAdded { .. } => "impacts added",
            FieldChange::ImpactsRemoved { .. } => "impacts removed",
            FieldChange::Severity { .. } => "severity changed",
            FieldChange::Trust { .. } => "trust changed",
            FieldChange::EffectiveAt { .. } => "effective_at changed",
            FieldChange::ApprovedByAdded { .. } => "approver added",
            FieldChange::ApprovedByRemoved { .. } => "approver removed",
            FieldChange::Scope { .. } => "scope changed",
            FieldChange::AllowedActionsAdded { .. } => "allowed action added",
            FieldChange::AllowedActionsRemoved { .. } => "allowed action removed",
            FieldChange::ForbiddenActionsAdded { .. } => "forbidden action added",
            FieldChange::ForbiddenActionsRemoved { .. } => "forbidden action removed",
            FieldChange::ContradictionClaimsAdded { .. } => "contradiction claim added",
            FieldChange::ContradictionClaimsRemoved { .. } => "contradiction claim removed",
        }
    }

    /// A copy with the same content.
    pub fn duplicate(&self) -> (r: Self)
        ensures
            r@ == self@,
    {
        match self {
            FieldChange::Body { before, after } => FieldChange::Body { before: before.clone(), after: after.clone() },
            FieldChange::Status { before, after } => FieldChange::Status { before: crate::graph::clone_opt_string(before), after: crate::graph::clone_opt_string(after) },
            FieldChange::Owner { before, after } => FieldChange::Owner { before: crate::graph::clone_opt_string(before), after: crate::graph::clone_opt_string(after) },
            FieldChange::VerifiedAt { before, after } => FieldChange::VerifiedAt { before: crate::graph::clone_opt_string(before), after: crate::graph::clone_opt_string(after) },
            FieldChange::EvidenceAdded { field, value } => FieldChange::EvidenceAdded { field: field.clone(), value: value.clone() },
            FieldChange::EvidenceRemoved { field, value } => FieldChange::EvidenceRemoved { field: field.clone(), value: value.clone() },
            FieldChange::RelationAdded { kind, target } => FieldChange::RelationAdded { kind: *kind, target: target.clone() },
            FieldChange::RelationRemoved { kind, target } => FieldChange::RelationRemoved { kind: *kind, target: target.clone() },
            FieldChange::ImpactsAdded { path } => FieldChange::ImpactsAdded { path: path.clone() },
            FieldChange::ImpactsRemoved { path } => FieldChange::ImpactsRemoved { path: path.clone() },
            FieldChange::Severity { before, after } => FieldChange::Severity { before: crate::graph::clone_opt_string(before), after: crate::graph::clone_opt_string(after) },
            FieldChange::Trust { before, after } => FieldChange::Trust { before: crate::graph::clone_opt_string(before), after: crate::graph::clone_opt_string(after) },
            FieldChange::EffectiveAt { before, after } => FieldChange::EffectiveAt { before: crate::graph::clone_opt_string(before), after: crate::graph::clone_opt_string(after) },
            FieldChange::ApprovedByAdded { value } => FieldChange::ApprovedByAdded { value: value.clone() },
            FieldChange::ApprovedByRemoved { value } => FieldChange::ApprovedByRemoved { value: value.clone() },
            FieldChange::Scope { before, after } => FieldChange::Scope { before: crate::graph::clone_opt_string(before), after: crate::graph::clone_opt_string(after) },
            FieldChange::AllowedActionsAdded { value } => FieldChange::AllowedActionsAdded { value: value.clone() },
            FieldChange::AllowedActionsRemoved { value } => FieldChange::AllowedActionsRemoved { value: value.clone() },
            FieldChange::ForbiddenActionsAdded { value } => FieldChange::ForbiddenActionsAdded { value: value.clone() },
            FieldChange::ForbiddenActionsRemoved { value } => FieldChange::ForbiddenActionsRemoved { value: value.clone() },
            FieldChange::ContradictionClaimsAdded { value } => FieldChange::ContradictionClaimsAdded { value: value.clone() },
            FieldChange::ContradictionClaimsRemoved { value } => FieldChange::ContradictionClaimsRemoved { value: value.clone() },
        }
    }
}

impl FieldChangeView {
    /// The canonical plain-text rendering `label: before → after`.
    pub open spec fn display(self) -> Seq<char> {
        match self {
            FieldChangeView::Body { .. } => "body: changed"@,
            FieldChangeView::Status { before, after } => "status: "@ + or_none(before) + " \u{2192} "@ + or_none(after),
            FieldChangeView::Owner { before, after } => "owner: "@ + or_none(before) + " \u{2192} "@ + or_none(after),
            FieldChangeView::VerifiedAt { before, after } => "verified_at: "@ + or_none(before) + " \u{2192} "@ + or_none(after),
            FieldChangeView::EvidenceAdded { field, .. } => "evidence: +"@ + field,
            FieldChangeView::EvidenceRemoved { field, .. } => "evidence: -"@ + field,
            FieldChangeView::RelationAdded { kind, target } => kind.spec_name() + ": +"@ + target,
            FieldChangeView::RelationRemoved { kind, target } => kind.spec_name() + ": -"@ + target,
            FieldChangeView::ImpactsAdded { path } => "impacts: +"@ + path,
            FieldChangeView::ImpactsRemoved { path } => "impacts: -"@ + path,
            FieldChangeView::Severity { before, after } => "severity: "@ + or_none(before) + " \u{2192} "@ + or_none(after),
            FieldChangeView::Trust { before, after } => "trust: "@ + or_none(before) + " \u{2192} "@ + or_none(after),
            FieldChangeView::EffectiveAt { before, after } => "effective_at: "@ + or_none(before) + " \u{2192} "@ + or_none(after),
            FieldChangeView::ApprovedByAdded { value } => "approved_by: +"@ + value,
            FieldChangeView::ApprovedByRemoved { value } => "approved_by: -"@ + value,
            FieldChangeView::Scope { before, after } => "scope: "@ + or_none(before) + " \u{2192} "@ + or_none(after),
            FieldChangeView::AllowedActionsAdded { value } => "allowed_actions: +"@ + value,
            FieldChangeView::AllowedActionsRemoved { value } => "allowed_actions: -"@ + value,
            FieldChangeView::ForbiddenActionsAdded { value } => "forbidden_actions: +"@ + value,
            FieldChangeView::ForbiddenActionsRemoved { value } => "forbidden_actions: -"@ + value,
            FieldChangeView::ContradictionClaimsAdded { value } => "contradiction_claims: +"@ + value,
            FieldChangeView::ContradictionClaimsRemoved { value } => "contradiction_claims: -"@ + value,
        }
    }
}

/// An optional value, or `(none)`.
pub open spec fn or_none(v: Option<Seq<char>>) -> Seq<char> {
    match v {
        Some(s) => s,
        None => "(none)"@,
    }
}

fn push_or_none(s: &mut String, v: &Option<String>)
    ensures
        final(s)@ == old(s)@ + or_none(opt_view(*v)),
{
    match v {
        Some(x) => s.append(x.as_str()),
        None => s.append("(none)"),
    }
}

fn two_sided(label: &str, before: &Option<String>, after: &Option<String>) -> (r: String)
    ensures
        r@ == label@ + or_none(opt_view(*before)) + " \u{2192} "@ + or_none(opt_view(*after)),
{
    let mut s = owned(label);
    push_or_none(&mut s, before);
    s.append(" \u{2192} ");
    push_or_none(&mut s, after);
    s
}

fn prefixed(prefix: &str, value: &String) -> (r: String)
    ensures
        r@ == prefix@ + value@,
{
    let mut s = owned(prefix);
    s.append(value.as_str());
    s
}

impl FieldChange {
    /// The canonical plain-text rendering (what `Display` prints).
    pub fn to_display_string(&self) -> (r: String)
        ensures
            r@ == self@.display(),
    {
        match self {
            FieldChange::Body { .. } => owned("body: changed"),
            FieldChange::Status { before, after } => two_sided("status: ", before, after),
            FieldChange::Owner { before, after } => two_sided("owner: ", before, after),
            FieldChange::VerifiedAt { before, after } => two_sided("verified_at: ", before, after),
            FieldChange::EvidenceAdded { field, .. } => prefixed("evidence: +", field),
            FieldChange::EvidenceRemoved { field, .. } => prefixed("evidence: -", field),
            FieldChange::RelationAdded { kind, target } => {
                let mut s = owned(kind.as_str());
                s.append(": +");
                s.append(target.as_str());
                s
            },
            FieldChange::RelationRemoved { kind, target } => {
                let mut s = owned(kind.as_str());
                s.append(": -");
                s.append(target.as_str());
                s
            },
            FieldChange::ImpactsAdded { path } => prefixed("impacts: +", path),
            FieldChange::ImpactsRemoved { path } => prefixed("impacts: -", path),
            FieldChange::Severity { before, after } => two_sided("severity: ", before, after),
            FieldChange::Trust { before, after } => two_sided("trust: ", before, after),
            FieldChange::EffectiveAt { before, after } => two_sided("effective_at: ", before, after),
            FieldChange::ApprovedByAdded { value } => prefixed("approved_by: +", value),
            FieldChange::ApprovedByRemoved { value } => prefixed("approved_by: -", value),
            FieldChange::Scope { before, after } => two_sided("scope: ", before, after),
            FieldChange::AllowedActionsAdded { value } => prefixed("allowed_actions: +", value),
            FieldChange::AllowedActionsRemoved { value } => prefixed("allowed_actions: -", value),
            FieldChange::ForbiddenActionsAdded { value } => prefixed("forbidden_actions: +", value),
            FieldChange::ForbiddenActionsRemoved { value } => prefixed("forbidden_actions: -", value),
            FieldChange::ContradictionClaimsAdded { value } => prefixed("contradiction_claims: +", value),
            FieldChange::ContradictionClaimsRemoved { value } => prefixed("contradiction_claims: -", value),
        }
    }
}

} // verus!
