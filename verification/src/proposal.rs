//! The canonical proposal record: a validated set of patches bound to the
//! exact source revisions and assessments that produced them, and to the
//! content hash of every existing Knowledge Object it edits.
//!
//! A record's identity is the digest over its patches' digests in
//! increasing order, so any byte change to any patch makes a new record.
//! Digests are computed outside this module: each patch arrives with the
//! digest of its bytes, [`ProposalRecord::prepare`] returns the bytes the
//! set digest covers, and [`PreparedProposal::finish`] takes that digest.

use vstd::prelude::*;

use crate::diagnostic::DiagnosticCode;
use crate::graph::{opt_view, strs_view};
use crate::identifiers::{is_digest, is_sha256_digest};
use crate::migration::{char_is_control, is_control};
use crate::patch::{PatchDocument, PatchIntent, PatchOperation};
use crate::sorted::{has_key, insert_sorted, lemma_one_component, sorted_by_key, Keyed};
use crate::string_set::{insert_str, lemma_lists_sorted_unique, lemma_sorted_strings, lists_sorted, sorted_elems};
use crate::text::{chars_of, is_empty_or_padded, owned, str_eq, str_is_empty_or_padded, str_lt};

verus! {

broadcast use vstd::string::group_string_axioms;

/// The schema version a proposal record carries.
pub const PROPOSAL_SCHEMA_VERSION: &'static str = "adoc.proposal.v0";

// ---- bindings ----

/// A revision in a named version-control system.
pub struct ExactRevision {
    pub system: String,
    pub value: String,
}

/// The change request a proposal belongs to.
pub struct ProposalChangeRequest {
    pub system: String,
    pub id: String,
}

/// What a proposal is bound to: the revisions it was made between, its
/// change request, and the digests of the assessments behind it.
pub struct ProposalBindings {
    pub base_revision: ExactRevision,
    pub head_revision: ExactRevision,
    pub change_request: ProposalChangeRequest,
    pub assessment_digest: String,
    pub semantic_context_digest: String,
    pub semantic_assessment_digest: String,
}

/// A bound text value: non-empty, without surrounding whitespace or
/// control characters.
pub open spec fn is_context_text(s: Seq<char>) -> bool {
    &&& !is_empty_or_padded(s)
    &&& forall|i: int| 0 <= i < s.len() ==> !is_control(#[trigger] s[i])
}

fn context_text(s: &str) -> (r: bool)
    ensures
        r == is_context_text(s@),
{
    if str_is_empty_or_padded(s) {
        return false;
    }
    let cs = chars_of(s);
    let mut i: usize = 0;
    while i < cs.len()
        invariant
            cs@ == s@,
            i <= cs@.len(),
            forall|j: int| 0 <= j < i ==> !is_control(#[trigger] cs@[j]),
        decreases cs.len() - i,
    {
        if char_is_control(cs[i]) {
            return false;
        }
        i = i + 1;
    }
    true
}

/// The first binding that is missing or invalid, by name.
pub open spec fn bindings_fault(b: ProposalBindings) -> Option<Seq<char>> {
    if !is_context_text(b.base_revision.system@) {
        Some("base_revision.system"@)
    } else if !is_context_text(b.base_revision.value@) {
        Some("base_revision.value"@)
    } else if !is_context_text(b.head_revision.system@) {
        Some("head_revision.system"@)
    } else if !is_context_text(b.head_revision.value@) {
        Some("head_revision.value"@)
    } else if !is_context_text(b.change_request.system@) {
        Some("change_request.system"@)
    } else if !is_context_text(b.change_request.id@) {
        Some("change_request.id"@)
    } else if !is_digest(b.assessment_digest@) {
        Some("assessment_digest"@)
    } else if !is_digest(b.semantic_context_digest@) {
        Some("semantic_context_digest"@)
    } else if !is_digest(b.semantic_assessment_digest@) {
        Some("semantic_assessment_digest"@)
    } else {
        None
    }
}

fn bindings_fault_of(b: &ProposalBindings) -> (r: Option<&'static str>)
    ensures
        match r {
            Some(f) => bindings_fault(*b) == Some(f@),
            None => bindings_fault(*b) is None,
        },
{
    if !context_text(b.base_revision.system.as_str()) {
        Some("base_revision.system")
    } else if !context_text(b.base_revision.value.as_str()) {
        Some("base_revision.value")
    } else if !context_text(b.head_revision.system.as_str()) {
        Some("head_revision.system")
    } else if !context_text(b.head_revision.value.as_str()) {
        Some("head_revision.value")
    } else if !context_text(b.change_request.system.as_str()) {
        Some("change_request.system")
    } else if !context_text(b.change_request.id.as_str()) {
        Some("change_request.id")
    } else if !is_sha256_digest(b.assessment_digest.as_str()) {
        Some("assessment_digest")
    } else if !is_sha256_digest(b.semantic_context_digest.as_str()) {
        Some("semantic_context_digest")
    } else if !is_sha256_digest(b.semantic_assessment_digest.as_str()) {
        Some("semantic_assessment_digest")
    } else {
        None
    }
}

// ---- errors ----

/// Why a proposal record cannot be made.
#[derive(Debug, PartialEq, Eq)]
pub enum ProposalRecordError {
    InvalidDocument { message: String },
    UnsupportedVersion { version: String },
    BindingInvalid { field: String },
    PatchInvalid { message: String },
    AuthorityRejected { target: String, reason: String },
    RevisionUnchanged { proposal_set_digest: String },
}

/// An error by its parts.
pub ghost enum ProposalErrorView {
    InvalidDocument(Seq<char>),
    UnsupportedVersion(Seq<char>),
    BindingInvalid(Seq<char>),
    PatchInvalid(Seq<char>),
    AuthorityRejected(Seq<char>, Seq<char>),
    RevisionUnchanged(Seq<char>),
}

impl View for ProposalRecordError {
    type V = ProposalErrorView;

    open spec fn view(&self) -> ProposalErrorView {
        match self {
            ProposalRecordError::InvalidDocument { message } => ProposalErrorView::InvalidDocument(message@),
            ProposalRecordError::UnsupportedVersion { version } => ProposalErrorView::UnsupportedVersion(version@),
            ProposalRecordError::BindingInvalid { field } => ProposalErrorView::BindingInvalid(field@),
            ProposalRecordError::PatchInvalid { message } => ProposalErrorView::PatchInvalid(message@),
            ProposalRecordError::AuthorityRejected { target, reason } => ProposalErrorView::AuthorityRejected(
                target@,
                reason@,
            ),
            ProposalRecordError::RevisionUnchanged { proposal_set_digest } => ProposalErrorView::RevisionUnchanged(
                proposal_set_digest@,
            ),
        }
    }
}

impl ProposalRecordError {
    /// The registered diagnostic code of the error.
    pub fn diagnostic_code(&self) -> (r: DiagnosticCode)
        ensures
            r == match self@ {
                ProposalErrorView::InvalidDocument(_) => DiagnosticCode::ProposalRecordInvalidDocument,
                ProposalErrorView::UnsupportedVersion(_) => DiagnosticCode::ProposalRecordInvalidDocument,
                ProposalErrorView::BindingInvalid(_) => DiagnosticCode::ProposalRecordBindingInvalid,
                ProposalErrorView::PatchInvalid(_) => DiagnosticCode::ProposalRecordPatchInvalid,
                ProposalErrorView::AuthorityRejected(_, _) => DiagnosticCode::ProposalRecordAuthorityRejected,
                ProposalErrorView::RevisionUnchanged(_) => DiagnosticCode::ProposalRecordRevisionUnchanged,
            },
    {
        match self {
            ProposalRecordError::InvalidDocument { .. } | ProposalRecordError::UnsupportedVersion { .. } => {
                DiagnosticCode::ProposalRecordInvalidDocument
            },
            ProposalRecordError::BindingInvalid { .. } => DiagnosticCode::ProposalRecordBindingInvalid,
            ProposalRecordError::PatchInvalid { .. } => DiagnosticCode::ProposalRecordPatchInvalid,
            ProposalRecordError::AuthorityRejected { .. } => DiagnosticCode::ProposalRecordAuthorityRejected,
            ProposalRecordError::RevisionUnchanged { .. } => DiagnosticCode::ProposalRecordRevisionUnchanged,
        }
    }

    /// The message shown for the error.
    pub fn to_display_string(&self) -> (r: String)
        ensures
            r@ == match self@ {
                ProposalErrorView::InvalidDocument(m) => "proposal record document is invalid: "@ + m,
                ProposalErrorView::UnsupportedVersion(v) => "unsupported proposal record version '"@ + v + "'"@,
                ProposalErrorView::BindingInvalid(f) => "proposal record binding '"@ + f + "' is missing or invalid"@,
                ProposalErrorView::PatchInvalid(m) => "proposal patch is invalid: "@ + m,
                ProposalErrorView::AuthorityRejected(t, reason) => "proposal patch for '"@ + t
                    + "' would mint authority: "@ + reason,
                ProposalErrorView::RevisionUnchanged(d) =>
                    "proposal revision changes no patch byte: it would supersede its own digest "@ + d,
            },
    {
        match self {
            ProposalRecordError::InvalidDocument { message } => owned("proposal record document is invalid: ").concat(
                message.as_str(),
            ),
            ProposalRecordError::UnsupportedVersion { version } => owned("unsupported proposal record version '").concat(
                version.as_str(),
            ).concat("'"),
            ProposalRecordError::BindingInvalid { field } => owned("proposal record binding '").concat(
                field.as_str(),
            ).concat("' is missing or invalid"),
            ProposalRecordError::PatchInvalid { message } => owned("proposal patch is invalid: ").concat(
                message.as_str(),
            ),
            ProposalRecordError::AuthorityRejected { target, reason } => owned("proposal patch for '").concat(
                target.as_str(),
            ).concat("' would mint authority: ").concat(reason.as_str()),
            ProposalRecordError::RevisionUnchanged { proposal_set_digest } => owned(
                "proposal revision changes no patch byte: it would supersede its own digest ",
            ).concat(proposal_set_digest.as_str()),
        }
    }
}

// ---- patches ----

/// One producer-supplied patch: its finding correlation, exact-head
/// placement, and the exact patch bytes.
pub struct ProposalPatchInput {
    pub finding_id: String,
    pub placement_path: String,
    pub page_id: String,
    pub patch_bytes: Vec<u8>,
}

/// A patch input whose bytes were parsed: the patch document they hold,
/// the bytes of that document re-serialized as sorted compact JSON with one
/// trailing newline, and the digest of the input bytes.
pub struct ParsedProposalPatch {
    pub input: ProposalPatchInput,
    pub document: PatchDocument,
    pub canonical_bytes: Vec<u8>,
    pub patch_digest: String,
}

/// One patch of a record.
pub struct ProposalPatch {
    finding_id: String,
    placement_path: String,
    page_id: String,
    target: String,
    operation: PatchOperation,
    patch_digest: String,
    patch_bytes: Vec<u8>,
}

/// A patch of a record by its parts: finding, placement path, page,
/// target, operation, digest, bytes.
pub type ProposalPatchView = (Seq<char>, Seq<char>, Seq<char>, Seq<char>, PatchOperation, Seq<char>, Seq<u8>);

impl ProposalPatch {
    pub closed spec fn parts(&self) -> ProposalPatchView {
        (
            self.finding_id@,
            self.placement_path@,
            self.page_id@,
            self.target@,
            self.operation,
            self.patch_digest@,
            self.patch_bytes@,
        )
    }

    pub fn finding_id(&self) -> (r: &str)
        ensures
            r@ == self.parts().0,
    {
        self.finding_id.as_str()
    }

    pub fn placement_path(&self) -> (r: &str)
        ensures
            r@ == self.parts().1,
    {
        self.placement_path.as_str()
    }

    pub fn page_id(&self) -> (r: &str)
        ensures
            r@ == self.parts().2,
    {
        self.page_id.as_str()
    }

    pub fn target(&self) -> (r: &str)
        ensures
            r@ == self.parts().3,
    {
        self.target.as_str()
    }

    pub fn operation(&self) -> (r: PatchOperation)
        ensures
            r == self.parts().4,
    {
        self.operation
    }

    pub fn patch_digest(&self) -> (r: &str)
        ensures
            r@ == self.parts().5,
    {
        self.patch_digest.as_str()
    }

    /// The exact patch bytes the digest covers.
    pub fn patch_bytes(&self) -> (r: Vec<u8>)
        ensures
            r@ == self.parts().6,
    {
        self.patch_bytes.clone()
    }
}

impl Keyed for ProposalPatch {
    open spec fn key(&self) -> Seq<Seq<char>> {
        seq![self.parts().5]
    }

    fn key_less(&self, other: &Self) -> (r: bool) {
        proof {
            lemma_one_component(self.patch_digest@, other.patch_digest@);
        }
        str_lt(self.patch_digest.as_str(), other.patch_digest.as_str())
    }
}

/// The record's patch made from a parsed input.
pub open spec fn assembled(p: ParsedProposalPatch) -> ProposalPatchView {
    (
        p.input.finding_id@,
        p.input.placement_path@,
        p.input.page_id@,
        p.document.target@,
        p.document.intent.op(),
        p.patch_digest@,
        p.input.patch_bytes@,
    )
}

// ---- authority floors ----

/// The kind and status pairs a proposal may create.
pub open spec fn is_create_floor(kind: Seq<char>, status: Seq<char>) -> bool {
    ||| kind == "claim"@ && status == "draft"@
    ||| kind == "decision"@ && status == "proposed"@
    ||| kind == "api"@ && status == "draft"@
    ||| kind == "task"@ && status == "open"@
}

/// The lifecycles an edit may leave an object at.
pub open spec fn is_reviewable_status(s: Seq<char>) -> bool {
    s == "draft"@ || s == "proposed"@ || s == "open"@
}

/// The first field, in the fixed order, that mints authority.
pub open spec fn authority_field(fields: crate::graph::FieldMap) -> Option<Seq<char>> {
    if fields.spec_get("verified_at"@) is Some {
        Some("verified_at"@)
    } else if fields.spec_get("reviewed_by"@) is Some {
        Some("reviewed_by"@)
    } else if fields.spec_get("approved_by"@) is Some {
        Some("approved_by"@)
    } else if fields.spec_get("decided_by"@) is Some {
        Some("decided_by"@)
    } else if fields.spec_get("resolved_by"@) is Some {
        Some("resolved_by"@)
    } else {
        None
    }
}

pub open spec fn authority_reason(field: Seq<char>) -> Seq<char> {
    "field '"@ + field + "' carries authority"@
}

/// Why a patch would mint authority, if it would.
pub open spec fn floors_fault(intent: PatchIntent) -> Option<Seq<char>> {
    match intent {
        PatchIntent::CreateObject { kind, status, fields, .. } => {
            let s = match status {
                Some(x) => x@,
                None => Seq::<char>::empty(),
            };
            if !is_create_floor(kind@, s) {
                Some("create_object "@ + kind@ + "/"@ + s + " is outside the create-only floors"@)
            } else {
                match authority_field(fields) {
                    Some(f) => Some(authority_reason(f)),
                    None => None,
                }
            }
        },
        PatchIntent::UpdateFields { fields, .. } => {
            if fields.spec_get("status"@) matches Some(s) && !is_reviewable_status(s) {
                Some("update_fields status '"@ + fields.spec_get("status"@)->0 + "' is not a reviewable lifecycle"@)
            } else {
                match authority_field(fields) {
                    Some(f) => Some(authority_reason(f)),
                    None => None,
                }
            }
        },
        PatchIntent::ReplaceBody { .. } => None,
        PatchIntent::Supersede { .. } => Some("operation "@ + PatchOperation::Supersede.wire() + " changes governance state"@),
        PatchIntent::Revoke { .. } => Some("operation "@ + PatchOperation::Revoke.wire() + " changes governance state"@),
    }
}

fn authority_field_of(fields: &crate::graph::FieldMap) -> (r: Option<&'static str>)
    ensures
        match r {
            Some(f) => authority_field(*fields) == Some(f@),
            None => authority_field(*fields) is None,
        },
{
    if fields.get("verified_at").is_some() {
        Some("verified_at")
    } else if fields.get("reviewed_by").is_some() {
        Some("reviewed_by")
    } else if fields.get("approved_by").is_some() {
        Some("approved_by")
    } else if fields.get("decided_by").is_some() {
        Some("decided_by")
    } else if fields.get("resolved_by").is_some() {
        Some("resolved_by")
    } else {
        None
    }
}

fn enforce_floors(intent: &PatchIntent) -> (r: Option<String>)
    ensures
        opt_view(r) == floors_fault(*intent),
{
    match intent {
        PatchIntent::CreateObject { kind, status, fields, .. } => {
            let s: &str = match status {
                Some(x) => x.as_str(),
                None => "",
            };
            proof {
                reveal_strlit("");
                assert(""@ =~= Seq::<char>::empty());
                assert(s@ == match status {
                    Some(x) => x@,
                    None => Seq::<char>::empty(),
                });
            }
            let floor = (str_eq(kind.as_str(), "claim") && str_eq(s, "draft")) || (str_eq(kind.as_str(), "decision")
                && str_eq(s, "proposed")) || (str_eq(kind.as_str(), "api") && str_eq(s, "draft")) || (str_eq(
                kind.as_str(),
                "task",
            ) && str_eq(s, "open"));
            if !floor {
                return Some(owned("create_object ").concat(kind.as_str()).concat("/").concat(s).concat(
                    " is outside the create-only floors",
                ));
            }
            match authority_field_of(fields) {
                Some(f) => Some(owned("field '").concat(f).concat("' carries authority")),
                None => None,
            }
        },
        PatchIntent::UpdateFields { fields, .. } => {
            if let Some(s) = fields.get("status") {
                if !(str_eq(s.as_str(), "draft") || str_eq(s.as_str(), "proposed") || str_eq(s.as_str(), "open")) {
                    return Some(owned("update_fields status '").concat(s.as_str()).concat(
                        "' is not a reviewable lifecycle",
                    ));
                }
            }
            match authority_field_of(fields) {
                Some(f) => Some(owned("field '").concat(f).concat("' carries authority")),
                None => None,
            }
        },
        PatchIntent::ReplaceBody { .. } => None,
        PatchIntent::Supersede { .. } => Some(
            owned("operation ").concat(PatchOperation::Supersede.as_str()).concat(" changes governance state"),
        ),
        PatchIntent::Revoke { .. } => Some(
            owned("operation ").concat(PatchOperation::Revoke.as_str()).concat(" changes governance state"),
        ),
    }
}

// ---- per-patch checks ----

/// What is wrong with one patch on its own, if anything.
pub open spec fn input_fault(p: ParsedProposalPatch) -> Option<ProposalErrorView> {
    let t = p.document.target@;
    if !is_context_text(p.input.finding_id@) {
        Some(ProposalErrorView::PatchInvalid("patch finding_id is missing or invalid"@))
    } else if !is_context_text(p.input.placement_path@) {
        Some(ProposalErrorView::PatchInvalid("patch placement_path is missing or invalid"@))
    } else if !is_context_text(p.input.page_id@) {
        Some(ProposalErrorView::PatchInvalid("patch page_id is missing or invalid"@))
    } else if p.canonical_bytes@ != p.input.patch_bytes@ {
        Some(
            ProposalErrorView::PatchInvalid(
                "patch bytes for '"@ + t + "' are not sorted compact JSON with one trailing newline"@,
            ),
        )
    } else {
        match floors_fault(p.document.intent) {
            Some(reason) => Some(ProposalErrorView::AuthorityRejected(t, reason)),
            None => None,
        }
    }
}

/// An edit of an existing object that binds a content-hash slot: one
/// `update_fields` and one `replace_body` per object.
pub open spec fn is_slot_edit(op: PatchOperation) -> bool {
    op == PatchOperation::UpdateFields || op == PatchOperation::ReplaceBody
}

/// Patch `j` edits the same slot of the same object as patch `i`.
pub open spec fn same_slot(ps: Seq<ParsedProposalPatch>, j: int, i: int) -> bool {
    &&& ps[j].document.target@ == ps[i].document.target@
    &&& ps[j].document.intent.op() == ps[i].document.intent.op()
}

/// What is wrong with patch `i` in the sequence of edits of its object.
pub open spec fn sequence_fault(ps: Seq<ParsedProposalPatch>, i: int) -> Option<ProposalErrorView> {
    let d = ps[i].document;
    let t = d.target@;
    match d.intent.spec_base_hash() {
        None => None,
        Some(h) => if !is_digest(h) {
            Some(ProposalErrorView::PatchInvalid("patch base_hash for '"@ + t + "' is not a sha256 digest"@))
        } else if is_slot_edit(d.intent.op()) && exists|j: int| 0 <= j < i && #[trigger] same_slot(ps, j, i) {
            Some(
                ProposalErrorView::PatchInvalid(
                    "more than one "@ + d.intent.op().wire() + " patch for '"@ + t + "' in one proposal set"@,
                ),
            )
        } else {
            None
        },
    }
}

pub open spec fn patch_fault(ps: Seq<ParsedProposalPatch>, i: int) -> Option<ProposalErrorView> {
    match input_fault(ps[i]) {
        Some(e) => Some(e),
        None => sequence_fault(ps, i),
    }
}

/// Patch `i` is the first patch with a fault.
pub open spec fn first_patch_fault_at(ps: Seq<ParsedProposalPatch>, i: int) -> bool {
    &&& 0 <= i < ps.len()
    &&& patch_fault(ps, i) is Some
    &&& forall|j: int| 0 <= j < i ==> (#[trigger] patch_fault(ps, j)) is None
}

// ---- content bindings ----

/// The objects the patches edit.
pub open spec fn edited_targets(ps: Seq<ParsedProposalPatch>) -> Set<Seq<char>> {
    Set::new(
        |t: Seq<char>|
            exists|i: int| 0 <= i < ps.len() && #[trigger] ps[i].document.target@ == t && ps[i].document.intent.spec_base_hash() is Some,
    )
}

/// Patch `i` edits slot `op` of object `t`.
pub open spec fn edits_slot(ps: Seq<ParsedProposalPatch>, t: Seq<char>, op: PatchOperation, i: int) -> bool {
    0 <= i < ps.len() && ps[i].document.target@ == t && ps[i].document.intent.op() == op
}

/// The content hash bound in slot `op` of object `t`.
pub open spec fn slot_hash(ps: Seq<ParsedProposalPatch>, t: Seq<char>, op: PatchOperation) -> Option<Seq<char>> {
    if exists|i: int| #[trigger] edits_slot(ps, t, op, i) {
        ps[choose|i: int| #[trigger] edits_slot(ps, t, op, i)].document.intent.spec_base_hash()
    } else {
        None
    }
}

/// The change sets the object's status field.
pub open spec fn intent_sets_status(intent: PatchIntent) -> bool {
    match intent {
        PatchIntent::UpdateFields { fields, .. } => fields.spec_get("status"@) is Some,
        _ => false,
    }
}

/// Some edit of `t` sets its status.
pub open spec fn sets_status(ps: Seq<ParsedProposalPatch>, t: Seq<char>) -> bool {
    exists|i: int| #[trigger] edits_slot(ps, t, PatchOperation::UpdateFields, i) && intent_sets_status(ps[i].document.intent)
}

/// The content hash a record binds for object `t`: the one its first edit
/// carries.
pub open spec fn head_hash(ps: Seq<ParsedProposalPatch>, t: Seq<char>) -> Result<Seq<char>, ProposalErrorView> {
    let fields = slot_hash(ps, t, PatchOperation::UpdateFields);
    let body = slot_hash(ps, t, PatchOperation::ReplaceBody);
    if !sets_status(ps, t) {
        Err(
            ProposalErrorView::AuthorityRejected(
                t,
                "an existing-object edit must set a reviewable status in update_fields"@,
            ),
        )
    } else if fields is Some && body is Some && fields == body {
        Err(
            ProposalErrorView::PatchInvalid(
                "replace_body for '"@ + t
                    + "' must bind the content hash re-derived after update_fields, not the same base_hash"@,
            ),
        )
    } else if fields is Some {
        Ok(fields->0)
    } else if body is Some {
        Ok(body->0)
    } else {
        Err(ProposalErrorView::PatchInvalid("no content hash bound for '"@ + t + "'"@))
    }
}

/// The edited objects in increasing order.
pub open spec fn binding_targets(ps: Seq<ParsedProposalPatch>) -> Seq<Seq<char>> {
    sorted_elems(edited_targets(ps))
}

/// The `k`-th edited object is the first whose content hash cannot be
/// bound.
pub open spec fn first_binding_fault_at(ps: Seq<ParsedProposalPatch>, k: int) -> bool {
    let ts = binding_targets(ps);
    &&& 0 <= k < ts.len()
    &&& head_hash(ps, ts[k]) is Err
    &&& forall|m: int| 0 <= m < k ==> (#[trigger] head_hash(ps, ts[m])) is Ok
}

/// Two patches carry the same bytes digest.
pub open spec fn has_duplicate_digest(ps: Seq<ParsedProposalPatch>) -> bool {
    exists|i: int, j: int| 0 <= i < j < ps.len() && #[trigger] ps[i].patch_digest@ == #[trigger] ps[j].patch_digest@
}

/// The first rule the inputs break, in the order they are checked.
pub open spec fn prepare_fault(
    bindings: ProposalBindings,
    ps: Seq<ParsedProposalPatch>,
) -> Option<ProposalErrorView> {
    if bindings_fault(bindings) is Some {
        Some(ProposalErrorView::BindingInvalid(bindings_fault(bindings)->0))
    } else if ps.len() == 0 {
        Some(ProposalErrorView::PatchInvalid("a proposal record needs at least one patch"@))
    } else if exists|i: int| first_patch_fault_at(ps, i) {
        patch_fault(ps, choose|i: int| first_patch_fault_at(ps, i))
    } else if exists|k: int| first_binding_fault_at(ps, k) {
        Some(head_hash(ps, binding_targets(ps)[choose|k: int| first_binding_fault_at(ps, k)])->Err_0)
    } else if has_duplicate_digest(ps) {
        Some(ProposalErrorView::PatchInvalid("duplicate patch bytes in one proposal set"@))
    } else {
        None
    }
}

// ---- the set digest's input ----

/// A string serde_json writes without escapes: printable ASCII other than
/// `"` and `\`.
pub open spec fn is_plain_json_text(s: Seq<char>) -> bool {
    forall|i: int| 0 <= i < s.len() ==> 0x20 <= (#[trigger] s[i]) as u32 && (s[i] as u32) < 0x7f && s[i] != '"' && s[i]
        != '\\'
}

pub open spec fn json_quoted(s: Seq<char>) -> Seq<u8> {
    seq![0x22u8] + s.map_values(|c: char| c as u8) + seq![0x22u8]
}

pub open spec fn json_items(items: Seq<Seq<char>>) -> Seq<u8>
    decreases items.len(),
{
    if items.len() == 0 {
        seq![]
    } else if items.len() == 1 {
        json_quoted(items[0])
    } else {
        json_items(items.drop_last()) + seq![0x2cu8] + json_quoted(items.last())
    }
}

/// The compact JSON array of the strings.
pub open spec fn json_string_list(items: Seq<Seq<char>>) -> Seq<u8> {
    seq![0x5bu8] + json_items(items) + seq![0x5du8]
}

/// `serde_json::to_vec` on a list of strings. Its compact formatter writes
/// `[`, the items separated by `,`, and `]`, each string quoted and with
/// only `"`, `\` and control characters escaped; writing into a `Vec`
/// cannot fail. The contract states the bytes for strings that need no
/// escape.
#[verifier::external_body]
fn json_string_array(items: &Vec<String>) -> (r: Result<Vec<u8>, String>)
    requires
        forall|i: int| 0 <= i < items@.len() ==> is_plain_json_text(#[trigger] items@[i]@),
    ensures
        r is Ok,
        r->Ok_0@ == json_string_list(strs_view(items@)),
{
    match serde_json::to_vec(items) {
        Ok(bytes) => Ok(bytes),
        Err(error) => Err(error.to_string()),
    }
}

proof fn lemma_digest_is_plain(s: Seq<char>)
    requires
        is_digest(s),
    ensures
        is_plain_json_text(s),
{
    reveal_strlit("sha256:");
    assert forall|i: int| 0 <= i < s.len() implies 0x20 <= (#[trigger] s[i]) as u32 && (s[i] as u32) < 0x7f && s[i]
        != '"' && s[i] != '\\' by {
        if i < 7 {
            assert(s[i] == s.subrange(0, 7)[i]);
        }
    }
}

// ---- records ----

/// A content binding: an edited object and the content hash its first
/// edit carries.
pub struct ContentBinding {
    object_id: String,
    content_hash: String,
}

impl ContentBinding {
    pub closed spec fn parts(&self) -> (Seq<char>, Seq<char>) {
        (self.object_id@, self.content_hash@)
    }

    pub fn object_id(&self) -> (r: &str)
        ensures
            r@ == self.parts().0,
    {
        self.object_id.as_str()
    }

    pub fn content_hash(&self) -> (r: &str)
        ensures
            r@ == self.parts().1,
    {
        self.content_hash.as_str()
    }
}

/// A proposal whose inputs passed every check, waiting for the digest of
/// its patch set.
pub struct PreparedProposal {
    bindings: ProposalBindings,
    content_bindings: Vec<ContentBinding>,
    patches: Vec<ProposalPatch>,
    supersedes: Option<String>,
    digest_input: Vec<u8>,
}

/// A canonical proposal record.
pub struct ProposalRecord {
    schema_version: String,
    proposal_set_digest: String,
    supersedes: Option<String>,
    bindings: ProposalBindings,
    content_bindings: Vec<ContentBinding>,
    patches: Vec<ProposalPatch>,
}

pub open spec fn bindings_view(v: Seq<ContentBinding>) -> Seq<(Seq<char>, Seq<char>)> {
    v.map_values(|c: ContentBinding| c.parts())
}

pub open spec fn patches_view(v: Seq<ProposalPatch>) -> Seq<ProposalPatchView> {
    v.map_values(|p: ProposalPatch| p.parts())
}

/// The content bindings of fault-free inputs, by object in increasing
/// order.
pub open spec fn expected_bindings(ps: Seq<ParsedProposalPatch>) -> Seq<(Seq<char>, Seq<char>)> {
    binding_targets(ps).map_values(|t: Seq<char>| (t, head_hash(ps, t)->Ok_0))
}

/// `out` lists the patches made from `ps`, ordered by strictly increasing
/// digest.
pub open spec fn sorted_by_digest(out: Seq<ProposalPatchView>, ps: Seq<ParsedProposalPatch>) -> bool {
    &&& out.len() == ps.len()
    &&& forall|a: int, b: int| 0 <= a < b < out.len() ==> crate::text::seq_lt(#[trigger] out[a].5, #[trigger] out[b].5)
    &&& forall|i: int| 0 <= i < ps.len() ==> out.contains(#[trigger] assembled(ps[i]))
    &&& forall|k: int| 0 <= k < out.len() ==> made_from(ps, #[trigger] out[k])
}

/// `x` is the record patch made from one of `ps`.
pub open spec fn made_from(ps: Seq<ParsedProposalPatch>, x: ProposalPatchView) -> bool {
    exists|i: int| 0 <= i < ps.len() && #[trigger] assembled(ps[i]) == x
}

impl PreparedProposal {
    pub closed spec fn spec_digest_input(&self) -> Seq<u8> {
        self.digest_input@
    }

    pub closed spec fn spec_patches(&self) -> Seq<ProposalPatchView> {
        patches_view(self.patches@)
    }

    pub closed spec fn spec_bindings(&self) -> Seq<(Seq<char>, Seq<char>)> {
        bindings_view(self.content_bindings@)
    }

    pub closed spec fn spec_supersedes(&self) -> Option<Seq<char>> {
        opt_view(self.supersedes)
    }

    /// The bytes the proposal-set digest covers: the compact JSON array of
    /// the patch digests in order, and one newline.
    pub fn digest_input(&self) -> (r: &Vec<u8>)
        ensures
            r@ == self.spec_digest_input(),
    {
        &self.digest_input
    }
}

// ---- assembly ----

fn error_patch_invalid(message: String) -> (r: ProposalRecordError)
    ensures
        r@ == ProposalErrorView::PatchInvalid(message@),
{
    ProposalRecordError::PatchInvalid { message }
}

fn input_fault_of(p: &ParsedProposalPatch) -> (r: Option<ProposalRecordError>)
    ensures
        match r {
            Some(e) => input_fault(*p) == Some(e@),
            None => input_fault(*p) is None,
        },
{
    if !context_text(p.input.finding_id.as_str()) {
        return Some(error_patch_invalid(owned("patch finding_id is missing or invalid")));
    }
    if !context_text(p.input.placement_path.as_str()) {
        return Some(error_patch_invalid(owned("patch placement_path is missing or invalid")));
    }
    if !context_text(p.input.page_id.as_str()) {
        return Some(error_patch_invalid(owned("patch page_id is missing or invalid")));
    }
    if !bytes_equal(&p.canonical_bytes, &p.input.patch_bytes) {
        return Some(
            error_patch_invalid(
                owned("patch bytes for '").concat(p.document.target.as_str()).concat(
                    "' are not sorted compact JSON with one trailing newline",
                ),
            ),
        );
    }
    match enforce_floors(&p.document.intent) {
        Some(reason) => Some(ProposalRecordError::AuthorityRejected { target: p.document.target.clone(), reason }),
        None => None,
    }
}

fn bytes_equal(a: &Vec<u8>, b: &Vec<u8>) -> (r: bool)
    ensures
        r == (a@ == b@),
{
    if a.len() != b.len() {
        return false;
    }
    let mut i: usize = 0;
    while i < a.len()
        invariant
            a@.len() == b@.len(),
            i <= a@.len(),
            forall|j: int| 0 <= j < i ==> a@[j] == b@[j],
        decreases a.len() - i,
    {
        if a[i] != b[i] {
            return false;
        }
        i = i + 1;
    }
    proof {
        assert(a@ =~= b@);
    }
    true
}

fn is_slot_op(op: PatchOperation) -> (r: bool)
    ensures
        r == is_slot_edit(op),
{
    op == PatchOperation::UpdateFields || op == PatchOperation::ReplaceBody
}

fn sequence_fault_of(ps: &Vec<ParsedProposalPatch>, i: usize) -> (r: Option<ProposalRecordError>)
    requires
        i < ps@.len(),
    ensures
        match r {
            Some(e) => sequence_fault(ps@, i as int) == Some(e@),
            None => sequence_fault(ps@, i as int) is None,
        },
{
    let d = &ps[i].document;
    let h = match d.intent.base_hash() {
        None => return None,
        Some(h) => h,
    };
    if !is_sha256_digest(h.as_str()) {
        return Some(
            error_patch_invalid(
                owned("patch base_hash for '").concat(d.target.as_str()).concat("' is not a sha256 digest"),
            ),
        );
    }
    let op = d.intent.operation();
    if !is_slot_op(op) {
        return None;
    }
    let mut j: usize = 0;
    while j < i
        invariant
            j <= i,
            i < ps@.len(),
            *d == ps@[i as int].document,
            op == d.intent.op(),
            is_slot_edit(op),
            d.intent.spec_base_hash() == Some(h@),
            is_digest(h@),
            forall|k: int| 0 <= k < j ==> !(#[trigger] same_slot(ps@, k, i as int)),
        decreases i - j,
    {
        if str_eq(ps[j].document.target.as_str(), d.target.as_str()) && ps[j].document.intent.operation() == op {
            proof {
                assert(same_slot(ps@, j as int, i as int));
            }
            return Some(
                error_patch_invalid(
                    owned("more than one ").concat(op.as_str()).concat(" patch for '").concat(
                        d.target.as_str(),
                    ).concat("' in one proposal set"),
                ),
            );
        }
        j = j + 1;
    }
    None
}

proof fn lemma_first_patch_fault_unique(ps: Seq<ParsedProposalPatch>, i: int, j: int)
    requires
        first_patch_fault_at(ps, i),
        first_patch_fault_at(ps, j),
    ensures
        i == j,
{
    if i < j {
        assert(patch_fault(ps, i) is None);
    } else if j < i {
        assert(patch_fault(ps, j) is None);
    }
}

/// Without faults, each slot of each object is edited at most once.
proof fn lemma_slot_unique(ps: Seq<ParsedProposalPatch>, t: Seq<char>, op: PatchOperation, i: int, j: int)
    requires
        forall|k: int| 0 <= k < ps.len() ==> (#[trigger] patch_fault(ps, k)) is None,
        is_slot_edit(op),
        edits_slot(ps, t, op, i),
        edits_slot(ps, t, op, j),
    ensures
        i == j,
{
    if i < j {
        assert(same_slot(ps, i, j));
        assert(patch_fault(ps, j) is None);
        assert(input_fault(ps[j]) is None);
        assert(ps[j].document.intent.spec_base_hash() is Some);
    } else if j < i {
        assert(same_slot(ps, j, i));
        assert(patch_fault(ps, i) is None);
        assert(input_fault(ps[i]) is None);
        assert(ps[i].document.intent.spec_base_hash() is Some);
    }
}

/// The content hash bound for object `t`.
fn head_hash_of(ps: &Vec<ParsedProposalPatch>, t: &str) -> (r: Result<String, ProposalRecordError>)
    requires
        forall|k: int| 0 <= k < ps@.len() ==> (#[trigger] patch_fault(ps@, k)) is None,
    ensures
        match r {
            Ok(h) => head_hash(ps@, t@) == Ok::<Seq<char>, ProposalErrorView>(h@),
            Err(e) => head_hash(ps@, t@) == Err::<Seq<char>, ProposalErrorView>(e@),
        },
{
    let mut fields: Option<&String> = None;
    let mut body: Option<&String> = None;
    let mut status = false;
    let mut i: usize = 0;
    while i < ps.len()
        invariant
            i <= ps@.len(),
            forall|k: int| 0 <= k < ps@.len() ==> (#[trigger] patch_fault(ps@, k)) is None,
            match fields {
                Some(h) => exists|k: int|
                    0 <= k < i && #[trigger] edits_slot(ps@, t@, PatchOperation::UpdateFields, k)
                        && ps@[k].document.intent.spec_base_hash() == Some(h@),
                None => forall|k: int| 0 <= k < i ==> !#[trigger] edits_slot(ps@, t@, PatchOperation::UpdateFields, k),
            },
            match body {
                Some(h) => exists|k: int|
                    0 <= k < i && #[trigger] edits_slot(ps@, t@, PatchOperation::ReplaceBody, k)
                        && ps@[k].document.intent.spec_base_hash() == Some(h@),
                None => forall|k: int| 0 <= k < i ==> !#[trigger] edits_slot(ps@, t@, PatchOperation::ReplaceBody, k),
            },
            status == exists|k: int|
                0 <= k < i && #[trigger] edits_slot(ps@, t@, PatchOperation::UpdateFields, k) && intent_sets_status(
                    ps@[k].document.intent,
                ),
        decreases ps.len() - i,
    {
        let d = &ps[i].document;
        if str_eq(d.target.as_str(), t) {
            match &d.intent {
                PatchIntent::UpdateFields { base_hash, fields: fs } => {
                    fields = Some(base_hash);
                    if fs.get("status").is_some() {
                        status = true;
                    }
                    proof {
                        assert(edits_slot(ps@, t@, PatchOperation::UpdateFields, i as int));
                    }
                },
                PatchIntent::ReplaceBody { base_hash, .. } => {
                    body = Some(base_hash);
                    proof {
                        assert(edits_slot(ps@, t@, PatchOperation::ReplaceBody, i as int));
                    }
                },
                _ => {},
            }
        }
        proof {
            assert forall|k: int| 0 <= k < i + 1 && #[trigger] edits_slot(ps@, t@, PatchOperation::UpdateFields, k) implies (
            k < i || ps@[i as int].document.intent is UpdateFields) by {}
        }
        i = i + 1;
    }
    let ghost fv = slot_hash(ps@, t@, PatchOperation::UpdateFields);
    let ghost bv = slot_hash(ps@, t@, PatchOperation::ReplaceBody);
    proof {
        match fields {
            Some(h) => {
                let k = choose|k: int|
                    0 <= k < ps@.len() && #[trigger] edits_slot(ps@, t@, PatchOperation::UpdateFields, k)
                        && ps@[k].document.intent.spec_base_hash() == Some(h@);
                let c = choose|c: int| #[trigger] edits_slot(ps@, t@, PatchOperation::UpdateFields, c);
                lemma_slot_unique(ps@, t@, PatchOperation::UpdateFields, k, c);
                assert(fv == Some(h@));
            },
            None => {
                assert(!exists|c: int| #[trigger] edits_slot(ps@, t@, PatchOperation::UpdateFields, c));
            },
        }
        match body {
            Some(h) => {
                let k = choose|k: int|
                    0 <= k < ps@.len() && #[trigger] edits_slot(ps@, t@, PatchOperation::ReplaceBody, k)
                        && ps@[k].document.intent.spec_base_hash() == Some(h@);
                let c = choose|c: int| #[trigger] edits_slot(ps@, t@, PatchOperation::ReplaceBody, c);
                lemma_slot_unique(ps@, t@, PatchOperation::ReplaceBody, k, c);
                assert(bv == Some(h@));
            },
            None => {
                assert(!exists|c: int| #[trigger] edits_slot(ps@, t@, PatchOperation::ReplaceBody, c));
            },
        }
    }
    if !status {
        return Err(
            ProposalRecordError::AuthorityRejected {
                target: owned(t),
                reason: owned("an existing-object edit must set a reviewable status in update_fields"),
            },
        );
    }
    match (fields, body) {
        (Some(a), Some(b)) => {
            if str_eq(a.as_str(), b.as_str()) {
                Err(
                    error_patch_invalid(
                        owned("replace_body for '").concat(t).concat(
                            "' must bind the content hash re-derived after update_fields, not the same base_hash",
                        ),
                    ),
                )
            } else {
                Ok(a.clone())
            }
        },
        (Some(a), None) => Ok(a.clone()),
        (None, Some(b)) => Ok(b.clone()),
        (None, None) => Err(error_patch_invalid(owned("no content hash bound for '").concat(t).concat("'"))),
    }
}

fn assemble_patch(p: &ParsedProposalPatch) -> (r: ProposalPatch)
    ensures
        r.parts() == assembled(*p),
{
    ProposalPatch {
        finding_id: p.input.finding_id.clone(),
        placement_path: p.input.placement_path.clone(),
        page_id: p.input.page_id.clone(),
        target: p.document.target.clone(),
        operation: p.document.intent.operation(),
        patch_digest: p.patch_digest.clone(),
        patch_bytes: p.input.patch_bytes.clone(),
    }
}

/// `x` is the record patch made from one of the first `n` of `ps`.
pub open spec fn made_from_first(ps: Seq<ParsedProposalPatch>, n: int, x: ProposalPatchView) -> bool {
    exists|i: int| 0 <= i < n && #[trigger] assembled(ps[i]) == x
}

/// The digest list's bytes: the patch digests in record order.
pub open spec fn digests_of(v: Seq<ProposalPatchView>) -> Seq<Seq<char>> {
    v.map_values(|x: ProposalPatchView| x.5)
}

impl ProposalRecord {
    /// Check a proposal's bindings and patches and lay out its record:
    /// content bindings for every edited object in increasing order, and
    /// the patches in increasing digest order. Each patch's digest is the
    /// digest of its bytes, computed by the caller.
    pub fn prepare(
        bindings: ProposalBindings,
        patches: Vec<ParsedProposalPatch>,
        supersedes: Option<String>,
    ) -> (r: Result<PreparedProposal, ProposalRecordError>)
        requires
            forall|i: int| 0 <= i < patches@.len() ==> is_digest(#[trigger] patches@[i].patch_digest@),
        ensures
            r is Err <==> prepare_fault(bindings, patches@) is Some,
            r matches Err(e) ==> prepare_fault(bindings, patches@) == Some(e@),
            r matches Ok(p) ==> {
                &&& sorted_by_digest(p.spec_patches(), patches@)
                &&& p.spec_bindings() == expected_bindings(patches@)
                &&& p.spec_supersedes() == opt_view(supersedes)
                &&& p.spec_record_bindings() == bindings
                &&& p.spec_digest_input() == json_string_list(digests_of(p.spec_patches())) + seq![0x0au8]
            },
    {
        let ghost ps = patches@;
        if let Some(field) = bindings_fault_of(&bindings) {
            return Err(ProposalRecordError::BindingInvalid { field: owned(field) });
        }
        if patches.len() == 0 {
            return Err(error_patch_invalid(owned("a proposal record needs at least one patch")));
        }
        // each patch on its own and in the sequence of edits of its object
        let mut i: usize = 0;
        while i < patches.len()
            invariant
                ps == patches@,
                bindings_fault(bindings) is None,
                ps.len() > 0,
                i <= ps.len(),
                forall|j: int| 0 <= j < i ==> (#[trigger] patch_fault(ps, j)) is None,
            decreases patches.len() - i,
        {
            let fault = match input_fault_of(&patches[i]) {
                Some(e) => Some(e),
                None => sequence_fault_of(&patches, i),
            };
            if let Some(e) = fault {
                proof {
                    assert(first_patch_fault_at(ps, i as int));
                    let c = choose|c: int| first_patch_fault_at(ps, c);
                    lemma_first_patch_fault_unique(ps, i as int, c);
                }
                return Err(e);
            }
            i = i + 1;
        }
        proof {
            assert(!exists|c: int| first_patch_fault_at(ps, c));
        }
        // the edited objects in increasing order
        let mut targets: Vec<String> = Vec::new();
        let mut k: usize = 0;
        while k < patches.len()
            invariant
                ps == patches@,
                k <= ps.len(),
                sorted_by_key(targets@),
                forall|t: Seq<char>|
                    #[trigger] strs_view(targets@).contains(t) <==> exists|j: int|
                        0 <= j < k && #[trigger] ps[j].document.target@ == t && ps[j].document.intent.spec_base_hash() is Some,
            decreases patches.len() - k,
        {
            let d = &patches[k].document;
            let ghost before = strs_view(targets@);
            if d.intent.base_hash().is_some() {
                insert_str(&mut targets, d.target.clone());
            }
            proof {
                assert forall|t: Seq<char>|
                    #[trigger] strs_view(targets@).contains(t) <==> exists|j: int|
                        0 <= j < k + 1 && #[trigger] ps[j].document.target@ == t && ps[j].document.intent.spec_base_hash() is Some by {
                    if exists|j: int|
                        0 <= j < k + 1 && #[trigger] ps[j].document.target@ == t && ps[j].document.intent.spec_base_hash() is Some {
                        let j = choose|j: int|
                            0 <= j < k + 1 && #[trigger] ps[j].document.target@ == t && ps[j].document.intent.spec_base_hash() is Some;
                        if j < k {
                            assert(before.contains(t));
                        }
                    }
                    if before.contains(t) {
                        let j = choose|j: int|
                            0 <= j < k && #[trigger] ps[j].document.target@ == t && ps[j].document.intent.spec_base_hash() is Some;
                        assert(0 <= j < k + 1);
                    }
                }
            }
            k = k + 1;
        }
        let ghost tv = strs_view(targets@);
        proof {
            lemma_sorted_strings(targets@);
            assert forall|t: Seq<char>| #[trigger] tv.contains(t) <==> edited_targets(ps).contains(t) by {}
            assert(lists_sorted(tv, edited_targets(ps)));
            lemma_lists_sorted_unique(tv, binding_targets(ps), edited_targets(ps));
        }
        // the content hash of each edited object
        let mut content_bindings: Vec<ContentBinding> = Vec::new();
        let mut m: usize = 0;
        while m < targets.len()
            invariant
                ps == patches@,
                bindings_fault(bindings) is None,
                ps.len() > 0,
                !exists|c: int| first_patch_fault_at(ps, c),
                tv == strs_view(targets@),
                tv == binding_targets(ps),
                m <= tv.len(),
                forall|j: int| 0 <= j < ps.len() ==> (#[trigger] patch_fault(ps, j)) is None,
                forall|j: int| 0 <= j < m ==> (#[trigger] head_hash(ps, tv[j])) is Ok,
                bindings_view(content_bindings@) == tv.take(m as int).map_values(
                    |t: Seq<char>| (t, head_hash(ps, t)->Ok_0),
                ),
            decreases targets.len() - m,
        {
            let t = targets[m].as_str();
            proof {
                assert(t@ == tv[m as int]);
            }
            match head_hash_of(&patches, t) {
                Err(e) => {
                    proof {
                        assert(first_binding_fault_at(ps, m as int));
                        let c = choose|c: int| first_binding_fault_at(ps, c);
                        if c < m {
                            assert(head_hash(ps, tv[c]) is Ok);
                        } else if m < c {
                            assert(head_hash(ps, tv[m as int]) is Ok);
                        }
                    }
                    return Err(e);
                },
                Ok(h) => {
                    let ghost before = content_bindings@;
                    content_bindings.push(ContentBinding { object_id: owned(t), content_hash: h });
                    proof {
                        assert(tv.take(m + 1) =~= tv.take(m as int).push(tv[m as int]));
                        assert(bindings_view(content_bindings@) =~= bindings_view(before).push(
                            (tv[m as int], head_hash(ps, tv[m as int])->Ok_0),
                        ));
                        assert(tv.take(m + 1).map_values(|t: Seq<char>| (t, head_hash(ps, t)->Ok_0))
                            =~= tv.take(m as int).map_values(|t: Seq<char>| (t, head_hash(ps, t)->Ok_0)).push(
                            (tv[m as int], head_hash(ps, tv[m as int])->Ok_0),
                        ));
                    }
                },
            }
            m = m + 1;
        }
        proof {
            assert(tv.take(tv.len() as int) =~= tv);
            assert(!exists|c: int| first_binding_fault_at(ps, c));
        }
        // the patches in increasing digest order, none twice
        let mut out: Vec<ProposalPatch> = Vec::new();
        let mut n: usize = 0;
        while n < patches.len()
            invariant
                ps == patches@,
                bindings_fault(bindings) is None,
                ps.len() > 0,
                !exists|c: int| first_patch_fault_at(ps, c),
                !exists|c: int| first_binding_fault_at(ps, c),
                n <= ps.len(),
                forall|j: int| 0 <= j < ps.len() ==> is_digest(#[trigger] ps[j].patch_digest@),
                sorted_by_key(out@),
                out@.len() == n,
                forall|a: int, b: int| 0 <= a < b < n ==> #[trigger] ps[a].patch_digest@ != #[trigger] ps[b].patch_digest@,
                forall|j: int| 0 <= j < n ==> patches_view(out@).contains(#[trigger] assembled(ps[j])),
                forall|q: int| 0 <= q < out@.len() ==> made_from_first(ps, n as int, #[trigger] out@[q].parts()),
            decreases patches.len() - n,
        {
            let pp = assemble_patch(&patches[n]);
            let present = key_present(&out, &pp);
            if present {
                proof {
                    let q = choose|q: int| 0 <= q < out@.len() && #[trigger] out@[q].key() == pp.key();
                    assert(made_from_first(ps, n as int, out@[q].parts()));
                    let a = choose|a: int| 0 <= a < n && #[trigger] assembled(ps[a]) == out@[q].parts();
                    assert(out@[q].key()[0] == pp.key()[0]);
                    assert(ps[a].patch_digest@ == ps[n as int].patch_digest@);
                    assert(has_duplicate_digest(ps));
                }
                return Err(error_patch_invalid(owned("duplicate patch bytes in one proposal set")));
            }
            let ghost before = out@;
            let ghost pv = pp;
            insert_sorted(&mut out, pp, false);
            proof {
                assert forall|a: int, b: int| 0 <= a < b < n + 1 implies #[trigger] ps[a].patch_digest@
                    != #[trigger] ps[b].patch_digest@ by {
                    if b == n {
                        if ps[a].patch_digest@ == ps[b].patch_digest@ {
                            assert(patches_view(before).contains(assembled(ps[a])));
                            let q = choose|q: int| 0 <= q < patches_view(before).len() && patches_view(before)[q]
                                == assembled(ps[a]);
                            assert(before[q].parts() == assembled(ps[a]));
                            assert(before[q].key() == pv.key());
                        }
                    }
                }
                assert forall|j: int| 0 <= j < n + 1 implies patches_view(out@).contains(#[trigger] assembled(ps[j])) by {
                    if j < n {
                        let q = choose|q: int| 0 <= q < patches_view(before).len() && patches_view(before)[q]
                            == assembled(ps[j]);
                        assert(out@.contains(before[q]));
                        let q2 = choose|q2: int| 0 <= q2 < out@.len() && out@[q2] == before[q];
                        assert(patches_view(out@)[q2] == assembled(ps[j]));
                    } else {
                        assert(out@.contains(pv));
                        let q2 = choose|q2: int| 0 <= q2 < out@.len() && out@[q2] == pv;
                        assert(patches_view(out@)[q2] == assembled(ps[j]));
                    }
                }
                assert forall|q: int| 0 <= q < out@.len() implies made_from_first(ps, n + 1, #[trigger] out@[q].parts()) by {
                    if out@[q] == pv {
                        assert(assembled(ps[n as int]) == out@[q].parts());
                    } else {
                        assert(before.contains(out@[q]));
                        let q0 = choose|q0: int| 0 <= q0 < before.len() && before[q0] == out@[q];
                        assert(made_from_first(ps, n as int, before[q0].parts()));
                        let a = choose|a: int| 0 <= a < n && #[trigger] assembled(ps[a]) == before[q0].parts();
                        assert(0 <= a < n + 1);
                    }
                }
            }
            n = n + 1;
        }
        proof {
            assert(!has_duplicate_digest(ps));
        }
        // the bytes the set digest covers
        let mut digests: Vec<String> = Vec::new();
        let mut q: usize = 0;
        while q < out.len()
            invariant
                q <= out@.len(),
                strs_view(digests@) == digests_of(patches_view(out@)).take(q as int),
                forall|j: int| 0 <= j < out@.len() ==> is_digest(#[trigger] out@[j].parts().5),
            decreases out.len() - q,
        {
            let ghost before = digests@;
            digests.push(owned(out[q].patch_digest()));
            proof {
                assert(digests_of(patches_view(out@)).take(q + 1) =~= digests_of(patches_view(out@)).take(q as int).push(
                    out@[q as int].parts().5,
                ));
                assert(strs_view(digests@) =~= strs_view(before).push(out@[q as int].parts().5));
            }
            q = q + 1;
        }
        proof {
            assert(digests_of(patches_view(out@)).take(out@.len() as int) =~= digests_of(patches_view(out@)));
            assert forall|j: int| 0 <= j < digests@.len() implies is_plain_json_text(#[trigger] digests@[j]@) by {
                assert(strs_view(digests@)[j] == digests@[j]@);
                assert(digests_of(patches_view(out@))[j] == out@[j].parts().5);
                lemma_digest_is_plain(digests@[j]@);
            }
        }
        let digest_input = match json_string_array(&digests) {
            Ok(bytes) => bytes,
            Err(message) => return Err(ProposalRecordError::InvalidDocument { message }),
        };
        let mut digest_input = digest_input;
        digest_input.push(0x0au8);
        proof {
            assert forall|a: int, b: int| 0 <= a < b < patches_view(out@).len() implies crate::text::seq_lt(
                #[trigger] patches_view(out@)[a].5,
                #[trigger] patches_view(out@)[b].5,
            ) by {
                lemma_one_component(out@[a].parts().5, out@[b].parts().5);
                assert(out@[a].key() == seq![out@[a].parts().5]);
                assert(out@[b].key() == seq![out@[b].parts().5]);
                assert(crate::text::key_lt(out@[a].key(), out@[b].key()));
                assert(patches_view(out@)[a] == out@[a].parts());
                assert(patches_view(out@)[b] == out@[b].parts());
            }
            assert forall|k2: int| 0 <= k2 < patches_view(out@).len() implies made_from(ps, #[trigger] patches_view(out@)[k2]) by {
                assert(made_from_first(ps, ps.len() as int, out@[k2].parts()));
            }
        }
        Ok(PreparedProposal { bindings, content_bindings, patches: out, supersedes, digest_input })
    }
}

/// Whether a patch with `p`'s digest is already listed.
fn key_present(v: &Vec<ProposalPatch>, p: &ProposalPatch) -> (r: bool)
    requires
        sorted_by_key(v@),
    ensures
        r == has_key(v@, p.key()),
{
    let mut i: usize = 0;
    while i < v.len()
        invariant
            i <= v@.len(),
            forall|j: int| 0 <= j < i ==> (#[trigger] v@[j]).key() != p.key(),
        decreases v.len() - i,
    {
        if str_eq(v[i].patch_digest.as_str(), p.patch_digest.as_str()) {
            proof {
                assert(v@[i as int].key() =~= p.key());
            }
            return true;
        }
        proof {
            if v@[i as int].key() == p.key() {
                assert(v@[i as int].key()[0] == p.key()[0]);
            }
        }
        i = i + 1;
    }
    false
}

impl PreparedProposal {
    pub closed spec fn spec_record_bindings(&self) -> ProposalBindings {
        self.bindings
    }

    /// The record, given the digest of [`Self::digest_input`]. A record
    /// naming the digest it supersedes must name a well-formed digest, and
    /// one other than its own.
    pub fn finish(self, proposal_set_digest: String) -> (r: Result<ProposalRecord, ProposalRecordError>)
        ensures
            r is Err <==> (self.spec_supersedes() matches Some(prior) && (!is_digest(prior) || prior
                == proposal_set_digest@)),
            r matches Err(e) ==> e@ == if !is_digest(self.spec_supersedes()->0) {
                ProposalErrorView::BindingInvalid("supersedes"@)
            } else {
                ProposalErrorView::RevisionUnchanged(proposal_set_digest@)
            },
            r matches Ok(rec) ==> {
                &&& rec.spec_schema_version() == PROPOSAL_SCHEMA_VERSION@
                &&& rec.spec_digest() == proposal_set_digest@
                &&& rec.spec_supersedes() == self.spec_supersedes()
                &&& rec.spec_record_bindings() == self.spec_record_bindings()
                &&& rec.spec_bindings() == self.spec_bindings()
                &&& rec.spec_patches() == self.spec_patches()
            },
    {
        if let Some(prior) = &self.supersedes {
            if !is_sha256_digest(prior.as_str()) {
                return Err(ProposalRecordError::BindingInvalid { field: owned("supersedes") });
            }
            if str_eq(prior.as_str(), proposal_set_digest.as_str()) {
                return Err(ProposalRecordError::RevisionUnchanged { proposal_set_digest });
            }
        }
        Ok(
            ProposalRecord {
                schema_version: owned(PROPOSAL_SCHEMA_VERSION),
                proposal_set_digest,
                supersedes: self.supersedes,
                bindings: self.bindings,
                content_bindings: self.content_bindings,
                patches: self.patches,
            },
        )
    }
}

impl ProposalRecord {
    pub closed spec fn spec_digest(&self) -> Seq<char> {
        self.proposal_set_digest@
    }

    pub closed spec fn spec_patches(&self) -> Seq<ProposalPatchView> {
        patches_view(self.patches@)
    }

    pub closed spec fn spec_bindings(&self) -> Seq<(Seq<char>, Seq<char>)> {
        bindings_view(self.content_bindings@)
    }

    pub closed spec fn spec_supersedes(&self) -> Option<Seq<char>> {
        opt_view(self.supersedes)
    }

    pub closed spec fn spec_schema_version(&self) -> Seq<char> {
        self.schema_version@
    }

    pub fn schema_version(&self) -> (r: &str)
        ensures
            r@ == self.spec_schema_version(),
    {
        self.schema_version.as_str()
    }

    pub fn proposal_set_digest(&self) -> (r: &str)
        ensures
            r@ == self.spec_digest(),
    {
        self.proposal_set_digest.as_str()
    }

    /// The prior proposal-set digest this record replaces.
    pub fn supersedes(&self) -> (r: Option<&String>)
        ensures
            match r {
                Some(s) => self.spec_supersedes() == Some(s@),
                None => self.spec_supersedes() is None,
            },
    {
        self.supersedes.as_ref()
    }

    pub closed spec fn spec_record_bindings(&self) -> ProposalBindings {
        self.bindings
    }

    pub fn bindings(&self) -> (r: &ProposalBindings)
        ensures
            *r == self.spec_record_bindings(),
    {
        &self.bindings
    }

    pub fn patches(&self) -> (r: &[ProposalPatch])
        ensures
            patches_view(r@) == self.spec_patches(),
    {
        self.patches.as_slice()
    }

    pub fn content_bindings(&self) -> (r: &[ContentBinding])
        ensures
            bindings_view(r@) == self.spec_bindings(),
    {
        self.content_bindings.as_slice()
    }
}

// ---- laws ----

/// Some patch of `ps` carries digest `d`.
pub open spec fn carries_digest(ps: Seq<ParsedProposalPatch>, d: Seq<char>) -> bool {
    exists|i: int| 0 <= i < ps.len() && #[trigger] ps[i].patch_digest@ == d
}

/// A record's identity does not depend on how its patches were placed or
/// listed: two patch sets with the same patch digests order them alike,
/// so the bytes the set digest covers are the same.
pub proof fn lemma_identity_is_placement_blind(
    out1: Seq<ProposalPatchView>,
    ps1: Seq<ParsedProposalPatch>,
    out2: Seq<ProposalPatchView>,
    ps2: Seq<ParsedProposalPatch>,
)
    requires
        sorted_by_digest(out1, ps1),
        sorted_by_digest(out2, ps2),
        forall|d: Seq<char>| #[trigger] carries_digest(ps1, d) <==> carries_digest(ps2, d),
    ensures
        digests_of(out1) == digests_of(out2),
        json_string_list(digests_of(out1)) + seq![0x0au8] == json_string_list(digests_of(out2)) + seq![0x0au8],
{
    let d1 = digests_of(out1);
    let d2 = digests_of(out2);
    let s = d1.to_set();
    assert forall|x: Seq<char>| #[trigger] d1.contains(x) <==> d2.contains(x) by {
        if d1.contains(x) {
            let k = choose|k: int| 0 <= k < d1.len() && d1[k] == x;
            assert(made_from(ps1, out1[k]));
            let i = choose|i: int| 0 <= i < ps1.len() && #[trigger] assembled(ps1[i]) == out1[k];
            assert(ps1[i].patch_digest@ == x);
            assert(carries_digest(ps1, x));
            let j = choose|j: int| 0 <= j < ps2.len() && #[trigger] ps2[j].patch_digest@ == x;
            assert(out2.contains(assembled(ps2[j])));
            let q = choose|q: int| 0 <= q < out2.len() && out2[q] == assembled(ps2[j]);
            assert(d2[q] == x);
        }
        if d2.contains(x) {
            let k = choose|k: int| 0 <= k < d2.len() && d2[k] == x;
            assert(made_from(ps2, out2[k]));
            let j = choose|j: int| 0 <= j < ps2.len() && #[trigger] assembled(ps2[j]) == out2[k];
            assert(ps2[j].patch_digest@ == x);
            assert(carries_digest(ps2, x));
            assert(carries_digest(ps1, x));
            let i = choose|i: int| 0 <= i < ps1.len() && #[trigger] ps1[i].patch_digest@ == x;
            assert(out1.contains(assembled(ps1[i])));
            let q = choose|q: int| 0 <= q < out1.len() && out1[q] == assembled(ps1[i]);
            assert(d1[q] == x);
        }
    }
    assert(lists_sorted(d1, s)) by {
        assert forall|a: int, b: int| 0 <= a < b < d1.len() implies crate::text::seq_lt(#[trigger] d1[a], #[trigger] d1[b]) by {
            assert(crate::text::seq_lt(out1[a].5, out1[b].5));
        }
    }
    assert(lists_sorted(d2, s)) by {
        assert forall|a: int, b: int| 0 <= a < b < d2.len() implies crate::text::seq_lt(#[trigger] d2[a], #[trigger] d2[b]) by {
            assert(crate::text::seq_lt(out2[a].5, out2[b].5));
        }
    }
    lemma_lists_sorted_unique(d1, d2, s);
}

} // verus!
