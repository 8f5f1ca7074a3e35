//! Patch documents and their validation against a graph artifact.
//!
//! A patch proposes one change to a Knowledge Object: replace its body,
//! update fields, create it, add supersession relations, or revoke it.
//! Validation checks the patch against the graph it was written for and
//! reports the diffs it would make, the relations it adds, the proof
//! obligations it raises and every problem found.

use vstd::prelude::*;

use crate::diagnostic::{Diagnostic, DiagnosticCode, Severity};
use crate::graph::{
    clone_opt_string, is_object_id, is_object_id_text, opt_view, strs_view, FieldEntry, FieldMap,
    GraphKnowledgeObjectNode, GraphRelationKind,
};
use crate::obligation::ProofObligation;
use crate::string_set::contains_str;
use crate::text::{is_blank, owned, str_eq, str_is_blank};

verus! {

broadcast use vstd::string::group_string_axioms;

/// The five kinds of change a patch can propose.
#[derive(Debug, Clone, Copy, PartialEq, Eq, Structural)]
pub enum PatchOperation {
    ReplaceBody,
    UpdateFields,
    CreateObject,
    Supersede,
    Revoke,
}

impl PatchOperation {
    pub open spec fn wire(self) -> Seq<char> {
        match self {
            PatchOperation::ReplaceBody => "replace_body"@,
            PatchOperation::UpdateFields => "update_fields"@,
            PatchOperation::CreateObject => "create_object"@,
            PatchOperation::Supersede => "supersede"@,
            PatchOperation::Revoke => "revoke"@,
        }
    }

    /// The operation's wire name.
    pub fn as_str(self) -> (r: &'static str)
        ensures
            r@ == self.wire(),
    {
        match self {
            PatchOperation::ReplaceBody => "replace_body",
            PatchOperation::UpdateFields => "update_fields",
            PatchOperation::CreateObject => "create_object",
            PatchOperation::Supersede => "supersede",
            PatchOperation::Revoke => "revoke",
        }
    }
}

/// Where a created object goes: its page, and the object it follows.
pub struct PlacementHint {
    pub page_id: String,
    pub after: Option<String>,
}

/// Who proposed a patch.
pub struct PatchProposer {
    pub proposer_type: String,
    pub id: String,
}

/// The change a patch proposes. Every edit of an existing object binds the
/// object's content hash it was written against.
pub enum PatchIntent {
    ReplaceBody { base_hash: String, body: String },
    UpdateFields { base_hash: String, fields: FieldMap },
    CreateObject {
        kind: String,
        status: Option<String>,
        body: String,
        fields: FieldMap,
        placement: PlacementHint,
    },
    Supersede { base_hash: String, supersedes: Vec<String> },
    Revoke { base_hash: String },
}

impl PatchIntent {
    pub open spec fn op(&self) -> PatchOperation {
        match self {
            PatchIntent::ReplaceBody { .. } => PatchOperation::ReplaceBody,
            PatchIntent::UpdateFields { .. } => PatchOperation::UpdateFields,
            PatchIntent::CreateObject { .. } => PatchOperation::CreateObject,
            PatchIntent::Supersede { .. } => PatchOperation::Supersede,
            PatchIntent::Revoke { .. } => PatchOperation::Revoke,
        }
    }

    /// The operation the intent performs.
    pub fn operation(&self) -> (r: PatchOperation)
        ensures
            r == self.op(),
    {
        match self {
            PatchIntent::ReplaceBody { .. } => PatchOperation::ReplaceBody,
            PatchIntent::UpdateFields { .. } => PatchOperation::UpdateFields,
            PatchIntent::CreateObject { .. } => PatchOperation::CreateObject,
            PatchIntent::Supersede { .. } => PatchOperation::Supersede,
            PatchIntent::Revoke { .. } => PatchOperation::Revoke,
        }
    }

    /// The bound content hash, for an edit of an existing object.
    pub open spec fn spec_base_hash(&self) -> Option<Seq<char>> {
        match self {
            PatchIntent::ReplaceBody { base_hash, .. } => Some(base_hash@),
            PatchIntent::UpdateFields { base_hash, .. } => Some(base_hash@),
            PatchIntent::CreateObject { .. } => None,
            PatchIntent::Supersede { base_hash, .. } => Some(base_hash@),
            PatchIntent::Revoke { base_hash } => Some(base_hash@),
        }
    }

    /// The bound content hash, for an edit of an existing object.
    pub fn base_hash(&self) -> (r: Option<&String>)
        ensures
            match r {
                Some(h) => self.spec_base_hash() == Some(h@),
                None => self.spec_base_hash() is None,
            },
    {
        match self {
            PatchIntent::ReplaceBody { base_hash, .. } => Some(base_hash),
            PatchIntent::UpdateFields { base_hash, .. } => Some(base_hash),
            PatchIntent::CreateObject { .. } => None,
            PatchIntent::Supersede { base_hash, .. } => Some(base_hash),
            PatchIntent::Revoke { base_hash } => Some(base_hash),
        }
    }
}

/// One proposed change to one Knowledge Object.
pub struct PatchDocument {
    pub target: String,
    pub intent: PatchIntent,
    pub reason: String,
    pub proposer: Option<PatchProposer>,
}

impl PatchDocument {
    /// The operation the patch performs.
    pub fn operation(&self) -> (r: PatchOperation)
        ensures
            r == self.intent.op(),
    {
        self.intent.operation()
    }
}

/// The object a `create_object` patch would add, as its diff reports it.
pub struct CreatedObject {
    pub id: String,
    pub kind: String,
    pub status: Option<String>,
    pub body: String,
    pub fields: FieldMap,
    pub page_id: String,
    pub after: Option<String>,
}

/// A value on one side of a diff.
pub enum DiffValue {
    Text(String),
    Created(CreatedObject),
}

/// One changed slot: the field, its value before and after.
pub struct PatchDiff {
    pub field: String,
    pub old: Option<DiffValue>,
    pub new: Option<DiffValue>,
}

/// A relation a patch adds or removes.
pub struct AffectedRelation {
    pub source: String,
    pub relation: GraphRelationKind,
    pub target: String,
    pub action: String,
}

/// The graph a patch is validated against: its pages and its Knowledge
/// Objects.
pub struct GraphIndex {
    pub pages: Vec<String>,
    pub objects: Vec<GraphKnowledgeObjectNode>,
}

/// What validating an authored draft object found: its diagnostics and
/// the proof obligations it raises.
pub struct DraftValidation {
    pub diagnostics: Vec<Diagnostic>,
    pub proof_obligations: Vec<ProofObligation>,
}

/// The outcome of validating one patch.
pub struct PatchValidationReport {
    pub valid: bool,
    pub accepted_for_review: bool,
    pub target: Option<String>,
    pub operation: PatchOperation,
    pub diffs: Vec<PatchDiff>,
    pub affected_relations: Vec<AffectedRelation>,
    pub proof_obligations: Vec<ProofObligation>,
    pub required_follow_up: Vec<String>,
    pub diagnostics: Vec<Diagnostic>,
}

// ---- views ----

/// A diagnostic by its parts: severity, code, message, object, help.
pub type DiagView = (Severity, DiagnosticCode, Seq<char>, Option<Seq<char>>, Option<Seq<char>>);

/// A relation by its parts: source, kind, target, action.
pub type RelationView = (Seq<char>, GraphRelationKind, Seq<char>, Seq<char>);

/// An obligation by its parts: object, reason, required evidence.
pub type ObligationView = (Seq<char>, Seq<char>, Seq<Seq<char>>);

/// A diff value by its parts.
pub ghost enum DiffValueView {
    Text(Seq<char>),
    /// id, kind, status, body, fields in key order, page, the object it follows
    Created(
        Seq<char>,
        Seq<char>,
        Option<Seq<char>>,
        Seq<char>,
        Seq<(Seq<char>, Seq<char>)>,
        Seq<char>,
        Option<Seq<char>>,
    ),
}

/// A diff by its parts: field, before, after.
pub type DiffView = (Seq<char>, Option<DiffValueView>, Option<DiffValueView>);

pub open spec fn diag_view(d: Diagnostic) -> DiagView {
    (d.severity, d.code, d.message@, opt_view(d.object_id), opt_view(d.help))
}

pub open spec fn diags_view(s: Seq<Diagnostic>) -> Seq<DiagView> {
    s.map_values(|d: Diagnostic| diag_view(d))
}

pub open spec fn entries_pairs(m: FieldMap) -> Seq<(Seq<char>, Seq<char>)> {
    m.entries_view().map_values(|e: FieldEntry| (e.key@, e.value@))
}

pub open spec fn value_view(v: DiffValue) -> DiffValueView {
    match v {
        DiffValue::Text(t) => DiffValueView::Text(t@),
        DiffValue::Created(c) => DiffValueView::Created(
            c.id@,
            c.kind@,
            opt_view(c.status),
            c.body@,
            entries_pairs(c.fields),
            c.page_id@,
            opt_view(c.after),
        ),
    }
}

pub open spec fn opt_value_view(v: Option<DiffValue>) -> Option<DiffValueView> {
    match v {
        Some(x) => Some(value_view(x)),
        None => None,
    }
}

pub open spec fn diff_view(d: PatchDiff) -> DiffView {
    (d.field@, opt_value_view(d.old), opt_value_view(d.new))
}

pub open spec fn relation_view(a: AffectedRelation) -> RelationView {
    (a.source@, a.relation, a.target@, a.action@)
}

pub open spec fn obligation_view(o: ProofObligation) -> ObligationView {
    (o.object_id@, o.reason@, strs_view(o.required_evidence@))
}

/// Everything a validation step reports.
pub ghost struct FindingsView {
    pub diagnostics: Seq<DiagView>,
    pub diffs: Seq<DiffView>,
    pub relations: Seq<RelationView>,
    pub obligations: Seq<ObligationView>,
    pub follow_up: Seq<Seq<char>>,
}

pub open spec fn findings(
    diagnostics: Seq<DiagView>,
    diffs: Seq<DiffView>,
    relations: Seq<RelationView>,
    obligations: Seq<ObligationView>,
    follow_up: Seq<Seq<char>>,
) -> FindingsView {
    FindingsView { diagnostics, diffs, relations, obligations, follow_up }
}

/// A step that reports one diagnostic and nothing else.
pub open spec fn only_diag(d: DiagView) -> FindingsView {
    findings(seq![d], seq![], seq![], seq![], seq![])
}

/// What a report holds, by parts.
pub open spec fn report_findings(r: PatchValidationReport) -> FindingsView {
    findings(
        diags_view(r.diagnostics@),
        r.diffs@.map_values(|d: PatchDiff| diff_view(d)),
        r.affected_relations@.map_values(|a: AffectedRelation| relation_view(a)),
        r.proof_obligations@.map_values(|o: ProofObligation| obligation_view(o)),
        strs_view(r.required_follow_up@),
    )
}

/// No diagnostic is an error.
pub open spec fn no_errors(ds: Seq<DiagView>) -> bool {
    forall|i: int| 0 <= i < ds.len() ==> (#[trigger] ds[i]).0 != Severity::Error
}

// ---- the graph ----

/// `objs[i]` is the first object with Object ID `id`.
pub open spec fn first_object_at(objs: Seq<GraphKnowledgeObjectNode>, id: Seq<char>, i: int) -> bool {
    &&& 0 <= i < objs.len()
    &&& objs[i].id@ == id
    &&& forall|j: int| 0 <= j < i ==> (#[trigger] objs[j]).id@ != id
}

/// The object with Object ID `id`, if the graph holds one.
pub open spec fn graph_object(g: GraphIndex, id: Seq<char>) -> Option<GraphKnowledgeObjectNode> {
    if exists|i: int| first_object_at(g.objects@, id, i) {
        Some(g.objects@[choose|i: int| first_object_at(g.objects@, id, i)])
    } else {
        None
    }
}

/// The graph has a page with this id.
pub open spec fn page_exists(g: GraphIndex, page_id: Seq<char>) -> bool {
    strs_view(g.pages@).contains(page_id)
}

proof fn lemma_first_object_unique(objs: Seq<GraphKnowledgeObjectNode>, id: Seq<char>, i: int, j: int)
    requires
        first_object_at(objs, id, i),
        first_object_at(objs, id, j),
    ensures
        i == j,
{
    if i < j {
        assert(objs[i].id@ != id);
    } else if j < i {
        assert(objs[j].id@ != id);
    }
}

impl GraphIndex {
    /// The position of the object with Object ID `id`.
    fn find(&self, id: &str) -> (r: Option<usize>)
        ensures
            match r {
                Some(i) => i < self.objects@.len() && graph_object(*self, id@) == Some(self.objects@[i as int]),
                None => graph_object(*self, id@) is None,
            },
    {
        let mut i: usize = 0;
        while i < self.objects.len()
            invariant
                i <= self.objects@.len(),
                forall|j: int| 0 <= j < i ==> (#[trigger] self.objects@[j]).id@ != id@,
            decreases self.objects.len() - i,
        {
            if str_eq(self.objects[i].id.as_str(), id) {
                proof {
                    assert(first_object_at(self.objects@, id@, i as int));
                    let c = choose|c: int| first_object_at(self.objects@, id@, c);
                    lemma_first_object_unique(self.objects@, id@, i as int, c);
                }
                return Some(i);
            }
            i = i + 1;
        }
        None
    }

    /// Whether the graph holds an object with Object ID `id`.
    pub fn contains_object(&self, id: &str) -> (r: bool)
        ensures
            r == graph_object(*self, id@) is Some,
    {
        self.find(id).is_some()
    }

    /// Whether the graph has a page with this id.
    pub fn page_exists(&self, page_id: &str) -> (r: bool)
        ensures
            r == page_exists(*self, page_id@),
    {
        contains_str(&self.pages, page_id)
    }
}

// ---- diagnostics ----

pub open spec fn error_view(
    code: DiagnosticCode,
    message: Seq<char>,
    object_id: Option<Seq<char>>,
    help: Option<Seq<char>>,
) -> DiagView {
    (Severity::Error, code, message, object_id, help)
}

pub open spec fn object_id_help() -> Seq<char> {
    "Object IDs are dot-separated lowercase ASCII letters and digits, with single hyphens or dots between them."@
}

pub open spec fn rebuild_help() -> Seq<char> {
    "Run `adoc build` if the source was changed after the graph artifact was generated."@
}

pub open spec fn reason_diags(reason: Seq<char>) -> Seq<DiagView> {
    if is_blank(reason) {
        seq![
            error_view(
                DiagnosticCode::PatchInvalidDocument,
                "patch reason must be a non-empty string"@,
                None,
                Some("Add a short review reason explaining why this patch is proposed."@),
            ),
        ]
    } else {
        seq![]
    }
}

pub open spec fn invalid_id_diag(id: Seq<char>, label: Seq<char>) -> DiagView {
    error_view(
        DiagnosticCode::IdInvalid,
        label + " Object ID `"@ + id + "` is invalid."@,
        Some(id),
        Some(object_id_help()),
    )
}

pub open spec fn missing_object_diag(id: Seq<char>) -> DiagView {
    error_view(
        DiagnosticCode::GraphObjectNotFound,
        "Object ID `"@ + id + "` was not found in the graph artifact."@,
        Some(id),
        Some(rebuild_help()),
    )
}

pub open spec fn validation_diag(target: Seq<char>, message: Seq<char>) -> DiagView {
    error_view(
        DiagnosticCode::PatchValidationFailed,
        message,
        Some(target),
        Some(DiagnosticCode::PatchValidationFailed.help_text()),
    )
}

pub open spec fn mismatch_diag(base: Seq<char>, o: GraphKnowledgeObjectNode) -> DiagView {
    error_view(
        DiagnosticCode::PatchBaseHashMismatch,
        "patch base_hash `"@ + base + "` does not match current content_hash `"@ + o.content_hash@ + "` for `"@
            + o.id@ + "`"@,
        Some(o.id@),
        Some(DiagnosticCode::PatchBaseHashMismatch.help_text()),
    )
}

fn join3(a: &str, b: &str, c: &str) -> (r: String)
    ensures
        r@ == a@ + b@ + c@,
{
    let mut s = owned(a);
    s.append(b);
    s.append(c);
    s
}

fn join5(a: &str, b: &str, c: &str, d: &str, e: &str) -> (r: String)
    ensures
        r@ == a@ + b@ + c@ + d@ + e@,
{
    let mut s = join3(a, b, c);
    s.append(d);
    s.append(e);
    s
}

fn error_diag(code: DiagnosticCode, message: String, object_id: Option<String>, help: Option<&str>) -> (r:
    Diagnostic)
    ensures
        diag_view(r) == error_view(
            code,
            message@,
            opt_view(object_id),
            match help {
                Some(h) => Some(h@),
                None => None,
            },
        ),
{
    let d = Diagnostic::error(code, message);
    let d = match object_id {
        Some(o) => d.with_object_id(o),
        None => d,
    };
    match help {
        Some(h) => d.with_help(owned(h)),
        None => d,
    }
}

fn invalid_id_diagnostic(id: &str, label: &str) -> (r: Diagnostic)
    ensures
        diag_view(r) == invalid_id_diag(id@, label@),
{
    error_diag(
        DiagnosticCode::IdInvalid,
        join3(label, " Object ID `", id).concat("` is invalid."),
        Some(owned(id)),
        Some(
            "Object IDs are dot-separated lowercase ASCII letters and digits, with single hyphens or dots between them.",
        ),
    )
}

fn missing_object_diagnostic(id: &str) -> (r: Diagnostic)
    ensures
        diag_view(r) == missing_object_diag(id@),
{
    error_diag(
        DiagnosticCode::GraphObjectNotFound,
        join3("Object ID `", id, "` was not found in the graph artifact."),
        Some(owned(id)),
        Some("Run `adoc build` if the source was changed after the graph artifact was generated."),
    )
}

fn validation_diagnostic(target: &str, message: String) -> (r: Diagnostic)
    ensures
        diag_view(r) == validation_diag(target@, message@),
{
    error_diag(
        DiagnosticCode::PatchValidationFailed,
        message,
        Some(owned(target)),
        Some(DiagnosticCode::PatchValidationFailed.default_help()),
    )
}

// ---- accumulating findings ----

struct Findings {
    diagnostics: Vec<Diagnostic>,
    diffs: Vec<PatchDiff>,
    relations: Vec<AffectedRelation>,
    obligations: Vec<ProofObligation>,
    follow_up: Vec<String>,
}

impl Findings {
    spec fn view(&self) -> FindingsView {
        findings(
            diags_view(self.diagnostics@),
            self.diffs@.map_values(|d: PatchDiff| diff_view(d)),
            self.relations@.map_values(|a: AffectedRelation| relation_view(a)),
            self.obligations@.map_values(|o: ProofObligation| obligation_view(o)),
            strs_view(self.follow_up@),
        )
    }

    fn new() -> (r: Self)
        ensures
            r.view() == findings(seq![], seq![], seq![], seq![], seq![]),
    {
        let r = Findings {
            diagnostics: Vec::new(),
            diffs: Vec::new(),
            relations: Vec::new(),
            obligations: Vec::new(),
            follow_up: Vec::new(),
        };
        proof {
            assert(diags_view(r.diagnostics@) =~= seq![]);
            assert(r.diffs@.map_values(|d: PatchDiff| diff_view(d)) =~= seq![]);
            assert(r.relations@.map_values(|a: AffectedRelation| relation_view(a)) =~= seq![]);
            assert(r.obligations@.map_values(|o: ProofObligation| obligation_view(o)) =~= seq![]);
            assert(strs_view(r.follow_up@) =~= seq![]);
        }
        r
    }

    fn only(d: Diagnostic) -> (r: Self)
        ensures
            r.view() == only_diag(diag_view(d)),
    {
        let mut f = Findings::new();
        f.push_diag(d);
        f
    }

    fn push_diag(&mut self, d: Diagnostic)
        ensures
            final(self).view() == findings(
                old(self).view().diagnostics.push(diag_view(d)),
                old(self).view().diffs,
                old(self).view().relations,
                old(self).view().obligations,
                old(self).view().follow_up,
            ),
    {
        let ghost v = diag_view(d);
        self.diagnostics.push(d);
        proof {
            assert(diags_view(self.diagnostics@) =~= diags_view(old(self).diagnostics@).push(v));
        }
    }

    fn push_diff(&mut self, d: PatchDiff)
        ensures
            final(self).view() == findings(
                old(self).view().diagnostics,
                old(self).view().diffs.push(diff_view(d)),
                old(self).view().relations,
                old(self).view().obligations,
                old(self).view().follow_up,
            ),
    {
        let ghost v = diff_view(d);
        self.diffs.push(d);
        proof {
            assert(self.diffs@.map_values(|d: PatchDiff| diff_view(d)) =~= old(self).diffs@.map_values(
                |d: PatchDiff| diff_view(d),
            ).push(v));
        }
    }

    fn push_relation(&mut self, a: AffectedRelation)
        ensures
            final(self).view() == findings(
                old(self).view().diagnostics,
                old(self).view().diffs,
                old(self).view().relations.push(relation_view(a)),
                old(self).view().obligations,
                old(self).view().follow_up,
            ),
    {
        let ghost v = relation_view(a);
        self.relations.push(a);
        proof {
            assert(self.relations@.map_values(|a: AffectedRelation| relation_view(a))
                =~= old(self).relations@.map_values(|a: AffectedRelation| relation_view(a)).push(v));
        }
    }

    /// Record an obligation on `object_id` for `reason` with the standard
    /// evidence, and its follow-up.
    fn push_obligation(&mut self, object_id: &str, reason: &str)
        ensures
            final(self).view() == findings(
                old(self).view().diagnostics,
                old(self).view().diffs,
                old(self).view().relations,
                old(self).view().obligations.push((object_id@, reason@, standard_evidence())),
                old(self).view().follow_up.push(follow_up_text(object_id@)),
            ),
    {
        let evidence = vec![owned("owner"), owned("verified_at"), owned("source|test|reviewed_by")];
        let o = ProofObligation { object_id: owned(object_id), reason: owned(reason), required_evidence: evidence };
        proof {
            assert(strs_view(o.required_evidence@) =~= standard_evidence());
        }
        let ghost v = obligation_view(o);
        self.obligations.push(o);
        let text = join3("Resolve proof obligation for `", object_id, "`.");
        self.follow_up.push(text);
        proof {
            assert(self.obligations@.map_values(|o: ProofObligation| obligation_view(o))
                =~= old(self).obligations@.map_values(|o: ProofObligation| obligation_view(o)).push(v));
            assert(strs_view(self.follow_up@) =~= strs_view(old(self).follow_up@).push(follow_up_text(object_id@)));
        }
    }

    /// Whether an obligation on `object_id` for `reason` is recorded.
    fn has_obligation(&self, object_id: &str, reason: &str) -> (r: bool)
        ensures
            r == exists|i: int|
                0 <= i < self.obligations@.len() && (#[trigger] self.obligations@[i]).object_id@ == object_id@
                    && self.obligations@[i].reason@ == reason@,
    {
        let mut i: usize = 0;
        while i < self.obligations.len()
            invariant
                i <= self.obligations@.len(),
                forall|j: int|
                    0 <= j < i ==> !((#[trigger] self.obligations@[j]).object_id@ == object_id@
                        && self.obligations@[j].reason@ == reason@),
            decreases self.obligations.len() - i,
        {
            if str_eq(self.obligations[i].object_id.as_str(), object_id) && str_eq(
                self.obligations[i].reason.as_str(),
                reason,
            ) {
                return true;
            }
            i = i + 1;
        }
        false
    }
}

// ---- proof obligations ----

pub open spec fn standard_evidence() -> Seq<Seq<char>> {
    seq!["owner"@, "verified_at"@, "source|test|reviewed_by"@]
}

pub open spec fn follow_up_text(object_id: Seq<char>) -> Seq<char> {
    "Resolve proof obligation for `"@ + object_id + "`."@
}

/// The object is a verified claim.
pub open spec fn is_verified_claim(o: GraphKnowledgeObjectNode) -> bool {
    o.kind@ == "claim"@ && opt_view(o.status) == Some("verified"@)
}

/// A verified claim's change raises one evidence-review obligation.
pub open spec fn claim_obligations(o: GraphKnowledgeObjectNode, reason: Seq<char>) -> Seq<ObligationView> {
    if is_verified_claim(o) {
        seq![(o.id@, reason, standard_evidence())]
    } else {
        seq![]
    }
}

pub open spec fn claim_follow_up(o: GraphKnowledgeObjectNode) -> Seq<Seq<char>> {
    if is_verified_claim(o) {
        seq![follow_up_text(o.id@)]
    } else {
        seq![]
    }
}

fn verified_claim(o: &GraphKnowledgeObjectNode) -> (r: bool)
    ensures
        r == is_verified_claim(*o),
{
    str_eq(o.kind.as_str(), "claim") && match &o.status {
        Some(s) => str_eq(s.as_str(), "verified"),
        None => false,
    }
}

/// The obligations of a list, each object and reason once, first
/// occurrence first.
pub open spec fn distinct_obligations(s: Seq<ProofObligation>) -> Seq<(Seq<char>, Seq<char>)>
    decreases s.len(),
{
    if s.len() == 0 {
        seq![]
    } else {
        let rest = distinct_obligations(s.drop_last());
        let p = (s.last().object_id@, s.last().reason@);
        if rest.contains(p) {
            rest
        } else {
            rest.push(p)
        }
    }
}

// ---- diffs ----

pub open spec fn opt_text(t: Option<Seq<char>>) -> Option<DiffValueView> {
    match t {
        Some(x) => Some(DiffValueView::Text(x)),
        None => None,
    }
}

pub open spec fn text_diff(field: Seq<char>, old: Option<Seq<char>>, new: Option<Seq<char>>) -> DiffView {
    (field, opt_text(old), opt_text(new))
}

fn text_value(t: Option<String>) -> (r: Option<DiffValue>)
    ensures
        opt_value_view(r) == opt_text(opt_view(t)),
{
    match t {
        Some(x) => Some(DiffValue::Text(x)),
        None => None,
    }
}

fn text_diff_of(field: String, old: Option<String>, new: Option<String>) -> (r: PatchDiff)
    ensures
        diff_view(r) == text_diff(field@, opt_view(old), opt_view(new)),
{
    PatchDiff { field, old: text_value(old), new: text_value(new) }
}

// ---- replace_body ----

pub open spec fn body_reason() -> Seq<char> {
    "Verified claim body changes require evidence review before approval."@
}

pub open spec fn replace_body_findings(g: GraphIndex, target: Seq<char>, base: Seq<char>, body: Seq<char>) -> FindingsView {
    match graph_object(g, target) {
        None => only_diag(missing_object_diag(target)),
        Some(o) => if base != o.content_hash@ {
            only_diag(mismatch_diag(base, o))
        } else if is_blank(body) {
            only_diag(validation_diag(target, "replace_body requires a non-empty changes.body value"@))
        } else {
            findings(
                seq![],
                seq![text_diff("body"@, Some(o.body@), Some(body))],
                seq![],
                claim_obligations(o, body_reason()),
                claim_follow_up(o),
            )
        },
    }
}

/// The existing target, or the finding that it is missing.
fn existing_target<'a>(g: &'a GraphIndex, target: &str) -> (r: Result<&'a GraphKnowledgeObjectNode, Findings>)
    ensures
        match r {
            Ok(o) => graph_object(*g, target@) == Some(*o),
            Err(f) => graph_object(*g, target@) is None && f.view() == only_diag(missing_object_diag(target@)),
        },
{
    match g.find(target) {
        Some(i) => Ok(&g.objects[i]),
        None => Err(Findings::only(missing_object_diagnostic(target))),
    }
}

/// The finding that the bound hash is stale, when it is.
fn stale_hash(o: &GraphKnowledgeObjectNode, base: &str) -> (r: Option<Findings>)
    ensures
        match r {
            Some(f) => base@ != o.content_hash@ && f.view() == only_diag(mismatch_diag(base@, *o)),
            None => base@ == o.content_hash@,
        },
{
    if str_eq(base, o.content_hash.as_str()) {
        None
    } else {
        let message = join5(
            "patch base_hash `",
            base,
            "` does not match current content_hash `",
            o.content_hash.as_str(),
            "` for `",
        ).concat(o.id.as_str()).concat("`");
        Some(
            Findings::only(
                error_diag(
                    DiagnosticCode::PatchBaseHashMismatch,
                    message,
                    Some(o.id.clone()),
                    Some(DiagnosticCode::PatchBaseHashMismatch.default_help()),
                ),
            ),
        )
    }
}

fn validate_replace_body(g: &GraphIndex, target: &str, base: &str, body: &str) -> (r: Findings)
    ensures
        r.view() == replace_body_findings(*g, target@, base@, body@),
{
    let o = match existing_target(g, target) {
        Ok(o) => o,
        Err(f) => return f,
    };
    if let Some(f) = stale_hash(o, base) {
        return f;
    }
    if str_is_blank(body) {
        return Findings::only(
            validation_diagnostic(target, owned("replace_body requires a non-empty changes.body value")),
        );
    }
    let mut f = Findings::new();
    f.push_diff(text_diff_of(owned("body"), Some(o.body.clone()), Some(owned(body))));
    if verified_claim(o) {
        f.push_obligation(o.id.as_str(), "Verified claim body changes require evidence review before approval.");
    }
    proof {
        assert(f.view().obligations =~= claim_obligations(*o, body_reason()));
        assert(f.view().follow_up =~= claim_follow_up(*o));
    }
    f
}

// ---- update_fields ----

pub open spec fn is_lower(c: char) -> bool {
    'a' <= c && c <= 'z'
}

/// A field key: a lowercase ASCII letter, then lowercase letters, digits
/// and underscores.
pub open spec fn is_field_key(k: Seq<char>) -> bool {
    &&& k.len() > 0
    &&& is_lower(k[0])
    &&& forall|i: int| 1 <= i < k.len() ==> is_lower(#[trigger] k[i]) || ('0' <= k[i] && k[i] <= '9') || k[i] == '_'
}

/// The key names a relation slot, which only relation operations change.
pub open spec fn is_relation_field(k: Seq<char>) -> bool {
    k == GraphRelationKind::DependsOn.wire() || k == GraphRelationKind::Supersedes.wire() || k
        == GraphRelationKind::RelatedTo.wire()
}

/// The three relation field names are well-formed field keys.
proof fn lemma_relation_names_are_field_keys(k: Seq<char>)
    requires
        k == "depends_on"@ || k == "supersedes"@ || k == "related_to"@,
    ensures
        is_field_key(k),
{
    reveal_strlit("depends_on");
    reveal_strlit("supersedes");
    reveal_strlit("related_to");
    assert(k.len() > 0 && is_lower(k[0]));
    assert forall|i: int| 1 <= i < k.len() implies is_lower(#[trigger] k[i]) || ('0' <= k[i] && k[i] <= '9') || k[i]
        == '_' by {
        if k == "depends_on"@ {
            assert(k == seq!['d', 'e', 'p', 'e', 'n', 'd', 's', '_', 'o', 'n']);
        } else if k == "supersedes"@ {
            assert(k == seq!['s', 'u', 'p', 'e', 'r', 's', 'e', 'd', 'e', 's']);
        } else {
            assert(k == seq!['r', 'e', 'l', 'a', 't', 'e', 'd', '_', 't', 'o']);
        }
    }
}

/// Relation slots change only through relation operations: a field
/// update keyed by `depends_on`, `supersedes` or `related_to` is refused
/// with the relation-field message and yields no field diff, whatever
/// entries came before it.
pub proof fn lemma_relation_keys_are_refused(
    target: Seq<char>,
    o: GraphKnowledgeObjectNode,
    es: Seq<FieldEntry>,
    e: FieldEntry,
)
    requires
        e.key@ == "depends_on"@ || e.key@ == "supersedes"@ || e.key@ == "related_to"@,
    ensures
        update_diags(target, es.push(e)) == update_diags(target, es).push(
            validation_diag(target, "field `"@ + e.key@ + "` is a relation field; use a relation operation"@),
        ),
        update_diffs(o, es.push(e)) == update_diffs(o, es),
{
    lemma_relation_names_are_field_keys(e.key@);
    reveal_strlit("depends_on");
    reveal_strlit("supersedes");
    reveal_strlit("related_to");
    assert(is_relation_field(e.key@));
    assert(es.push(e).drop_last() =~= es);
    assert(es.push(e).last() == e);
}

/// What is wrong with one field update, if anything.
pub open spec fn field_problem(k: Seq<char>, v: Seq<char>) -> Option<Seq<char>> {
    if !is_field_key(k) {
        Some("field key `"@ + k + "` is invalid"@)
    } else if is_relation_field(k) {
        Some("field `"@ + k + "` is a relation field; use a relation operation"@)
    } else if is_blank(v) {
        Some("field `"@ + k + "` requires a non-empty value"@)
    } else {
        None
    }
}

pub open spec fn update_diags(target: Seq<char>, es: Seq<FieldEntry>) -> Seq<DiagView>
    decreases es.len(),
{
    if es.len() == 0 {
        seq![]
    } else {
        let rest = update_diags(target, es.drop_last());
        match field_problem(es.last().key@, es.last().value@) {
            Some(m) => rest.push(validation_diag(target, m)),
            None => rest,
        }
    }
}

pub open spec fn update_diffs(o: GraphKnowledgeObjectNode, es: Seq<FieldEntry>) -> Seq<DiffView>
    decreases es.len(),
{
    if es.len() == 0 {
        seq![]
    } else {
        let rest = update_diffs(o, es.drop_last());
        let e = es.last();
        match field_problem(e.key@, e.value@) {
            Some(_) => rest,
            None => rest.push(text_diff("fields."@ + e.key@, o.fields.spec_get(e.key@), Some(e.value@))),
        }
    }
}

pub open spec fn fields_reason() -> Seq<char> {
    "Verified claim field changes require evidence review before approval."@
}

pub open spec fn update_fields_findings(
    g: GraphIndex,
    target: Seq<char>,
    base: Seq<char>,
    fields: FieldMap,
) -> FindingsView {
    match graph_object(g, target) {
        None => only_diag(missing_object_diag(target)),
        Some(o) => if base != o.content_hash@ {
            only_diag(mismatch_diag(base, o))
        } else {
            findings(
                update_diags(target, fields.entries_view()),
                update_diffs(o, fields.entries_view()),
                seq![],
                claim_obligations(o, fields_reason()),
                claim_follow_up(o),
            )
        },
    }
}

fn field_key_ok(k: &str) -> (r: bool)
    ensures
        r == is_field_key(k@),
{
    let cs = crate::text::chars_of(k);
    if cs.len() == 0 || !('a' <= cs[0] && cs[0] <= 'z') {
        return false;
    }
    let mut i: usize = 1;
    while i < cs.len()
        invariant
            cs@ == k@,
            1 <= i <= cs@.len(),
            forall|j: int| 1 <= j < i ==> is_lower(#[trigger] cs@[j]) || ('0' <= cs@[j] && cs@[j] <= '9') || cs@[j]
                == '_',
        decreases cs.len() - i,
    {
        let c = cs[i];
        if !(('a' <= c && c <= 'z') || ('0' <= c && c <= '9') || c == '_') {
            return false;
        }
        i = i + 1;
    }
    true
}

fn relation_field(k: &str) -> (r: bool)
    ensures
        r == is_relation_field(k@),
{
    str_eq(k, GraphRelationKind::DependsOn.as_str()) || str_eq(k, GraphRelationKind::Supersedes.as_str())
        || str_eq(k, GraphRelationKind::RelatedTo.as_str())
}

fn field_problem_of(k: &str, v: &str) -> (r: Option<String>)
    ensures
        opt_view(r) == field_problem(k@, v@),
{
    if !field_key_ok(k) {
        Some(join3("field key `", k, "` is invalid"))
    } else if relation_field(k) {
        Some(join3("field `", k, "` is a relation field; use a relation operation"))
    } else if str_is_blank(v) {
        Some(join3("field `", k, "` requires a non-empty value"))
    } else {
        None
    }
}

fn validate_update_fields(g: &GraphIndex, target: &str, base: &str, fields: &FieldMap) -> (r: Findings)
    ensures
        r.view() == update_fields_findings(*g, target@, base@, *fields),
{
    let o = match existing_target(g, target) {
        Ok(o) => o,
        Err(f) => return f,
    };
    if let Some(f) = stale_hash(o, base) {
        return f;
    }
    let mut f = Findings::new();
    let n = fields.len();
    let ghost es = fields.entries_view();
    let mut i: usize = 0;
    while i < n
        invariant
            n == es.len(),
            es == fields.entries_view(),
            i <= n,
            graph_object(*g, target@) == Some(*o),
            f.view() == findings(update_diags(target@, es.take(i as int)), update_diffs(*o, es.take(i as int)), seq![], seq![], seq![]),
        decreases n - i,
    {
        let e = fields.entry(i);
        proof {
            assert(es.take(i + 1).drop_last() =~= es.take(i as int));
            assert(es.take(i + 1).last() == es[i as int]);
        }
        match field_problem_of(e.key.as_str(), e.value.as_str()) {
            Some(m) => {
                f.push_diag(validation_diagnostic(target, m));
            },
            None => {
                let old_value = match o.fields.get(e.key.as_str()) {
                    Some(v) => Some(v.clone()),
                    None => None,
                };
                f.push_diff(text_diff_of(owned("fields.").concat(e.key.as_str()), old_value, Some(e.value.clone())));
            },
        }
        i = i + 1;
    }
    proof {
        assert(es.take(n as int) =~= es);
    }
    if verified_claim(o) {
        f.push_obligation(o.id.as_str(), "Verified claim field changes require evidence review before approval.");
    }
    proof {
        assert(f.view().obligations =~= claim_obligations(*o, fields_reason()));
        assert(f.view().follow_up =~= claim_follow_up(*o));
    }
    f
}

// ---- supersede ----

/// What is wrong with the `i`-th supersession target, if anything.
pub open spec fn supersede_problem(
    g: GraphIndex,
    target: Seq<char>,
    o: GraphKnowledgeObjectNode,
    raws: Seq<Seq<char>>,
    i: int,
) -> Option<DiagView> {
    let raw = raws[i];
    if !is_object_id_text(raw) {
        Some(invalid_id_diag(raw, "supersedes target"@))
    } else if exists|j: int| 0 <= j < i && #[trigger] raws[j] == raw {
        Some(validation_diag(target, "duplicate supersedes target `"@ + raw + "`"@))
    } else if graph_object(g, raw) is None {
        Some(missing_object_diag(raw))
    } else if strs_view(o.relations.supersedes@).contains(raw) {
        Some(validation_diag(target, "supersedes target `"@ + raw + "` already exists"@))
    } else {
        None
    }
}

pub open spec fn supersede_diags(
    g: GraphIndex,
    target: Seq<char>,
    o: GraphKnowledgeObjectNode,
    raws: Seq<Seq<char>>,
    n: nat,
) -> Seq<DiagView>
    decreases n,
{
    if n == 0 {
        seq![]
    } else {
        let rest = supersede_diags(g, target, o, raws, (n - 1) as nat);
        match supersede_problem(g, target, o, raws, n - 1) {
            Some(d) => rest.push(d),
            None => rest,
        }
    }
}

pub open spec fn supersede_relations(
    g: GraphIndex,
    target: Seq<char>,
    o: GraphKnowledgeObjectNode,
    raws: Seq<Seq<char>>,
    n: nat,
) -> Seq<RelationView>
    decreases n,
{
    if n == 0 {
        seq![]
    } else {
        let rest = supersede_relations(g, target, o, raws, (n - 1) as nat);
        match supersede_problem(g, target, o, raws, n - 1) {
            Some(_) => rest,
            None => rest.push((target, GraphRelationKind::Supersedes, raws[n - 1], "add"@)),
        }
    }
}

pub open spec fn supersede_diffs(
    g: GraphIndex,
    target: Seq<char>,
    o: GraphKnowledgeObjectNode,
    raws: Seq<Seq<char>>,
    n: nat,
) -> Seq<DiffView>
    decreases n,
{
    if n == 0 {
        seq![]
    } else {
        let rest = supersede_diffs(g, target, o, raws, (n - 1) as nat);
        match supersede_problem(g, target, o, raws, n - 1) {
            Some(_) => rest,
            None => rest.push(text_diff("relations.supersedes"@, None, Some(raws[n - 1]))),
        }
    }
}

pub open spec fn supersede_reason() -> Seq<char> {
    "Verified claim supersession changes require evidence review before approval."@
}

pub open spec fn supersede_findings(
    g: GraphIndex,
    target: Seq<char>,
    base: Seq<char>,
    raws: Seq<Seq<char>>,
) -> FindingsView {
    match graph_object(g, target) {
        None => only_diag(missing_object_diag(target)),
        Some(o) => if base != o.content_hash@ {
            only_diag(mismatch_diag(base, o))
        } else {
            findings(
                supersede_diags(g, target, o, raws, raws.len()),
                supersede_diffs(g, target, o, raws, raws.len()),
                supersede_relations(g, target, o, raws, raws.len()),
                claim_obligations(o, supersede_reason()),
                claim_follow_up(o),
            )
        },
    }
}

fn validate_supersede(g: &GraphIndex, target: &str, base: &str, supersedes: &Vec<String>) -> (r: Findings)
    ensures
        r.view() == supersede_findings(*g, target@, base@, strs_view(supersedes@)),
{
    let o = match existing_target(g, target) {
        Ok(o) => o,
        Err(f) => return f,
    };
    if let Some(f) = stale_hash(o, base) {
        return f;
    }
    let ghost raws = strs_view(supersedes@);
    let mut f = Findings::new();
    let mut seen: Vec<String> = Vec::new();
    let mut i: usize = 0;
    while i < supersedes.len()
        invariant
            raws == strs_view(supersedes@),
            i <= supersedes@.len(),
            graph_object(*g, target@) == Some(*o),
            forall|x: Seq<char>|
                #[trigger] strs_view(seen@).contains(x) <==> (is_object_id_text(x) && exists|j: int|
                    0 <= j < i && #[trigger] raws[j] == x),
            f.view() == findings(
                supersede_diags(*g, target@, *o, raws, i as nat),
                supersede_diffs(*g, target@, *o, raws, i as nat),
                supersede_relations(*g, target@, *o, raws, i as nat),
                seq![],
                seq![],
            ),
        decreases supersedes.len() - i,
    {
        let raw = supersedes[i].as_str();
        let ghost ri = raws[i as int];
        let ghost seen_before = strs_view(seen@);
        let ghost added = is_object_id_text(ri) && !exists|j: int| 0 <= j < i && #[trigger] raws[j] == ri;
        proof {
            assert(raw@ == ri);
        }
        if !is_object_id(raw) {
            f.push_diag(invalid_id_diagnostic(raw, "supersedes target"));
        } else if contains_str(&seen, raw) {
            proof {
                let j = choose|j: int| 0 <= j < i && #[trigger] raws[j] == ri;
                assert(exists|j: int| 0 <= j < i && #[trigger] raws[j] == ri);
            }
            f.push_diag(validation_diagnostic(target, join3("duplicate supersedes target `", raw, "`")));
        } else {
            proof {
                assert(!exists|j: int| 0 <= j < i && #[trigger] raws[j] == ri);
            }
            let ghost before = seen@;
            seen.push(owned(raw));
            proof {
                assert(strs_view(seen@) =~= strs_view(before).push(ri));
            }
            if !g.contains_object(raw) {
                f.push_diag(missing_object_diagnostic(raw));
            } else if contains_str(&o.relations.supersedes, raw) {
                f.push_diag(validation_diagnostic(target, join3("supersedes target `", raw, "` already exists")));
            } else {
                f.push_relation(
                    AffectedRelation {
                        source: owned(target),
                        relation: GraphRelationKind::Supersedes,
                        target: owned(raw),
                        action: owned("add"),
                    },
                );
                f.push_diff(text_diff_of(owned("relations.supersedes"), None, Some(owned(raw))));
            }
        }
        proof {
            assert(strs_view(seen@) == if added { seen_before.push(ri) } else { seen_before });
            assert forall|x: Seq<char>|
                #[trigger] strs_view(seen@).contains(x) <==> (is_object_id_text(x) && exists|j: int|
                    0 <= j < i + 1 && #[trigger] raws[j] == x) by {
                if seen_before.contains(x) {
                    let j = choose|j: int| 0 <= j < i && #[trigger] raws[j] == x;
                    assert(0 <= j < i + 1 && raws[j] == x);
                }
                if added && x == ri {
                    assert(raws[i as int] == x);
                }
                if strs_view(seen@).contains(x) {
                    if added {
                        let m = choose|m: int| 0 <= m < strs_view(seen@).len() && strs_view(seen@)[m] == x;
                        if m < seen_before.len() {
                            assert(seen_before[m] == x);
                            assert(seen_before.contains(x));
                        }
                    }
                }
                if is_object_id_text(x) && exists|j: int| 0 <= j < i + 1 && #[trigger] raws[j] == x {
                    let j = choose|j: int| 0 <= j < i + 1 && #[trigger] raws[j] == x;
                    if j < i {
                        assert(exists|j: int| 0 <= j < i && #[trigger] raws[j] == x);
                        assert(seen_before.contains(x));
                        if added {
                            let m = choose|m: int| 0 <= m < seen_before.len() && seen_before[m] == x;
                            assert(strs_view(seen@)[m] == x);
                        }
                    } else {
                        assert(x == ri);
                        if !added {
                            assert(exists|j: int| 0 <= j < i && #[trigger] raws[j] == ri);
                            let j2 = choose|j2: int| 0 <= j2 < i && #[trigger] raws[j2] == ri;
                            assert(seen_before.contains(x));
                        } else {
                            assert(strs_view(seen@)[seen_before.len() as int] == x);
                        }
                    }
                }
            }
        }
        i = i + 1;
    }
    if verified_claim(o) {
        f.push_obligation(
            o.id.as_str(),
            "Verified claim supersession changes require evidence review before approval.",
        );
    }
    proof {
        assert(f.view().obligations =~= claim_obligations(*o, supersede_reason()));
        assert(f.view().follow_up =~= claim_follow_up(*o));
    }
    f
}

// ---- revoke ----

pub open spec fn revoke_findings(g: GraphIndex, target: Seq<char>, base: Seq<char>) -> FindingsView {
    match graph_object(g, target) {
        None => only_diag(missing_object_diag(target)),
        Some(o) => if base != o.content_hash@ {
            only_diag(mismatch_diag(base, o))
        } else {
            findings(
                seq![],
                seq![text_diff("status"@, opt_view(o.status), Some("revoked"@))],
                seq![],
                seq![],
                seq!["Review source lifecycle fields for `"@ + target + "` before applying the revoke intent."@],
            )
        },
    }
}

fn validate_revoke(g: &GraphIndex, target: &str, base: &str) -> (r: Findings)
    ensures
        r.view() == revoke_findings(*g, target@, base@),
{
    let o = match existing_target(g, target) {
        Ok(o) => o,
        Err(f) => return f,
    };
    if let Some(f) = stale_hash(o, base) {
        return f;
    }
    let mut f = Findings::new();
    f.push_diff(text_diff_of(owned("status"), clone_opt_string(&o.status), Some(owned("revoked"))));
    let note = join3("Review source lifecycle fields for `", target, "` before applying the revoke intent.");
    let ghost nv = note@;
    f.follow_up.push(note);
    proof {
        assert(strs_view(f.follow_up@) =~= seq![nv]);
    }
    f
}

// ---- create_object ----

pub open spec fn placement_diags(g: GraphIndex, target: Seq<char>, page: Seq<char>, after: Option<Seq<char>>) -> Seq<
    DiagView,
> {
    if !page_exists(g, page) {
        seq![
            error_view(
                DiagnosticCode::PatchPlacementInvalid,
                "placement page_id `"@ + page + "` does not exist"@,
                Some(target),
                None,
            ),
        ]
    } else {
        match after {
            None => seq![],
            Some(a) => if !is_object_id_text(a) {
                seq![invalid_id_diag(a, "placement after target"@)]
            } else {
                match graph_object(g, a) {
                    Some(o) => if o.page_id@ == page {
                        seq![]
                    } else {
                        seq![
                            error_view(
                                DiagnosticCode::PatchPlacementInvalid,
                                "placement after `"@ + a + "` is on page `"@ + o.page_id@ + "`, not `"@ + page
                                    + "`"@,
                                Some(target),
                                None,
                            ),
                        ]
                    },
                    None => seq![missing_object_diag(a)],
                }
            },
        }
    }
}

pub open spec fn create_findings(
    g: GraphIndex,
    target: Seq<char>,
    kind: Seq<char>,
    status: Option<Seq<char>>,
    body: Seq<char>,
    fields: FieldMap,
    page: Seq<char>,
    after: Option<Seq<char>>,
    draft: DraftValidation,
) -> FindingsView {
    if graph_object(g, target) is Some {
        only_diag(
            error_view(
                DiagnosticCode::PatchTargetAlreadyExists,
                "create_object target `"@ + target + "` already exists in the graph artifact"@,
                Some(target),
                Some(DiagnosticCode::PatchTargetAlreadyExists.help_text()),
            ),
        )
    } else {
        let raised = distinct_obligations(draft.proof_obligations@);
        findings(
            diags_view(draft.diagnostics@) + placement_diags(g, target, page, after),
            seq![
                ("object"@, None, Some(
                    DiffValueView::Created(target, kind, status, body, entries_pairs(fields), page, after),
                )),
            ],
            seq![],
            raised.map_values(|p: (Seq<char>, Seq<char>)| (p.0, p.1, standard_evidence())),
            raised.map_values(|p: (Seq<char>, Seq<char>)| follow_up_text(p.0)),
        )
    }
}

fn validate_placement(g: &GraphIndex, target: &str, placement: &PlacementHint, f: &mut Findings)
    ensures
        final(f).view() == findings(
            old(f).view().diagnostics + placement_diags(*g, target@, placement.page_id@, opt_view(placement.after)),
            old(f).view().diffs,
            old(f).view().relations,
            old(f).view().obligations,
            old(f).view().follow_up,
        ),
{
    let ghost start = f.view();
    if !g.page_exists(placement.page_id.as_str()) {
        f.push_diag(
            error_diag(
                DiagnosticCode::PatchPlacementInvalid,
                join3("placement page_id `", placement.page_id.as_str(), "` does not exist"),
                Some(owned(target)),
                None,
            ),
        );
        proof {
            assert(f.view().diagnostics =~= start.diagnostics + placement_diags(
                *g,
                target@,
                placement.page_id@,
                opt_view(placement.after),
            ));
        }
        return;
    }
    match &placement.after {
        None => {
            proof {
                assert(f.view().diagnostics =~= start.diagnostics + seq![]);
            }
        },
        Some(after) => {
            if !is_object_id(after.as_str()) {
                f.push_diag(invalid_id_diagnostic(after.as_str(), "placement after target"));
            } else {
                match g.find(after.as_str()) {
                    Some(i) => {
                        let page = g.objects[i].page_id.as_str();
                        if !str_eq(page, placement.page_id.as_str()) {
                            let message = join5(
                                "placement after `",
                                after.as_str(),
                                "` is on page `",
                                page,
                                "`, not `",
                            ).concat(placement.page_id.as_str()).concat("`");
                            f.push_diag(
                                error_diag(
                                    DiagnosticCode::PatchPlacementInvalid,
                                    message,
                                    Some(owned(target)),
                                    None,
                                ),
                            );
                        }
                    },
                    None => {
                        f.push_diag(missing_object_diagnostic(after.as_str()));
                    },
                }
            }
            proof {
                assert(f.view().diagnostics =~= start.diagnostics + placement_diags(
                    *g,
                    target@,
                    placement.page_id@,
                    opt_view(placement.after),
                ));
            }
        },
    }
}

fn validate_create_object(
    g: &GraphIndex,
    target: &str,
    kind: &String,
    status: &Option<String>,
    body: &String,
    fields: &FieldMap,
    placement: &PlacementHint,
    draft: &DraftValidation,
) -> (r: Findings)
    ensures
        r.view() == create_findings(
            *g,
            target@,
            kind@,
            opt_view(*status),
            body@,
            *fields,
            placement.page_id@,
            opt_view(placement.after),
            *draft,
        ),
{
    if g.contains_object(target) {
        return Findings::only(
            error_diag(
                DiagnosticCode::PatchTargetAlreadyExists,
                join3("create_object target `", target, "` already exists in the graph artifact"),
                Some(owned(target)),
                Some(DiagnosticCode::PatchTargetAlreadyExists.default_help()),
            ),
        );
    }
    let mut f = Findings::new();
    // the draft's own diagnostics
    proof {
        assert(diags_view(draft.diagnostics@.take(0)) =~= seq![]);
    }
    let mut i: usize = 0;
    while i < draft.diagnostics.len()
        invariant
            i <= draft.diagnostics@.len(),
            f.view() == findings(diags_view(draft.diagnostics@.take(i as int)), seq![], seq![], seq![], seq![]),
        decreases draft.diagnostics.len() - i,
    {
        f.push_diag(draft.diagnostics[i].duplicate());
        proof {
            assert(diags_view(draft.diagnostics@.take(i + 1)) =~= diags_view(draft.diagnostics@.take(i as int)).push(
                diag_view(draft.diagnostics@[i as int]),
            ));
        }
        i = i + 1;
    }
    proof {
        assert(draft.diagnostics@.take(draft.diagnostics@.len() as int) =~= draft.diagnostics@);
    }
    // the obligations it raises, each once
    let ghost obs = draft.proof_obligations@;
    proof {
        assert(obs.take(0) =~= seq![]);
        assert(distinct_obligations(obs.take(0)) =~= seq![]);
        assert(distinct_obligations(obs.take(0)).map_values(|p: (Seq<char>, Seq<char>)| (p.0, p.1, standard_evidence()))
            =~= seq![]);
        assert(distinct_obligations(obs.take(0)).map_values(|p: (Seq<char>, Seq<char>)| follow_up_text(p.0))
            =~= seq![]);
    }
    let mut k: usize = 0;
    while k < draft.proof_obligations.len()
        invariant
            obs == draft.proof_obligations@,
            k <= obs.len(),
            f.view() == findings(
                diags_view(draft.diagnostics@),
                seq![],
                seq![],
                distinct_obligations(obs.take(k as int)).map_values(
                    |p: (Seq<char>, Seq<char>)| (p.0, p.1, standard_evidence()),
                ),
                distinct_obligations(obs.take(k as int)).map_values(|p: (Seq<char>, Seq<char>)| follow_up_text(p.0)),
            ),
        decreases obs.len() - k,
    {
        let ob = &draft.proof_obligations[k];
        let ghost prior = distinct_obligations(obs.take(k as int));
        let ghost p = (ob.object_id@, ob.reason@);
        proof {
            assert(obs.take(k + 1).drop_last() =~= obs.take(k as int));
            assert(obs.take(k + 1).last() == ob);
        }
        let present = f.has_obligation(ob.object_id.as_str(), ob.reason.as_str());
        proof {
            let mapped = prior.map_values(|q: (Seq<char>, Seq<char>)| (q.0, q.1, standard_evidence()));
            assert(f.view().obligations == mapped);
            if present {
                let m = choose|m: int|
                    0 <= m < f.obligations@.len() && (#[trigger] f.obligations@[m]).object_id@ == ob.object_id@
                        && f.obligations@[m].reason@ == ob.reason@;
                assert(f.view().obligations[m] == obligation_view(f.obligations@[m]));
                assert(mapped[m] == (prior[m].0, prior[m].1, standard_evidence()));
                assert(prior[m] == p);
                assert(prior.contains(p));
            } else {
                if prior.contains(p) {
                    let m = choose|m: int| 0 <= m < prior.len() && prior[m] == p;
                    assert(mapped[m] == (p.0, p.1, standard_evidence()));
                    assert(f.view().obligations[m] == obligation_view(f.obligations@[m]));
                    assert(f.obligations@[m].object_id@ == ob.object_id@ && f.obligations@[m].reason@ == ob.reason@);
                }
            }
        }
        if !present {
            f.push_obligation(ob.object_id.as_str(), ob.reason.as_str());
            proof {
                assert(prior.push(p).map_values(|q: (Seq<char>, Seq<char>)| (q.0, q.1, standard_evidence()))
                    =~= prior.map_values(|q: (Seq<char>, Seq<char>)| (q.0, q.1, standard_evidence())).push(
                    (p.0, p.1, standard_evidence()),
                ));
                assert(prior.push(p).map_values(|q: (Seq<char>, Seq<char>)| follow_up_text(q.0))
                    =~= prior.map_values(|q: (Seq<char>, Seq<char>)| follow_up_text(q.0)).push(
                    follow_up_text(p.0),
                ));
            }
        }
        k = k + 1;
    }
    proof {
        assert(obs.take(obs.len() as int) =~= obs);
    }
    validate_placement(g, target, placement, &mut f);
    let created = CreatedObject {
        id: owned(target),
        kind: kind.clone(),
        status: clone_opt_string(status),
        body: body.clone(),
        fields: fields.duplicate(),
        page_id: placement.page_id.clone(),
        after: clone_opt_string(&placement.after),
    };
    proof {
        assert(entries_pairs(created.fields) =~= entries_pairs(*fields));
    }
    f.push_diff(PatchDiff { field: owned("object"), old: None, new: Some(DiffValue::Created(created)) });
    f
}

// ---- the whole patch ----

/// What the change itself reports, for a well-formed target.
pub open spec fn intent_findings(
    g: GraphIndex,
    target: Seq<char>,
    intent: PatchIntent,
    draft: DraftValidation,
) -> FindingsView {
    match intent {
        PatchIntent::ReplaceBody { base_hash, body } => replace_body_findings(g, target, base_hash@, body@),
        PatchIntent::UpdateFields { base_hash, fields } => update_fields_findings(g, target, base_hash@, fields),
        PatchIntent::CreateObject { kind, status, body, fields, placement } => create_findings(
            g,
            target,
            kind@,
            opt_view(status),
            body@,
            fields,
            placement.page_id@,
            opt_view(placement.after),
            draft,
        ),
        PatchIntent::Supersede { base_hash, supersedes } => supersede_findings(
            g,
            target,
            base_hash@,
            strs_view(supersedes@),
        ),
        PatchIntent::Revoke { base_hash } => revoke_findings(g, target, base_hash@),
    }
}

/// Everything validating the patch reports: a blank reason first, then an
/// invalid target alone, or what the change reports.
pub open spec fn patch_findings(g: GraphIndex, patch: PatchDocument, draft: DraftValidation) -> FindingsView {
    let reason = reason_diags(patch.reason@);
    if !is_object_id_text(patch.target@) {
        findings(reason.push(invalid_id_diag(patch.target@, "patch target"@)), seq![], seq![], seq![], seq![])
    } else {
        let f = intent_findings(g, patch.target@, patch.intent, draft);
        findings(reason + f.diagnostics, f.diffs, f.relations, f.obligations, f.follow_up)
    }
}

/// Validate `patch` against `graph`. `draft` is what validating the object
/// a `create_object` patch authors found; other operations ignore it.
///
/// The report lists, in order, every problem found, the diffs the patch
/// would make, the relations it adds and the proof obligations it raises
/// with their follow-ups; the patch is valid, and accepted for review, when
/// no diagnostic is an error.
pub fn validate_patch(graph: &GraphIndex, patch: PatchDocument, draft: &DraftValidation) -> (r: PatchValidationReport)
    ensures
        report_findings(r) == patch_findings(*graph, patch, *draft),
        r.valid == no_errors(report_findings(r).diagnostics),
        r.accepted_for_review == r.valid,
        opt_view(r.target) == if is_object_id_text(patch.target@) {
            Some(patch.target@)
        } else {
            None
        },
        r.operation == patch.intent.op(),
{
    let operation = patch.operation();
    let mut f = Findings::new();
    if str_is_blank(patch.reason.as_str()) {
        f.push_diag(
            error_diag(
                DiagnosticCode::PatchInvalidDocument,
                owned("patch reason must be a non-empty string"),
                None,
                Some("Add a short review reason explaining why this patch is proposed."),
            ),
        );
    }
    proof {
        assert(f.view().diagnostics =~= reason_diags(patch.reason@));
    }
    let target = patch.target.as_str();
    let (found, reported_target) = if !is_object_id(target) {
        f.push_diag(invalid_id_diagnostic(target, "patch target"));
        (f, None)
    } else {
        let branch = match &patch.intent {
            PatchIntent::ReplaceBody { base_hash, body } => validate_replace_body(
                graph,
                target,
                base_hash.as_str(),
                body.as_str(),
            ),
            PatchIntent::UpdateFields { base_hash, fields } => validate_update_fields(
                graph,
                target,
                base_hash.as_str(),
                fields,
            ),
            PatchIntent::CreateObject { kind, status, body, fields, placement } => validate_create_object(
                graph,
                target,
                kind,
                status,
                body,
                fields,
                placement,
                draft,
            ),
            PatchIntent::Supersede { base_hash, supersedes } => validate_supersede(
                graph,
                target,
                base_hash.as_str(),
                supersedes,
            ),
            PatchIntent::Revoke { base_hash } => validate_revoke(graph, target, base_hash.as_str()),
        };
        let mut diagnostics = f.diagnostics;
        let mut extra = branch.diagnostics;
        let ghost d1 = diagnostics@;
        let ghost d2 = extra@;
        diagnostics.append(&mut extra);
        proof {
            assert(diags_view(diagnostics@) =~= diags_view(d1) + diags_view(d2));
        }
        (
            Findings {
                diagnostics,
                diffs: branch.diffs,
                relations: branch.relations,
                obligations: branch.obligations,
                follow_up: branch.follow_up,
            },
            Some(owned(target)),
        )
    };
    let valid = no_error_in(&found.diagnostics);
    PatchValidationReport {
        valid,
        accepted_for_review: valid,
        target: reported_target,
        operation,
        diffs: found.diffs,
        affected_relations: found.relations,
        proof_obligations: found.obligations,
        required_follow_up: found.follow_up,
        diagnostics: found.diagnostics,
    }
}

fn no_error_in(ds: &Vec<Diagnostic>) -> (r: bool)
    ensures
        r == no_errors(diags_view(ds@)),
{
    let mut i: usize = 0;
    while i < ds.len()
        invariant
            i <= ds@.len(),
            forall|j: int| 0 <= j < i ==> (#[trigger] ds@[j]).severity != Severity::Error,
        decreases ds.len() - i,
    {
        if ds[i].severity == Severity::Error {
            proof {
                assert(diags_view(ds@)[i as int].0 == Severity::Error);
            }
            return false;
        }
        i = i + 1;
    }
    proof {
        assert forall|j: int| 0 <= j < diags_view(ds@).len() implies (#[trigger] diags_view(ds@)[j]).0
            != Severity::Error by {
            assert(diags_view(ds@)[j] == diag_view(ds@[j]));
        }
    }
    true
}

// ---- laws ----

/// A patch that edits an existing object against a content hash other
/// than the object's current one is invalid, and says so.
pub proof fn lemma_stale_base_hash_invalidates(g: GraphIndex, patch: PatchDocument, draft: DraftValidation)
    requires
        is_object_id_text(patch.target@),
        graph_object(g, patch.target@) is Some,
        patch.intent.spec_base_hash() matches Some(h) && h != graph_object(g, patch.target@)->0.content_hash@,
    ensures
        patch_findings(g, patch, draft).diagnostics.contains(
            mismatch_diag(patch.intent.spec_base_hash()->0, graph_object(g, patch.target@)->0),
        ),
        !no_errors(patch_findings(g, patch, draft).diagnostics),
{
    let f = patch_findings(g, patch, draft);
    let reason = reason_diags(patch.reason@);
    let d = mismatch_diag(patch.intent.spec_base_hash()->0, graph_object(g, patch.target@)->0);
    assert(intent_findings(g, patch.target@, patch.intent, draft).diagnostics == seq![d]);
    assert(f.diagnostics[reason.len() as int] == d);
}

/// Revoking an object changes its status only: it adds no relation and
/// raises no proof obligation.
pub proof fn lemma_revoke_changes_no_relation(g: GraphIndex, patch: PatchDocument, draft: DraftValidation)
    requires
        patch.intent is Revoke,
    ensures
        patch_findings(g, patch, draft).relations.len() == 0,
        patch_findings(g, patch, draft).obligations.len() == 0,
        patch_findings(g, patch, draft).diffs.len() <= 1,
{
}

} // verus!
