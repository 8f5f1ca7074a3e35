//! Immutable authorized field-lowering detail: which managed fields of one
//! exact object version are released to a less restrictive class, under
//! which authorization, policy, rationale and effective date. Shape
//! validity never grants authority.

use vstd::prelude::*;

use crate::calendar::{canonical_date, is_canonical_date};
use crate::graph::strs_view;
use crate::identifiers::{is_canonical_uuid, is_digest, is_sha256_digest, is_uuid};
use crate::managed_field_provenance::{
    build_managed_field_provenance, contributions_of, fields_ok, renders, ContributionView,
    ManagedFieldContribution, ManagedFieldContributionInput, ManagedFieldProvenanceInput,
};
use crate::string_set::lists_sorted;
use crate::text::{chars_of, is_blank, is_empty_or_padded, owned, seq_lt, str_eq, str_is_blank, str_is_empty_or_padded};
use crate::visibility::{canonical_visibility, visibility_named};

verus! {

pub const MANAGED_FIELD_DECLASSIFICATION_SCHEMA_VERSION: &'static str = "adoc.managed_field_declassification.v0";

/// The largest event ordinal a JSON number carries exactly.
pub const MAX_SAFE_ORDINAL: u64 = 9_007_199_254_740_991;

/// The longest rationale, in characters.
pub const MAX_RATIONALE_CHARS: usize = 4096;

/// One lowered field: its selector, the class it leaves and the class it
/// enters, and the native assertions it was built from.
#[derive(Debug, Clone, PartialEq, Eq)]
pub struct ManagedFieldDeclassificationFieldInput {
    pub selector: String,
    pub prior_classification: String,
    pub new_classification: String,
    pub assertion_ids: Vec<String>,
}

/// The unvalidated declassification request.
#[derive(Debug, Clone, PartialEq, Eq)]
pub struct ManagedFieldDeclassificationInput {
    pub request_id: String,
    pub workspace_id: String,
    pub canonical_id: String,
    pub version_id: String,
    pub content_digest: String,
    pub provenance_record_digest: String,
    pub state_event_ordinal: u64,
    pub state_event_digest: String,
    pub fields: Vec<ManagedFieldDeclassificationFieldInput>,
    pub principal_id: String,
    pub auth_session_id: String,
    pub authorization_decision_id: String,
    pub policy_version: String,
    pub rationale: String,
    pub effective_date: String,
    pub restricted_evidence_remains_hidden: bool,
}

/// A validated declassification record; built only through
/// [`build_managed_field_declassification`].
#[derive(Debug, Clone, PartialEq, Eq)]
pub struct ManagedFieldDeclassification {
    schema_version: String,
    input: ManagedFieldDeclassificationInput,
}

/// Why a declassification record was refused.
#[derive(Debug, Clone, Copy, PartialEq, Eq, Structural)]
pub enum ManagedFieldDeclassificationError {
    InvalidDocument,
    UnsupportedVersion,
    InvalidCoordinates,
    InvalidFields,
    InvalidApproval,
    Serialization,
}

impl ManagedFieldDeclassificationError {
    /// The explanation that `message` gives, as text.
    pub open spec fn message_text(self) -> Seq<char> {
        match self {
            Self::InvalidDocument => "Managed field declassification has an invalid closed document."@,
            Self::UnsupportedVersion => "Managed field declassification has an unsupported schema version."@,
            Self::InvalidCoordinates => "Managed field declassification has invalid exact coordinates or event binding."@,
            Self::InvalidFields =>
                "Managed field declassification requires distinct manifest selectors/assertions and strict classification lowering."@,
            Self::InvalidApproval =>
                "Managed field declassification has invalid policy, rationale, date, or evidence posture."@,
            Self::Serialization => "Managed field declassification serialization failed."@,
        }
    }

    /// The human-readable explanation.
    pub fn message(&self) -> (r: &'static str)
        ensures
            r@ == self.message_text(),
    {
        match self {
            Self::InvalidDocument => "Managed field declassification has an invalid closed document.",
            Self::UnsupportedVersion => "Managed field declassification has an unsupported schema version.",
            Self::InvalidCoordinates => "Managed field declassification has invalid exact coordinates or event binding.",
            Self::InvalidFields =>
                "Managed field declassification requires distinct manifest selectors/assertions and strict classification lowering.",
            Self::InvalidApproval =>
                "Managed field declassification has invalid policy, rationale, date, or evidence posture.",
            Self::Serialization => "Managed field declassification serialization failed.",
        }
    }
}

impl ManagedFieldDeclassification {
    /// The contract id the record carries.
    pub closed spec fn schema_view(self) -> Seq<char> {
        self.schema_version@
    }

    /// The normalized request the record holds.
    pub closed spec fn input_view(self) -> ManagedFieldDeclassificationInput {
        self.input
    }

    pub fn schema_version(&self) -> (r: &str)
        ensures
            r@ == self.schema_view(),
    {
        self.schema_version.as_str()
    }

    pub fn input(&self) -> (r: &ManagedFieldDeclassificationInput)
        ensures
            *r == self.input_view(),
    {
        &self.input
    }
}

/// The exact coordinates and the event binding: the request, the acting
/// principal, the session and the authorization decision are canonical
/// UUIDs; the object version is addressed as a provenance manifest accepts
/// it; both binding digests are `sha256:` digests; the event ordinal is a
/// JSON-safe integer.
pub open spec fn binding_ok(input: ManagedFieldDeclassificationInput) -> bool {
    &&& manifest_coordinates_ok(input)
    &&& is_uuid(input.request_id@)
    &&& is_uuid(input.principal_id@)
    &&& is_uuid(input.auth_session_id@)
    &&& is_uuid(input.authorization_decision_id@)
    &&& is_digest(input.provenance_record_digest@)
    &&& is_digest(input.state_event_digest@)
    &&& input.state_event_ordinal <= MAX_SAFE_ORDINAL
}

/// The object, version and content coordinates are those a provenance
/// manifest accepts: canonical UUIDs and a `sha256:` content digest.
pub open spec fn manifest_coordinates_ok(input: ManagedFieldDeclassificationInput) -> bool {
    &&& is_uuid(input.workspace_id@)
    &&& is_uuid(input.canonical_id@)
    &&& is_uuid(input.version_id@)
    &&& is_digest(input.content_digest@)
}

/// The field lowers its class: both are canonical visibilities and the new
/// one is strictly less restrictive.
pub open spec fn lowers(f: ManagedFieldDeclassificationFieldInput) -> bool {
    &&& visibility_named(f.prior_classification@) matches Some(prior)
    &&& visibility_named(f.new_classification@) matches Some(new)
    &&& new.rank() < prior.rank()
}

/// The policy version is exact, the rationale non-blank and at most 4096
/// characters, restricted evidence stays hidden, and the effective date is
/// a canonical ten-character calendar date outside year zero.
pub open spec fn approval_ok(input: ManagedFieldDeclassificationInput) -> bool {
    &&& !is_empty_or_padded(input.policy_version@)
    &&& !is_blank(input.rationale@)
    &&& input.rationale@.len() <= MAX_RATIONALE_CHARS
    &&& input.restricted_evidence_remains_hidden
    &&& !(input.effective_date@.len() >= 4 && input.effective_date@.subrange(0, 4) == "0000"@)
    &&& is_canonical_date(input.effective_date@)
}

/// The manifest contribution a declassified field names.
pub open spec fn contribution_of(f: ManagedFieldDeclassificationFieldInput) -> ManagedFieldContributionInput {
    ManagedFieldContributionInput { selector: f.selector, assertion_ids: f.assertion_ids }
}

pub open spec fn contributions(fs: Seq<ManagedFieldDeclassificationFieldInput>) -> Seq<ManagedFieldContributionInput> {
    fs.map_values(|f: ManagedFieldDeclassificationFieldInput| contribution_of(f))
}

/// The declassified fields form a valid set of manifest contributions,
/// and each lowers its class.
pub open spec fn fields_lowered(input: ManagedFieldDeclassificationInput) -> bool {
    &&& fields_ok(contributions(input.fields@))
    &&& forall|j: int| 0 <= j < input.fields@.len() ==> lowers(#[trigger] input.fields@[j])
}

/// Everything but the fields is carried over unchanged.
pub open spec fn same_scalars(a: ManagedFieldDeclassificationInput, b: ManagedFieldDeclassificationInput) -> bool {
    &&& a.request_id == b.request_id
    &&& a.workspace_id == b.workspace_id
    &&& a.canonical_id == b.canonical_id
    &&& a.version_id == b.version_id
    &&& a.content_digest == b.content_digest
    &&& a.provenance_record_digest == b.provenance_record_digest
    &&& a.state_event_ordinal == b.state_event_ordinal
    &&& a.state_event_digest == b.state_event_digest
    &&& a.principal_id == b.principal_id
    &&& a.auth_session_id == b.auth_session_id
    &&& a.authorization_decision_id == b.authorization_decision_id
    &&& a.policy_version == b.policy_version
    &&& a.rationale == b.rationale
    &&& a.effective_date == b.effective_date
    &&& a.restricted_evidence_remains_hidden == b.restricted_evidence_remains_hidden
}

/// `out` is `f` with its assertion IDs in increasing order.
pub open spec fn normalizes(out: ManagedFieldDeclassificationFieldInput, f: ManagedFieldDeclassificationFieldInput) -> bool {
    &&& out.selector@ == f.selector@
    &&& out.prior_classification@ == f.prior_classification@
    &&& out.new_classification@ == f.new_classification@
    &&& lists_sorted(strs_view(out.assertion_ids@), strs_view(f.assertion_ids@).to_set())
}

/// `o` normalizes some field of `fs`.
pub open spec fn normalized_from(o: ManagedFieldDeclassificationFieldInput, fs: Seq<ManagedFieldDeclassificationFieldInput>) -> bool {
    exists|j: int| 0 <= j < fs.len() && normalizes(o, #[trigger] fs[j])
}

/// Some field of `out` normalizes `f`.
pub open spec fn normalized_in(out: Seq<ManagedFieldDeclassificationFieldInput>, f: ManagedFieldDeclassificationFieldInput) -> bool {
    exists|i: int| 0 <= i < out.len() && normalizes(#[trigger] out[i], f)
}

/// The record's fields: one per requested field, normalized, in selector
/// order.
pub open spec fn declassified_fields(
    out: Seq<ManagedFieldDeclassificationFieldInput>,
    fs: Seq<ManagedFieldDeclassificationFieldInput>,
) -> bool {
    &&& out.len() == fs.len()
    &&& forall|i: int, j: int| 0 <= i < j < out.len() ==> seq_lt((#[trigger] out[i]).selector@, (#[trigger] out[j]).selector@)
    &&& forall|i: int| 0 <= i < out.len() ==> normalized_from(#[trigger] out[i], fs)
    &&& forall|j: int| 0 <= j < fs.len() ==> normalized_in(out, #[trigger] fs[j])
}

/// A contribution valid in view is valid whatever strings carry that view.
proof fn lemma_contribution_ok_by_view(x: ManagedFieldContributionInput, y: ManagedFieldContributionInput)
    requires
        x.selector@ == y.selector@,
        strs_view(x.assertion_ids@) == strs_view(y.assertion_ids@),
        crate::managed_field_provenance::contribution_ok(x),
    ensures
        crate::managed_field_provenance::contribution_ok(y),
{
    assert(x.assertion_ids@.len() == strs_view(x.assertion_ids@).len());
    assert(y.assertion_ids@.len() == strs_view(y.assertion_ids@).len());
    assert forall|i: int| 0 <= i < y.assertion_ids@.len() implies is_uuid(#[trigger] y.assertion_ids@[i]@) by {
        assert(strs_view(x.assertion_ids@)[i] == strs_view(y.assertion_ids@)[i]);
        assert(is_uuid(x.assertion_ids@[i]@));
    }
}

/// Contributions with equal views are equally valid.
proof fn lemma_fields_ok_by_view(a: Seq<ManagedFieldContributionInput>, b: Seq<ManagedFieldContributionInput>)
    requires
        a.len() == b.len(),
        forall|j: int|
            0 <= j < a.len() ==> (#[trigger] a[j]).selector@ == b[j].selector@ && strs_view(a[j].assertion_ids@)
                == strs_view(b[j].assertion_ids@),
    ensures
        fields_ok(a) == fields_ok(b),
{
    if fields_ok(a) {
        assert forall|i: int, j: int| 0 <= i < j < b.len() implies (#[trigger] b[i]).selector@ != (#[trigger] b[j]).selector@ by {
            assert(a[i].selector@ != a[j].selector@);
        }
        assert forall|j: int| 0 <= j < b.len() implies crate::managed_field_provenance::contribution_ok(#[trigger] b[j]) by {
            assert(crate::managed_field_provenance::contribution_ok(a[j]));
            lemma_contribution_ok_by_view(a[j], b[j]);
        }
    }
    if fields_ok(b) {
        assert forall|i: int, j: int| 0 <= i < j < a.len() implies (#[trigger] a[i]).selector@ != (#[trigger] a[j]).selector@ by {
            assert(b[i].selector@ != b[j].selector@);
        }
        assert forall|j: int| 0 <= j < a.len() implies crate::managed_field_provenance::contribution_ok(#[trigger] a[j]) by {
            assert(crate::managed_field_provenance::contribution_ok(b[j]));
            lemma_contribution_ok_by_view(b[j], a[j]);
        }
    }
}

fn lowers_exec(f: &ManagedFieldDeclassificationFieldInput) -> (r: bool)
    ensures
        r == lowers(*f),
{
    let prior = match canonical_visibility(f.prior_classification.as_str()) {
        Some(v) => v,
        None => {
            return false;
        },
    };
    let new = match canonical_visibility(f.new_classification.as_str()) {
        Some(v) => v,
        None => {
            return false;
        },
    };
    new != prior && new.stricter(prior) == prior
}

fn starts_with_year_zero(s: &str) -> (r: bool)
    ensures
        r == (s@.len() >= 4 && s@.subrange(0, 4) == "0000"@),
{
    proof {
        reveal_strlit("0000");
    }
    let cs = chars_of(s);
    if cs.len() < 4 {
        return false;
    }
    let r = cs[0] == '0' && cs[1] == '0' && cs[2] == '0' && cs[3] == '0';
    proof {
        if r {
            assert(s@.subrange(0, 4) =~= "0000"@);
        } else {
            assert(s@.subrange(0, 4)[0] == cs@[0] && s@.subrange(0, 4)[1] == cs@[1] && s@.subrange(0, 4)[2] == cs@[2]
                && s@.subrange(0, 4)[3] == cs@[3]);
        }
    }
    r
}

fn approval_ok_exec(input: &ManagedFieldDeclassificationInput) -> (r: bool)
    ensures
        r == approval_ok(*input),
{
    if str_is_empty_or_padded(input.policy_version.as_str()) || str_is_blank(input.rationale.as_str()) {
        return false;
    }
    if chars_of(input.rationale.as_str()).len() > MAX_RATIONALE_CHARS || !input.restricted_evidence_remains_hidden {
        return false;
    }
    if starts_with_year_zero(input.effective_date.as_str()) {
        return false;
    }
    canonical_date(input.effective_date.as_str()).is_some()
}

/// The fields rebuilt from the normalized manifest are the requested
/// fields, normalized, in selector order.
proof fn lemma_declassified(
    out: Seq<ManagedFieldDeclassificationFieldInput>,
    fs: Seq<ManagedFieldDeclassificationFieldInput>,
    mf: Seq<ManagedFieldContributionInput>,
    cv: Seq<ContributionView>,
)
    requires
        mf.len() == fs.len(),
        forall|j: int|
            0 <= j < mf.len() ==> (#[trigger] mf[j]).selector@ == fs[j].selector@ && strs_view(mf[j].assertion_ids@)
                == strs_view(fs[j].assertion_ids@),
        fields_ok(mf),
        contributions_of(cv, mf),
        out.len() == cv.len(),
        forall|i: int| 0 <= i < out.len() ==> (#[trigger] out[i]).selector@ == cv[i].selector && strs_view(out[i].assertion_ids@)
            == cv[i].assertion_ids && exists|j: int| 0 <= j < fs.len() && normalizes(out[i], #[trigger] fs[j]),
    ensures
        declassified_fields(out, fs),
{
    assert forall|j: int| 0 <= j < fs.len() implies normalized_in(out, #[trigger] fs[j]) by {
        assert(crate::managed_field_provenance::renders_some(cv, mf[j]));
        let i = choose|i: int| 0 <= i < cv.len() && renders(#[trigger] cv[i], mf[j]);
        assert(out[i].selector@ == fs[j].selector@);
        let j2 = choose|j2: int| 0 <= j2 < fs.len() && normalizes(out[i], #[trigger] fs[j2]);
        if j2 != j {
            if j2 < j {
                assert(mf[j2].selector@ != mf[j].selector@);
            } else {
                assert(mf[j].selector@ != mf[j2].selector@);
            }
        }
        assert(normalizes(out[i], fs[j]));
    }
    assert forall|a: int, b: int| 0 <= a < b < out.len() implies seq_lt((#[trigger] out[a]).selector@, (#[trigger] out[b]).selector@) by {
        assert(seq_lt(cv[a].selector, cv[b].selector));
    }
    assert forall|i: int| 0 <= i < out.len() implies normalized_from(#[trigger] out[i], fs) by {
        assert(out[i].selector@ == cv[i].selector);
    }
}

/// Validate a declassification request and normalize it: fields in
/// selector order, each one's assertion IDs in increasing order.
#[verifier::rlimit(40)]
pub fn build_managed_field_declassification(input: ManagedFieldDeclassificationInput) -> (r: Result<
    ManagedFieldDeclassification,
    ManagedFieldDeclassificationError,
>)
    ensures
        !binding_ok(input) ==> r == Err::<ManagedFieldDeclassification, _>(
            ManagedFieldDeclassificationError::InvalidCoordinates,
        ),
        binding_ok(input) && !fields_lowered(input) ==> r == Err::<ManagedFieldDeclassification, _>(
            ManagedFieldDeclassificationError::InvalidFields,
        ),
        binding_ok(input) && fields_lowered(input) && !approval_ok(input) ==> r == Err::<ManagedFieldDeclassification, _>(
            ManagedFieldDeclassificationError::InvalidApproval,
        ),
        binding_ok(input) && fields_lowered(input) && approval_ok(input) ==> (r matches Ok(rec) && {
            &&& rec.schema_view() == MANAGED_FIELD_DECLASSIFICATION_SCHEMA_VERSION@
            &&& same_scalars(rec.input_view(), input)
            &&& declassified_fields(rec.input_view().fields@, input.fields@)
        }),
{
    if !is_canonical_uuid(input.workspace_id.as_str()) || !is_canonical_uuid(input.canonical_id.as_str())
        || !is_canonical_uuid(input.version_id.as_str()) || !is_sha256_digest(input.content_digest.as_str()) {
        return Err(ManagedFieldDeclassificationError::InvalidCoordinates);
    }
    if !is_canonical_uuid(input.request_id.as_str()) || !is_canonical_uuid(input.principal_id.as_str())
        || !is_canonical_uuid(input.auth_session_id.as_str()) || !is_canonical_uuid(
        input.authorization_decision_id.as_str(),
    ) || !is_sha256_digest(input.provenance_record_digest.as_str()) || !is_sha256_digest(
        input.state_event_digest.as_str(),
    ) || input.state_event_ordinal > MAX_SAFE_ORDINAL {
        return Err(ManagedFieldDeclassificationError::InvalidCoordinates);
    }
    let ghost fs = input.fields@;
    let mut manifest_fields: Vec<ManagedFieldContributionInput> = Vec::new();
    let mut i: usize = 0;
    while i < input.fields.len()
        invariant
            binding_ok(input),
            fs == input.fields@,
            i <= fs.len(),
            manifest_fields@.len() == i,
            forall|j: int|
                0 <= j < i ==> (#[trigger] manifest_fields@[j]).selector@ == fs[j].selector@ && strs_view(
                    manifest_fields@[j].assertion_ids@,
                ) == strs_view(fs[j].assertion_ids@),
        decreases input.fields.len() - i,
    {
        manifest_fields.push(
            ManagedFieldContributionInput {
                selector: input.fields[i].selector.clone(),
                assertion_ids: crate::graph::clone_strings(&input.fields[i].assertion_ids),
            },
        );
        i = i + 1;
    }
    let ghost mf = manifest_fields@;
    proof {
        lemma_fields_ok_by_view(mf, contributions(fs));
    }
    let manifest = ManagedFieldProvenanceInput {
        workspace_id: input.workspace_id.clone(),
        canonical_id: input.canonical_id.clone(),
        version_id: input.version_id.clone(),
        content_digest: input.content_digest.clone(),
        fields: manifest_fields,
    };
    let provenance = match build_managed_field_provenance(manifest) {
        Ok(p) => p,
        Err(_) => {
            return Err(ManagedFieldDeclassificationError::InvalidFields);
        },
    };
    let mut k: usize = 0;
    while k < input.fields.len()
        invariant
            binding_ok(input),
            manifest_coordinates_ok(input),
            fields_ok(contributions(fs)),
            fs == input.fields@,
            k <= fs.len(),
            forall|j: int| 0 <= j < k ==> lowers(#[trigger] fs[j]),
        decreases input.fields.len() - k,
    {
        if !lowers_exec(&input.fields[k]) {
            return Err(ManagedFieldDeclassificationError::InvalidFields);
        }
        k = k + 1;
    }
    if !approval_ok_exec(&input) {
        return Err(ManagedFieldDeclassificationError::InvalidApproval);
    }
    let contributions_out = provenance.fields();
    let ghost cv = contributions_out@.map_values(|f: ManagedFieldContribution| f@);
    let mut out: Vec<ManagedFieldDeclassificationFieldInput> = Vec::new();
    let mut c: usize = 0;
    while c < contributions_out.len()
        invariant
            binding_ok(input),
            fields_lowered(input),
            approval_ok(input),
            fs == input.fields@,
            mf.len() == fs.len(),
            forall|j: int|
                0 <= j < mf.len() ==> (#[trigger] mf[j]).selector@ == fs[j].selector@ && strs_view(mf[j].assertion_ids@)
                    == strs_view(fs[j].assertion_ids@),
            fields_ok(mf),
            cv == contributions_out@.map_values(|f: ManagedFieldContribution| f@),
            contributions_of(cv, mf),
            c <= cv.len(),
            out@.len() == c,
            forall|i: int| 0 <= i < c ==> (#[trigger] out@[i]).selector@ == cv[i].selector && strs_view(out@[i].assertion_ids@)
                == cv[i].assertion_ids && exists|j: int| 0 <= j < fs.len() && normalizes(out@[i], #[trigger] fs[j]),
        decreases contributions_out.len() - c,
    {
        let contribution = &contributions_out[c];
        proof {
            assert(cv[c as int] == contribution@);
            assert(crate::managed_field_provenance::rendered_from(cv[c as int], mf));
        }
        let ghost jw = choose|j: int| 0 <= j < mf.len() && renders(cv[c as int], #[trigger] mf[j]);
        let mut j: usize = 0;
        while j < input.fields.len() && !str_eq(input.fields[j].selector.as_str(), contribution.selector())
            invariant
                fs == input.fields@,
                j <= fs.len(),
                forall|x: int| 0 <= x < j ==> (#[trigger] fs[x]).selector@ != contribution@.selector,
            decreases input.fields.len() - j,
        {
            j = j + 1;
        }
        if j >= input.fields.len() {
            proof {
                assert(fs[jw].selector@ == contribution@.selector);
                assert(false);
            }
            return Err(ManagedFieldDeclassificationError::InvalidFields);
        }
        proof {
            assert(fs[j as int].selector@ == contribution@.selector);
            if jw != j as int {
                assert(mf[jw].selector@ == mf[j as int].selector@);
                if jw < j {
                    assert(mf[jw].selector@ != mf[j as int].selector@);
                } else {
                    assert(mf[j as int].selector@ != mf[jw].selector@);
                }
            }
        }
        let field = ManagedFieldDeclassificationFieldInput {
            selector: owned(contribution.selector()),
            prior_classification: input.fields[j].prior_classification.clone(),
            new_classification: input.fields[j].new_classification.clone(),
            assertion_ids: crate::graph::clone_strings(contribution.assertion_ids()),
        };
        proof {
            assert(normalizes(field, fs[j as int]));
        }
        out.push(field);
        c = c + 1;
    }
    proof {
        lemma_declassified(out@, fs, mf, cv);
    }
    let normalized = ManagedFieldDeclassificationInput { fields: out, ..input };
    proof {
        assert(same_scalars(normalized, input));
    }
    Ok(ManagedFieldDeclassification { schema_version: owned(MANAGED_FIELD_DECLASSIFICATION_SCHEMA_VERSION), input: normalized })
}

/// A declassification document as read: its schema version and its
/// contents.
pub struct ManagedFieldDeclassificationDocument {
    pub schema_version: String,
    pub input: ManagedFieldDeclassificationInput,
}

/// Validate a declassification document. `None` stands for bytes that are
/// not a closed JSON object whose `fields` are objects; a document of
/// another schema version is refused; otherwise the record is built from
/// its contents.
pub fn validate_managed_field_declassification(document: Option<ManagedFieldDeclassificationDocument>) -> (r: Result<
    ManagedFieldDeclassification,
    ManagedFieldDeclassificationError,
>)
    ensures
        document is None ==> r == Err::<ManagedFieldDeclassification, _>(
            ManagedFieldDeclassificationError::InvalidDocument,
        ),
        document is Some && document->0.schema_version@ != MANAGED_FIELD_DECLASSIFICATION_SCHEMA_VERSION@ ==> r == Err::<
            ManagedFieldDeclassification,
            _,
        >(ManagedFieldDeclassificationError::UnsupportedVersion),
        document is Some && document->0.schema_version@ == MANAGED_FIELD_DECLASSIFICATION_SCHEMA_VERSION@ ==> {
            &&& !binding_ok(document->0.input) ==> r == Err::<ManagedFieldDeclassification, _>(
                ManagedFieldDeclassificationError::InvalidCoordinates,
            )
            &&& binding_ok(document->0.input) && !fields_lowered(document->0.input) ==> r == Err::<ManagedFieldDeclassification, _>(
                ManagedFieldDeclassificationError::InvalidFields,
            )
            &&& binding_ok(document->0.input) && fields_lowered(document->0.input) && !approval_ok(document->0.input) ==> r == Err::<
                ManagedFieldDeclassification,
                _,
            >(ManagedFieldDeclassificationError::InvalidApproval)
            &&& binding_ok(document->0.input) && fields_lowered(document->0.input) && approval_ok(document->0.input) ==> (r matches Ok(rec) && {
                &&& rec.schema_view() == MANAGED_FIELD_DECLASSIFICATION_SCHEMA_VERSION@
                &&& same_scalars(rec.input_view(), document->0.input)
                &&& declassified_fields(rec.input_view().fields@, document->0.input.fields@)
            })
        },
{
    match document {
        None => Err(ManagedFieldDeclassificationError::InvalidDocument),
        Some(d) => {
            if !str_eq(d.schema_version.as_str(), MANAGED_FIELD_DECLASSIFICATION_SCHEMA_VERSION) {
                Err(ManagedFieldDeclassificationError::UnsupportedVersion)
            } else {
                build_managed_field_declassification(d.input)
            }
        },
    }
}

} // verus!
