//! Portable migration preparation inputs: the migration request, the
//! repository inspection request, and the import job. Preparation grants no
//! import or promotion authority. The JSON documents are read elsewhere;
//! here every decision about what they hold is taken, in the order the
//! contract fixes.

use vstd::prelude::*;

use crate::calendar::{canonical_date, canonical_utc_seconds, is_canonical_date, is_canonical_utc_seconds, CalendarDate};
use crate::diagnostic::DiagnosticCode;
use crate::identifiers::{is_digest, is_sha256_digest};
use crate::logical_path::{is_logical_path, LogicalPath};
use crate::string_set::{contains_str, insert_str};
use crate::graph::strs_view;
use crate::sorted::sorted_by_key;
use crate::text::{chars_of, is_empty_or_padded, str_eq, str_is_empty_or_padded};

verus! {

pub const MIGRATION_REQUEST_SCHEMA_VERSION: &'static str = "adoc.migration_request.v0";

pub const MIGRATION_RECEIPT_SCHEMA_VERSION: &'static str = "adoc.migration_receipt.v0";

/// v1 adds the selected starting point and the trusted inspection binding.
pub const MIGRATION_REQUEST_V1_SCHEMA_VERSION: &'static str = "adoc.migration_request.v1";

pub const MIGRATION_RECEIPT_V1_SCHEMA_VERSION: &'static str = "adoc.migration_receipt.v1";

pub const MIGRATION_IMPORT_V1_SCHEMA_VERSION: &'static str = "adoc.migration_import.v1";

pub const MIGRATION_REQUEST_MAX_BYTES: usize = 16384;

pub const REPOSITORY_INSPECTION_REQUEST_SCHEMA_VERSION: &'static str = "adoc.repository_inspection_request.v0";

pub const REPOSITORY_INSPECTION_RECEIPT_SCHEMA_VERSION: &'static str = "adoc.repository_inspection_receipt.v0";

pub const MIGRATION_IMPORT_JOB_SCHEMA_VERSION: &'static str = "agentdoc.cloud.migration_import_job.v0";

pub const MIGRATION_IMPORT_SCHEMA_VERSION: &'static str = "adoc.migration_import.v0";

pub const MIGRATION_IMPORT_JOB_MAX_BYTES: usize = 524288;

pub const MIGRATION_IMPORT_MAX_BYTES: usize = 8388608;

pub const MIGRATION_IMPORT_MAX_SOURCES: usize = 512;

/// The longest identity, in UTF-8 bytes.
pub const MAX_IDENTITY_BYTES: usize = 1024;

/// The selected migration starting point; a v0 request always means
/// recorded history, and `fresh` never adopts authored history as approval.
#[derive(Debug, Clone, Copy, PartialEq, Eq, Structural)]
pub enum StartingPoint {
    RecordedHistory,
    Fresh,
}

/// Why a migration input was refused.
#[derive(Debug, Clone, Copy, PartialEq, Eq, Structural)]
pub enum MigrationError {
    UnsupportedQualificationPolicy,
    InvalidJob,
    ValidationFailed,
    OutputLimit,
    InvalidRequest,
    ExactRevisionRequired,
    SnapshotUnavailable,
    UnsafeSource,
    ValidationUnavailable,
}

impl MigrationError {
    /// The registered wire code of the rejection.
    pub fn diagnostic_code(&self) -> (r: DiagnosticCode)
        ensures
            r == match *self {
                MigrationError::UnsupportedQualificationPolicy => DiagnosticCode::SchemaUnsupportedVersion,
                MigrationError::InvalidJob => DiagnosticCode::MigrationInvalidJob,
                MigrationError::ValidationFailed => DiagnosticCode::MigrationValidationFailed,
                MigrationError::OutputLimit => DiagnosticCode::MigrationOutputLimit,
                MigrationError::InvalidRequest => DiagnosticCode::MigrationInvalidRequest,
                MigrationError::ExactRevisionRequired => DiagnosticCode::MigrationExactRevisionRequired,
                MigrationError::SnapshotUnavailable => DiagnosticCode::MigrationSnapshotUnavailable,
                MigrationError::UnsafeSource => DiagnosticCode::MigrationUnsafeSource,
                MigrationError::ValidationUnavailable => DiagnosticCode::MigrationValidationUnavailable,
            },
    {
        match self {
            MigrationError::UnsupportedQualificationPolicy => DiagnosticCode::SchemaUnsupportedVersion,
            MigrationError::InvalidJob => DiagnosticCode::MigrationInvalidJob,
            MigrationError::ValidationFailed => DiagnosticCode::MigrationValidationFailed,
            MigrationError::OutputLimit => DiagnosticCode::MigrationOutputLimit,
            MigrationError::InvalidRequest => DiagnosticCode::MigrationInvalidRequest,
            MigrationError::ExactRevisionRequired => DiagnosticCode::MigrationExactRevisionRequired,
            MigrationError::SnapshotUnavailable => DiagnosticCode::MigrationSnapshotUnavailable,
            MigrationError::UnsafeSource => DiagnosticCode::MigrationUnsafeSource,
            MigrationError::ValidationUnavailable => DiagnosticCode::MigrationValidationUnavailable,
        }
    }

    /// The explanation that `message` gives, as text.
    pub open spec fn message_text(self) -> Seq<char> {
        match self {
            MigrationError::UnsupportedQualificationPolicy => "unsupported migration qualification policy version"@,
            MigrationError::InvalidJob => "migration import job is invalid"@,
            MigrationError::ValidationFailed => "migration source validation failed"@,
            MigrationError::OutputLimit => "migration import exceeds its output limit"@,
            MigrationError::InvalidRequest => "migration request is invalid"@,
            MigrationError::ExactRevisionRequired => "migration requires an exact nonzero lowercase Git commit SHA-1"@,
            MigrationError::SnapshotUnavailable => "migration snapshot is unavailable"@,
            MigrationError::UnsafeSource => "migration source cannot be safely materialized"@,
            MigrationError::ValidationUnavailable => "migration validation is unavailable"@,
        }
    }

    /// The human-readable explanation.
    pub fn message(&self) -> (r: &'static str)
        ensures
            r@ == self.message_text(),
    {
        match self {
            MigrationError::UnsupportedQualificationPolicy => "unsupported migration qualification policy version",
            MigrationError::InvalidJob => "migration import job is invalid",
            MigrationError::ValidationFailed => "migration source validation failed",
            MigrationError::OutputLimit => "migration import exceeds its output limit",
            MigrationError::InvalidRequest => "migration request is invalid",
            MigrationError::ExactRevisionRequired => "migration requires an exact nonzero lowercase Git commit SHA-1",
            MigrationError::SnapshotUnavailable => "migration snapshot is unavailable",
            MigrationError::UnsafeSource => "migration source cannot be safely materialized",
            MigrationError::ValidationUnavailable => "migration validation is unavailable",
        }
    }
}

// ---- text checks ----

/// `char::is_control`: the C0 and C1 control characters.
pub open spec fn is_control(c: char) -> bool {
    (c as u32) <= 0x1F || (0x7F <= (c as u32) && (c as u32) <= 0x9F)
}

/// The UTF-8 length of one character.
pub open spec fn utf8_width(c: char) -> nat {
    if (c as u32) < 0x80 {
        1
    } else if (c as u32) < 0x800 {
        2
    } else if (c as u32) < 0x10000 {
        3
    } else {
        4
    }
}

/// The UTF-8 length of a string.
pub open spec fn utf8_len(s: Seq<char>) -> nat
    decreases s.len(),
{
    if s.len() == 0 {
        0
    } else {
        utf8_len(s.drop_last()) + utf8_width(s.last())
    }
}

/// An identity: non-empty, at most 1024 UTF-8 bytes, without surrounding
/// whitespace or any control character.
pub open spec fn valid_identity(s: Seq<char>) -> bool {
    &&& !is_empty_or_padded(s)
    &&& utf8_len(s) <= MAX_IDENTITY_BYTES
    &&& forall|i: int| 0 <= i < s.len() ==> !is_control(#[trigger] s[i])
}

/// An exact Git commit: 40 lowercase hex digits, not all zero.
pub open spec fn is_exact_revision(s: Seq<char>) -> bool {
    &&& s.len() == 40
    &&& forall|i: int| 0 <= i < 40 ==> crate::identifiers::is_lower_hex(#[trigger] s[i])
    &&& exists|i: int| 0 <= i < 40 && #[trigger] s[i] != '0'
}

pub fn char_is_control(c: char) -> (r: bool)
    ensures
        r == is_control(c),
{
    let v = c as u32;
    v <= 0x1F || (0x7F <= v && v <= 0x9F)
}

fn char_width(c: char) -> (r: usize)
    ensures
        r == utf8_width(c),
{
    let v = c as u32;
    if v < 0x80 {
        1
    } else if v < 0x800 {
        2
    } else if v < 0x10000 {
        3
    } else {
        4
    }
}

/// Whether `s` is a valid identity.
pub fn is_valid_identity(s: &str) -> (r: bool)
    ensures
        r == valid_identity(s@),
{
    if str_is_empty_or_padded(s) {
        return false;
    }
    let cs = chars_of(s);
    let mut bytes: usize = 0;
    let mut i: usize = 0;
    while i < cs.len()
        invariant
            cs@ == s@,
            i <= cs@.len(),
            bytes == utf8_len(cs@.take(i as int)),
            bytes <= MAX_IDENTITY_BYTES,
            forall|j: int| 0 <= j < i ==> !is_control(#[trigger] cs@[j]),
        decreases cs.len() - i,
    {
        proof {
            assert(cs@.take(i + 1).drop_last() =~= cs@.take(i as int));
        }
        if char_is_control(cs[i]) {
            return false;
        }
        bytes = bytes + char_width(cs[i]);
        if bytes > MAX_IDENTITY_BYTES {
            proof {
                lemma_utf8_len_prefix(cs@, i + 1);
            }
            return false;
        }
        i = i + 1;
    }
    proof {
        assert(cs@.take(cs@.len() as int) =~= cs@);
    }
    true
}

/// A prefix is never longer in UTF-8 than the whole.
proof fn lemma_utf8_len_prefix(s: Seq<char>, n: int)
    requires
        0 <= n <= s.len(),
    ensures
        utf8_len(s.take(n)) <= utf8_len(s),
    decreases s.len(),
{
    if n < s.len() {
        assert(s.drop_last().take(n) =~= s.take(n));
        lemma_utf8_len_prefix(s.drop_last(), n);
    } else {
        assert(s.take(n) =~= s);
    }
}

/// Whether `s` names an exact Git commit.
pub fn is_exact_git_revision(s: &str) -> (r: bool)
    ensures
        r == is_exact_revision(s@),
{
    let cs = chars_of(s);
    if cs.len() != 40 {
        return false;
    }
    let mut nonzero = false;
    let mut i: usize = 0;
    while i < 40
        invariant
            cs@ == s@,
            cs@.len() == 40,
            i <= 40,
            forall|j: int| 0 <= j < i ==> crate::identifiers::is_lower_hex(#[trigger] cs@[j]),
            nonzero == exists|j: int| 0 <= j < i && #[trigger] cs@[j] != '0',
        decreases 40 - i,
    {
        let c = cs[i];
        if !(('0' <= c && c <= '9') || ('a' <= c && c <= 'f')) {
            return false;
        }
        if c != '0' {
            nonzero = true;
        }
        proof {
            if !nonzero {
                assert forall|j: int| 0 <= j < i + 1 implies !(#[trigger] cs@[j] != '0') by {}
            }
        }
        i = i + 1;
    }
    nonzero
}

pub open spec fn opt_view(o: Option<String>) -> Option<Seq<char>> {
    match o {
        Some(s) => Some(s@),
        None => None,
    }
}

fn opt_is(o: &Option<String>, expected: &str) -> (r: bool)
    ensures
        r == (opt_view(*o) == Some(expected@)),
{
    match o {
        Some(s) => str_eq(s.as_str(), expected),
        None => false,
    }
}

// ---- the migration request ----

/// What the request's pre-checks read from its JSON document: the schema
/// version, whether a v1-only field is present (or the document is not an
/// object), and the revision's system and value when they are strings.
#[derive(Debug, Clone, PartialEq, Eq)]
pub struct MigrationRequestShape {
    pub schema_version: Option<String>,
    pub has_v1_field: bool,
    pub revision_system: Option<String>,
    pub revision_value: Option<String>,
}

#[derive(Debug, Clone, PartialEq, Eq)]
pub struct MigrationRevision {
    pub system: String,
    pub value: String,
}

/// The request document as read, before validation.
#[derive(Debug, Clone, PartialEq, Eq)]
pub struct MigrationRequestDocument {
    pub schema_version: String,
    pub request_id: String,
    pub workspace_id: String,
    pub source_id: String,
    pub repository_identity: String,
    pub revision: MigrationRevision,
    pub evaluation_date: String,
    pub inspection_id: Option<String>,
    pub inspection_digest: Option<String>,
    pub starting_point: Option<StartingPoint>,
}

/// A validated migration request.
#[derive(Debug, PartialEq, Eq)]
pub struct MigrationRequest {
    document: MigrationRequestDocument,
    date: CalendarDate,
}

/// Why a request is refused, checked in the contract's order: size, JSON,
/// schema version, v1 fields in a v0 request, revision, typed document,
/// identities, the v1 inspection binding, and the evaluation date.
pub open spec fn request_error(
    byte_len: usize,
    shape: Option<MigrationRequestShape>,
    document: Option<MigrationRequestDocument>,
) -> Option<MigrationError> {
    if byte_len > MIGRATION_REQUEST_MAX_BYTES {
        Some(MigrationError::InvalidRequest)
    } else {
        match shape {
            None => Some(MigrationError::InvalidRequest),
            Some(sh) => {
                let version = opt_view(sh.schema_version);
                let v1 = version == Some(MIGRATION_REQUEST_V1_SCHEMA_VERSION@);
                if version != Some(MIGRATION_REQUEST_SCHEMA_VERSION@) && !v1 {
                    Some(MigrationError::InvalidRequest)
                } else if !v1 && sh.has_v1_field {
                    Some(MigrationError::InvalidRequest)
                } else if opt_view(sh.revision_system) != Some("git"@) || !(opt_view(sh.revision_value) matches Some(v)
                    && is_exact_revision(v)) {
                    Some(MigrationError::ExactRevisionRequired)
                } else {
                    match document {
                        None => Some(MigrationError::InvalidRequest),
                        Some(d) => if !(valid_identity(d.request_id@) && valid_identity(d.workspace_id@) && valid_identity(
                            d.source_id@,
                        ) && valid_identity(d.repository_identity@)) {
                            Some(MigrationError::InvalidRequest)
                        } else if v1 && !(d.starting_point is Some && (opt_view(d.inspection_id) matches Some(i)
                            && valid_identity(i)) && (opt_view(d.inspection_digest) matches Some(g) && is_digest(g))) {
                            Some(MigrationError::InvalidRequest)
                        } else if !is_canonical_date(d.evaluation_date@) {
                            Some(MigrationError::InvalidRequest)
                        } else {
                            None
                        },
                    }
                }
            },
        }
    }
}

fn opt_identity(o: &Option<String>) -> (r: bool)
    ensures
        r == (opt_view(*o) matches Some(i) && valid_identity(i)),
{
    match o {
        Some(s) => is_valid_identity(s.as_str()),
        None => false,
    }
}

fn opt_digest(o: &Option<String>) -> (r: bool)
    ensures
        r == (opt_view(*o) matches Some(g) && is_digest(g)),
{
    match o {
        Some(s) => is_sha256_digest(s.as_str()),
        None => false,
    }
}

impl MigrationRequest {
    /// Validate a request read from a document of `byte_len` bytes:
    /// `shape` is what its JSON holds (none when it is not JSON), and
    /// `document` its typed reading (none when that fails).
    pub fn validate(
        byte_len: usize,
        shape: Option<MigrationRequestShape>,
        document: Option<MigrationRequestDocument>,
    ) -> (r: Result<Self, MigrationError>)
        ensures
            match request_error(byte_len, shape, document) {
                Some(e) => r == Err::<Self, MigrationError>(e),
                None => r matches Ok(req) && req.document() == document.unwrap(),
            },
    {
        proof {
            reveal_strlit("git");
        }
        if byte_len > MIGRATION_REQUEST_MAX_BYTES {
            return Err(MigrationError::InvalidRequest);
        }
        let sh = match shape {
            Some(sh) => sh,
            None => {
                return Err(MigrationError::InvalidRequest);
            },
        };
        let v0 = opt_is(&sh.schema_version, MIGRATION_REQUEST_SCHEMA_VERSION);
        let v1 = opt_is(&sh.schema_version, MIGRATION_REQUEST_V1_SCHEMA_VERSION);
        if !v0 && !v1 {
            return Err(MigrationError::InvalidRequest);
        }
        if !v1 && sh.has_v1_field {
            return Err(MigrationError::InvalidRequest);
        }
        let exact = match &sh.revision_value {
            Some(v) => is_exact_git_revision(v.as_str()),
            None => false,
        };
        if !opt_is(&sh.revision_system, "git") || !exact {
            return Err(MigrationError::ExactRevisionRequired);
        }
        let d = match document {
            Some(d) => d,
            None => {
                return Err(MigrationError::InvalidRequest);
            },
        };
        if !(is_valid_identity(d.request_id.as_str()) && is_valid_identity(d.workspace_id.as_str()) && is_valid_identity(
            d.source_id.as_str(),
        ) && is_valid_identity(d.repository_identity.as_str())) {
            return Err(MigrationError::InvalidRequest);
        }
        if v1 && !(d.starting_point.is_some() && opt_identity(&d.inspection_id) && opt_digest(&d.inspection_digest)) {
            return Err(MigrationError::InvalidRequest);
        }
        let date = match canonical_date(d.evaluation_date.as_str()) {
            Some(date) => date,
            None => {
                return Err(MigrationError::InvalidRequest);
            },
        };
        Ok(MigrationRequest { document: d, date })
    }

    /// The validated document.
    pub closed spec fn document(self) -> MigrationRequestDocument {
        self.document
    }

    /// The evaluation date.
    pub fn date(&self) -> (r: CalendarDate)
        ensures
            crate::calendar::chrono_date_parse(self.document().evaluation_date@) == Some((r.year, r.month, r.day)),
    {
        proof {
            use_type_invariant(self);
        }
        self.date
    }

    #[verifier::type_invariant]
    spec fn wf(self) -> bool {
        crate::calendar::chrono_date_parse(self.document.evaluation_date@) == Some((self.date.year, self.date.month, self.date.day))
    }

    /// Whether this is a v1 request: it selects a starting point.
    pub fn is_v1(&self) -> (r: bool)
        ensures
            r == self.document().starting_point is Some,
    {
        self.document.starting_point.is_some()
    }

    /// The selected starting point; recorded history for a v0 request.
    pub fn starting_point(&self) -> (r: StartingPoint)
        ensures
            r == match self.document().starting_point {
                Some(p) => p,
                None => StartingPoint::RecordedHistory,
            },
    {
        match self.document.starting_point {
            Some(p) => p,
            None => StartingPoint::RecordedHistory,
        }
    }

    /// The output contract follows the request version, so v0 outputs
    /// never change.
    pub fn versioned(&self, v0: &'static str, v1: &'static str) -> (r: &'static str)
        ensures
            r == (if self.document().starting_point is Some {
                v1
            } else {
                v0
            }),
    {
        if self.is_v1() {
            v1
        } else {
            v0
        }
    }

    pub fn request_id(&self) -> (r: &str)
        ensures
            r@ == self.document().request_id@,
    {
        self.document.request_id.as_str()
    }

    pub fn workspace_id(&self) -> (r: &str)
        ensures
            r@ == self.document().workspace_id@,
    {
        self.document.workspace_id.as_str()
    }

    pub fn source_id(&self) -> (r: &str)
        ensures
            r@ == self.document().source_id@,
    {
        self.document.source_id.as_str()
    }

    pub fn repository_identity(&self) -> (r: &str)
        ensures
            r@ == self.document().repository_identity@,
    {
        self.document.repository_identity.as_str()
    }

    pub fn revision_value(&self) -> (r: &str)
        ensures
            r@ == self.document().revision.value@,
    {
        self.document.revision.value.as_str()
    }
}

// ---- the repository inspection request ----

/// What the inspection request's pre-checks read from its JSON document.
#[derive(Debug, Clone, PartialEq, Eq)]
pub struct RepositoryInspectionShape {
    pub schema_version: Option<String>,
    pub git_revision: Option<String>,
    pub runtime_is_object: bool,
}

/// The runtime an inspection is pinned to.
#[derive(Debug, Clone, PartialEq, Eq)]
pub struct InspectionRuntimePin {
    pub version: String,
    pub binary_digest: String,
}

/// The inspection request document as read, before validation.
#[derive(Debug, Clone, PartialEq, Eq)]
pub struct RepositoryInspectionDocument {
    pub schema_version: String,
    pub workspace_id: String,
    pub provider_repository_id: String,
    pub git_ref: String,
    pub git_revision: String,
    pub evaluation_date: String,
    pub runtime: InspectionRuntimePin,
}

/// A validated read-only inspection request, bound to one exact commit and
/// runtime pin.
#[derive(Debug, PartialEq, Eq)]
pub struct RepositoryInspectionRequest {
    document: RepositoryInspectionDocument,
}

/// Why an inspection request is refused, in the contract's order.
pub open spec fn inspection_error(
    byte_len: usize,
    shape: Option<RepositoryInspectionShape>,
    document: Option<RepositoryInspectionDocument>,
) -> Option<MigrationError> {
    if byte_len > MIGRATION_REQUEST_MAX_BYTES {
        Some(MigrationError::InvalidRequest)
    } else {
        match shape {
            None => Some(MigrationError::InvalidRequest),
            Some(sh) => if opt_view(sh.schema_version) != Some(REPOSITORY_INSPECTION_REQUEST_SCHEMA_VERSION@) {
                Some(MigrationError::InvalidRequest)
            } else if !(opt_view(sh.git_revision) matches Some(v) && is_exact_revision(v)) {
                Some(MigrationError::ExactRevisionRequired)
            } else if !sh.runtime_is_object {
                Some(MigrationError::InvalidRequest)
            } else {
                match document {
                    None => Some(MigrationError::InvalidRequest),
                    Some(d) => if !(valid_identity(d.workspace_id@) && valid_identity(d.provider_repository_id@)
                        && valid_identity(d.git_ref@) && valid_identity(d.runtime.version@) && valid_identity(
                        d.runtime.binary_digest@,
                    )) || !is_digest(d.runtime.binary_digest@) {
                        Some(MigrationError::InvalidRequest)
                    } else if !is_canonical_date(d.evaluation_date@) {
                        Some(MigrationError::InvalidRequest)
                    } else {
                        None
                    },
                }
            },
        }
    }
}

impl RepositoryInspectionRequest {
    /// Validate an inspection request read from a document of `byte_len`
    /// bytes, its JSON facts `shape` and its typed reading `document`.
    pub fn validate(
        byte_len: usize,
        shape: Option<RepositoryInspectionShape>,
        document: Option<RepositoryInspectionDocument>,
    ) -> (r: Result<Self, MigrationError>)
        ensures
            match inspection_error(byte_len, shape, document) {
                Some(e) => r == Err::<Self, MigrationError>(e),
                None => r matches Ok(req) && req.document() == document.unwrap(),
            },
    {
        if byte_len > MIGRATION_REQUEST_MAX_BYTES {
            return Err(MigrationError::InvalidRequest);
        }
        let sh = match shape {
            Some(sh) => sh,
            None => {
                return Err(MigrationError::InvalidRequest);
            },
        };
        if !opt_is(&sh.schema_version, REPOSITORY_INSPECTION_REQUEST_SCHEMA_VERSION) {
            return Err(MigrationError::InvalidRequest);
        }
        let exact = match &sh.git_revision {
            Some(v) => is_exact_git_revision(v.as_str()),
            None => false,
        };
        if !exact {
            return Err(MigrationError::ExactRevisionRequired);
        }
        if !sh.runtime_is_object {
            return Err(MigrationError::InvalidRequest);
        }
        let d = match document {
            Some(d) => d,
            None => {
                return Err(MigrationError::InvalidRequest);
            },
        };
        if !(is_valid_identity(d.workspace_id.as_str()) && is_valid_identity(d.provider_repository_id.as_str())
            && is_valid_identity(d.git_ref.as_str()) && is_valid_identity(d.runtime.version.as_str())
            && is_valid_identity(d.runtime.binary_digest.as_str())) || !is_sha256_digest(d.runtime.binary_digest.as_str()) {
            return Err(MigrationError::InvalidRequest);
        }
        if canonical_date(d.evaluation_date.as_str()).is_none() {
            return Err(MigrationError::InvalidRequest);
        }
        Ok(RepositoryInspectionRequest { document: d })
    }

    pub closed spec fn document(self) -> RepositoryInspectionDocument {
        self.document
    }

    /// The request pins the exact runtime; any other runtime refuses.
    pub fn require_runtime(&self, version: &str, digest: &str) -> (r: Result<(), MigrationError>)
        ensures
            r is Ok <==> (is_digest(digest@) && self.document().runtime.version@ == version@
                && self.document().runtime.binary_digest@ == digest@),
            r is Err ==> r == Err::<(), MigrationError>(MigrationError::InvalidRequest),
    {
        if !is_sha256_digest(digest) || !str_eq(self.document.runtime.version.as_str(), version) || !str_eq(
            self.document.runtime.binary_digest.as_str(),
            digest,
        ) {
            return Err(MigrationError::InvalidRequest);
        }
        Ok(())
    }

    /// The exact commit inspected.
    pub fn revision(&self) -> (r: &str)
        ensures
            r@ == self.document().git_revision@,
    {
        self.document.git_revision.as_str()
    }

    pub fn workspace_id(&self) -> (r: &str)
        ensures
            r@ == self.document().workspace_id@,
    {
        self.document.workspace_id.as_str()
    }

    #[verifier::type_invariant]
    spec fn wf(self) -> bool {
        is_canonical_date(self.document.evaluation_date@)
    }

    /// The evaluation date.
    pub fn date(&self) -> (r: CalendarDate)
        ensures
            crate::calendar::chrono_date_parse(self.document().evaluation_date@) == Some((r.year, r.month, r.day)),
    {
        proof {
            use_type_invariant(self);
        }
        match canonical_date(self.document.evaluation_date.as_str()) {
            Some(d) => d,
            None => {
                proof {
                    assert(false);
                }
                CalendarDate { year: 0, month: 1, day: 1 }
            },
        }
    }
}

// ---- the import job ----

/// The access-control resource a job's snapshot was taken from.
#[derive(Debug, Clone, PartialEq, Eq)]
pub struct SourceAclResource {
    pub kind: String,
    pub id: String,
}

/// The source access-control scope of an import job.
#[derive(Debug, Clone, PartialEq, Eq)]
pub struct SourceAclScope {
    pub snapshot_id: String,
    pub source_container_id: String,
    pub source: SourceAclResource,
}

/// One source an import job materializes.
#[derive(Debug, Clone, PartialEq, Eq)]
pub struct MigrationImportSource {
    pub path: String,
    pub source_record_id: String,
    pub source_binding_id: String,
}

/// The import job document as read, before validation.
#[derive(Debug, Clone, PartialEq, Eq)]
pub struct MigrationImportJobDocument {
    pub schema_version: String,
    pub connector_id: String,
    pub observed_at: String,
    pub source_acl_scope: SourceAclScope,
    pub sources: Vec<MigrationImportSource>,
}

/// A validated import job, bound to its migration request.
#[derive(Debug, Clone, PartialEq, Eq)]
pub struct MigrationImportJob {
    document: MigrationImportJobDocument,
}

/// One source is well formed: valid texts and a portable path.
pub open spec fn source_ok(s: MigrationImportSource) -> bool {
    &&& valid_identity(s.path@)
    &&& is_logical_path(s.path@)
    &&& valid_identity(s.source_record_id@)
    &&& valid_identity(s.source_binding_id@)
}

/// No two sources share a path, a source record or a source binding.
pub open spec fn sources_distinct(s: Seq<MigrationImportSource>) -> bool {
    forall|i: int, j: int|
        0 <= i < j < s.len() ==> (#[trigger] s[i]).path@ != (#[trigger] s[j]).path@ && s[i].source_record_id@
            != s[j].source_record_id@ && s[i].source_binding_id@ != s[j].source_binding_id@
}

/// The job is accepted: within size, structurally an object with object
/// members, of the job schema, with 1 to 512 sources, scoped to the
/// request's repository and source container, observed at a canonical UTC
/// instant, with valid connector and snapshot, and valid distinct sources.
pub open spec fn import_job_ok(
    byte_len: usize,
    well_formed: Option<bool>,
    document: Option<MigrationImportJobDocument>,
    request: MigrationRequestDocument,
) -> bool {
    &&& byte_len <= MIGRATION_IMPORT_JOB_MAX_BYTES
    &&& well_formed == Some(true)
    &&& document matches Some(d) && {
        &&& d.schema_version@ == MIGRATION_IMPORT_JOB_SCHEMA_VERSION@
        &&& 1 <= d.sources@.len() <= MIGRATION_IMPORT_MAX_SOURCES
        &&& d.source_acl_scope.source.kind@ == "repository"@
        &&& d.source_acl_scope.source.id@ == request.repository_identity@
        &&& d.source_acl_scope.source_container_id@ == request.source_id@
        &&& is_canonical_utc_seconds(d.observed_at@)
        &&& valid_identity(d.connector_id@)
        &&& valid_identity(d.source_acl_scope.snapshot_id@)
        &&& forall|i: int| 0 <= i < d.sources@.len() ==> source_ok(#[trigger] d.sources@[i])
        &&& sources_distinct(d.sources@)
    }
}

fn source_ok_exec(s: &MigrationImportSource) -> (r: bool)
    ensures
        r == source_ok(*s),
{
    is_valid_identity(s.path.as_str()) && LogicalPath::parse(s.path.as_str()).is_ok() && is_valid_identity(
        s.source_record_id.as_str(),
    ) && is_valid_identity(s.source_binding_id.as_str())
}

fn sources_ok(sources: &Vec<MigrationImportSource>) -> (r: bool)
    ensures
        r == ((forall|i: int| 0 <= i < sources@.len() ==> source_ok(#[trigger] sources@[i])) && sources_distinct(sources@)),
{
    let ghost s = sources@;
    let mut paths: Vec<String> = Vec::new();
    let mut records: Vec<String> = Vec::new();
    let mut bindings: Vec<String> = Vec::new();
    let mut i: usize = 0;
    while i < sources.len()
        invariant
            s == sources@,
            i <= s.len(),
            sorted_by_key(paths@),
            sorted_by_key(records@),
            sorted_by_key(bindings@),
            forall|x: Seq<char>| #[trigger] strs_view(paths@).contains(x) <==> exists|j: int| 0 <= j < i && (#[trigger] s[j]).path@ == x,
            forall|x: Seq<char>| #[trigger] strs_view(records@).contains(x) <==> exists|j: int| 0 <= j < i && (#[trigger] s[j]).source_record_id@ == x,
            forall|x: Seq<char>| #[trigger] strs_view(bindings@).contains(x) <==> exists|j: int| 0 <= j < i && (#[trigger] s[j]).source_binding_id@ == x,
            forall|j: int| 0 <= j < i ==> source_ok(#[trigger] s[j]),
            sources_distinct(s.take(i as int)),
        decreases sources.len() - i,
    {
        let src = &sources[i];
        if !source_ok_exec(src) {
            return false;
        }
        if contains_str(&paths, src.path.as_str()) {
            proof {
                let j = choose|j: int| 0 <= j < i && (#[trigger] s[j]).path@ == src.path@;
                assert(s[j].path@ == s[i as int].path@);
            }
            return false;
        }
        if contains_str(&records, src.source_record_id.as_str()) {
            proof {
                let j = choose|j: int| 0 <= j < i && (#[trigger] s[j]).source_record_id@ == src.source_record_id@;
                assert(s[j].source_record_id@ == s[i as int].source_record_id@);
            }
            return false;
        }
        if contains_str(&bindings, src.source_binding_id.as_str()) {
            proof {
                let j = choose|j: int| 0 <= j < i && (#[trigger] s[j]).source_binding_id@ == src.source_binding_id@;
                assert(s[j].source_binding_id@ == s[i as int].source_binding_id@);
            }
            return false;
        }
        let ghost pp = paths@;
        let ghost rr = records@;
        let ghost bb = bindings@;
        insert_str(&mut paths, src.path.clone());
        insert_str(&mut records, src.source_record_id.clone());
        insert_str(&mut bindings, src.source_binding_id.clone());
        proof {
            assert forall|x: Seq<char>| #[trigger] strs_view(paths@).contains(x) <==> exists|j: int| 0 <= j < i + 1 && (#[trigger] s[j]).path@ == x by {
                if x == src.path@ {
                    assert(s[i as int].path@ == x);
                }
                if exists|j: int| 0 <= j < i + 1 && (#[trigger] s[j]).path@ == x {
                    let j = choose|j: int| 0 <= j < i + 1 && (#[trigger] s[j]).path@ == x;
                    if j < i {
                        assert(strs_view(pp).contains(x));
                    }
                }
            }
            assert forall|x: Seq<char>| #[trigger] strs_view(records@).contains(x) <==> exists|j: int| 0 <= j < i + 1 && (#[trigger] s[j]).source_record_id@ == x by {
                if x == src.source_record_id@ {
                    assert(s[i as int].source_record_id@ == x);
                }
                if exists|j: int| 0 <= j < i + 1 && (#[trigger] s[j]).source_record_id@ == x {
                    let j = choose|j: int| 0 <= j < i + 1 && (#[trigger] s[j]).source_record_id@ == x;
                    if j < i {
                        assert(strs_view(rr).contains(x));
                    }
                }
            }
            assert forall|x: Seq<char>| #[trigger] strs_view(bindings@).contains(x) <==> exists|j: int| 0 <= j < i + 1 && (#[trigger] s[j]).source_binding_id@ == x by {
                if x == src.source_binding_id@ {
                    assert(s[i as int].source_binding_id@ == x);
                }
                if exists|j: int| 0 <= j < i + 1 && (#[trigger] s[j]).source_binding_id@ == x {
                    let j = choose|j: int| 0 <= j < i + 1 && (#[trigger] s[j]).source_binding_id@ == x;
                    if j < i {
                        assert(strs_view(bb).contains(x));
                    }
                }
            }
            let t = s.take(i + 1);
            assert forall|a: int, b: int| 0 <= a < b < t.len() implies (#[trigger] t[a]).path@ != (#[trigger] t[b]).path@
                && t[a].source_record_id@ != t[b].source_record_id@ && t[a].source_binding_id@ != t[b].source_binding_id@ by {
                if b == i {
                    assert(t[a] == s[a] && t[b] == s[b]);
                    if s[a].path@ == s[b].path@ {
                        assert(strs_view(pp).contains(s[b].path@));
                    }
                    if s[a].source_record_id@ == s[b].source_record_id@ {
                        assert(strs_view(rr).contains(s[b].source_record_id@));
                    }
                    if s[a].source_binding_id@ == s[b].source_binding_id@ {
                        assert(strs_view(bb).contains(s[b].source_binding_id@));
                    }
                } else {
                    assert(s.take(i as int)[a] == t[a] && s.take(i as int)[b] == t[b]);
                }
            }
        }
        i = i + 1;
    }
    proof {
        assert(s.take(s.len() as int) =~= s);
    }
    true
}

impl MigrationImportJob {
    /// Validate an import job read from a document of `byte_len` bytes for
    /// `request`: `well_formed` says whether its JSON is an object whose
    /// scope, source and sources are objects (none when it is not JSON),
    /// and `document` is its typed reading.
    pub fn validate(
        byte_len: usize,
        well_formed: Option<bool>,
        document: Option<MigrationImportJobDocument>,
        request: &MigrationRequest,
    ) -> (r: Result<Self, MigrationError>)
        ensures
            import_job_ok(byte_len, well_formed, document, request.document()) ==> (r matches Ok(job) && job.document()
                == document.unwrap()),
            !import_job_ok(byte_len, well_formed, document, request.document()) ==> r == Err::<Self, MigrationError>(
                MigrationError::InvalidJob,
            ),
    {
        proof {
            reveal_strlit("repository");
        }
        if byte_len > MIGRATION_IMPORT_JOB_MAX_BYTES {
            return Err(MigrationError::InvalidJob);
        }
        match well_formed {
            Some(true) => {},
            _ => {
                return Err(MigrationError::InvalidJob);
            },
        }
        let d = match document {
            Some(d) => d,
            None => {
                return Err(MigrationError::InvalidJob);
            },
        };
        if !str_eq(d.schema_version.as_str(), MIGRATION_IMPORT_JOB_SCHEMA_VERSION) || d.sources.len() == 0
            || d.sources.len() > MIGRATION_IMPORT_MAX_SOURCES || !str_eq(d.source_acl_scope.source.kind.as_str(), "repository")
            || !str_eq(d.source_acl_scope.source.id.as_str(), request.repository_identity()) || !str_eq(
            d.source_acl_scope.source_container_id.as_str(),
            request.source_id(),
        ) {
            return Err(MigrationError::InvalidJob);
        }
        if !canonical_utc_seconds(d.observed_at.as_str()) {
            return Err(MigrationError::InvalidJob);
        }
        if !is_valid_identity(d.connector_id.as_str()) || !is_valid_identity(d.source_acl_scope.snapshot_id.as_str()) {
            return Err(MigrationError::InvalidJob);
        }
        if !sources_ok(&d.sources) {
            return Err(MigrationError::InvalidJob);
        }
        Ok(MigrationImportJob { document: d })
    }

    pub closed spec fn document(self) -> MigrationImportJobDocument {
        self.document
    }

    /// The sources to materialize, in job order.
    pub fn sources(&self) -> (r: &Vec<MigrationImportSource>)
        ensures
            r@ == self.document().sources@,
    {
        &self.document.sources
    }
}

} // verus!
