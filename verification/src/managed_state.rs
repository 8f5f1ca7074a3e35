//! Managed state over immutable content versions: six closed state
//! vocabularies, one per dimension, the identities a state event carries,
//! and the audit coverage guard that diffs the audit wiring against the
//! vocabularies.

use vstd::prelude::*;

use crate::diagnostic::DiagnosticCode;
use crate::managed::identity::{ManagedVersionId, WorkspaceCanonicalIdentity};
use crate::managed::workspace::{has_version, ManagedWorkspace};
use crate::managed::reconciliation::PolicyVersion;
use crate::sorted::{sorted_by_key, Keyed};
use crate::sorted_map::{entry_map, index_of_key, lemma_entry_map_get, lemma_entry_map_keys, upsert, MapEntry};
use crate::text::{is_empty_or_padded, key_lt, owned, seq_lt, str_eq, str_is_empty_or_padded};

verus! {

/// A closed vocabulary of state values with a wire spelling each.
pub trait Vocabulary: Sized + Copy {
    spec fn wire(self) -> Seq<char>;

    fn wire_str(self) -> (r: &'static str)
        ensures
            r@ == self.wire(),
    ;
}

/// The governance dimension (closed vocabulary).
#[derive(Debug, Clone, Copy, PartialEq, Eq, Structural)]
pub enum GovernanceState {
    Proposed,
    Approved,
    Rejected,
    Revoked,
}

impl GovernanceState {
    pub open spec fn all_spec() -> Seq<Self> {
        seq![GovernanceState::Proposed, GovernanceState::Approved, GovernanceState::Rejected, GovernanceState::Revoked]
    }

    /// Every value, in declaration order.
    pub fn all() -> (r: Vec<Self>)
        ensures
            r@ == Self::all_spec(),
    {
        let r = vec![GovernanceState::Proposed, GovernanceState::Approved, GovernanceState::Rejected, GovernanceState::Revoked];
        proof {
            assert(r@ =~= Self::all_spec());
        }
        r
    }

    /// The value's wire spelling.
    pub fn as_str(self) -> (r: &'static str)
        ensures
            r@ == self.wire(),
    {
        match self {
            GovernanceState::Proposed => "proposed",
            GovernanceState::Approved => "approved",
            GovernanceState::Rejected => "rejected",
            GovernanceState::Revoked => "revoked",
        }
    }
}

impl Vocabulary for GovernanceState {
    open spec fn wire(self) -> Seq<char> {
        match self {
            GovernanceState::Proposed => "proposed"@,
            GovernanceState::Approved => "approved"@,
            GovernanceState::Rejected => "rejected"@,
            GovernanceState::Revoked => "revoked"@,
        }
    }

    fn wire_str(self) -> (r: &'static str) {
        self.as_str()
    }
}

/// The verification dimension (closed vocabulary).
#[derive(Debug, Clone, Copy, PartialEq, Eq, Structural)]
pub enum VerificationState {
    Unverified,
    PartiallyVerified,
    Verified,
    Failed,
}

impl VerificationState {
    pub open spec fn all_spec() -> Seq<Self> {
        seq![VerificationState::Unverified, VerificationState::PartiallyVerified, VerificationState::Verified, VerificationState::Failed]
    }

    /// Every value, in declaration order.
    pub fn all() -> (r: Vec<Self>)
        ensures
            r@ == Self::all_spec(),
    {
        let r = vec![VerificationState::Unverified, VerificationState::PartiallyVerified, VerificationState::Verified, VerificationState::Failed];
        proof {
            assert(r@ =~= Self::all_spec());
        }
        r
    }

    /// The value's wire spelling.
    pub fn as_str(self) -> (r: &'static str)
        ensures
            r@ == self.wire(),
    {
        match self {
            VerificationState::Unverified => "unverified",
            VerificationState::PartiallyVerified => "partially_verified",
            VerificationState::Verified => "verified",
            VerificationState::Failed => "failed",
        }
    }
}

impl Vocabulary for VerificationState {
    open spec fn wire(self) -> Seq<char> {
        match self {
            VerificationState::Unverified => "unverified"@,
            VerificationState::PartiallyVerified => "partially_verified"@,
            VerificationState::Verified => "verified"@,
            VerificationState::Failed => "failed"@,
        }
    }

    fn wire_str(self) -> (r: &'static str) {
        self.as_str()
    }
}

/// The effectivity dimension (closed vocabulary).
#[derive(Debug, Clone, Copy, PartialEq, Eq, Structural)]
pub enum EffectivityState {
    Pending,
    Scheduled,
    Effective,
    Suspended,
    Expired,
}

impl EffectivityState {
    pub open spec fn all_spec() -> Seq<Self> {
        seq![EffectivityState::Pending, EffectivityState::Scheduled, EffectivityState::Effective, EffectivityState::Suspended, EffectivityState::Expired]
    }

    /// Every value, in declaration order.
    pub fn all() -> (r: Vec<Self>)
        ensures
            r@ == Self::all_spec(),
    {
        let r = vec![EffectivityState::Pending, EffectivityState::Scheduled, EffectivityState::Effective, EffectivityState::Suspended, EffectivityState::Expired];
        proof {
            assert(r@ =~= Self::all_spec());
        }
        r
    }

    /// The value's wire spelling.
    pub fn as_str(self) -> (r: &'static str)
        ensures
            r@ == self.wire(),
    {
        match self {
            EffectivityState::Pending => "pending",
            EffectivityState::Scheduled => "scheduled",
            EffectivityState::Effective => "effective",
            EffectivityState::Suspended => "suspended",
            EffectivityState::Expired => "expired",
        }
    }
}

impl Vocabulary for EffectivityState {
    open spec fn wire(self) -> Seq<char> {
        match self {
            EffectivityState::Pending => "pending"@,
            EffectivityState::Scheduled => "scheduled"@,
            EffectivityState::Effective => "effective"@,
            EffectivityState::Suspended => "suspended"@,
            EffectivityState::Expired => "expired"@,
        }
    }

    fn wire_str(self) -> (r: &'static str) {
        self.as_str()
    }
}

/// The freshness dimension (closed vocabulary).
#[derive(Debug, Clone, Copy, PartialEq, Eq, Structural)]
pub enum FreshnessState {
    Current,
    NeedsReview,
    Stale,
}

impl FreshnessState {
    pub open spec fn all_spec() -> Seq<Self> {
        seq![FreshnessState::Current, FreshnessState::NeedsReview, FreshnessState::Stale]
    }

    /// Every value, in declaration order.
    pub fn all() -> (r: Vec<Self>)
        ensures
            r@ == Self::all_spec(),
    {
        let r = vec![FreshnessState::Current, FreshnessState::NeedsReview, FreshnessState::Stale];
        proof {
            assert(r@ =~= Self::all_spec());
        }
        r
    }

    /// The value's wire spelling.
    pub fn as_str(self) -> (r: &'static str)
        ensures
            r@ == self.wire(),
    {
        match self {
            FreshnessState::Current => "current",
            FreshnessState::NeedsReview => "needs_review",
            FreshnessState::Stale => "stale",
        }
    }
}

impl Vocabulary for FreshnessState {
    open spec fn wire(self) -> Seq<char> {
        match self {
            FreshnessState::Current => "current"@,
            FreshnessState::NeedsReview => "needs_review"@,
            FreshnessState::Stale => "stale"@,
        }
    }

    fn wire_str(self) -> (r: &'static str) {
        self.as_str()
    }
}

/// The integrity dimension (closed vocabulary).
#[derive(Debug, Clone, Copy, PartialEq, Eq, Structural)]
pub enum IntegrityState {
    Clear,
    PotentiallyConflicting,
    Contradicted,
}

impl IntegrityState {
    pub open spec fn all_spec() -> Seq<Self> {
        seq![IntegrityState::Clear, IntegrityState::PotentiallyConflicting, IntegrityState::Contradicted]
    }

    /// Every value, in declaration order.
    pub fn all() -> (r: Vec<Self>)
        ensures
            r@ == Self::all_spec(),
    {
        let r = vec![IntegrityState::Clear, IntegrityState::PotentiallyConflicting, IntegrityState::Contradicted];
        proof {
            assert(r@ =~= Self::all_spec());
        }
        r
    }

    /// The value's wire spelling.
    pub fn as_str(self) -> (r: &'static str)
        ensures
            r@ == self.wire(),
    {
        match self {
            IntegrityState::Clear => "clear",
            IntegrityState::PotentiallyConflicting => "potentially_conflicting",
            IntegrityState::Contradicted => "contradicted",
        }
    }
}

impl Vocabulary for IntegrityState {
    open spec fn wire(self) -> Seq<char> {
        match self {
            IntegrityState::Clear => "clear"@,
            IntegrityState::PotentiallyConflicting => "potentially_conflicting"@,
            IntegrityState::Contradicted => "contradicted"@,
        }
    }

    fn wire_str(self) -> (r: &'static str) {
        self.as_str()
    }
}

/// The synchronization dimension, always per connector (closed vocabulary).
#[derive(Debug, Clone, Copy, PartialEq, Eq, Structural)]
pub enum SynchronizationState {
    InSync,
    PendingWriteback,
    PendingExternalApproval,
    WritebackFailed,
    SourceAhead,
    SourceDiverged,
    Paused,
    NotApplicable,
}

impl SynchronizationState {
    pub open spec fn all_spec() -> Seq<Self> {
        seq![SynchronizationState::InSync, SynchronizationState::PendingWriteback, SynchronizationState::PendingExternalApproval, SynchronizationState::WritebackFailed, SynchronizationState::SourceAhead, SynchronizationState::SourceDiverged, SynchronizationState::Paused, SynchronizationState::NotApplicable]
    }

    /// Every value, in declaration order.
    pub fn all() -> (r: Vec<Self>)
        ensures
            r@ == Self::all_spec(),
    {
        let r = vec![SynchronizationState::InSync, SynchronizationState::PendingWriteback, SynchronizationState::PendingExternalApproval, SynchronizationState::WritebackFailed, SynchronizationState::SourceAhead, SynchronizationState::SourceDiverged, SynchronizationState::Paused, SynchronizationState::NotApplicable];
        proof {
            assert(r@ =~= Self::all_spec());
        }
        r
    }

    /// The value's wire spelling.
    pub fn as_str(self) -> (r: &'static str)
        ensures
            r@ == self.wire(),
    {
        match self {
            SynchronizationState::InSync => "in_sync",
            SynchronizationState::PendingWriteback => "pending_writeback",
            SynchronizationState::PendingExternalApproval => "pending_external_approval",
            SynchronizationState::WritebackFailed => "writeback_failed",
            SynchronizationState::SourceAhead => "source_ahead",
            SynchronizationState::SourceDiverged => "source_diverged",
            SynchronizationState::Paused => "paused",
            SynchronizationState::NotApplicable => "not_applicable",
        }
    }
}

impl Vocabulary for SynchronizationState {
    open spec fn wire(self) -> Seq<char> {
        match self {
            SynchronizationState::InSync => "in_sync"@,
            SynchronizationState::PendingWriteback => "pending_writeback"@,
            SynchronizationState::PendingExternalApproval => "pending_external_approval"@,
            SynchronizationState::WritebackFailed => "writeback_failed"@,
            SynchronizationState::SourceAhead => "source_ahead"@,
            SynchronizationState::SourceDiverged => "source_diverged"@,
            SynchronizationState::Paused => "paused"@,
            SynchronizationState::NotApplicable => "not_applicable"@,
        }
    }

    fn wire_str(self) -> (r: &'static str) {
        self.as_str()
    }
}

/// The replay posture a deletion leaves behind (closed vocabulary).
#[derive(Debug, Clone, Copy, PartialEq, Eq, Structural)]
pub enum ReplayPosture {
    FullyReplayable,
    SourceAccessRequired,
    IntentionallyNonReplayable,
    NoLongerReplayableAfterDeletion,
}

impl ReplayPosture {
    pub open spec fn all_spec() -> Seq<Self> {
        seq![ReplayPosture::FullyReplayable, ReplayPosture::SourceAccessRequired, ReplayPosture::IntentionallyNonReplayable, ReplayPosture::NoLongerReplayableAfterDeletion]
    }

    /// Every value, in declaration order.
    pub fn all() -> (r: Vec<Self>)
        ensures
            r@ == Self::all_spec(),
    {
        let r = vec![ReplayPosture::FullyReplayable, ReplayPosture::SourceAccessRequired, ReplayPosture::IntentionallyNonReplayable, ReplayPosture::NoLongerReplayableAfterDeletion];
        proof {
            assert(r@ =~= Self::all_spec());
        }
        r
    }

    /// The value's wire spelling.
    pub fn as_str(self) -> (r: &'static str)
        ensures
            r@ == self.wire(),
    {
        match self {
            ReplayPosture::FullyReplayable => "fully_replayable",
            ReplayPosture::SourceAccessRequired => "source_access_required",
            ReplayPosture::IntentionallyNonReplayable => "intentionally_non_replayable",
            ReplayPosture::NoLongerReplayableAfterDeletion => "no_longer_replayable_after_deletion",
        }
    }
}

impl Vocabulary for ReplayPosture {
    open spec fn wire(self) -> Seq<char> {
        match self {
            ReplayPosture::FullyReplayable => "fully_replayable"@,
            ReplayPosture::SourceAccessRequired => "source_access_required"@,
            ReplayPosture::IntentionallyNonReplayable => "intentionally_non_replayable"@,
            ReplayPosture::NoLongerReplayableAfterDeletion => "no_longer_replayable_after_deletion"@,
        }
    }

    fn wire_str(self) -> (r: &'static str) {
        self.as_str()
    }
}

/// Why an identity value was refused.
#[derive(Debug, Clone, Copy, PartialEq, Eq, Structural)]
pub enum ManagedStateEventError {
    InvalidConnector,
    InvalidEmitter,
}

impl ManagedStateEventError {
    /// The explanation that `message` gives, as text.
    pub open spec fn message_text(self) -> Seq<char> {
        match self {
            ManagedStateEventError::InvalidConnector => "connector id must be non-blank without surrounding whitespace"@,
            ManagedStateEventError::InvalidEmitter => "event emitter must be non-blank without surrounding whitespace"@,
        }
    }

    pub fn message(&self) -> (r: &'static str)
        ensures
            r@ == self.message_text(),
    {
        match self {
            ManagedStateEventError::InvalidConnector => "connector id must be non-blank without surrounding whitespace",
            ManagedStateEventError::InvalidEmitter => "event emitter must be non-blank without surrounding whitespace",
        }
    }
}

/// One connector's identity: non-empty, without surrounding whitespace,
/// never normalized.
#[derive(Debug, Clone, PartialEq, Eq)]
pub struct ConnectorId(String);

impl View for ConnectorId {
    type V = Seq<char>;

    closed spec fn view(&self) -> Seq<char> {
        self.0@
    }
}

impl ConnectorId {
    pub fn new(value: &str) -> (r: Result<Self, ManagedStateEventError>)
        ensures
            is_empty_or_padded(value@) ==> r == Err::<Self, _>(ManagedStateEventError::InvalidConnector),
            !is_empty_or_padded(value@) ==> (r matches Ok(c) && c@ == value@),
    {
        if str_is_empty_or_padded(value) {
            Err(ManagedStateEventError::InvalidConnector)
        } else {
            Ok(ConnectorId(owned(value)))
        }
    }

    pub fn as_str(&self) -> (r: &str)
        ensures
            r@ == self@,
    {
        self.0.as_str()
    }

    pub fn duplicate(&self) -> (r: Self)
        ensures
            r@ == self@,
    {
        ConnectorId(self.0.clone())
    }
}

/// The component that emitted a state event: non-empty, without
/// surrounding whitespace.
#[derive(Debug, Clone, PartialEq, Eq)]
pub struct EventEmitter(String);

impl View for EventEmitter {
    type V = Seq<char>;

    closed spec fn view(&self) -> Seq<char> {
        self.0@
    }
}

impl EventEmitter {
    pub fn new(value: &str) -> (r: Result<Self, ManagedStateEventError>)
        ensures
            is_empty_or_padded(value@) ==> r == Err::<Self, _>(ManagedStateEventError::InvalidEmitter),
            !is_empty_or_padded(value@) ==> (r matches Ok(e) && e@ == value@),
    {
        if str_is_empty_or_padded(value) {
            Err(ManagedStateEventError::InvalidEmitter)
        } else {
            Ok(EventEmitter(owned(value)))
        }
    }

    pub fn as_str(&self) -> (r: &str)
        ensures
            r@ == self@,
    {
        self.0.as_str()
    }

    pub fn duplicate(&self) -> (r: Self)
        ensures
            r@ == self@,
    {
        EventEmitter(self.0.clone())
    }
}

/// The immutable content version a state event attaches to: a Managed
/// Object's workspace canonical identity plus the exact version ID.
#[derive(Debug, Clone, PartialEq, Eq)]
pub struct StateEventSubject {
    pub canonical: WorkspaceCanonicalIdentity,
    pub version_id: ManagedVersionId,
}

impl View for StateEventSubject {
    type V = ((Seq<char>, Seq<char>), Seq<char>);

    open spec fn view(&self) -> ((Seq<char>, Seq<char>), Seq<char>) {
        (self.canonical@, self.version_id@)
    }
}

impl StateEventSubject {
    /// The subject naming `version_id` of the object `canonical`, when the
    /// workspace holds that exact version.
    pub fn bound(
        workspace: &ManagedWorkspace,
        canonical: &WorkspaceCanonicalIdentity,
        version_id: &ManagedVersionId,
    ) -> (r: Option<Self>)
        ensures
            has_version(workspace@, canonical@, version_id@) ==> (r matches Some(s) && s@ == (canonical@, version_id@)),
            !has_version(workspace@, canonical@, version_id@) ==> r is None,
    {
        if workspace.holds_version(canonical, version_id) {
            Some(StateEventSubject { canonical: canonical.duplicate(), version_id: version_id.duplicate() })
        } else {
            None
        }
    }

    /// Whether both name the same content version.
    pub fn same_as(&self, other: &Self) -> (r: bool)
        ensures
            r == (self@ == other@),
    {
        self.canonical.same_as(&other.canonical) && self.version_id.same_as(&other.version_id)
    }

    pub fn duplicate(&self) -> (r: Self)
        ensures
            r@ == self@,
    {
        StateEventSubject { canonical: self.canonical.duplicate(), version_id: self.version_id.duplicate() }
    }
}

/// The position of one recorded event in the append-only log: the only
/// notion of time in the managed state model.
#[derive(Debug, Clone, Copy, PartialEq, Eq, PartialOrd, Ord, Structural)]
pub struct EventOrdinal(pub u64);

/// Why the append-only store rejected a write-shaped request.
#[derive(Debug, Clone, Copy, PartialEq, Eq, Structural)]
pub enum StateEventStoreError {
    RecordConflict { claimed: EventOrdinal },
    CorrectionTargetMissing { corrects: EventOrdinal },
    RetentionFloorViolation { delete_below: EventOrdinal, protected_from: EventOrdinal },
    AuditPersistenceFailed,
    EventSerializationUnavailable,
}

impl StateEventStoreError {
    /// The registered wire code: both conflict shapes are appends that
    /// contradict recorded history; an event whose bytes cannot be
    /// produced fails like a sink that cannot persist them.
    pub fn diagnostic_code(&self) -> (r: DiagnosticCode)
        ensures
            r == match *self {
                StateEventStoreError::RecordConflict { .. } => DiagnosticCode::GovernanceRecordConflict,
                StateEventStoreError::CorrectionTargetMissing { .. } => DiagnosticCode::GovernanceRecordConflict,
                StateEventStoreError::RetentionFloorViolation { .. } => DiagnosticCode::StoreRetentionFloorViolation,
                StateEventStoreError::AuditPersistenceFailed => DiagnosticCode::AuditPersistenceFailed,
                StateEventStoreError::EventSerializationUnavailable => DiagnosticCode::AuditPersistenceFailed,
            },
    {
        match self {
            StateEventStoreError::RecordConflict { .. } => DiagnosticCode::GovernanceRecordConflict,
            StateEventStoreError::CorrectionTargetMissing { .. } => DiagnosticCode::GovernanceRecordConflict,
            StateEventStoreError::RetentionFloorViolation { .. } => DiagnosticCode::StoreRetentionFloorViolation,
            StateEventStoreError::AuditPersistenceFailed => DiagnosticCode::AuditPersistenceFailed,
            StateEventStoreError::EventSerializationUnavailable => DiagnosticCode::AuditPersistenceFailed,
        }
    }
}

// ---- audit coverage ----

/// One audited transition: a dimension, a target state, and the emitting
/// operation wired to audit it.
#[derive(Debug, Clone, PartialEq, Eq)]
pub struct AuditedTransition {
    pub dimension: &'static str,
    pub state: &'static str,
    pub emitter: &'static str,
}

/// The single append path that audits every transition.
pub const APPEND_EMITTER: &'static str = "managed_state_event_store.append";

fn wired(dimension: &'static str, state: &'static str) -> (r: AuditedTransition)
    ensures
        r.dimension@ == dimension@,
        r.state@ == state@,
        r.emitter@ == APPEND_EMITTER@,
{
    AuditedTransition { dimension, state, emitter: APPEND_EMITTER }
}

/// The (dimension, state) pairs a registry lists, in order.
pub open spec fn registered_pairs(reg: Seq<AuditedTransition>) -> Seq<(Seq<char>, Seq<char>)> {
    reg.map_values(|e: AuditedTransition| (e.dimension@, e.state@))
}

/// The pairs of `values`, each under `dimension`.
pub open spec fn wire_pairs<T: Vocabulary>(dimension: Seq<char>, values: Seq<T>) -> Seq<(Seq<char>, Seq<char>)> {
    values.map_values(|v: T| (dimension, v.wire()))
}

/// Every (dimension, target state) pair the six state machines can reach.
pub open spec fn complete_pairs() -> Seq<(Seq<char>, Seq<char>)> {
    wire_pairs("governance"@, GovernanceState::all_spec())
        + wire_pairs("verification"@, VerificationState::all_spec())
        + wire_pairs("effectivity"@, EffectivityState::all_spec())
        + wire_pairs("freshness"@, FreshnessState::all_spec())
        + wire_pairs("integrity"@, IntegrityState::all_spec())
        + wire_pairs("synchronization"@, SynchronizationState::all_spec())
}

/// The members of `a`, in order, that `b` does not contain.
pub open spec fn missing_from(a: Seq<(Seq<char>, Seq<char>)>, b: Seq<(Seq<char>, Seq<char>)>) -> Seq<(Seq<char>, Seq<char>)>
    decreases a.len(),
{
    if a.len() == 0 {
        Seq::empty()
    } else {
        let rest = missing_from(a.drop_last(), b);
        if b.contains(a.last()) {
            rest
        } else {
            rest.push(a.last())
        }
    }
}

pub open spec fn pairs_view(v: Seq<(String, String)>) -> Seq<(Seq<char>, Seq<char>)> {
    v.map_values(|p: (String, String)| (p.0@, p.1@))
}

/// The two directions the audit coverage guard checks.
#[derive(Debug, Clone, PartialEq, Eq)]
pub struct AuditCoverageDiff {
    pub unaudited: Vec<(String, String)>,
    pub unknown: Vec<(String, String)>,
}

/// The audit emitter registry: every transition is audited by the single
/// append path.
pub fn audit_emitter_registry() -> (r: Vec<AuditedTransition>)
    ensures
        registered_pairs(r@) == complete_pairs(),
        forall|i: int| 0 <= i < r@.len() ==> (#[trigger] r@[i]).emitter@ == APPEND_EMITTER@,
{
    let mut r: Vec<AuditedTransition> = Vec::new();
    r.push(wired("governance", "proposed"));
    r.push(wired("governance", "approved"));
    r.push(wired("governance", "rejected"));
    r.push(wired("governance", "revoked"));
    r.push(wired("verification", "unverified"));
    r.push(wired("verification", "partially_verified"));
    r.push(wired("verification", "verified"));
    r.push(wired("verification", "failed"));
    r.push(wired("effectivity", "pending"));
    r.push(wired("effectivity", "scheduled"));
    r.push(wired("effectivity", "effective"));
    r.push(wired("effectivity", "suspended"));
    r.push(wired("effectivity", "expired"));
    r.push(wired("freshness", "current"));
    r.push(wired("freshness", "needs_review"));
    r.push(wired("freshness", "stale"));
    r.push(wired("integrity", "clear"));
    r.push(wired("integrity", "potentially_conflicting"));
    r.push(wired("integrity", "contradicted"));
    r.push(wired("synchronization", "in_sync"));
    r.push(wired("synchronization", "pending_writeback"));
    r.push(wired("synchronization", "pending_external_approval"));
    r.push(wired("synchronization", "writeback_failed"));
    r.push(wired("synchronization", "source_ahead"));
    r.push(wired("synchronization", "source_diverged"));
    r.push(wired("synchronization", "paused"));
    r.push(wired("synchronization", "not_applicable"));
    proof {
        assert(registered_pairs(r@) =~= complete_pairs());
    }
    r
}

/// Append `(dimension, v)` for each value, in order.
fn extend_pairs<T: Vocabulary>(out: &mut Vec<(String, String)>, dimension: &str, values: Vec<T>)
    ensures
        pairs_view(final(out)@) == pairs_view(old(out)@) + wire_pairs(dimension@, values@),
{
    let ghost start = pairs_view(out@);
    let mut i: usize = 0;
    while i < values.len()
        invariant
            i <= values@.len(),
            pairs_view(out@) == start + wire_pairs(dimension@, values@.take(i as int)),
        decreases values.len() - i,
    {
        let v = values[i];
        let ghost before = out@;
        let d = owned(dimension);
        let w = owned(v.wire_str());
        out.push((d, w));
        proof {
            assert(pairs_view(out@) =~= pairs_view(before).push((dimension@, values@[i as int].wire())));
            assert(wire_pairs(dimension@, values@.take(i + 1)) =~= wire_pairs(dimension@, values@.take(i as int)).push(
                (dimension@, values@[i as int].wire()),
            ));
            assert(pairs_view(out@) =~= start + wire_pairs(dimension@, values@.take(i + 1)));
        }
        i = i + 1;
    }
    proof {
        assert(values@.take(values@.len() as int) =~= values@);
    }
}

/// Whether `b` contains the pair `p`.
fn contains_pair(b: &Vec<(String, String)>, p: &(String, String)) -> (r: bool)
    ensures
        r == pairs_view(b@).contains((p.0@, p.1@)),
{
    let mut j: usize = 0;
    while j < b.len()
        invariant
            j <= b@.len(),
            forall|k: int| 0 <= k < j ==> pairs_view(b@)[k] != (p.0@, p.1@),
        decreases b.len() - j,
    {
        if str_eq(b[j].0.as_str(), p.0.as_str()) && str_eq(b[j].1.as_str(), p.1.as_str()) {
            proof {
                assert(pairs_view(b@)[j as int] == (p.0@, p.1@));
            }
            return true;
        }
        j = j + 1;
    }
    false
}

/// The members of `a`, in order, that `b` lacks.
fn pairs_missing(a: &Vec<(String, String)>, b: &Vec<(String, String)>) -> (r: Vec<(String, String)>)
    ensures
        pairs_view(r@) == missing_from(pairs_view(a@), pairs_view(b@)),
{
    let mut out: Vec<(String, String)> = Vec::new();
    let mut i: usize = 0;
    while i < a.len()
        invariant
            i <= a@.len(),
            pairs_view(out@) == missing_from(pairs_view(a@).take(i as int), pairs_view(b@)),
        decreases a.len() - i,
    {
        proof {
            assert(pairs_view(a@).take(i + 1).drop_last() =~= pairs_view(a@).take(i as int));
            assert(pairs_view(a@).take(i + 1).last() == pairs_view(a@)[i as int]);
        }
        if !contains_pair(b, &a[i]) {
            out.push((a[i].0.clone(), a[i].1.clone()));
            proof {
                assert(pairs_view(out@) =~= missing_from(pairs_view(a@).take(i as int), pairs_view(b@)).push(
                    pairs_view(a@)[i as int],
                ));
            }
        }
        i = i + 1;
    }
    proof {
        assert(pairs_view(a@).take(a@.len() as int) =~= pairs_view(a@));
    }
    out
}

/// Diff the six state machines' transition sets against an audit emitter
/// registry: the transitions it does not audit, and the entries naming no
/// known transition, each in order.
pub fn audit_coverage_diff(registry: &[AuditedTransition]) -> (r: AuditCoverageDiff)
    ensures
        pairs_view(r.unaudited@) == missing_from(complete_pairs(), registered_pairs(registry@)),
        pairs_view(r.unknown@) == missing_from(registered_pairs(registry@), complete_pairs()),
{
    let mut complete: Vec<(String, String)> = Vec::new();
    extend_pairs(&mut complete, "governance", GovernanceState::all());
    extend_pairs(&mut complete, "verification", VerificationState::all());
    extend_pairs(&mut complete, "effectivity", EffectivityState::all());
    extend_pairs(&mut complete, "freshness", FreshnessState::all());
    extend_pairs(&mut complete, "integrity", IntegrityState::all());
    extend_pairs(&mut complete, "synchronization", SynchronizationState::all());
    proof {
        assert(pairs_view(complete@) =~= complete_pairs());
    }
    let mut registered: Vec<(String, String)> = Vec::new();
    let mut i: usize = 0;
    while i < registry.len()
        invariant
            i <= registry@.len(),
            pairs_view(registered@) == registered_pairs(registry@.take(i as int)),
        decreases registry.len() - i,
    {
        registered.push((owned(registry[i].dimension), owned(registry[i].state)));
        proof {
            assert(registered_pairs(registry@.take(i + 1)) =~= registered_pairs(registry@.take(i as int)).push(
                (registry@[i as int].dimension@, registry@[i as int].state@),
            ));
            assert(pairs_view(registered@) =~= registered_pairs(registry@.take(i + 1)));
        }
        i = i + 1;
    }
    proof {
        assert(registry@.take(registry@.len() as int) =~= registry@);
    }
    AuditCoverageDiff { unaudited: pairs_missing(&complete, &registered), unknown: pairs_missing(&registered, &complete) }
}

// ---- state events and their replay ----

/// What one managed state event records, tagged by its event family: one
/// family per dimension, each carrying only that dimension's vocabulary,
/// plus four families that advance no dimension.
#[derive(Debug, Clone, PartialEq, Eq)]
pub enum ManagedStateChange {
    Governance { state: GovernanceState },
    Verification { state: VerificationState },
    Effectivity { state: EffectivityState },
    Freshness { state: FreshnessState },
    Integrity { state: IntegrityState },
    Synchronization { connector: ConnectorId, state: SynchronizationState, required_before_effective: bool },
    AuthorizationAffectingSourceChange { connector: ConnectorId },
    Declassification,
    Migration,
    DeletionTombstone { replay_posture: ReplayPosture },
}

/// A change as plain values.
pub enum ChangeView {
    Governance(GovernanceState),
    Verification(VerificationState),
    Effectivity(EffectivityState),
    Freshness(FreshnessState),
    Integrity(IntegrityState),
    Synchronization(Seq<char>, SynchronizationState, bool),
    AuthorizationAffectingSourceChange(Seq<char>),
    Declassification,
    Migration,
    DeletionTombstone(ReplayPosture),
}

impl View for ManagedStateChange {
    type V = ChangeView;

    open spec fn view(&self) -> ChangeView {
        match self {
            ManagedStateChange::Governance { state } => ChangeView::Governance(*state),
            ManagedStateChange::Verification { state } => ChangeView::Verification(*state),
            ManagedStateChange::Effectivity { state } => ChangeView::Effectivity(*state),
            ManagedStateChange::Freshness { state } => ChangeView::Freshness(*state),
            ManagedStateChange::Integrity { state } => ChangeView::Integrity(*state),
            ManagedStateChange::Synchronization { connector, state, required_before_effective } =>
                ChangeView::Synchronization(connector@, *state, *required_before_effective),
            ManagedStateChange::AuthorizationAffectingSourceChange { connector } =>
                ChangeView::AuthorizationAffectingSourceChange(connector@),
            ManagedStateChange::Declassification => ChangeView::Declassification,
            ManagedStateChange::Migration => ChangeView::Migration,
            ManagedStateChange::DeletionTombstone { replay_posture } => ChangeView::DeletionTombstone(*replay_posture),
        }
    }
}

/// One managed state event over one immutable content version, with the
/// emitting component and the policy version it was emitted under. A
/// correction references the recorded ordinal it corrects.
#[derive(Debug, Clone, PartialEq, Eq)]
pub struct ManagedStateEvent {
    pub subject: StateEventSubject,
    pub change: ManagedStateChange,
    pub emitter: EventEmitter,
    pub policy_version: PolicyVersion,
    pub corrects: Option<EventOrdinal>,
}

pub struct EventView {
    pub subject: ((Seq<char>, Seq<char>), Seq<char>),
    pub change: ChangeView,
    pub emitter: Seq<char>,
    pub policy_version: Seq<char>,
    pub corrects: Option<u64>,
}

pub open spec fn ordinal_opt(o: Option<EventOrdinal>) -> Option<u64> {
    match o {
        Some(e) => Some(e.0),
        None => None,
    }
}

impl View for ManagedStateEvent {
    type V = EventView;

    open spec fn view(&self) -> EventView {
        EventView {
            subject: self.subject@,
            change: self.change@,
            emitter: self.emitter@,
            policy_version: self.policy_version@,
            corrects: ordinal_opt(self.corrects),
        }
    }
}

/// One event as recorded: its ordinal, the event, and the exact canonical
/// bytes and chained digest stored at write time.
#[derive(Debug, Clone, PartialEq, Eq)]
pub struct RecordedStateEvent {
    pub ordinal: EventOrdinal,
    pub event: ManagedStateEvent,
    pub event_bytes: String,
    pub digest: String,
}

pub struct RecordedView {
    pub ordinal: u64,
    pub event: EventView,
    pub event_bytes: Seq<char>,
    pub digest: Seq<char>,
}

impl View for RecordedStateEvent {
    type V = RecordedView;

    open spec fn view(&self) -> RecordedView {
        RecordedView { ordinal: self.ordinal.0, event: self.event@, event_bytes: self.event_bytes@, digest: self.digest@ }
    }
}

/// One dimension of reconstructed state: recorded, or an explicit gap.
#[derive(Debug, Clone, Copy, PartialEq, Eq, Structural)]
pub enum RecordedDimension<S> {
    Gap,
    Recorded(S),
}

/// One connector's reconstructed synchronization state.
#[derive(Debug, Clone, Copy, PartialEq, Eq, Structural)]
pub struct ConnectorSyncRecord {
    pub state: SynchronizationState,
    pub required_before_effective: bool,
}

/// One connector's entry of the synchronization dimension.
#[derive(Debug, Clone, PartialEq, Eq)]
pub struct ConnectorSync {
    pub connector: ConnectorId,
    pub record: ConnectorSyncRecord,
}

impl Keyed for ConnectorSync {
    open spec fn key(&self) -> Seq<Seq<char>> {
        seq![self.connector@]
    }

    fn key_less(&self, other: &Self) -> (r: bool) {
        proof {
            crate::sorted::lemma_one_component(self.connector@, other.connector@);
        }
        crate::text::str_lt(self.connector.as_str(), other.connector.as_str())
    }
}

impl MapEntry for ConnectorSync {
    type Val = ConnectorSyncRecord;

    open spec fn val(&self) -> ConnectorSyncRecord {
        self.record
    }
}

/// The synchronization dimension: one entry per connector, always in
/// connector order.
#[derive(Debug, PartialEq, Eq)]
pub struct ConnectorSyncs {
    entries: Vec<ConnectorSync>,
}

impl Clone for ConnectorSyncs {
    fn clone(&self) -> (r: Self)
        ensures
            r.as_map() == self.as_map(),
    {
        self.duplicate()
    }
}

impl ConnectorSyncs {
    #[verifier::type_invariant]
    spec fn entries_sorted(self) -> bool {
        sorted_by_key(self.entries@)
    }

    /// The entries, in connector order.
    pub closed spec fn entries_view(self) -> Seq<ConnectorSync> {
        self.entries@
    }

    /// The entries as a map from connector to its record.
    pub open spec fn as_map(self) -> Map<Seq<Seq<char>>, ConnectorSyncRecord> {
        entry_map(self.entries_view())
    }

    /// No connector recorded.
    pub fn new() -> (r: Self)
        ensures
            r.entries_view() == Seq::<ConnectorSync>::empty(),
            r.as_map() == Map::<Seq<Seq<char>>, ConnectorSyncRecord>::empty(),
    {
        let r = ConnectorSyncs { entries: Vec::new() };
        proof {
            assert(entry_map(r.entries@) =~= Map::<Seq<Seq<char>>, ConnectorSyncRecord>::empty());
        }
        r
    }

    /// The entries, in strictly increasing connector order.
    pub fn entries(&self) -> (r: &Vec<ConnectorSync>)
        ensures
            r@ == self.entries_view(),
            sorted_by_key(r@),
    {
        proof {
            use_type_invariant(self);
        }
        &self.entries
    }

    /// The number of connectors recorded.
    pub fn len(&self) -> (r: usize)
        ensures
            r == self.entries_view().len(),
    {
        self.entries.len()
    }

    /// Whether no connector is recorded.
    pub fn is_empty(&self) -> (r: bool)
        ensures
            r == (self.entries_view().len() == 0),
    {
        self.entries.len() == 0
    }

    /// Record `entry` under its connector, replacing any earlier record.
    pub fn upsert(&mut self, entry: ConnectorSync)
        ensures
            final(self).as_map() == old(self).as_map().insert(entry.key(), entry.val()),
    {
        proof {
            use_type_invariant(&*self);
        }
        let mut entries: Vec<ConnectorSync> = Vec::new();
        std::mem::swap(&mut entries, &mut self.entries);
        upsert(&mut entries, entry);
        self.entries = entries;
    }

    /// A copy with the same entries.
    pub fn duplicate(&self) -> (r: Self)
        ensures
            r.as_map() == self.as_map(),
    {
        proof {
            use_type_invariant(self);
        }
        let mut sync: Vec<ConnectorSync> = Vec::new();
        let mut i: usize = 0;
        while i < self.entries.len()
            invariant
                i <= self.entries@.len(),
                sync@.len() == i,
                forall|j: int| 0 <= j < i ==> (#[trigger] sync@[j]).key() == self.entries@[j].key()
                    && sync@[j].val() == self.entries@[j].val(),
            decreases self.entries.len() - i,
        {
            let e = &self.entries[i];
            sync.push(ConnectorSync { connector: e.connector.duplicate(), record: e.record });
            i = i + 1;
        }
        proof {
            let a = sync@;
            let b = self.entries@;
            assert forall|x: int, y: int| 0 <= x < y < a.len() implies key_lt(#[trigger] a[x].key(), #[trigger] a[y].key()) by {
                assert(a[x].key() == b[x].key() && a[y].key() == b[y].key());
            }
            assert forall|k: Seq<Seq<char>>| #[trigger] entry_map(a).contains_key(k) <==> entry_map(b).contains_key(k) by {
                lemma_entry_map_keys(a, k);
                lemma_entry_map_keys(b, k);
                if crate::sorted::has_key(a, k) {
                    let j = choose|j: int| 0 <= j < a.len() && #[trigger] a[j].key() == k;
                    assert(b[j].key() == k);
                }
                if crate::sorted::has_key(b, k) {
                    let j = choose|j: int| 0 <= j < b.len() && #[trigger] b[j].key() == k;
                    assert(a[j].key() == k);
                }
            }
            assert forall|k: Seq<Seq<char>>| #[trigger] entry_map(a).contains_key(k) implies entry_map(a)[k] == entry_map(b)[k] by {
                lemma_entry_map_keys(a, k);
                let j = choose|j: int| 0 <= j < a.len() && #[trigger] a[j].key() == k;
                lemma_entry_map_get(a, j);
                lemma_entry_map_get(b, j);
            }
            assert(entry_map(a) =~= entry_map(b));
        }
        ConnectorSyncs { entries: sync }
    }
}

/// The reconstructed state of one content version: six dimensions, each
/// recorded or a gap, synchronization per connector in connector order.
#[derive(Debug, Clone, PartialEq, Eq)]
pub struct ManagedVersionState {
    pub governance: RecordedDimension<GovernanceState>,
    pub verification: RecordedDimension<VerificationState>,
    pub effectivity: RecordedDimension<EffectivityState>,
    pub freshness: RecordedDimension<FreshnessState>,
    pub integrity: RecordedDimension<IntegrityState>,
    pub synchronization: ConnectorSyncs,
}

pub struct StateView {
    pub governance: RecordedDimension<GovernanceState>,
    pub verification: RecordedDimension<VerificationState>,
    pub effectivity: RecordedDimension<EffectivityState>,
    pub freshness: RecordedDimension<FreshnessState>,
    pub integrity: RecordedDimension<IntegrityState>,
    pub synchronization: Map<Seq<Seq<char>>, ConnectorSyncRecord>,
}

impl View for ManagedVersionState {
    type V = StateView;

    open spec fn view(&self) -> StateView {
        StateView {
            governance: self.governance,
            verification: self.verification,
            effectivity: self.effectivity,
            freshness: self.freshness,
            integrity: self.integrity,
            synchronization: self.synchronization.as_map(),
        }
    }
}

/// Every dimension a gap.
pub open spec fn all_gaps() -> StateView {
    StateView {
        governance: RecordedDimension::Gap,
        verification: RecordedDimension::Gap,
        effectivity: RecordedDimension::Gap,
        freshness: RecordedDimension::Gap,
        integrity: RecordedDimension::Gap,
        synchronization: Map::empty(),
    }
}

/// Apply one change: set exactly the dimension it names; the four
/// families beyond the dimensions advance none.
pub open spec fn apply_change(s: StateView, c: ChangeView) -> StateView {
    match c {
        ChangeView::Governance(st) => StateView { governance: RecordedDimension::Recorded(st), ..s },
        ChangeView::Verification(st) => StateView { verification: RecordedDimension::Recorded(st), ..s },
        ChangeView::Effectivity(st) => StateView { effectivity: RecordedDimension::Recorded(st), ..s },
        ChangeView::Freshness(st) => StateView { freshness: RecordedDimension::Recorded(st), ..s },
        ChangeView::Integrity(st) => StateView { integrity: RecordedDimension::Recorded(st), ..s },
        ChangeView::Synchronization(connector, st, required) => StateView {
            synchronization: s.synchronization.insert(
                seq![connector],
                ConnectorSyncRecord { state: st, required_before_effective: required },
            ),
            ..s
        },
        _ => s,
    }
}

impl ManagedVersionState {
    /// Every dimension a gap.
    pub fn all_gaps() -> (r: Self)
        ensures
            r@ == all_gaps(),
    {
        ManagedVersionState {
            governance: RecordedDimension::Gap,
            verification: RecordedDimension::Gap,
            effectivity: RecordedDimension::Gap,
            freshness: RecordedDimension::Gap,
            integrity: RecordedDimension::Gap,
            synchronization: ConnectorSyncs::new(),
        }
    }

    /// Apply one recorded change.
    pub fn apply(&mut self, change: &ManagedStateChange)
        ensures
            final(self)@ == apply_change(old(self)@, change@),
    {
        match change {
            ManagedStateChange::Governance { state } => {
                self.governance = RecordedDimension::Recorded(*state);
            },
            ManagedStateChange::Verification { state } => {
                self.verification = RecordedDimension::Recorded(*state);
            },
            ManagedStateChange::Effectivity { state } => {
                self.effectivity = RecordedDimension::Recorded(*state);
            },
            ManagedStateChange::Freshness { state } => {
                self.freshness = RecordedDimension::Recorded(*state);
            },
            ManagedStateChange::Integrity { state } => {
                self.integrity = RecordedDimension::Recorded(*state);
            },
            ManagedStateChange::Synchronization { connector, state, required_before_effective } => {
                self.synchronization.upsert(
                    ConnectorSync {
                        connector: connector.duplicate(),
                        record: ConnectorSyncRecord { state: *state, required_before_effective: *required_before_effective },
                    },
                );
            },
            ManagedStateChange::AuthorizationAffectingSourceChange { .. } => {},
            ManagedStateChange::Declassification => {},
            ManagedStateChange::Migration => {},
            ManagedStateChange::DeletionTombstone { .. } => {},
        }
    }

    /// A copy with the same state.
    pub fn duplicate(&self) -> (r: Self)
        ensures
            r@ == self@,
    {
        ManagedVersionState {
            governance: self.governance,
            verification: self.verification,
            effectivity: self.effectivity,
            freshness: self.freshness,
            integrity: self.integrity,
            synchronization: self.synchronization.duplicate(),
        }
    }
}

/// The key of a subject: workspace, canonical suffix, version.
pub open spec fn subject_key(s: ((Seq<char>, Seq<char>), Seq<char>)) -> Seq<Seq<char>> {
    seq![s.0.0, s.0.1, s.1]
}

/// Three-component keys order by the first differing component.
pub proof fn lemma_key3(a0: Seq<char>, a1: Seq<char>, a2: Seq<char>, b0: Seq<char>, b1: Seq<char>, b2: Seq<char>)
    ensures
        key_lt(seq![a0, a1, a2], seq![b0, b1, b2]) == (if a0 != b0 {
            seq_lt(a0, b0)
        } else if a1 != b1 {
            seq_lt(a1, b1)
        } else {
            seq_lt(a2, b2)
        }),
{
    reveal_with_fuel(key_lt, 4);
    let a = seq![a0, a1, a2];
    let b = seq![b0, b1, b2];
    assert(a.drop_first() =~= seq![a1, a2]);
    assert(b.drop_first() =~= seq![b1, b2]);
    assert(a.drop_first().drop_first() =~= seq![a2]);
    assert(b.drop_first().drop_first() =~= seq![b2]);
    assert(a.drop_first().drop_first().drop_first() =~= Seq::<Seq<char>>::empty());
    assert(b.drop_first().drop_first().drop_first() =~= Seq::<Seq<char>>::empty());
    if a2 == b2 {
        crate::text::lemma_seq_lt_irreflexive(a2);
    }
}

/// The reconstructed state of one content version, keyed by its subject.
#[derive(Debug, Clone, PartialEq, Eq)]
pub struct SubjectState {
    pub subject: StateEventSubject,
    pub state: ManagedVersionState,
}

impl Keyed for SubjectState {
    open spec fn key(&self) -> Seq<Seq<char>> {
        subject_key(self.subject@)
    }

    fn key_less(&self, other: &Self) -> (r: bool) {
        let a = &self.subject;
        let b = &other.subject;
        proof {
            lemma_key3(
                a.canonical.workspace_id@,
                a.canonical.canonical_id@,
                a.version_id@,
                b.canonical.workspace_id@,
                b.canonical.canonical_id@,
                b.version_id@,
            );
        }
        if !str_eq(a.canonical.workspace_id.as_str(), b.canonical.workspace_id.as_str()) {
            crate::text::str_lt(a.canonical.workspace_id.as_str(), b.canonical.workspace_id.as_str())
        } else if !str_eq(a.canonical.canonical_id.as_str(), b.canonical.canonical_id.as_str()) {
            crate::text::str_lt(a.canonical.canonical_id.as_str(), b.canonical.canonical_id.as_str())
        } else {
            crate::text::str_lt(a.version_id.as_str(), b.version_id.as_str())
        }
    }
}

impl MapEntry for SubjectState {
    type Val = StateView;

    open spec fn val(&self) -> StateView {
        self.state@
    }
}

/// The state of every subject after replaying `evs` in order.
pub open spec fn replay(evs: Seq<EventView>) -> Map<Seq<Seq<char>>, StateView>
    decreases evs.len(),
{
    if evs.len() == 0 {
        Map::empty()
    } else {
        let m = replay(evs.drop_last());
        let k = subject_key(evs.last().subject);
        let base = if m.contains_key(k) {
            m[k]
        } else {
            all_gaps()
        };
        m.insert(k, apply_change(base, evs.last().change))
    }
}

pub open spec fn recorded_events(s: Seq<RecordedStateEvent>) -> Seq<EventView> {
    s.map_values(|r: RecordedStateEvent| r.event@)
}

/// The recorded events with ordinal at most `through`: the first
/// `through + 1`, or all when fewer were recorded.
pub open spec fn events_through(evs: Seq<EventView>, through: u64) -> Seq<EventView> {
    if through + 1 < evs.len() {
        evs.take(through + 1)
    } else {
        evs
    }
}

/// The cached states are in subject order.
pub open spec fn states_wf(s: Seq<SubjectState>) -> bool {
    sorted_by_key(s)
}

/// The count of most-recent records every sweep must leave retained.
#[derive(Debug, Clone, Copy, PartialEq, Eq, Structural)]
pub struct RetentionFloor(pub u64);

/// A validated, never executed, retention sweep: the ordinals below the
/// floor-protected span.
#[derive(Debug, Clone, PartialEq, Eq)]
pub struct RetentionSweepPlan {
    pub sweepable: Vec<EventOrdinal>,
}

/// One audit record, written at append time with the exact event bytes
/// and chained digest.
#[derive(Debug, Clone, PartialEq, Eq)]
pub struct AuditRecord {
    pub ordinal: EventOrdinal,
    pub event_bytes: String,
    pub digest: String,
}

/// An audit record as values.
pub struct AuditRecordView {
    pub ordinal: u64,
    pub event_bytes: Seq<char>,
    pub digest: Seq<char>,
}

impl View for AuditRecord {
    type V = AuditRecordView;

    open spec fn view(&self) -> AuditRecordView {
        AuditRecordView { ordinal: self.ordinal.0, event_bytes: self.event_bytes@, digest: self.digest@ }
    }
}

/// The audit sink could not persist a record.
#[derive(Debug, Clone, Copy, PartialEq, Eq, Structural)]
pub struct AuditSinkError;

/// Where transition audit records are persisted. The store writes the
/// audit record before committing the event: a failure aborts the append.
/// A sink that models what it was handed defines `obeys_audit_model` as
/// `true` and, through `offered` and `received`, states every record handed
/// to it and the records it accepted, each in order; a sink that models
/// nothing keeps the defaults and claims nothing.
pub trait AuditSink {
    /// Whether this sink states its records through `offered` and
    /// `received`.
    open spec fn obeys_audit_model() -> bool {
        false
    }

    /// Every record handed to this sink, accepted or not, in order.
    open spec fn offered(&self) -> Seq<AuditRecordView> {
        Seq::empty()
    }

    /// The records this sink has accepted, in the order it accepted them.
    open spec fn received(&self) -> Seq<AuditRecordView> {
        Seq::empty()
    }

    /// Persist one record. The record joins what the sink was offered;
    /// acceptance adds exactly that record to what it has received, and a
    /// refusal adds nothing.
    fn record(&mut self, record: &AuditRecord) -> (r: Result<(), AuditSinkError>)
        ensures
            Self::obeys_audit_model() ==> final(self).offered() == old(self).offered().push(record@),
            Self::obeys_audit_model() && r is Ok ==> final(self).received() == old(self).received().push(record@),
            Self::obeys_audit_model() && r is Err ==> final(self).received() == old(self).received(),
    ;
}

/// The audit record of the event appended at `ordinal`.
pub open spec fn audit_view(ordinal: u64, event_bytes: Seq<char>, digest: Seq<char>) -> AuditRecordView {
    AuditRecordView { ordinal, event_bytes, digest }
}

/// The append-only managed state event log with its derived current-state
/// cache, which replaying the recorded events always reproduces.
#[derive(Debug, PartialEq, Eq)]
pub struct ManagedStateEventStore {
    events: Vec<RecordedStateEvent>,
    retention_floor: RetentionFloor,
    current: Vec<SubjectState>,
}

pub struct StoreView {
    pub events: Seq<RecordedView>,
    pub floor: u64,
}

impl View for ManagedStateEventStore {
    type V = StoreView;

    closed spec fn view(&self) -> StoreView {
        StoreView { events: self.events@.map_values(|r: RecordedStateEvent| r@), floor: self.retention_floor.0 }
    }
}

pub open spec fn event_views(s: Seq<RecordedView>) -> Seq<EventView> {
    s.map_values(|r: RecordedView| r.event)
}

impl ManagedStateEventStore {
    #[verifier::type_invariant]
    spec fn wf(self) -> bool {
        &&& forall|i: int| 0 <= i < self.events@.len() ==> (#[trigger] self.events@[i]).ordinal.0 == i
        &&& states_wf(self.current@)
        &&& entry_map(self.current@) == replay(recorded_events(self.events@))
    }

    /// An empty store under `retention_floor`.
    pub fn new(retention_floor: RetentionFloor) -> (r: Self)
        ensures
            r@.events == Seq::<RecordedView>::empty(),
            r@.floor == retention_floor.0,
    {
        let r = ManagedStateEventStore { events: Vec::new(), retention_floor, current: Vec::new() };
        proof {
            assert(recorded_events(r.events@) =~= Seq::<EventView>::empty());
            assert(entry_map(r.current@) =~= Map::<Seq<Seq<char>>, StateView>::empty());
            assert(r@.events =~= Seq::<RecordedView>::empty());
        }
        r
    }

    /// The recorded events, in append order: the replay input.
    pub fn events(&self) -> (r: &Vec<RecordedStateEvent>)
        ensures
            r@.map_values(|e: RecordedStateEvent| e@) == self@.events,
    {
        &self.events
    }

    /// The derived current state, in subject order: exactly the replay of
    /// every recorded event.
    pub fn current_state(&self) -> (r: &Vec<SubjectState>)
        ensures
            entry_map(r@) == replay(event_views(self@.events)),
            states_wf(r@),
    {
        proof {
            use_type_invariant(self);
            assert(event_views(self@.events) =~= recorded_events(self.events@));
        }
        &self.current
    }

    /// What the next append's digest chains onto: the previous record's
    /// digest (empty for the first record) followed by the event bytes.
    pub fn digest_input(&self, event_bytes: &str) -> (r: String)
        ensures
            r@ == (if self@.events.len() == 0 {
                Seq::<char>::empty()
            } else {
                self@.events.last().digest
            }) + event_bytes@,
    {
        let mut out = String::new();
        if self.events.len() > 0 {
            out.append(self.events[self.events.len() - 1].digest.as_str());
        }
        out.append(event_bytes);
        out
    }
}

/// Apply `change` to the cached state of `subject`, starting from all
/// gaps when the subject has none yet.
fn apply_to_cache(current: &mut Vec<SubjectState>, subject: &StateEventSubject, change: &ManagedStateChange)
    requires
        states_wf(old(current)@),
    ensures
        states_wf(final(current)@),
        entry_map(final(current)@) == entry_map(old(current)@).insert(
            subject_key(subject@),
            apply_change(
                if entry_map(old(current)@).contains_key(subject_key(subject@)) {
                    entry_map(old(current)@)[subject_key(subject@)]
                } else {
                    all_gaps()
                },
                change@,
            ),
        ),
{
    let ghost before = current@;
    let probe = SubjectState { subject: subject.duplicate(), state: ManagedVersionState::all_gaps() };
    let mut state = match index_of_key(current, &probe) {
        Some(i) => {
            proof {
                lemma_entry_map_get(before, i as int);
            }
            current[i].state.duplicate()
        },
        None => {
            proof {
                lemma_entry_map_keys(before, probe.key());
            }
            ManagedVersionState::all_gaps()
        },
    };
    state.apply(change);
    let entry = SubjectState { subject: subject.duplicate(), state };
    upsert(current, entry);
}

impl ManagedStateEventStore {
    /// Append one state event at the next ordinal. The event's canonical
    /// bytes and chained digest are supplied by the caller and recorded as
    /// given; nothing here computes or checks them. A correction must
    /// reference a recorded ordinal, else the sink is never called. The
    /// audit record (ordinal, bytes, digest) is handed to `sink` before the
    /// event commits: the event commits only when the sink accepts that
    /// record, and a sink failure aborts the append with the store unchanged.
    pub fn append<S: AuditSink>(
        &mut self,
        sink: &mut S,
        event: ManagedStateEvent,
        event_bytes: String,
        digest: String,
    ) -> (r: Result<EventOrdinal, StateEventStoreError>)
        ensures
            (event.corrects matches Some(c) && c.0 >= old(self)@.events.len()) ==> r == Err::<EventOrdinal, _>(
                StateEventStoreError::CorrectionTargetMissing { corrects: event.corrects.unwrap() },
            ),
            !(event.corrects matches Some(c) && c.0 >= old(self)@.events.len()) ==> (r is Ok || r == Err::<
                EventOrdinal,
                _,
            >(StateEventStoreError::AuditPersistenceFailed)),
            r matches Ok(o) ==> o.0 == old(self)@.events.len() && final(self)@.floor == old(self)@.floor
                && final(self)@.events == old(self)@.events.push(
                RecordedView { ordinal: o.0, event: event@, event_bytes: event_bytes@, digest: digest@ },
            ),
            r is Err ==> final(self)@ == old(self)@,
            (event.corrects matches Some(c) && c.0 >= old(self)@.events.len()) ==> *final(sink) == *old(sink),
            S::obeys_audit_model() && !(event.corrects matches Some(c) && c.0 >= old(self)@.events.len())
                ==> final(sink).offered() == old(sink).offered().push(
                audit_view(old(self)@.events.len() as u64, event_bytes@, digest@),
            ),
            S::obeys_audit_model() && r is Ok ==> final(sink).received() == old(sink).received().push(
                audit_view(old(self)@.events.len() as u64, event_bytes@, digest@),
            ),
            S::obeys_audit_model() && r is Err ==> final(sink).received() == old(sink).received(),
    {
        proof {
            use_type_invariant(&*self);
        }
        let ordinal = EventOrdinal(self.events.len() as u64);
        match event.corrects {
            Some(c) => {
                if c.0 >= ordinal.0 {
                    return Err(StateEventStoreError::CorrectionTargetMissing { corrects: c });
                }
            },
            None => {},
        }
        let audit = AuditRecord { ordinal, event_bytes: event_bytes.clone(), digest: digest.clone() };
        if sink.record(&audit).is_err() {
            return Err(StateEventStoreError::AuditPersistenceFailed);
        }
        let ghost old_events = self.events@;
        let ghost old_view = self@;
        let mut taken = ManagedStateEventStore::new(self.retention_floor);
        std::mem::swap(&mut taken, self);
        let ManagedStateEventStore { events: mut events, retention_floor, current: mut current } = taken;
        apply_to_cache(&mut current, &event.subject, &event.change);
        let ghost ev = event@;
        let ghost rv = RecordedView { ordinal: ordinal.0, event: event@, event_bytes: event_bytes@, digest: digest@ };
        events.push(RecordedStateEvent { ordinal, event, event_bytes, digest });
        proof {
            assert(recorded_events(events@) =~= recorded_events(old_events).push(ev));
            assert(recorded_events(events@).drop_last() =~= recorded_events(old_events));
        }
        *self = ManagedStateEventStore { events, retention_floor, current };
        proof {
            assert(self@.events =~= old_view.events.push(rv));
        }
        Ok(ordinal)
    }

    /// Append claiming an exact ordinal: any ordinal but the next one is a
    /// conflict with the recorded log, and nothing changes.
    pub fn append_at<S: AuditSink>(
        &mut self,
        sink: &mut S,
        claimed: EventOrdinal,
        event: ManagedStateEvent,
        event_bytes: String,
        digest: String,
    ) -> (r: Result<EventOrdinal, StateEventStoreError>)
        ensures
            claimed.0 != old(self)@.events.len() ==> r == Err::<EventOrdinal, _>(
                StateEventStoreError::RecordConflict { claimed },
            ),
            claimed.0 == old(self)@.events.len() && (event.corrects matches Some(c) && c.0 >= old(self)@.events.len())
                ==> r == Err::<EventOrdinal, _>(
                StateEventStoreError::CorrectionTargetMissing { corrects: event.corrects.unwrap() },
            ),
            claimed.0 == old(self)@.events.len() && !(event.corrects matches Some(c) && c.0 >= old(self)@.events.len())
                ==> (r is Ok || r == Err::<EventOrdinal, _>(StateEventStoreError::AuditPersistenceFailed)),
            r matches Ok(o) ==> o == claimed && final(self)@.floor == old(self)@.floor && final(self)@.events == old(
                self,
            )@.events.push(RecordedView { ordinal: o.0, event: event@, event_bytes: event_bytes@, digest: digest@ }),
            r is Err ==> final(self)@ == old(self)@,
            claimed.0 != old(self)@.events.len() ==> *final(sink) == *old(sink),
            claimed.0 == old(self)@.events.len() && (event.corrects matches Some(c) && c.0 >= old(self)@.events.len())
                ==> *final(sink) == *old(sink),
            S::obeys_audit_model() && claimed.0 == old(self)@.events.len() && !(event.corrects matches Some(c) && c.0
                >= old(self)@.events.len()) ==> final(sink).offered() == old(sink).offered().push(
                audit_view(claimed.0, event_bytes@, digest@),
            ),
            S::obeys_audit_model() && r is Ok ==> final(sink).received() == old(sink).received().push(
                audit_view(claimed.0, event_bytes@, digest@),
            ),
            S::obeys_audit_model() && r is Err ==> final(sink).received() == old(sink).received(),
    {
        proof {
            use_type_invariant(&*self);
        }
        if claimed.0 != self.events.len() as u64 {
            return Err(StateEventStoreError::RecordConflict { claimed });
        }
        self.append(sink, event, event_bytes, digest)
    }

    /// Validate a retention sweep deleting every record below
    /// `delete_below`. The most recent `floor` records (the whole log when
    /// shorter) are never sweepable; planning never deletes.
    pub fn plan_retention_sweep(&self, delete_below: EventOrdinal) -> (r: Result<RetentionSweepPlan, StateEventStoreError>)
        ensures
            ({
                let protected_from: int = if self@.events.len() >= self@.floor {
                    self@.events.len() - self@.floor
                } else {
                    0
                };
                &&& delete_below.0 > protected_from ==> (r matches Err(
                    StateEventStoreError::RetentionFloorViolation { delete_below: d, protected_from: p },
                ) && d == delete_below && p.0 == protected_from)
                &&& delete_below.0 <= protected_from ==> (r matches Ok(plan) && plan.sweepable@ == Seq::new(
                    delete_below.0 as nat,
                    |i: int| EventOrdinal(i as u64),
                ))
            }),
    {
        let len = self.events.len() as u64;
        let protected_from: u64 = if len >= self.retention_floor.0 {
            len - self.retention_floor.0
        } else {
            0
        };
        if delete_below.0 > protected_from {
            return Err(
                StateEventStoreError::RetentionFloorViolation { delete_below, protected_from: EventOrdinal(protected_from) },
            );
        }
        let mut sweepable: Vec<EventOrdinal> = Vec::new();
        let mut i: u64 = 0;
        while i < delete_below.0
            invariant
                i <= delete_below.0,
                sweepable@ == Seq::new(i as nat, |k: int| EventOrdinal(k as u64)),
            decreases delete_below.0 - i,
        {
            sweepable.push(EventOrdinal(i));
            proof {
                assert(sweepable@ =~= Seq::new((i + 1) as nat, |k: int| EventOrdinal(k as u64)));
            }
            i = i + 1;
        }
        Ok(RetentionSweepPlan { sweepable })
    }

    /// Historical state at ordinal `through`: the replay of the recorded
    /// events up to and including it, from the records alone.
    pub fn reconstruct_through(&self, through: EventOrdinal) -> (r: Vec<SubjectState>)
        ensures
            entry_map(r@) == replay(events_through(event_views(self@.events), through.0)),
            states_wf(r@),
    {
        proof {
            use_type_invariant(self);
        }
        let ghost evs = recorded_events(self.events@);
        proof {
            assert(event_views(self@.events) =~= evs);
        }
        let mut out: Vec<SubjectState> = Vec::new();
        proof {
            assert(entry_map(out@) =~= Map::<Seq<Seq<char>>, StateView>::empty());
            assert(evs.take(0) =~= Seq::<EventView>::empty());
        }
        let mut i: usize = 0;
        while i < self.events.len() && self.events[i].ordinal.0 <= through.0
            invariant
                evs == recorded_events(self.events@),
                forall|j: int| 0 <= j < self.events@.len() ==> (#[trigger] self.events@[j]).ordinal.0 == j,
                i <= self.events@.len(),
                i <= through.0 + 1,
                states_wf(out@),
                entry_map(out@) == replay(evs.take(i as int)),
            decreases self.events.len() - i,
        {
            let recorded = &self.events[i];
            apply_to_cache(&mut out, &recorded.event.subject, &recorded.event.change);
            proof {
                assert(evs.take(i + 1).drop_last() =~= evs.take(i as int));
                assert(evs.take(i + 1).last() == recorded.event@);
            }
            i = i + 1;
        }
        proof {
            if i == self.events@.len() {
                assert(evs.take(i as int) =~= evs);
            }
        }
        out
    }
}

// ---- laws of the store ----

/// Appending never changes the state reconstructed at an earlier ordinal:
/// history before a new record, a correction included, stands unrewritten.
pub proof fn lemma_append_keeps_history(evs: Seq<EventView>, e: EventView, through: u64)
    requires
        through < evs.len(),
    ensures
        events_through(evs.push(e), through) == events_through(evs, through),
{
    assert(evs.push(e).take(through + 1) =~= evs.take(through + 1));
    if through + 1 == evs.len() {
        assert(evs.take(through + 1) =~= evs);
    }
}

/// Reconstructing through the last recorded ordinal, or any later one,
/// replays every event: it reproduces the derived current state.
pub proof fn lemma_full_reconstruction_is_current(evs: Seq<EventView>, through: u64)
    requires
        through + 1 >= evs.len(),
    ensures
        replay(events_through(evs, through)) == replay(evs),
{
}

/// The four families beyond the six dimensions advance no dimension.
pub proof fn lemma_non_dimension_families_advance_nothing(s: StateView, c: ChangeView)
    requires
        c is AuthorizationAffectingSourceChange || c is Declassification || c is Migration || c is DeletionTombstone,
    ensures
        apply_change(s, c) == s,
{
}

/// An event changes the reconstructed state of its own subject only.
pub proof fn lemma_event_touches_only_its_subject(evs: Seq<EventView>, e: EventView, k: Seq<Seq<char>>)
    requires
        k != subject_key(e.subject),
    ensures
        replay(evs.push(e)).contains_key(k) == replay(evs).contains_key(k),
        replay(evs).contains_key(k) ==> replay(evs.push(e))[k] == replay(evs)[k],
{
    assert(evs.push(e).drop_last() =~= evs);
}

/// A dimension change sets its own dimension and leaves every other one,
/// and every connector but its own, as they were.
pub proof fn lemma_change_sets_only_its_dimension(s: StateView, c: ChangeView)
    ensures
        !(c is Governance) ==> apply_change(s, c).governance == s.governance,
        !(c is Verification) ==> apply_change(s, c).verification == s.verification,
        !(c is Effectivity) ==> apply_change(s, c).effectivity == s.effectivity,
        !(c is Freshness) ==> apply_change(s, c).freshness == s.freshness,
        !(c is Integrity) ==> apply_change(s, c).integrity == s.integrity,
        !(c is Synchronization) ==> apply_change(s, c).synchronization == s.synchronization,
        c matches ChangeView::Synchronization(connector, _, _) ==> forall|k: Seq<Seq<char>>|
            k != seq![connector] ==> (#[trigger] apply_change(s, c).synchronization.contains_key(k)
                == s.synchronization.contains_key(k) && (s.synchronization.contains_key(k) ==> apply_change(
                s,
                c,
            ).synchronization[k] == s.synchronization[k])),
{
}

} // verus!
