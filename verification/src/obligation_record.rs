//! Stage-bound stateful proof obligation records, the policy data that
//! classifies them, principal-bound waivers, and the append-only ledger
//! that replays their states.
//!
//! Every record opens `open`; `satisfied`, `failed` and `expired` are
//! terminal; `waived` is reachable only through a waiver bound to the
//! exact obligation and managed-version subject. Whether an obligation is
//! informational or blocking is decided by policy data alone, and a lapsed
//! waiver reopens its obligation as blocking. No wall clock exists here:
//! expiry is evaluated at an explicit event ordinal.

use vstd::prelude::*;

use crate::graph::{clone_strings, opt_view, strs_view};
use crate::managed::reconciliation::{PolicyVersion, Principal};
use crate::managed_state::{EventOrdinal, StateEventSubject};
use crate::obligation::ProofObligation;
use crate::sorted::{sorted_by_key, Keyed};
use crate::string_set::{insert_str, lemma_push_contains, lemma_sorted_strings, lists_sorted, strictly_sorted};
use crate::text::{is_blank, is_empty_or_padded, owned, seq_lt, str_eq, str_is_blank, str_is_empty_or_padded};

verus! {

/// The registered contract id every serialized record carries.
pub const PROOF_OBLIGATION_SCHEMA_VERSION: &'static str = "adoc.proof_obligation.v0";

/// An obligation's state (closed vocabulary).
#[derive(Debug, Clone, Copy, PartialEq, Eq, Structural)]
pub enum ObligationState {
    Open,
    Satisfied,
    Waived,
    Failed,
    Expired,
}

impl ObligationState {
    pub open spec fn wire(self) -> Seq<char> {
        match self {
            ObligationState::Open => "open"@,
            ObligationState::Satisfied => "satisfied"@,
            ObligationState::Waived => "waived"@,
            ObligationState::Failed => "failed"@,
            ObligationState::Expired => "expired"@,
        }
    }

    /// `satisfied`, `failed` and `expired` never transition again.
    pub open spec fn is_terminal(self) -> bool {
        self == ObligationState::Satisfied || self == ObligationState::Failed || self == ObligationState::Expired
    }

    pub fn as_str(self) -> (r: &'static str)
        ensures
            r@ == self.wire(),
    {
        match self {
            ObligationState::Open => "open",
            ObligationState::Satisfied => "satisfied",
            ObligationState::Waived => "waived",
            ObligationState::Failed => "failed",
            ObligationState::Expired => "expired",
        }
    }

    /// Every state, in declaration order.
    pub fn all() -> (r: Vec<Self>)
        ensures
            r@ == seq![
                ObligationState::Open,
                ObligationState::Satisfied,
                ObligationState::Waived,
                ObligationState::Failed,
                ObligationState::Expired,
            ],
    {
        let r = vec![
            ObligationState::Open,
            ObligationState::Satisfied,
            ObligationState::Waived,
            ObligationState::Failed,
            ObligationState::Expired,
        ];
        proof {
            assert(r@ =~= seq![
                ObligationState::Open,
                ObligationState::Satisfied,
                ObligationState::Waived,
                ObligationState::Failed,
                ObligationState::Expired,
            ]);
        }
        r
    }
}

/// The stage an obligation is required at (closed vocabulary).
#[derive(Debug, Clone, Copy, PartialEq, Eq, Structural)]
pub enum ObligationStage {
    ProposalValidation,
    Approval,
    Verification,
    Effectivity,
    ConnectorSynchronization,
    AgentAction,
}

impl ObligationStage {
    pub open spec fn wire(self) -> Seq<char> {
        match self {
            ObligationStage::ProposalValidation => "proposal_validation"@,
            ObligationStage::Approval => "approval"@,
            ObligationStage::Verification => "verification"@,
            ObligationStage::Effectivity => "effectivity"@,
            ObligationStage::ConnectorSynchronization => "connector_synchronization"@,
            ObligationStage::AgentAction => "agent_action"@,
        }
    }

    pub fn as_str(self) -> (r: &'static str)
        ensures
            r@ == self.wire(),
    {
        match self {
            ObligationStage::ProposalValidation => "proposal_validation",
            ObligationStage::Approval => "approval",
            ObligationStage::Verification => "verification",
            ObligationStage::Effectivity => "effectivity",
            ObligationStage::ConnectorSynchronization => "connector_synchronization",
            ObligationStage::AgentAction => "agent_action",
        }
    }

    /// Every stage, in declaration order.
    pub fn all() -> (r: Vec<Self>)
        ensures
            r@ == seq![
                ObligationStage::ProposalValidation,
                ObligationStage::Approval,
                ObligationStage::Verification,
                ObligationStage::Effectivity,
                ObligationStage::ConnectorSynchronization,
                ObligationStage::AgentAction,
            ],
    {
        let r = vec![
            ObligationStage::ProposalValidation,
            ObligationStage::Approval,
            ObligationStage::Verification,
            ObligationStage::Effectivity,
            ObligationStage::ConnectorSynchronization,
            ObligationStage::AgentAction,
        ];
        proof {
            assert(r@ =~= seq![
                ObligationStage::ProposalValidation,
                ObligationStage::Approval,
                ObligationStage::Verification,
                ObligationStage::Effectivity,
                ObligationStage::ConnectorSynchronization,
                ObligationStage::AgentAction,
            ]);
        }
        r
    }
}

/// How an obligation counts at a stage.
#[derive(Debug, Clone, Copy, PartialEq, Eq, Structural)]
pub enum ObligationClassification {
    Informational,
    Blocking,
}

/// Why an obligation write was rejected.
#[derive(Debug, Clone, PartialEq, Eq)]
pub enum ObligationError {
    InvalidObligationId,
    InvalidReason,
    InvalidRequiredEvidence,
    InvalidRisk,
    InvalidRuleMatcher,
    InvalidJustification,
    WaiverBindingMismatch { id: ObligationId },
    NotWaivable { id: ObligationId },
    DuplicateObligation { id: ObligationId },
    UnknownObligation { id: ObligationId },
    TerminalStateStanding { id: ObligationId, standing: ObligationState },
    OpenedRecordNotOpen,
    WaiverRequired,
    ReopenNotRecordable,
}

impl ObligationError {
    /// The explanation that `message` gives, as text.
    pub open spec fn message_text(self) -> Seq<char> {
        match self {
            ObligationError::InvalidObligationId => "obligation id must be non-blank without surrounding whitespace"@,
            ObligationError::InvalidReason => "obligation reason must be non-blank"@,
            ObligationError::InvalidRequiredEvidence => "every required-evidence entry must be non-blank"@,
            ObligationError::InvalidRisk => "an authored risk classification must be non-blank"@,
            ObligationError::InvalidRuleMatcher => "a classification-rule matcher must be non-blank when present"@,
            ObligationError::InvalidJustification => "waiver justification must be non-blank"@,
            ObligationError::WaiverBindingMismatch { .. } =>
                "the waiver names an obligation bound to a different managed-version subject"@,
            ObligationError::NotWaivable { .. } => "the obligation is not open; only an open obligation is waivable"@,
            ObligationError::DuplicateObligation { .. } => "the obligation is already open in this ledger"@,
            ObligationError::UnknownObligation { .. } => "the obligation is not recorded in this ledger"@,
            ObligationError::TerminalStateStanding { .. } =>
                "the obligation already stands in a terminal state, which never transitions again"@,
            ObligationError::OpenedRecordNotOpen => "an opened obligation record must start in the `open` state"@,
            ObligationError::WaiverRequired => "`waived` is reachable only through a waiver record, never a bare state append"@,
            ObligationError::ReopenNotRecordable =>
                "`open` is the opening state; reopening is derived from waiver expiry, never appended"@,
        }
    }

    /// The human-readable explanation of the rejection.
    pub fn message(&self) -> (r: &'static str)
        ensures
            r@ == self.message_text(),
    {
        match self {
            ObligationError::InvalidObligationId => "obligation id must be non-blank without surrounding whitespace",
            ObligationError::InvalidReason => "obligation reason must be non-blank",
            ObligationError::InvalidRequiredEvidence => "every required-evidence entry must be non-blank",
            ObligationError::InvalidRisk => "an authored risk classification must be non-blank",
            ObligationError::InvalidRuleMatcher => "a classification-rule matcher must be non-blank when present",
            ObligationError::InvalidJustification => "waiver justification must be non-blank",
            ObligationError::WaiverBindingMismatch { .. } =>
                "the waiver names an obligation bound to a different managed-version subject",
            ObligationError::NotWaivable { .. } => "the obligation is not open; only an open obligation is waivable",
            ObligationError::DuplicateObligation { .. } => "the obligation is already open in this ledger",
            ObligationError::UnknownObligation { .. } => "the obligation is not recorded in this ledger",
            ObligationError::TerminalStateStanding { .. } =>
                "the obligation already stands in a terminal state, which never transitions again",
            ObligationError::OpenedRecordNotOpen => "an opened obligation record must start in the `open` state",
            ObligationError::WaiverRequired => "`waived` is reachable only through a waiver record, never a bare state append",
            ObligationError::ReopenNotRecordable =>
                "`open` is the opening state; reopening is derived from waiver expiry, never appended",
        }
    }
}

/// One obligation's identity within a ledger: non-empty, without
/// surrounding whitespace, never normalized.
#[derive(Debug, Clone, PartialEq, Eq)]
pub struct ObligationId(String);

impl View for ObligationId {
    type V = Seq<char>;

    closed spec fn view(&self) -> Seq<char> {
        self.0@
    }
}

impl ObligationId {
    pub fn new(value: &str) -> (r: Result<Self, ObligationError>)
        ensures
            is_empty_or_padded(value@) ==> r == Err::<Self, _>(ObligationError::InvalidObligationId),
            !is_empty_or_padded(value@) ==> (r matches Ok(id) && id@ == value@),
    {
        if str_is_empty_or_padded(value) {
            Err(ObligationError::InvalidObligationId)
        } else {
            Ok(ObligationId(owned(value)))
        }
    }

    pub fn as_str(&self) -> (r: &str)
        ensures
            r@ == self@,
    {
        self.0.as_str()
    }

    pub fn duplicate(&self) -> (r: Self)
        ensures
            r@ == self@,
    {
        ObligationId(self.0.clone())
    }

    pub fn same_as(&self, other: &Self) -> (r: bool)
        ensures
            r == (self@ == other@),
    {
        str_eq(self.0.as_str(), other.0.as_str())
    }
}

impl Keyed for ObligationId {
    open spec fn key(&self) -> Seq<Seq<char>> {
        seq![self@]
    }

    fn key_less(&self, other: &Self) -> (r: bool) {
        proof {
            crate::sorted::lemma_one_component(self@, other@);
        }
        crate::text::str_lt(self.0.as_str(), other.0.as_str())
    }
}

/// What a record states, as plain values.
pub struct RecordView {
    pub id: Seq<char>,
    pub subject: ((Seq<char>, Seq<char>), Seq<char>),
    pub reason: Seq<char>,
    pub evidence: Seq<Seq<char>>,
    pub required_at: ObligationStage,
    pub risk: Option<Seq<char>>,
    pub state: ObligationState,
}

/// The record `r` standing in state `s`.
pub open spec fn with_state(r: RecordView, s: ObligationState) -> RecordView {
    RecordView { state: s, ..r }
}

/// The typed, stateful, stage-bound proof obligation record, bound to the
/// exact managed version it constrains. The validating constructors are
/// the only way to build one.
#[derive(Debug, PartialEq, Eq)]
pub struct ProofObligationRecord {
    obligation_id: ObligationId,
    subject: StateEventSubject,
    reason: String,
    required_evidence: Vec<String>,
    required_at: ObligationStage,
    risk: Option<String>,
    state: ObligationState,
}

impl View for ProofObligationRecord {
    type V = RecordView;

    closed spec fn view(&self) -> RecordView {
        RecordView {
            id: self.obligation_id@,
            subject: self.subject@,
            reason: self.reason@,
            evidence: strs_view(self.required_evidence@),
            required_at: self.required_at,
            risk: opt_view(self.risk),
            state: self.state,
        }
    }
}

/// Some required-evidence entry is blank.
pub open spec fn has_blank_entry(evidence: Seq<Seq<char>>) -> bool {
    exists|i: int| 0 <= i < evidence.len() && is_blank(#[trigger] evidence[i])
}

/// A present risk or matcher that is empty or padded.
pub open spec fn padded_key(k: Option<Seq<char>>) -> bool {
    k matches Some(v) && is_empty_or_padded(v)
}

/// Why `open` refuses these inputs, if it does.
pub open spec fn open_error(reason: Seq<char>, evidence: Seq<Seq<char>>, risk: Option<Seq<char>>) -> Option<ObligationError> {
    if is_blank(reason) {
        Some(ObligationError::InvalidReason)
    } else if has_blank_entry(evidence) {
        Some(ObligationError::InvalidRequiredEvidence)
    } else if padded_key(risk) {
        Some(ObligationError::InvalidRisk)
    } else {
        None
    }
}

fn any_blank(v: &Vec<String>) -> (r: bool)
    ensures
        r == has_blank_entry(strs_view(v@)),
{
    let mut i: usize = 0;
    while i < v.len()
        invariant
            i <= v@.len(),
            forall|j: int| 0 <= j < i ==> !is_blank(#[trigger] strs_view(v@)[j]),
        decreases v.len() - i,
    {
        if str_is_blank(v[i].as_str()) {
            proof {
                assert(is_blank(strs_view(v@)[i as int]));
            }
            return true;
        }
        i = i + 1;
    }
    false
}

fn padded_option(k: &Option<String>) -> (r: bool)
    ensures
        r == padded_key(opt_view(*k)),
{
    match k {
        Some(v) => str_is_empty_or_padded(v.as_str()),
        None => false,
    }
}

impl ProofObligationRecord {
    /// Open a new stage-bound obligation. A blank reason, a blank
    /// required-evidence entry, or an empty or padded risk is refused.
    pub fn open(
        obligation_id: ObligationId,
        subject: StateEventSubject,
        reason: &str,
        required_evidence: Vec<String>,
        required_at: ObligationStage,
        risk: Option<String>,
    ) -> (r: Result<Self, ObligationError>)
        ensures
            match open_error(reason@, strs_view(required_evidence@), opt_view(risk)) {
                Some(e) => r == Err::<Self, ObligationError>(e),
                None => r matches Ok(rec) && rec@ == (RecordView {
                    id: obligation_id@,
                    subject: subject@,
                    reason: reason@,
                    evidence: strs_view(required_evidence@),
                    required_at,
                    risk: opt_view(risk),
                    state: ObligationState::Open,
                }),
            },
    {
        if str_is_blank(reason) {
            return Err(ObligationError::InvalidReason);
        }
        if any_blank(&required_evidence) {
            return Err(ObligationError::InvalidRequiredEvidence);
        }
        if padded_option(&risk) {
            return Err(ObligationError::InvalidRisk);
        }
        Ok(ProofObligationRecord {
            obligation_id,
            subject,
            reason: owned(reason),
            required_evidence,
            required_at,
            risk,
            state: ObligationState::Open,
        })
    }

    /// Relate the stateless obligation to a stage-bound open record: reason
    /// and required evidence carry over; the caller supplies the exact
    /// subject and the stage. The same checks as [`Self::open`] apply.
    pub fn from_legacy(
        legacy: &ProofObligation,
        obligation_id: ObligationId,
        subject: StateEventSubject,
        required_at: ObligationStage,
    ) -> (r: Result<Self, ObligationError>)
        ensures
            match open_error(legacy.reason@, strs_view(legacy.required_evidence@), None) {
                Some(e) => r == Err::<Self, ObligationError>(e),
                None => r matches Ok(rec) && rec@ == (RecordView {
                    id: obligation_id@,
                    subject: subject@,
                    reason: legacy.reason@,
                    evidence: strs_view(legacy.required_evidence@),
                    required_at,
                    risk: None,
                    state: ObligationState::Open,
                }),
            },
    {
        Self::open(obligation_id, subject, legacy.reason.as_str(), clone_strings(&legacy.required_evidence), required_at, None)
    }

    /// The contract id of the serialized record.
    pub fn schema_version(&self) -> &'static str {
        PROOF_OBLIGATION_SCHEMA_VERSION
    }

    pub fn obligation_id(&self) -> (r: &ObligationId)
        ensures
            r@ == self@.id,
    {
        &self.obligation_id
    }

    pub fn subject(&self) -> (r: &StateEventSubject)
        ensures
            r@ == self@.subject,
    {
        &self.subject
    }

    pub fn reason(&self) -> (r: &str)
        ensures
            r@ == self@.reason,
    {
        self.reason.as_str()
    }

    pub fn required_evidence(&self) -> (r: &Vec<String>)
        ensures
            strs_view(r@) == self@.evidence,
    {
        &self.required_evidence
    }

    pub fn required_at(&self) -> (r: ObligationStage)
        ensures
            r == self@.required_at,
    {
        self.required_at
    }

    pub fn risk(&self) -> (r: &Option<String>)
        ensures
            opt_view(*r) == self@.risk,
    {
        &self.risk
    }

    pub fn state(&self) -> (r: ObligationState)
        ensures
            r == self@.state,
    {
        self.state
    }

    pub fn duplicate(&self) -> (r: Self)
        ensures
            r@ == self@,
    {
        ProofObligationRecord {
            obligation_id: self.obligation_id.duplicate(),
            subject: self.subject.duplicate(),
            reason: self.reason.clone(),
            required_evidence: clone_strings(&self.required_evidence),
            required_at: self.required_at,
            risk: crate::graph::clone_opt_string(&self.risk),
            state: self.state,
        }
    }
}

// ---- classification policy ----

/// What a rule states, as plain values.
pub struct RuleView {
    pub stage: ObligationStage,
    pub risk: Option<Seq<char>>,
    pub action: Option<Seq<char>>,
    pub classification: ObligationClassification,
}

/// One classification rule: a stage, optional exact risk and action
/// matchers (absent means "any"), and the classification it assigns.
#[derive(Debug, PartialEq, Eq)]
pub struct ObligationPolicyRule {
    stage: ObligationStage,
    risk: Option<String>,
    action: Option<String>,
    classification: ObligationClassification,
}

impl View for ObligationPolicyRule {
    type V = RuleView;

    closed spec fn view(&self) -> RuleView {
        RuleView { stage: self.stage, risk: opt_view(self.risk), action: opt_view(self.action), classification: self.classification }
    }
}

impl ObligationPolicyRule {
    /// A rule with validated matchers: a present matcher that is empty or
    /// padded would never match and is refused.
    pub fn new(
        stage: ObligationStage,
        risk: Option<String>,
        action: Option<String>,
        classification: ObligationClassification,
    ) -> (r: Result<Self, ObligationError>)
        ensures
            (padded_key(opt_view(risk)) || padded_key(opt_view(action))) ==> r == Err::<Self, _>(
                ObligationError::InvalidRuleMatcher,
            ),
            !(padded_key(opt_view(risk)) || padded_key(opt_view(action))) ==> (r matches Ok(rule) && rule@ == (RuleView {
                stage,
                risk: opt_view(risk),
                action: opt_view(action),
                classification,
            })),
    {
        if padded_option(&risk) || padded_option(&action) {
            return Err(ObligationError::InvalidRuleMatcher);
        }
        Ok(ObligationPolicyRule { stage, risk, action, classification })
    }
}

/// A matcher accepts a value when absent or exactly equal.
pub open spec fn matcher_accepts(matcher: Option<Seq<char>>, value: Option<Seq<char>>) -> bool {
    matcher is None || matcher == value
}

pub open spec fn rule_matches(
    r: RuleView,
    stage: ObligationStage,
    risk: Option<Seq<char>>,
    action: Option<Seq<char>>,
) -> bool {
    r.stage == stage && matcher_accepts(r.risk, risk) && matcher_accepts(r.action, action)
}

/// The first rule at or after position `i` that matches.
pub open spec fn first_match_from(
    rules: Seq<RuleView>,
    i: int,
    stage: ObligationStage,
    risk: Option<Seq<char>>,
    action: Option<Seq<char>>,
) -> Option<RuleView>
    decreases rules.len() - i,
{
    if i < 0 || i >= rules.len() {
        None
    } else if rule_matches(rules[i], stage, risk, action) {
        Some(rules[i])
    } else {
        first_match_from(rules, i + 1, stage, risk, action)
    }
}

/// The classification policy as plain values.
pub struct PolicyView {
    pub rules: Seq<RuleView>,
    pub default_classification: ObligationClassification,
}

/// The classification the policy data assigns: the first matching rule's,
/// else the policy's own default.
pub open spec fn classification_of(
    p: PolicyView,
    stage: ObligationStage,
    risk: Option<Seq<char>>,
    action: Option<Seq<char>>,
) -> ObligationClassification {
    match first_match_from(p.rules, 0, stage, risk, action) {
        Some(r) => r.classification,
        None => p.default_classification,
    }
}

/// Rule `r` applies to the context: same stage, and each present matcher
/// equals the context's value.
pub open spec fn applies(r: RuleView, stage: ObligationStage, risk: Option<Seq<char>>, action: Option<Seq<char>>) -> bool {
    &&& r.stage == stage
    &&& (r.risk is None || r.risk == risk)
    &&& (r.action is None || r.action == action)
}

proof fn lemma_first_match_reaches(
    rules: Seq<RuleView>,
    i: int,
    k: int,
    stage: ObligationStage,
    risk: Option<Seq<char>>,
    action: Option<Seq<char>>,
)
    requires
        0 <= i <= k < rules.len(),
        applies(rules[k], stage, risk, action),
        forall|j: int| i <= j < k ==> !applies(#[trigger] rules[j], stage, risk, action),
    ensures
        first_match_from(rules, i, stage, risk, action) == Some(rules[k]),
    decreases k - i,
{
    if i < k {
        lemma_first_match_reaches(rules, i + 1, k, stage, risk, action);
    }
}

proof fn lemma_first_match_none(
    rules: Seq<RuleView>,
    i: int,
    stage: ObligationStage,
    risk: Option<Seq<char>>,
    action: Option<Seq<char>>,
)
    requires
        0 <= i,
        forall|j: int| i <= j < rules.len() ==> !applies(#[trigger] rules[j], stage, risk, action),
    ensures
        first_match_from(rules, i, stage, risk, action) is None,
    decreases rules.len() - i,
{
    if i < rules.len() {
        lemma_first_match_none(rules, i + 1, stage, risk, action);
    }
}

/// The first applicable rule decides: when rule `k` applies to the
/// context and no rule before it does, the classification is rule `k`'s,
/// whatever the rules after it say.
pub proof fn lemma_first_applicable_rule_wins(
    p: PolicyView,
    stage: ObligationStage,
    risk: Option<Seq<char>>,
    action: Option<Seq<char>>,
    k: int,
)
    requires
        0 <= k < p.rules.len(),
        applies(p.rules[k], stage, risk, action),
        forall|j: int| 0 <= j < k ==> !applies(#[trigger] p.rules[j], stage, risk, action),
    ensures
        classification_of(p, stage, risk, action) == p.rules[k].classification,
{
    lemma_first_match_reaches(p.rules, 0, k, stage, risk, action);
}

/// When no rule applies to the context, the policy's default decides.
pub proof fn lemma_default_when_no_rule_applies(
    p: PolicyView,
    stage: ObligationStage,
    risk: Option<Seq<char>>,
    action: Option<Seq<char>>,
)
    requires
        forall|j: int| 0 <= j < p.rules.len() ==> !applies(#[trigger] p.rules[j], stage, risk, action),
    ensures
        classification_of(p, stage, risk, action) == p.default_classification,
{
    lemma_first_match_none(p.rules, 0, stage, risk, action);
}

/// Whether an obligation is informational or blocking at each
/// stage/risk/action is data carried here; the first matching rule wins
/// and the default applies when none matches.
#[derive(Debug, PartialEq, Eq)]
pub struct ObligationPolicy {
    pub policy_version: PolicyVersion,
    pub rules: Vec<ObligationPolicyRule>,
    pub default_classification: ObligationClassification,
}

impl View for ObligationPolicy {
    type V = PolicyView;

    open spec fn view(&self) -> PolicyView {
        PolicyView {
            rules: self.rules@.map_values(|r: ObligationPolicyRule| r@),
            default_classification: self.default_classification,
        }
    }
}

pub open spec fn opt_str_view(o: Option<&str>) -> Option<Seq<char>> {
    match o {
        Some(s) => Some(s@),
        None => None,
    }
}

fn matcher_accepts_exec(matcher: &Option<String>, value: Option<&str>) -> (r: bool)
    ensures
        r == matcher_accepts(opt_view(*matcher), opt_str_view(value)),
{
    match matcher {
        None => true,
        Some(m) => match value {
            Some(v) => str_eq(m.as_str(), v),
            None => false,
        },
    }
}

impl ObligationPolicy {
    /// Classify one obligation context from the rule data alone.
    pub fn classify(&self, stage: ObligationStage, risk: Option<&str>, action: Option<&str>) -> (r: ObligationClassification)
        ensures
            r == classification_of(self@, stage, opt_str_view(risk), opt_str_view(action)),
    {
        let ghost rules = self@.rules;
        let ghost rv = opt_str_view(risk);
        let ghost av = opt_str_view(action);
        let mut i: usize = 0;
        while i < self.rules.len()
            invariant
                i <= self.rules@.len(),
                rules == self@.rules,
                rules.len() == self.rules@.len(),
                rv == opt_str_view(risk),
                av == opt_str_view(action),
                first_match_from(rules, 0, stage, rv, av) == first_match_from(rules, i as int, stage, rv, av),
            decreases self.rules.len() - i,
        {
            let rule = &self.rules[i];
            proof {
                assert(rules[i as int] == rule@);
            }
            let hit = rule.stage == stage && matcher_accepts_exec(&rule.risk, risk) && matcher_accepts_exec(&rule.action, action);
            proof {
                assert(hit == rule_matches(rules[i as int], stage, rv, av));
            }
            if hit {
                return rule.classification;
            }
            i = i + 1;
        }
        self.default_classification
    }
}

// ---- waivers ----

/// What a waiver states, as plain values.
pub struct WaiverView {
    pub id: Seq<char>,
    pub subject: ((Seq<char>, Seq<char>), Seq<char>),
    pub principal: Seq<char>,
    pub policy_version: Seq<char>,
    pub justification: Seq<char>,
    pub expires_after: Option<u64>,
}

/// The waiver has lapsed at ordinal `at`.
pub open spec fn expired_at(w: WaiverView, at: u64) -> bool {
    w.expires_after matches Some(bound) && at > bound
}

/// The permission-controlled discharge of one stage-bound obligation,
/// bound to the exact obligation, managed-version subject, principal and
/// policy version, with a non-blank justification and an optional
/// event-ordinal expiry.
#[derive(Debug, PartialEq, Eq)]
pub struct ObligationWaiver {
    obligation_id: ObligationId,
    subject: StateEventSubject,
    principal: Principal,
    policy_version: PolicyVersion,
    justification: String,
    expires_after: Option<EventOrdinal>,
}

pub open spec fn ordinal_view(o: Option<EventOrdinal>) -> Option<u64> {
    match o {
        Some(e) => Some(e.0),
        None => None,
    }
}

impl View for ObligationWaiver {
    type V = WaiverView;

    closed spec fn view(&self) -> WaiverView {
        WaiverView {
            id: self.obligation_id@,
            subject: self.subject@,
            principal: self.principal@,
            policy_version: self.policy_version@,
            justification: self.justification@,
            expires_after: ordinal_view(self.expires_after),
        }
    }
}

impl ObligationWaiver {
    /// A fully bound waiver; an unjustified one is refused.
    pub fn new(
        obligation_id: ObligationId,
        subject: StateEventSubject,
        principal: Principal,
        policy_version: PolicyVersion,
        justification: &str,
        expires_after: Option<EventOrdinal>,
    ) -> (r: Result<Self, ObligationError>)
        ensures
            is_blank(justification@) ==> r == Err::<Self, _>(ObligationError::InvalidJustification),
            !is_blank(justification@) ==> (r matches Ok(w) && w@ == (WaiverView {
                id: obligation_id@,
                subject: subject@,
                principal: principal@,
                policy_version: policy_version@,
                justification: justification@,
                expires_after: ordinal_view(expires_after),
            })),
    {
        if str_is_blank(justification) {
            return Err(ObligationError::InvalidJustification);
        }
        Ok(ObligationWaiver { obligation_id, subject, principal, policy_version, justification: owned(justification), expires_after })
    }

    /// Whether the waiver has lapsed at the explicit ordinal `at`.
    pub fn is_expired(&self, at: EventOrdinal) -> (r: bool)
        ensures
            r == expired_at(self@, at.0),
    {
        match self.expires_after {
            Some(bound) => at.0 > bound.0,
            None => false,
        }
    }

    pub fn obligation_id(&self) -> (r: &ObligationId)
        ensures
            r@ == self@.id,
    {
        &self.obligation_id
    }

    pub fn subject(&self) -> (r: &StateEventSubject)
        ensures
            r@ == self@.subject,
    {
        &self.subject
    }

    pub fn expires_after(&self) -> (r: Option<EventOrdinal>)
        ensures
            ordinal_view(r) == self@.expires_after,
    {
        self.expires_after
    }

    pub fn duplicate(&self) -> (r: Self)
        ensures
            r@ == self@,
    {
        ObligationWaiver {
            obligation_id: self.obligation_id.duplicate(),
            subject: self.subject.duplicate(),
            principal: self.principal.duplicate(),
            policy_version: self.policy_version.duplicate(),
            justification: self.justification.clone(),
            expires_after: self.expires_after,
        }
    }
}

/// One obligation's effective assessment at an explicit evaluation
/// ordinal.
#[derive(Debug, Clone, Copy, PartialEq, Eq, Structural)]
pub struct ObligationAssessment {
    pub state: ObligationState,
    pub classification: ObligationClassification,
}

// ---- the ledger ----

/// One appended obligation event.
#[derive(Debug, PartialEq, Eq)]
pub enum ObligationEvent {
    Opened { record: ProofObligationRecord },
    StateRecorded { obligation_id: ObligationId, state: ObligationState },
    Waived { waiver: ObligationWaiver },
}

/// An event as plain values.
pub enum EventView {
    Opened(RecordView),
    StateRecorded(Seq<char>, ObligationState),
    Waived(WaiverView),
}

impl View for ObligationEvent {
    type V = EventView;

    open spec fn view(&self) -> EventView {
        match self {
            ObligationEvent::Opened { record } => EventView::Opened(record@),
            ObligationEvent::StateRecorded { obligation_id, state } => EventView::StateRecorded(obligation_id@, *state),
            ObligationEvent::Waived { waiver } => EventView::Waived(waiver@),
        }
    }
}

/// The record opened for `id`: the first opening event naming it.
pub open spec fn opened_record(evs: Seq<EventView>, id: Seq<char>) -> Option<RecordView>
    decreases evs.len(),
{
    if evs.len() == 0 {
        None
    } else {
        let earlier = opened_record(evs.drop_last(), id);
        if earlier is Some {
            earlier
        } else {
            match evs.last() {
                EventView::Opened(r) => if r.id == id {
                    Some(r)
                } else {
                    None
                },
                _ => None,
            }
        }
    }
}

/// The standing record of `id`: its opening record with the state the
/// later appends for it left.
pub open spec fn standing_of(evs: Seq<EventView>, id: Seq<char>) -> Option<RecordView>
    decreases evs.len(),
{
    if evs.len() == 0 {
        None
    } else {
        let prev = standing_of(evs.drop_last(), id);
        match evs.last() {
            EventView::Opened(r) => if r.id == id {
                Some(r)
            } else {
                prev
            },
            EventView::StateRecorded(i, st) => if i == id && prev is Some {
                Some(with_state(prev.unwrap(), st))
            } else {
                prev
            },
            EventView::Waived(w) => if w.id == id && prev is Some {
                Some(with_state(prev.unwrap(), ObligationState::Waived))
            } else {
                prev
            },
        }
    }
}

/// The last waiver appended for `id`.
pub open spec fn last_waiver(evs: Seq<EventView>, id: Seq<char>) -> Option<WaiverView>
    decreases evs.len(),
{
    if evs.len() == 0 {
        None
    } else {
        match evs.last() {
            EventView::Waived(w) => if w.id == id {
                Some(w)
            } else {
                last_waiver(evs.drop_last(), id)
            },
            _ => last_waiver(evs.drop_last(), id),
        }
    }
}

/// The states a bare append may record.
pub open spec fn recordable(s: ObligationState) -> bool {
    s == ObligationState::Satisfied || s == ObligationState::Failed || s == ObligationState::Expired
}

/// Whether the ledger `evs` accepts `ev` as its next append: an opening
/// record starts open under a fresh id; a recorded transition names a
/// standing open or waived obligation; a waiver is bound to the opened
/// record's exact subject and discharges an open obligation.
pub open spec fn admits(evs: Seq<EventView>, ev: EventView) -> bool {
    match ev {
        EventView::Opened(r) => r.state == ObligationState::Open && opened_record(evs, r.id) is None,
        EventView::StateRecorded(id, st) => recordable(st) && (standing_of(evs, id) matches Some(rec) && (rec.state
            == ObligationState::Open || rec.state == ObligationState::Waived)),
        EventView::Waived(w) => (opened_record(evs, w.id) matches Some(rec) && rec.subject == w.subject) && (standing_of(
            evs,
            w.id,
        ) matches Some(st) && st.state == ObligationState::Open),
    }
}

/// Every event was admitted by the ledger before it.
pub open spec fn reachable(evs: Seq<EventView>) -> bool
    decreases evs.len(),
{
    evs.len() == 0 || (reachable(evs.drop_last()) && admits(evs.drop_last(), evs.last()))
}

/// One obligation's effective state and classification at ordinal `at`: a
/// lapsed waiver reopens its obligation as blocking whatever the policy
/// says; otherwise the recorded state stands and the policy data
/// classifies (with no action).
pub open spec fn assessment_of(evs: Seq<EventView>, rec: RecordView, p: PolicyView, at: u64) -> ObligationAssessment {
    if rec.state == ObligationState::Waived && (last_waiver(evs, rec.id) matches Some(w) && expired_at(w, at)) {
        ObligationAssessment { state: ObligationState::Open, classification: ObligationClassification::Blocking }
    } else {
        ObligationAssessment { state: rec.state, classification: classification_of(p, rec.required_at, rec.risk, None) }
    }
}

/// The obligation blocks the approval gate at `at`: undischarged (neither
/// satisfied nor held by a valid waiver), required at approval, and
/// classified blocking.
pub open spec fn blocks_approval(evs: Seq<EventView>, rec: RecordView, p: PolicyView, at: u64) -> bool {
    let a = assessment_of(evs, rec, p, at);
    &&& !(a.state == ObligationState::Satisfied || a.state == ObligationState::Waived)
    &&& rec.required_at == ObligationStage::Approval
    &&& a.classification == ObligationClassification::Blocking
}

pub open spec fn events_view(s: Seq<ObligationEvent>) -> Seq<EventView> {
    s.map_values(|e: ObligationEvent| e@)
}

pub open spec fn ids_view(s: Seq<ObligationId>) -> Seq<Seq<char>> {
    s.map_values(|i: ObligationId| i@)
}

/// The append-only obligation ledger. Appending is the only mutation it
/// exposes, and it refers to no managed state dimension at all.
#[derive(Debug, PartialEq, Eq)]
pub struct ObligationLedger {
    events: Vec<ObligationEvent>,
}

impl View for ObligationLedger {
    type V = Seq<EventView>;

    closed spec fn view(&self) -> Seq<EventView> {
        events_view(self.events@)
    }
}

/// An opened obligation keeps standing, and a standing one was opened.
pub proof fn lemma_standing_iff_opened(evs: Seq<EventView>, id: Seq<char>)
    ensures
        (standing_of(evs, id) is Some) == (opened_record(evs, id) is Some),
        standing_of(evs, id) matches Some(r) ==> r.id == id,
    decreases evs.len(),
{
    if evs.len() > 0 {
        lemma_standing_iff_opened(evs.drop_last(), id);
    }
}

/// A standing record keeps everything of its opening record but the state.
pub proof fn lemma_standing_keeps_record(evs: Seq<EventView>, id: Seq<char>)
    requires
        reachable(evs),
    ensures
        standing_of(evs, id) matches Some(r) ==> (opened_record(evs, id) matches Some(o) && with_state(o, r.state) == r),
    decreases evs.len(),
{
    if evs.len() > 0 {
        lemma_standing_keeps_record(evs.drop_last(), id);
        lemma_standing_iff_opened(evs.drop_last(), id);
    }
}

/// Once found in a prefix, the opening record stays the one found.
pub proof fn lemma_opened_prefix(evs: Seq<EventView>, n: int, id: Seq<char>)
    requires
        0 <= n <= evs.len(),
        opened_record(evs.take(n), id) is Some,
    ensures
        opened_record(evs, id) == opened_record(evs.take(n), id),
    decreases evs.len(),
{
    if n < evs.len() {
        assert(evs.drop_last().take(n) =~= evs.take(n));
        lemma_opened_prefix(evs.drop_last(), n, id);
    } else {
        assert(evs.take(n) =~= evs);
    }
}

/// The ids with a standing record.
pub open spec fn standing_ids(evs: Seq<EventView>) -> Set<Seq<char>> {
    Set::new(|id: Seq<char>| standing_of(evs, id) is Some)
}

/// The ids whose standing obligation blocks the approval gate at `at`.
pub open spec fn approval_blocker_ids(evs: Seq<EventView>, p: PolicyView, at: u64) -> Set<Seq<char>> {
    Set::new(|id: Seq<char>| standing_of(evs, id) matches Some(rec) && blocks_approval(evs, rec, p, at))
}

pub open spec fn record_ids(s: Seq<ProofObligationRecord>) -> Seq<Seq<char>> {
    s.map_values(|r: ProofObligationRecord| r@.id)
}

impl ObligationLedger {
    #[verifier::type_invariant]
    spec fn inv(self) -> bool {
        reachable(events_view(self.events@))
    }

    /// An empty ledger.
    pub fn new() -> (r: Self)
        ensures
            r@ == Seq::<EventView>::empty(),
            reachable(r@),
    {
        let r = ObligationLedger { events: Vec::new() };
        proof {
            assert(events_view(r.events@) =~= Seq::<EventView>::empty());
        }
        r
    }

    /// The appended events, in order: the replay input.
    pub fn events(&self) -> (r: &Vec<ObligationEvent>)
        ensures
            events_view(r@) == self@,
            reachable(self@),
    {
        proof {
            use_type_invariant(self);
        }
        &self.events
    }

    fn opened_record_of(&self, id: &str) -> (r: Option<&ProofObligationRecord>)
        ensures
            match r {
                Some(rec) => opened_record(self@, id@) == Some(rec@),
                None => opened_record(self@, id@) is None,
            },
    {
        let ghost evs = self@;
        let mut i: usize = 0;
        while i < self.events.len()
            invariant
                evs == self@,
                evs.len() == self.events@.len(),
                i <= evs.len(),
                opened_record(evs.take(i as int), id@) is None,
            decreases self.events.len() - i,
        {
            proof {
                assert(evs.take(i + 1).drop_last() =~= evs.take(i as int));
                assert(evs[i as int] == self.events@[i as int]@);
            }
            match &self.events[i] {
                ObligationEvent::Opened { record } => {
                    if str_eq(record.obligation_id.as_str(), id) {
                        proof {
                            assert(opened_record(evs.take(i + 1), id@) == Some(record@));
                            lemma_opened_prefix(evs, i + 1, id@);
                        }
                        return Some(record);
                    }
                },
                _ => {},
            }
            i = i + 1;
        }
        proof {
            assert(evs.take(evs.len() as int) =~= evs);
        }
        None
    }

    /// The standing record of `id`, replayed from the appends.
    fn standing_record(&self, id: &str) -> (r: Option<ProofObligationRecord>)
        ensures
            match r {
                Some(rec) => standing_of(self@, id@) == Some(rec@),
                None => standing_of(self@, id@) is None,
            },
    {
        let ghost evs = self@;
        let mut cur: Option<ProofObligationRecord> = None;
        let mut i: usize = 0;
        while i < self.events.len()
            invariant
                evs == self@,
                evs.len() == self.events@.len(),
                i <= evs.len(),
                match cur {
                    Some(rec) => standing_of(evs.take(i as int), id@) == Some(rec@),
                    None => standing_of(evs.take(i as int), id@) is None,
                },
            decreases self.events.len() - i,
        {
            proof {
                assert(evs.take(i + 1).drop_last() =~= evs.take(i as int));
                assert(evs[i as int] == self.events@[i as int]@);
            }
            match &self.events[i] {
                ObligationEvent::Opened { record } => {
                    if str_eq(record.obligation_id.as_str(), id) {
                        cur = Some(record.duplicate());
                    }
                },
                ObligationEvent::StateRecorded { obligation_id, state } => {
                    if str_eq(obligation_id.as_str(), id) {
                        match cur {
                            Some(mut rec) => {
                                let ghost before = rec@;
                                rec.state = *state;
                                proof {
                                    assert(rec@ == with_state(before, *state));
                                }
                                cur = Some(rec);
                            },
                            None => {
                                cur = None;
                            },
                        }
                    }
                },
                ObligationEvent::Waived { waiver } => {
                    if str_eq(waiver.obligation_id.as_str(), id) {
                        match cur {
                            Some(mut rec) => {
                                let ghost before = rec@;
                                rec.state = ObligationState::Waived;
                                proof {
                                    assert(rec@ == with_state(before, ObligationState::Waived));
                                }
                                cur = Some(rec);
                            },
                            None => {
                                cur = None;
                            },
                        }
                    }
                },
            }
            i = i + 1;
        }
        proof {
            assert(evs.take(evs.len() as int) =~= evs);
        }
        cur
    }

    fn last_waiver_of(&self, id: &str) -> (r: Option<&ObligationWaiver>)
        ensures
            match r {
                Some(w) => last_waiver(self@, id@) == Some(w@),
                None => last_waiver(self@, id@) is None,
            },
    {
        let ghost evs = self@;
        let mut cur: Option<&ObligationWaiver> = None;
        let mut i: usize = 0;
        while i < self.events.len()
            invariant
                evs == self@,
                evs.len() == self.events@.len(),
                i <= evs.len(),
                match cur {
                    Some(w) => last_waiver(evs.take(i as int), id@) == Some(w@),
                    None => last_waiver(evs.take(i as int), id@) is None,
                },
            decreases self.events.len() - i,
        {
            proof {
                assert(evs.take(i + 1).drop_last() =~= evs.take(i as int));
                assert(evs[i as int] == self.events@[i as int]@);
            }
            match &self.events[i] {
                ObligationEvent::Waived { waiver } => {
                    if str_eq(waiver.obligation_id.as_str(), id) {
                        cur = Some(waiver);
                    }
                },
                _ => {},
            }
            i = i + 1;
        }
        proof {
            assert(evs.take(evs.len() as int) =~= evs);
        }
        cur
    }

    fn push_event(&mut self, ev: ObligationEvent)
        requires
            admits(old(self)@, ev@),
        ensures
            final(self)@ == old(self)@.push(ev@),
    {
        proof {
            use_type_invariant(&*self);
        }
        let ghost before = self@;
        let ghost e = ev@;
        let mut log: Vec<ObligationEvent> = Vec::new();
        proof {
            assert(events_view(log@) =~= Seq::<EventView>::empty());
        }
        std::mem::swap(&mut log, &mut self.events);
        log.push(ev);
        proof {
            assert(events_view(log@) =~= before.push(e));
            assert(before.push(e).drop_last() =~= before);
        }
        self.events = log;
    }

    /// Append an opening record: it must stand open, under an id no earlier
    /// record opened.
    pub fn open(&mut self, record: ProofObligationRecord) -> (r: Result<(), ObligationError>)
        ensures
            record@.state != ObligationState::Open ==> r == Err::<(), _>(ObligationError::OpenedRecordNotOpen),
            record@.state == ObligationState::Open && opened_record(old(self)@, record@.id) is Some ==> (r matches Err(
                ObligationError::DuplicateObligation { id },
            ) && id@ == record@.id),
            admits(old(self)@, EventView::Opened(record@)) ==> r is Ok,
            r is Ok ==> final(self)@ == old(self)@.push(EventView::Opened(record@)),
            r is Err ==> final(self)@ == old(self)@,
            reachable(final(self)@),
    {
        proof {
            use_type_invariant(&*self);
        }
        if record.state != ObligationState::Open {
            return Err(ObligationError::OpenedRecordNotOpen);
        }
        if self.opened_record_of(record.obligation_id.as_str()).is_some() {
            return Err(ObligationError::DuplicateObligation { id: record.obligation_id.duplicate() });
        }
        let ghost rv = record@;
        self.push_event(ObligationEvent::Opened { record });
        proof {
            use_type_invariant(&*self);
        }
        Ok(())
    }

    /// Append a state transition. Only `satisfied`, `failed` and `expired`
    /// are recordable; `waived` needs a waiver and `open` is never
    /// re-appended. The obligation must stand open or waived: a terminal
    /// state never transitions again.
    pub fn record_state(&mut self, obligation_id: &ObligationId, state: ObligationState) -> (r: Result<(), ObligationError>)
        ensures
            state == ObligationState::Waived ==> r == Err::<(), _>(ObligationError::WaiverRequired),
            state == ObligationState::Open ==> r == Err::<(), _>(ObligationError::ReopenNotRecordable),
            recordable(state) && standing_of(old(self)@, obligation_id@) is None ==> (r matches Err(
                ObligationError::UnknownObligation { id },
            ) && id@ == obligation_id@),
            recordable(state) && (standing_of(old(self)@, obligation_id@) matches Some(rec) && rec.state.is_terminal())
                ==> (r matches Err(ObligationError::TerminalStateStanding { id, standing }) && id@ == obligation_id@
                && standing == standing_of(old(self)@, obligation_id@).unwrap().state),
            admits(old(self)@, EventView::StateRecorded(obligation_id@, state)) ==> r is Ok,
            r is Ok ==> final(self)@ == old(self)@.push(EventView::StateRecorded(obligation_id@, state)),
            r is Err ==> final(self)@ == old(self)@,
            reachable(final(self)@),
    {
        proof {
            use_type_invariant(&*self);
        }
        match state {
            ObligationState::Waived => {
                return Err(ObligationError::WaiverRequired);
            },
            ObligationState::Open => {
                return Err(ObligationError::ReopenNotRecordable);
            },
            _ => {},
        }
        let standing = match self.standing_record(obligation_id.as_str()) {
            Some(rec) => rec.state,
            None => {
                return Err(ObligationError::UnknownObligation { id: obligation_id.duplicate() });
            },
        };
        match standing {
            ObligationState::Satisfied | ObligationState::Failed | ObligationState::Expired => {
                return Err(ObligationError::TerminalStateStanding { id: obligation_id.duplicate(), standing });
            },
            _ => {},
        }
        self.push_event(ObligationEvent::StateRecorded { obligation_id: obligation_id.duplicate(), state });
        proof {
            use_type_invariant(&*self);
        }
        Ok(())
    }

    /// Append a waiver: the obligation must exist, the waiver must be bound
    /// to its exact managed-version subject, and only an open obligation is
    /// waivable. Waivability is judged on the recorded standing state, so a
    /// lapsed waiver is never replaced by a fresh one.
    pub fn waive(&mut self, waiver: ObligationWaiver) -> (r: Result<(), ObligationError>)
        ensures
            opened_record(old(self)@, waiver@.id) is None ==> (r matches Err(ObligationError::UnknownObligation { id })
                && id@ == waiver@.id),
            (opened_record(old(self)@, waiver@.id) matches Some(rec) && rec.subject != waiver@.subject) ==> (r matches Err(
                ObligationError::WaiverBindingMismatch { id },
            ) && id@ == waiver@.id),
            (opened_record(old(self)@, waiver@.id) matches Some(rec) && rec.subject == waiver@.subject) && (standing_of(
                old(self)@,
                waiver@.id,
            ) matches Some(st) && st.state != ObligationState::Open) ==> (r matches Err(ObligationError::NotWaivable { id })
                && id@ == waiver@.id),
            admits(old(self)@, EventView::Waived(waiver@)) ==> r is Ok,
            r is Ok ==> final(self)@ == old(self)@.push(EventView::Waived(waiver@)),
            r is Err ==> final(self)@ == old(self)@,
            reachable(final(self)@),
    {
        proof {
            use_type_invariant(&*self);
            lemma_standing_iff_opened(self@, waiver@.id);
        }
        let bound = match self.opened_record_of(waiver.obligation_id.as_str()) {
            Some(record) => record.subject.same_as(&waiver.subject),
            None => {
                return Err(ObligationError::UnknownObligation { id: waiver.obligation_id.duplicate() });
            },
        };
        if !bound {
            return Err(ObligationError::WaiverBindingMismatch { id: waiver.obligation_id.duplicate() });
        }
        let standing_state = match self.standing_record(waiver.obligation_id.as_str()) {
            Some(rec) => rec.state,
            None => {
                return Err(ObligationError::UnknownObligation { id: waiver.obligation_id.duplicate() });
            },
        };
        if standing_state != ObligationState::Open {
            return Err(ObligationError::NotWaivable { id: waiver.obligation_id.duplicate() });
        }
        self.push_event(ObligationEvent::Waived { waiver });
        proof {
            use_type_invariant(&*self);
        }
        Ok(())
    }

    /// The standing obligations in increasing id order: each opened record
    /// with its current state replayed from the appends.
    pub fn standing(&self) -> (r: Vec<ProofObligationRecord>)
        ensures
            lists_sorted(record_ids(r@), standing_ids(self@)),
            forall|i: int| 0 <= i < r@.len() ==> standing_of(self@, (#[trigger] r@[i])@.id) == Some(r@[i]@),
    {
        let ghost evs = self@;
        let mut ids: Vec<String> = Vec::new();
        let mut i: usize = 0;
        while i < self.events.len()
            invariant
                evs == self@,
                evs.len() == self.events@.len(),
                i <= evs.len(),
                sorted_by_key(ids@),
                forall|x: Seq<char>| #[trigger] strs_view(ids@).contains(x) <==> opened_record(evs.take(i as int), x) is Some,
            decreases self.events.len() - i,
        {
            proof {
                assert(evs.take(i + 1).drop_last() =~= evs.take(i as int));
                assert(evs[i as int] == self.events@[i as int]@);
            }
            let ghost prev = ids@;
            match &self.events[i] {
                ObligationEvent::Opened { record } => {
                    insert_str(&mut ids, owned(record.obligation_id.as_str()));
                },
                _ => {},
            }
            proof {
                assert forall|x: Seq<char>| #[trigger] strs_view(ids@).contains(x) <==> opened_record(
                    evs.take(i + 1),
                    x,
                ) is Some by {
                    assert(strs_view(prev).contains(x) <==> opened_record(evs.take(i as int), x) is Some);
                }
            }
            i = i + 1;
        }
        proof {
            assert(evs.take(evs.len() as int) =~= evs);
            lemma_sorted_strings(ids@);
        }
        let mut out: Vec<ProofObligationRecord> = Vec::new();
        let mut k: usize = 0;
        while k < ids.len()
            invariant
                evs == self@,
                k <= ids@.len(),
                record_ids(out@) == strs_view(ids@).take(k as int),
                forall|x: Seq<char>| #[trigger] strs_view(ids@).contains(x) <==> opened_record(evs, x) is Some,
                forall|j: int| 0 <= j < out@.len() ==> standing_of(evs, (#[trigger] out@[j])@.id) == Some(out@[j]@),
            decreases ids.len() - k,
        {
            proof {
                assert(strs_view(ids@)[k as int] == ids@[k as int]@);
                assert(strs_view(ids@).contains(ids@[k as int]@));
                lemma_standing_iff_opened(evs, ids@[k as int]@);
            }
            match self.standing_record(ids[k].as_str()) {
                Some(rec) => {
                    proof {
                        lemma_standing_iff_opened(evs, ids@[k as int]@);
                        assert(rec@.id == ids@[k as int]@);
                    }
                    let ghost before = out@;
                    out.push(rec);
                    proof {
                        assert(record_ids(out@) =~= record_ids(before).push(ids@[k as int]@));
                        assert(strs_view(ids@).take(k + 1) =~= strs_view(ids@).take(k as int).push(ids@[k as int]@));
                    }
                },
                None => {
                    proof {
                        assert(false);
                    }
                },
            }
            k = k + 1;
        }
        proof {
            assert(strs_view(ids@).take(ids@.len() as int) =~= strs_view(ids@));
            assert forall|x: Seq<char>| #[trigger] record_ids(out@).contains(x) <==> standing_ids(evs).contains(x) by {
                lemma_standing_iff_opened(evs, x);
            }
        }
        out
    }

    fn assess_record(&self, record: &ProofObligationRecord, policy: &ObligationPolicy, at: EventOrdinal) -> (r:
        ObligationAssessment)
        ensures
            r == assessment_of(self@, record@, policy@, at.0),
    {
        if record.state == ObligationState::Waived {
            match self.last_waiver_of(record.obligation_id.as_str()) {
                Some(w) => {
                    if w.is_expired(at) {
                        return ObligationAssessment {
                            state: ObligationState::Open,
                            classification: ObligationClassification::Blocking,
                        };
                    }
                },
                None => {},
            }
        }
        let risk: Option<&str> = match &record.risk {
            Some(k) => Some(k.as_str()),
            None => None,
        };
        ObligationAssessment { state: record.state, classification: policy.classify(record.required_at, risk, None) }
    }

    /// One obligation's effective assessment at the explicit ordinal `at`.
    pub fn assess(&self, id: &ObligationId, policy: &ObligationPolicy, at: EventOrdinal) -> (r: Result<
        ObligationAssessment,
        ObligationError,
    >)
        ensures
            standing_of(self@, id@) is None ==> (r matches Err(ObligationError::UnknownObligation { id: e }) && e@ == id@),
            standing_of(self@, id@) matches Some(rec) ==> r == Ok::<_, ObligationError>(
                assessment_of(self@, rec, policy@, at.0),
            ),
    {
        match self.standing_record(id.as_str()) {
            Some(rec) => Ok(self.assess_record(&rec, policy, at)),
            None => Err(ObligationError::UnknownObligation { id: id.duplicate() }),
        }
    }

    /// The obligations blocking the approval gate at `at`, in increasing id
    /// order.
    pub fn approval_blockers(&self, policy: &ObligationPolicy, at: EventOrdinal) -> (r: Vec<ObligationId>)
        ensures
            lists_sorted(ids_view(r@), approval_blocker_ids(self@, policy@, at.0)),
    {
        let ghost evs = self@;
        let standing = self.standing();
        let ghost st = record_ids(standing@);
        let mut out: Vec<ObligationId> = Vec::new();
        let mut i: usize = 0;
        while i < standing.len()
            invariant
                evs == self@,
                st == record_ids(standing@),
                i <= standing@.len(),
                lists_sorted(st, standing_ids(evs)),
                forall|j: int| 0 <= j < standing@.len() ==> standing_of(evs, (#[trigger] standing@[j])@.id) == Some(standing@[j]@),
                strictly_sorted(ids_view(out@)),
                forall|a: int| 0 <= a < out@.len() ==> exists|j: int| 0 <= j < i && #[trigger] st[j] == (#[trigger] ids_view(out@)[a]),
                forall|x: Seq<char>| #[trigger] ids_view(out@).contains(x) <==> (st.take(i as int).contains(x)
                    && approval_blocker_ids(evs, policy@, at.0).contains(x)),
            decreases standing.len() - i,
        {
            let rec = &standing[i];
            let a = self.assess_record(rec, policy, at);
            let blocks = !(a.state == ObligationState::Satisfied || a.state == ObligationState::Waived) && rec.required_at
                == ObligationStage::Approval && a.classification == ObligationClassification::Blocking;
            proof {
                assert(st[i as int] == rec@.id);
                assert(standing_of(evs, rec@.id) == Some(rec@));
                assert(blocks == approval_blocker_ids(evs, policy@, at.0).contains(rec@.id));
                assert(st.take(i + 1) =~= st.take(i as int).push(st[i as int]));
            }
            let ghost prev = ids_view(out@);
            if blocks {
                out.push(rec.obligation_id.duplicate());
                proof {
                    assert(ids_view(out@) =~= prev.push(st[i as int]));
                    assert forall|a1: int, b1: int| 0 <= a1 < b1 < ids_view(out@).len() implies seq_lt(
                        #[trigger] ids_view(out@)[a1],
                        #[trigger] ids_view(out@)[b1],
                    ) by {
                        if b1 == prev.len() {
                            let j = choose|j: int| 0 <= j < i && #[trigger] st[j] == prev[a1];
                            assert(seq_lt(st[j], st[i as int]));
                        } else {
                            assert(ids_view(out@)[a1] == prev[a1] && ids_view(out@)[b1] == prev[b1]);
                        }
                    }
                    assert forall|a1: int| 0 <= a1 < ids_view(out@).len() implies exists|j: int| 0 <= j < i + 1 && #[trigger] st[j]
                        == (#[trigger] ids_view(out@)[a1]) by {
                        if a1 == prev.len() {
                            assert(st[i as int] == ids_view(out@)[a1]);
                        } else {
                            assert(ids_view(out@)[a1] == prev[a1]);
                            let j = choose|j: int| 0 <= j < i && #[trigger] st[j] == prev[a1];
                        }
                    }
                }
            }
            proof {
                assert forall|x: Seq<char>| #[trigger] ids_view(out@).contains(x) <==> (st.take(i + 1).contains(x)
                    && approval_blocker_ids(evs, policy@, at.0).contains(x)) by {
                    lemma_push_contains(st.take(i as int), st[i as int], x);
                    if blocks {
                        lemma_push_contains(prev, st[i as int], x);
                    }
                }
            }
            i = i + 1;
        }
        proof {
            assert(st.take(st.len() as int) =~= st);
            assert forall|x: Seq<char>| #[trigger] ids_view(out@).contains(x) <==> approval_blocker_ids(
                evs,
                policy@,
                at.0,
            ).contains(x) by {
                if approval_blocker_ids(evs, policy@, at.0).contains(x) {
                    assert(standing_ids(evs).contains(x));
                }
            }
        }
        out
    }
}

// ---- laws of the ledger ----

/// The obligation an event names.
pub open spec fn event_id(ev: EventView) -> Seq<char> {
    match ev {
        EventView::Opened(r) => r.id,
        EventView::StateRecorded(id, _) => id,
        EventView::Waived(w) => w.id,
    }
}

/// An admitted append changes the standing of the obligation it names and
/// of no other.
pub proof fn lemma_append_touches_only_its_obligation(evs: Seq<EventView>, ev: EventView, id: Seq<char>)
    requires
        admits(evs, ev),
        event_id(ev) != id,
    ensures
        standing_of(evs.push(ev), id) == standing_of(evs, id),
        opened_record(evs.push(ev), id) == opened_record(evs, id),
{
    assert(evs.push(ev).drop_last() =~= evs);
}

/// A terminal standing state never transitions again: no admitted append
/// changes the standing of an obligation that stands satisfied, failed or
/// expired.
pub proof fn lemma_terminal_standing_is_final(evs: Seq<EventView>, ev: EventView, id: Seq<char>)
    requires
        admits(evs, ev),
        standing_of(evs, id) matches Some(r) && r.state.is_terminal(),
    ensures
        standing_of(evs.push(ev), id) == standing_of(evs, id),
{
    assert(evs.push(ev).drop_last() =~= evs);
    lemma_standing_iff_opened(evs, id);
}

/// Every opened record of a reachable ledger started open.
pub proof fn lemma_opened_records_start_open(evs: Seq<EventView>, id: Seq<char>)
    requires
        reachable(evs),
    ensures
        opened_record(evs, id) matches Some(r) ==> r.state == ObligationState::Open,
    decreases evs.len(),
{
    if evs.len() > 0 {
        lemma_opened_records_start_open(evs.drop_last(), id);
    }
}

/// `waived` is reachable only through a waiver: an obligation standing
/// waived has a waiver appended for it.
pub proof fn lemma_waived_only_through_waiver(evs: Seq<EventView>, id: Seq<char>)
    requires
        reachable(evs),
        standing_of(evs, id) matches Some(r) && r.state == ObligationState::Waived,
    ensures
        last_waiver(evs, id) is Some,
    decreases evs.len(),
{
    let prev = evs.drop_last();
    match evs.last() {
        EventView::Waived(w) => {
            if w.id != id {
                lemma_waived_only_through_waiver(prev, id);
            }
        },
        EventView::Opened(r) => {
            if r.id != id {
                lemma_waived_only_through_waiver(prev, id);
            }
        },
        EventView::StateRecorded(i, st) => {
            if i != id {
                lemma_waived_only_through_waiver(prev, id);
            }
        },
    }
}

/// Only an obligation standing open is waivable, and a waiver must be bound
/// to the exact subject its obligation was opened for.
pub proof fn lemma_waiver_needs_open_obligation_and_exact_subject(evs: Seq<EventView>, w: WaiverView)
    requires
        admits(evs, EventView::Waived(w)),
    ensures
        standing_of(evs, w.id) matches Some(st) && st.state == ObligationState::Open,
        opened_record(evs, w.id) matches Some(rec) && rec.subject == w.subject,
        standing_of(evs.push(EventView::Waived(w)), w.id) matches Some(after) && after.state == ObligationState::Waived,
{
    assert(evs.push(EventView::Waived(w)).drop_last() =~= evs);
}

/// A lapsed waiver reopens its obligation as blocking whatever the policy
/// data says, so an approval-stage obligation under a lapsed waiver blocks
/// the approval gate.
pub proof fn lemma_lapsed_waiver_reopens_as_blocking(evs: Seq<EventView>, rec: RecordView, p: PolicyView, at: u64)
    requires
        rec.state == ObligationState::Waived,
        last_waiver(evs, rec.id) matches Some(w) && expired_at(w, at),
    ensures
        assessment_of(evs, rec, p, at) == (ObligationAssessment {
            state: ObligationState::Open,
            classification: ObligationClassification::Blocking,
        }),
        rec.required_at == ObligationStage::Approval ==> blocks_approval(evs, rec, p, at),
{
}

/// A satisfied obligation, or one held by a waiver that has not lapsed,
/// never blocks the approval gate.
pub proof fn lemma_discharged_obligations_never_block(evs: Seq<EventView>, rec: RecordView, p: PolicyView, at: u64)
    requires
        rec.state == ObligationState::Satisfied || (rec.state == ObligationState::Waived && !(last_waiver(evs, rec.id) matches Some(
            w,
        ) && expired_at(w, at))),
    ensures
        !blocks_approval(evs, rec, p, at),
{
}

} // verus!
