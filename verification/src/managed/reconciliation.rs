//! Reconciliation decisions: the governed adjudication of a candidate pair
//! of Managed Objects, bound to both parties' exact versions, a principal
//! and a policy version, and the reconciliation state derived from the
//! append-only decision log alone.

use vstd::prelude::*;

use crate::managed::identity::{canonical_lt, ManagedVersionId, WorkspaceCanonicalIdentity};
use crate::sorted::{insert_sorted, sorted_by_key, Keyed};
use crate::text::{is_empty_or_padded, key_lt, owned, seq_lt, str_is_empty_or_padded, str_eq, str_lt};

verus! {

/// The closed decision verb set. The subject is primary (an alias points
/// at it, it supersedes, it survives a merge); the counterpart is the
/// affected party; `KeepDistinct` is symmetric.
#[derive(Debug, Clone, Copy, PartialEq, Eq, Structural)]
pub enum ReconciliationVerb {
    KeepDistinct,
    LinkAlias,
    Supersede,
    MergeRehome,
}

impl ReconciliationVerb {
    pub open spec fn wire(self) -> Seq<char> {
        match self {
            ReconciliationVerb::KeepDistinct => "keep_distinct"@,
            ReconciliationVerb::LinkAlias => "link_alias"@,
            ReconciliationVerb::Supersede => "supersede"@,
            ReconciliationVerb::MergeRehome => "merge_rehome"@,
        }
    }

    /// The verb's wire name.
    pub fn as_str(self) -> (r: &'static str)
        ensures
            r@ == self.wire(),
    {
        match self {
            ReconciliationVerb::KeepDistinct => "keep_distinct",
            ReconciliationVerb::LinkAlias => "link_alias",
            ReconciliationVerb::Supersede => "supersede",
            ReconciliationVerb::MergeRehome => "merge_rehome",
        }
    }
}

/// Why a decision was refused.
#[derive(Debug, Clone, Copy, PartialEq, Eq, Structural)]
pub enum ReconciliationDecisionError {
    InvalidPrincipal,
    InvalidPolicyVersion,
    SelfDecision,
    UnknownParty,
    StaleVersionBinding,
    NotACandidatePair,
    PartyAlreadyMerged,
    NestedMergeUnsupported,
}

impl ReconciliationDecisionError {
    /// The explanation that `message` gives, as text.
    pub open spec fn message_text(self) -> Seq<char> {
        match self {
            Self::InvalidPrincipal => "principal must be non-blank without surrounding whitespace"@,
            Self::InvalidPolicyVersion => "policy version must be non-blank without surrounding whitespace"@,
            Self::SelfDecision => "a decision must name two distinct managed objects"@,
            Self::UnknownParty => "decision names a managed object unknown to this workspace"@,
            Self::StaleVersionBinding => "decision is bound to a version that is not the party's latest"@,
            Self::NotACandidatePair => "decision parties never formed a reconciliation candidate pair"@,
            Self::PartyAlreadyMerged => "decision names a party already merged away by a standing decision"@,
            Self::NestedMergeUnsupported => "merging away a standing merge survivor is unsupported"@,
        }
    }

    /// The human-readable explanation.
    pub fn message(&self) -> (r: &'static str)
        ensures
            r@ == self.message_text(),
    {
        match self {
            Self::InvalidPrincipal => "principal must be non-blank without surrounding whitespace",
            Self::InvalidPolicyVersion => "policy version must be non-blank without surrounding whitespace",
            Self::SelfDecision => "a decision must name two distinct managed objects",
            Self::UnknownParty => "decision names a managed object unknown to this workspace",
            Self::StaleVersionBinding => "decision is bound to a version that is not the party's latest",
            Self::NotACandidatePair => "decision parties never formed a reconciliation candidate pair",
            Self::PartyAlreadyMerged => "decision names a party already merged away by a standing decision",
            Self::NestedMergeUnsupported => "merging away a standing merge survivor is unsupported",
        }
    }
}

/// The deciding authority: non-empty, without surrounding whitespace.
#[derive(Debug, Clone, PartialEq, Eq)]
pub struct Principal(String);

impl View for Principal {
    type V = Seq<char>;

    closed spec fn view(&self) -> Seq<char> {
        self.0@
    }
}

impl Principal {
    pub fn new(value: &str) -> (r: Result<Self, ReconciliationDecisionError>)
        ensures
            is_empty_or_padded(value@) ==> r == Err::<Self, _>(ReconciliationDecisionError::InvalidPrincipal),
            !is_empty_or_padded(value@) ==> (r matches Ok(p) && p@ == value@),
    {
        if str_is_empty_or_padded(value) {
            Err(ReconciliationDecisionError::InvalidPrincipal)
        } else {
            Ok(Principal(owned(value)))
        }
    }

    pub fn as_str(&self) -> (r: &str)
        ensures
            r@ == self@,
    {
        self.0.as_str()
    }

    pub fn duplicate(&self) -> (r: Self)
        ensures
            r@ == self@,
    {
        Principal(self.0.clone())
    }
}

/// The exact policy version a decision was taken under: non-empty,
/// without surrounding whitespace.
#[derive(Debug, Clone, PartialEq, Eq)]
pub struct PolicyVersion(String);

impl View for PolicyVersion {
    type V = Seq<char>;

    closed spec fn view(&self) -> Seq<char> {
        self.0@
    }
}

impl PolicyVersion {
    pub fn new(value: &str) -> (r: Result<Self, ReconciliationDecisionError>)
        ensures
            is_empty_or_padded(value@) ==> r == Err::<Self, _>(ReconciliationDecisionError::InvalidPolicyVersion),
            !is_empty_or_padded(value@) ==> (r matches Ok(p) && p@ == value@),
    {
        if str_is_empty_or_padded(value) {
            Err(ReconciliationDecisionError::InvalidPolicyVersion)
        } else {
            Ok(PolicyVersion(owned(value)))
        }
    }

    pub fn as_str(&self) -> (r: &str)
        ensures
            r@ == self@,
    {
        self.0.as_str()
    }

    pub fn duplicate(&self) -> (r: Self)
        ensures
            r@ == self@,
    {
        PolicyVersion(self.0.clone())
    }
}

/// One party of a decision: a Managed Object by canonical identity, bound
/// to the exact version the decision adjudicated.
#[derive(Debug, Clone, PartialEq, Eq)]
pub struct DecisionParty {
    pub canonical: WorkspaceCanonicalIdentity,
    pub version_id: ManagedVersionId,
}

pub struct PartyBinding {
    pub canonical: (Seq<char>, Seq<char>),
    pub version_id: Seq<char>,
}

impl View for DecisionParty {
    type V = PartyBinding;

    open spec fn view(&self) -> PartyBinding {
        PartyBinding { canonical: self.canonical@, version_id: self.version_id@ }
    }
}

impl DecisionParty {
    pub fn duplicate(&self) -> (r: Self)
        ensures
            r@ == self@,
    {
        DecisionParty { canonical: self.canonical.duplicate(), version_id: self.version_id.duplicate() }
    }
}

/// A decision as characters.
pub struct DecisionView {
    pub verb: ReconciliationVerb,
    pub subject: PartyBinding,
    pub counterpart: PartyBinding,
    pub principal: Seq<char>,
    pub policy_version: Seq<char>,
}

/// A fully bound reconciliation decision; its only constructor requires
/// every binding.
#[derive(Debug, Clone, PartialEq, Eq)]
pub struct ReconciliationDecision {
    verb: ReconciliationVerb,
    subject: DecisionParty,
    counterpart: DecisionParty,
    principal: Principal,
    policy_version: PolicyVersion,
}

impl View for ReconciliationDecision {
    type V = DecisionView;

    closed spec fn view(&self) -> DecisionView {
        DecisionView {
            verb: self.verb,
            subject: self.subject@,
            counterpart: self.counterpart@,
            principal: self.principal@,
            policy_version: self.policy_version@,
        }
    }
}

/// The unordered pair a decision adjudicates, as an ordered key: the
/// smaller canonical identity first.
pub open spec fn pair_of(d: DecisionView) -> Seq<Seq<char>> {
    let a = d.subject.canonical;
    let b = d.counterpart.canonical;
    if canonical_lt(b, a) {
        seq![b.0, b.1, a.0, a.1]
    } else {
        seq![a.0, a.1, b.0, b.1]
    }
}

impl Keyed for ReconciliationDecision {
    closed spec fn key(&self) -> Seq<Seq<char>> {
        pair_of(self@)
    }

    fn key_less(&self, other: &Self) -> (r: bool) {
        let a = self.pair_key();
        let b = other.pair_key();
        proof {
            lemma_key4(a.0@, a.1@, a.2@, a.3@, b.0@, b.1@, b.2@, b.3@);
        }
        if !str_eq(a.0, b.0) {
            str_lt(a.0, b.0)
        } else if !str_eq(a.1, b.1) {
            str_lt(a.1, b.1)
        } else if !str_eq(a.2, b.2) {
            str_lt(a.2, b.2)
        } else {
            str_lt(a.3, b.3)
        }
    }
}

/// The order of four-component keys, component by component.
pub proof fn lemma_key4(
    a0: Seq<char>,
    a1: Seq<char>,
    a2: Seq<char>,
    a3: Seq<char>,
    b0: Seq<char>,
    b1: Seq<char>,
    b2: Seq<char>,
    b3: Seq<char>,
)
    ensures
        key_lt(seq![a0, a1, a2, a3], seq![b0, b1, b2, b3]) == (if a0 != b0 {
            seq_lt(a0, b0)
        } else if a1 != b1 {
            seq_lt(a1, b1)
        } else if a2 != b2 {
            seq_lt(a2, b2)
        } else {
            seq_lt(a3, b3)
        }),
{
    reveal_with_fuel(key_lt, 5);
    let a = seq![a0, a1, a2, a3];
    let b = seq![b0, b1, b2, b3];
    assert(a.drop_first() =~= seq![a1, a2, a3]);
    assert(b.drop_first() =~= seq![b1, b2, b3]);
    assert(a.drop_first().drop_first() =~= seq![a2, a3]);
    assert(b.drop_first().drop_first() =~= seq![b2, b3]);
    assert(a.drop_first().drop_first().drop_first() =~= seq![a3]);
    assert(b.drop_first().drop_first().drop_first() =~= seq![b3]);
    assert(a.drop_first().drop_first().drop_first().drop_first() =~= Seq::<Seq<char>>::empty());
    assert(b.drop_first().drop_first().drop_first().drop_first() =~= Seq::<Seq<char>>::empty());
    if a3 == b3 {
        crate::text::lemma_seq_lt_irreflexive(a3);
    }
}

impl ReconciliationDecision {
    /// A fully bound decision; refused when one object stands on both
    /// sides.
    pub fn new(
        verb: ReconciliationVerb,
        subject: DecisionParty,
        counterpart: DecisionParty,
        principal: Principal,
        policy_version: PolicyVersion,
    ) -> (r: Result<Self, ReconciliationDecisionError>)
        ensures
            subject.canonical@ == counterpart.canonical@ ==> r == Err::<Self, _>(ReconciliationDecisionError::SelfDecision),
            subject.canonical@ != counterpart.canonical@ ==> (r matches Ok(d) && d@ == (DecisionView {
                verb,
                subject: subject@,
                counterpart: counterpart@,
                principal: principal@,
                policy_version: policy_version@,
            })),
    {
        if subject.canonical.same_as(&counterpart.canonical) {
            return Err(ReconciliationDecisionError::SelfDecision);
        }
        Ok(ReconciliationDecision { verb, subject, counterpart, principal, policy_version })
    }

    pub fn verb(&self) -> (r: ReconciliationVerb)
        ensures
            r == self@.verb,
    {
        self.verb
    }

    pub fn subject(&self) -> (r: &DecisionParty)
        ensures
            r@ == self@.subject,
    {
        &self.subject
    }

    pub fn counterpart(&self) -> (r: &DecisionParty)
        ensures
            r@ == self@.counterpart,
    {
        &self.counterpart
    }

    pub fn principal(&self) -> (r: &Principal)
        ensures
            r@ == self@.principal,
    {
        &self.principal
    }

    pub fn policy_version(&self) -> (r: &PolicyVersion)
        ensures
            r@ == self@.policy_version,
    {
        &self.policy_version
    }

    /// The pair key: the smaller canonical identity first.
    pub fn pair_key(&self) -> (r: (&str, &str, &str, &str))
        ensures
            seq![r.0@, r.1@, r.2@, r.3@] == pair_of(self@),
    {
        let a = &self.subject.canonical;
        let b = &self.counterpart.canonical;
        if b.less_than(a) {
            (b.workspace_id.as_str(), b.canonical_id.as_str(), a.workspace_id.as_str(), a.canonical_id.as_str())
        } else {
            (a.workspace_id.as_str(), a.canonical_id.as_str(), b.workspace_id.as_str(), b.canonical_id.as_str())
        }
    }

    /// Whether two decisions adjudicate the same pair.
    pub fn same_pair(&self, other: &Self) -> (r: bool)
        ensures
            r == (pair_of(self@) == pair_of(other@)),
    {
        let a = self.pair_key();
        let b = other.pair_key();
        let r = str_eq(a.0, b.0) && str_eq(a.1, b.1) && str_eq(a.2, b.2) && str_eq(a.3, b.3);
        proof {
            if pair_of(self@) == pair_of(other@) {
                assert(seq![a.0@, a.1@, a.2@, a.3@][0] == seq![b.0@, b.1@, b.2@, b.3@][0]);
                assert(seq![a.0@, a.1@, a.2@, a.3@][1] == seq![b.0@, b.1@, b.2@, b.3@][1]);
                assert(seq![a.0@, a.1@, a.2@, a.3@][2] == seq![b.0@, b.1@, b.2@, b.3@][2]);
                assert(seq![a.0@, a.1@, a.2@, a.3@][3] == seq![b.0@, b.1@, b.2@, b.3@][3]);
            }
            if r {
                assert(seq![a.0@, a.1@, a.2@, a.3@] =~= seq![b.0@, b.1@, b.2@, b.3@]);
            }
        }
        r
    }

    pub fn duplicate(&self) -> (r: Self)
        ensures
            r@ == self@,
    {
        ReconciliationDecision {
            verb: self.verb,
            subject: self.subject.duplicate(),
            counterpart: self.counterpart.duplicate(),
            principal: self.principal.duplicate(),
            policy_version: self.policy_version.duplicate(),
        }
    }
}

/// The standing decision of every pair after the log: the last one
/// recorded for it.
pub open spec fn standing_map(log: Seq<DecisionView>) -> Map<Seq<Seq<char>>, DecisionView>
    decreases log.len(),
{
    if log.len() == 0 {
        Map::empty()
    } else {
        standing_map(log.drop_last()).insert(pair_of(log.last()), log.last())
    }
}

/// `standing` lists the standing decisions of `log`, one per pair, in
/// pair-key order.
pub open spec fn standing_of(standing: Seq<DecisionView>, log: Seq<DecisionView>) -> bool {
    &&& forall|i: int, j: int| 0 <= i < j < standing.len() ==> key_lt(pair_of(#[trigger] standing[i]), pair_of(#[trigger] standing[j]))
    &&& forall|i: int| 0 <= i < standing.len() ==> standing_map(log).contains_key(pair_of(#[trigger] standing[i]))
        && standing_map(log)[pair_of(standing[i])] == standing[i]
    &&& forall|k: Seq<Seq<char>>| #[trigger] standing_map(log).contains_key(k) ==> exists|i: int|
        0 <= i < standing.len() && pair_of(#[trigger] standing[i]) == k
}

/// The derived reconciliation state: the standing decision of each pair,
/// in pair-key order.
#[derive(Debug, Clone, PartialEq, Eq)]
pub struct ReconciliationState {
    pub standing: Vec<ReconciliationDecision>,
}

pub open spec fn decisions_view(s: Seq<ReconciliationDecision>) -> Seq<DecisionView> {
    s.map_values(|d: ReconciliationDecision| d@)
}

impl ReconciliationState {
    /// Derive the state from a decision log: for each pair the last
    /// decision recorded stands.
    pub fn derive(log: &[ReconciliationDecision]) -> (r: Self)
        ensures
            standing_of(decisions_view(r.standing@), decisions_view(log@)),
            decisions_view(r.standing@) == standing_list(decisions_view(log@)),
    {
        let mut standing: Vec<ReconciliationDecision> = Vec::new();
        let mut i: usize = 0;
        while i < log.len()
            invariant
                i <= log@.len(),
                sorted_by_key(standing@),
                standing_of(decisions_view(standing@), decisions_view(log@.take(i as int))),
            decreases log.len() - i,
        {
            let ghost prev = standing@;
            let d = log[i].duplicate();
            let ghost dv = d@;
            insert_sorted(&mut standing, d, true);
            proof {
                let lv = decisions_view(log@.take(i + 1));
                assert(lv =~= decisions_view(log@.take(i as int)).push(log@[i as int]@));
                assert(lv.drop_last() =~= decisions_view(log@.take(i as int)));
                lemma_standing_step(prev, standing@, d, decisions_view(log@.take(i as int)), dv);
            }
            i = i + 1;
        }
        proof {
            assert(log@.take(i as int) =~= log@);
            lemma_standing_unique(decisions_view(standing@), standing_list(decisions_view(log@)), decisions_view(log@));
        }
        ReconciliationState { standing }
    }
}

proof fn lemma_standing_step(
    prev: Seq<ReconciliationDecision>,
    next: Seq<ReconciliationDecision>,
    d: ReconciliationDecision,
    log: Seq<DecisionView>,
    dv: DecisionView,
)
    requires
        dv == d@,
        sorted_by_key(prev),
        sorted_by_key(next),
        standing_of(decisions_view(prev), log),
        forall|i: int| 0 <= i < prev.len() && prev[i].key() != d.key() ==> next.contains(#[trigger] prev[i]),
        next.contains(d),
        forall|i: int| 0 <= i < next.len() ==> (prev.contains(#[trigger] next[i]) || next[i] == d),
        forall|i: int| 0 <= i < next.len() && #[trigger] next[i].key() == d.key() ==> next[i] == d,
    ensures
        standing_of(decisions_view(next), log.push(dv)),
{
    let nv = decisions_view(next);
    let pv = decisions_view(prev);
    let m2 = standing_map(log.push(dv));
    assert(log.push(dv).drop_last() =~= log);
    assert(m2 == standing_map(log).insert(pair_of(dv), dv));
    assert forall|i: int, j: int| 0 <= i < j < nv.len() implies key_lt(pair_of(#[trigger] nv[i]), pair_of(#[trigger] nv[j])) by {
        assert(next[i].key() == pair_of(nv[i]));
        assert(next[j].key() == pair_of(nv[j]));
    }
    assert forall|i: int| 0 <= i < nv.len() implies m2.contains_key(pair_of(#[trigger] nv[i])) && m2[pair_of(nv[i])] == nv[i] by {
        assert(next[i].key() == pair_of(nv[i]));
        if next[i].key() == d.key() {
        } else {
            let k = choose|k: int| 0 <= k < prev.len() && prev[k] == next[i];
            assert(pv[k] == nv[i]);
        }
    }
    assert forall|k: Seq<Seq<char>>| #[trigger] m2.contains_key(k) implies exists|i: int|
        0 <= i < nv.len() && pair_of(#[trigger] nv[i]) == k by {
        if k == pair_of(dv) {
            let x = choose|x: int| 0 <= x < next.len() && next[x] == d;
            assert(pair_of(nv[x]) == k);
        } else {
            assert(log.push(dv).last() == dv);
            assert(m2 == standing_map(log).insert(pair_of(dv), dv));
            assert(standing_map(log).contains_key(k));
            let i = choose|i: int| 0 <= i < pv.len() && pair_of(#[trigger] pv[i]) == k;
            assert(pv[i] == prev[i]@);
            assert(prev[i].key() == k);
            assert(next.contains(prev[i]));
            let x = choose|x: int| 0 <= x < next.len() && next[x] == prev[i];
            assert(pair_of(nv[x]) == k);
        }
    }
}

/// The standing decisions of a log, one per pair, in pair-key order.
pub open spec fn standing_list(log: Seq<DecisionView>) -> Seq<DecisionView> {
    choose|s: Seq<DecisionView>| standing_of(s, log)
}

/// The pair keys of a list of decisions.
pub open spec fn pair_keys(s: Seq<DecisionView>) -> Seq<Seq<Seq<char>>> {
    s.map_values(|d: DecisionView| pair_of(d))
}

/// Two strictly increasing key lists with the same members are equal.
pub proof fn lemma_key_lists_unique(r1: Seq<Seq<Seq<char>>>, r2: Seq<Seq<Seq<char>>>)
    requires
        forall|i: int, j: int| 0 <= i < j < r1.len() ==> key_lt(#[trigger] r1[i], #[trigger] r1[j]),
        forall|i: int, j: int| 0 <= i < j < r2.len() ==> key_lt(#[trigger] r2[i], #[trigger] r2[j]),
        forall|x: Seq<Seq<char>>| #[trigger] r1.contains(x) <==> r2.contains(x),
    ensures
        r1 == r2,
    decreases r1.len(),
{
    if r1.len() == 0 {
        if r2.len() > 0 {
            assert(r2.contains(r2[0]));
            assert(r1.contains(r2[0]));
        }
        assert(r1 =~= r2);
    } else {
        assert(r1.contains(r1[0]));
        assert(r2.contains(r1[0]));
        assert(r2.contains(r2[0]));
        assert(r1.contains(r2[0]));
        let a = r1[0];
        let b = r2[0];
        if a != b {
            crate::text::lemma_key_lt_total(a, b);
            let k2 = choose|k: int| 0 <= k < r2.len() && r2[k] == a;
            let k1 = choose|k: int| 0 <= k < r1.len() && r1[k] == b;
            if key_lt(a, b) {
                assert(key_lt(r2[0], r2[k2]));
            } else {
                assert(key_lt(r1[0], r1[k1]));
            }
        }
        let t1 = r1.drop_first();
        let t2 = r2.drop_first();
        assert forall|x: Seq<Seq<char>>| #[trigger] t1.contains(x) <==> t2.contains(x) by {
            if t1.contains(x) {
                let k = choose|k: int| 0 <= k < t1.len() && t1[k] == x;
                assert(r1[k + 1] == x);
                assert(r1.contains(x));
                assert(key_lt(r1[0], r1[k + 1]));
                crate::text::lemma_key_lt_irreflexive(x);
                assert(r2.contains(x));
                let q = choose|q: int| 0 <= q < r2.len() && r2[q] == x;
                assert(q != 0);
                assert(t2[q - 1] == x);
            }
            if t2.contains(x) {
                let k = choose|k: int| 0 <= k < t2.len() && t2[k] == x;
                assert(r2[k + 1] == x);
                assert(r2.contains(x));
                assert(key_lt(r2[0], r2[k + 1]));
                crate::text::lemma_key_lt_irreflexive(x);
                assert(r1.contains(x));
                let q = choose|q: int| 0 <= q < r1.len() && r1[q] == x;
                assert(q != 0);
                assert(t1[q - 1] == x);
            }
        }
        assert forall|i: int, j: int| 0 <= i < j < t1.len() implies key_lt(#[trigger] t1[i], #[trigger] t1[j]) by {
            assert(t1[i] == r1[i + 1] && t1[j] == r1[j + 1]);
        }
        assert forall|i: int, j: int| 0 <= i < j < t2.len() implies key_lt(#[trigger] t2[i], #[trigger] t2[j]) by {
            assert(t2[i] == r2[i + 1] && t2[j] == r2[j + 1]);
        }
        lemma_key_lists_unique(t1, t2);
        assert(r1 =~= seq![a] + t1);
        assert(r2 =~= seq![b] + t2);
    }
}

/// A log has exactly one standing list.
pub proof fn lemma_standing_unique(s1: Seq<DecisionView>, s2: Seq<DecisionView>, log: Seq<DecisionView>)
    requires
        standing_of(s1, log),
        standing_of(s2, log),
    ensures
        s1 == s2,
{
    let k1 = pair_keys(s1);
    let k2 = pair_keys(s2);
    let m = standing_map(log);
    assert forall|x: Seq<Seq<char>>| #[trigger] k1.contains(x) <==> k2.contains(x) by {
        if k1.contains(x) {
            let i = choose|i: int| 0 <= i < k1.len() && k1[i] == x;
            assert(m.contains_key(pair_of(s1[i])));
            let j = choose|j: int| 0 <= j < s2.len() && pair_of(#[trigger] s2[j]) == x;
            assert(k2[j] == x);
        }
        if k2.contains(x) {
            let i = choose|i: int| 0 <= i < k2.len() && k2[i] == x;
            assert(m.contains_key(pair_of(s2[i])));
            let j = choose|j: int| 0 <= j < s1.len() && pair_of(#[trigger] s1[j]) == x;
            assert(k1[j] == x);
        }
    }
    assert forall|i: int, j: int| 0 <= i < j < k1.len() implies key_lt(#[trigger] k1[i], #[trigger] k1[j]) by {
        assert(key_lt(pair_of(s1[i]), pair_of(s1[j])));
    }
    assert forall|i: int, j: int| 0 <= i < j < k2.len() implies key_lt(#[trigger] k2[i], #[trigger] k2[j]) by {
        assert(key_lt(pair_of(s2[i]), pair_of(s2[j])));
    }
    lemma_key_lists_unique(k1, k2);
    assert forall|i: int| 0 <= i < s1.len() implies s1[i] == s2[i] by {
        assert(k1[i] == k2[i]);
        assert(pair_of(s1[i]) == pair_of(s2[i]));
    }
    assert(s1 =~= s2);
}

/// Why a standing decision forbids recording `d`: a standing merge of
/// another pair freezes its merged-away party, and its survivor cannot be
/// merged away in turn.
pub open spec fn conflict_with(sd: DecisionView, d: DecisionView) -> Option<ReconciliationDecisionError> {
    if sd.verb != ReconciliationVerb::MergeRehome || pair_of(sd) == pair_of(d) {
        None
    } else if sd.counterpart.canonical == d.subject.canonical || sd.counterpart.canonical == d.counterpart.canonical {
        Some(ReconciliationDecisionError::PartyAlreadyMerged)
    } else if d.verb == ReconciliationVerb::MergeRehome && sd.subject.canonical == d.counterpart.canonical {
        Some(ReconciliationDecisionError::NestedMergeUnsupported)
    } else {
        None
    }
}

/// The first conflict among the first `i` standing decisions.
pub open spec fn first_conflict(standing: Seq<DecisionView>, d: DecisionView, i: int) -> Option<ReconciliationDecisionError>
    decreases i,
{
    if i <= 0 {
        None
    } else {
        match first_conflict(standing, d, i - 1) {
            Some(e) => Some(e),
            None => conflict_with(standing[i - 1], d),
        }
    }
}

/// The counterparts merged into `survivor` by standing merges, in
/// standing order.
pub open spec fn antecedents(standing: Seq<DecisionView>, survivor: (Seq<char>, Seq<char>)) -> Seq<(Seq<char>, Seq<char>)>
    decreases standing.len(),
{
    if standing.len() == 0 {
        Seq::empty()
    } else {
        let rest = antecedents(standing.drop_last(), survivor);
        let d = standing.last();
        if d.verb == ReconciliationVerb::MergeRehome && d.subject.canonical == survivor {
            rest.push(d.counterpart.canonical)
        } else {
            rest
        }
    }
}

} // verus!
