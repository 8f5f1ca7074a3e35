//! The graph-artifact records the domain reads: Knowledge Object nodes with
//! their fields, relations, evidence and source placement, and the artifact
//! document a repository publishes.

use vstd::prelude::*;

use crate::sorted::{insert_sorted, sorted_by_key, Keyed};
use crate::text::{owned, str_eq};

verus! {

/// The characters of an optional string.
pub open spec fn opt_view(o: Option<String>) -> Option<Seq<char>> {
    match o {
        Some(s) => Some(s@),
        None => None,
    }
}

/// The characters of each string of a list.
pub open spec fn strs_view(v: Seq<String>) -> Seq<Seq<char>> {
    v.map_values(|s: String| s@)
}

pub fn clone_string(s: &String) -> (r: String)
    ensures
        r@ == s@,
{
    s.clone()
}

pub fn clone_opt_string(o: &Option<String>) -> (r: Option<String>)
    ensures
        opt_view(r) == opt_view(*o),
{
    match o {
        Some(s) => Some(s.clone()),
        None => None,
    }
}

pub fn clone_strings(v: &Vec<String>) -> (r: Vec<String>)
    ensures
        strs_view(r@) == strs_view(v@),
{
    let mut r: Vec<String> = Vec::new();
    let mut i: usize = 0;
    while i < v.len()
        invariant
            i <= v.len(),
            r@.len() == i,
            forall|j: int| 0 <= j < i ==> (#[trigger] r@[j])@ == v@[j]@,
        decreases v.len() - i,
    {
        r.push(v[i].clone());
        i = i + 1;
    }
    assert(strs_view(r@) =~= strs_view(v@));
    r
}

/// Where a node was authored.
#[derive(Debug, Clone, PartialEq, Eq)]
pub struct GraphSourceSpan {
    pub path: String,
    pub line: u32,
    pub column: u32,
}

impl GraphSourceSpan {
    pub open spec fn same(&self, other: &Self) -> bool {
        &&& self.path@ == other.path@
        &&& self.line == other.line
        &&& self.column == other.column
    }

    pub fn duplicate(&self) -> (r: Self)
        ensures
            r.same(self),
    {
        GraphSourceSpan { path: self.path.clone(), line: self.line, column: self.column }
    }
}

/// The three authored relation slots of a Knowledge Object.
#[derive(Debug, Clone, Default, PartialEq, Eq)]
pub struct GraphRelations {
    pub depends_on: Vec<String>,
    pub supersedes: Vec<String>,
    pub related_to: Vec<String>,
}

impl GraphRelations {
    pub open spec fn same(&self, other: &Self) -> bool {
        &&& strs_view(self.depends_on@) == strs_view(other.depends_on@)
        &&& strs_view(self.supersedes@) == strs_view(other.supersedes@)
        &&& strs_view(self.related_to@) == strs_view(other.related_to@)
    }

    pub fn duplicate(&self) -> (r: Self)
        ensures
            r.same(self),
    {
        GraphRelations {
            depends_on: clone_strings(&self.depends_on),
            supersedes: clone_strings(&self.supersedes),
            related_to: clone_strings(&self.related_to),
        }
    }
}

/// One typed evidence entry: an inline value, or a reference to a
/// `source` object.
#[derive(Debug, Clone, PartialEq, Eq)]
pub struct GraphEvidence {
    pub kind: String,
    pub value: Option<String>,
    pub reference: Option<String>,
}

impl GraphEvidence {
    pub open spec fn same(&self, other: &Self) -> bool {
        &&& self.kind@ == other.kind@
        &&& opt_view(self.value) == opt_view(other.value)
        &&& opt_view(self.reference) == opt_view(other.reference)
    }

    /// Inline evidence carrying its value.
    pub fn inline(kind: &str, value: &str) -> (r: Self)
        ensures
            r.kind@ == kind@,
            opt_view(r.value) == Some(value@),
            r.reference is None,
    {
        GraphEvidence { kind: owned(kind), value: Some(owned(value)), reference: None }
    }

    /// Evidence pointing at a `source` object by Object ID.
    pub fn object_ref(kind: &str, reference: &str) -> (r: Self)
        ensures
            r.kind@ == kind@,
            r.value is None,
            opt_view(r.reference) == Some(reference@),
    {
        GraphEvidence { kind: owned(kind), value: None, reference: Some(owned(reference)) }
    }

    pub fn duplicate(&self) -> (r: Self)
        ensures
            r.same(self),
    {
        GraphEvidence {
            kind: self.kind.clone(),
            value: clone_opt_string(&self.value),
            reference: clone_opt_string(&self.reference),
        }
    }
}

pub open spec fn same_evidence(a: Seq<GraphEvidence>, b: Seq<GraphEvidence>) -> bool {
    &&& a.len() == b.len()
    &&& forall|i: int| 0 <= i < a.len() ==> (#[trigger] a[i]).same(&b[i])
}

pub fn clone_evidence(v: &Vec<GraphEvidence>) -> (r: Vec<GraphEvidence>)
    ensures
        same_evidence(r@, v@),
{
    let mut r: Vec<GraphEvidence> = Vec::new();
    let mut i: usize = 0;
    while i < v.len()
        invariant
            i <= v.len(),
            r@.len() == i,
            forall|j: int| 0 <= j < i ==> (#[trigger] r@[j]).same(&v@[j]),
        decreases v.len() - i,
    {
        r.push(v[i].duplicate());
        i = i + 1;
    }
    r
}

/// The exact source placement a node was observed at.
#[derive(Debug, Clone, PartialEq, Eq)]
pub struct GraphSourceBinding {
    pub connector: String,
    pub source: String,
    pub revision: Option<String>,
    pub path: String,
    pub anchor: String,
    pub source_revision_digest: String,
}

impl GraphSourceBinding {
    pub open spec fn same(&self, other: &Self) -> bool {
        &&& self.connector@ == other.connector@
        &&& self.source@ == other.source@
        &&& opt_view(self.revision) == opt_view(other.revision)
        &&& self.path@ == other.path@
        &&& self.anchor@ == other.anchor@
        &&& self.source_revision_digest@ == other.source_revision_digest@
    }

    pub fn duplicate(&self) -> (r: Self)
        ensures
            r.same(self),
    {
        GraphSourceBinding {
            connector: self.connector.clone(),
            source: self.source.clone(),
            revision: clone_opt_string(&self.revision),
            path: self.path.clone(),
            anchor: self.anchor.clone(),
            source_revision_digest: self.source_revision_digest.clone(),
        }
    }
}

pub open spec fn same_binding(a: Option<GraphSourceBinding>, b: Option<GraphSourceBinding>) -> bool {
    match (a, b) {
        (Some(x), Some(y)) => x.same(&y),
        (None, None) => true,
        _ => false,
    }
}

pub fn clone_binding(b: &Option<GraphSourceBinding>) -> (r: Option<GraphSourceBinding>)
    ensures
        same_binding(r, *b),
{
    match b {
        Some(x) => Some(x.duplicate()),
        None => None,
    }
}

/// One `key: value` entry of a node's authored fields.
#[derive(Debug, Clone, PartialEq, Eq)]
pub struct FieldEntry {
    pub key: String,
    pub value: String,
}

impl Keyed for FieldEntry {
    open spec fn key(&self) -> Seq<Seq<char>> {
        seq![self.key@]
    }

    fn key_less(&self, other: &Self) -> (r: bool) {
        let r = crate::text::str_lt(self.key.as_str(), other.key.as_str());
        proof {
            let a = seq![self.key@];
            let b = seq![other.key@];
            if self.key@ == other.key@ {
                crate::text::lemma_seq_lt_irreflexive(self.key@);
                assert(a =~= b);
                crate::text::lemma_key_lt_irreflexive(a);
            } else {
                assert(a[0] != b[0]);
            }
        }
        r
    }
}

/// A node's authored `key: value` fields, one value per key, kept in key
/// order.
#[derive(Debug, PartialEq, Eq)]
pub struct FieldMap {
    entries: Vec<FieldEntry>,
}

impl FieldMap {
    #[verifier::type_invariant]
    spec fn wf(self) -> bool {
        sorted_by_key(self.entries@)
    }

    /// The entries in key order.
    pub closed spec fn entries_view(self) -> Seq<FieldEntry> {
        self.entries@
    }

    /// The value stored under `k`, if any.
    pub closed spec fn spec_get(self, k: Seq<char>) -> Option<Seq<char>> {
        lookup(self.entries@, k)
    }

    pub fn new() -> (r: Self)
        ensures
            forall|k: Seq<char>| r.spec_get(k) is None,
    {
        FieldMap { entries: Vec::new() }
    }

    /// Store `value` under `key`, replacing any value held there.
    pub fn insert(&mut self, key: String, value: String)
        ensures
            forall|k: Seq<char>|
                #[trigger] final(self).spec_get(k) == if k == key@ {
                    Some(value@)
                } else {
                    old(self).spec_get(k)
                },
    {
        proof { use_type_invariant(&*self); }
        let ghost old_entries = self.entries@;
        let ghost kv = key@;
        let ghost vv = value@;
        let entry = FieldEntry { key, value };
        let mut entries = Vec::new();
        std::mem::swap(&mut entries, &mut self.entries);
        insert_sorted(&mut entries, entry, true);
        let ghost new_entries = entries@;
        self.entries = entries;
        proof {
            assert forall|k: Seq<char>|
                #[trigger] self.spec_get(k) == if k == kv {
                    Some(vv)
                } else {
                    lookup(old_entries, k)
                } by {
                lemma_get_after_insert(old_entries, new_entries, entry, k);
            }
        }
    }

    /// The value stored under `key`.
    pub fn get(&self, key: &str) -> (r: Option<&String>)
        ensures
            match r {
                Some(v) => self.spec_get(key@) == Some(v@),
                None => self.spec_get(key@) is None,
            },
    {
        proof { use_type_invariant(self); }
        let mut i: usize = 0;
        while i < self.entries.len()
            invariant
                sorted_by_key(self.entries@),
                i <= self.entries@.len(),
                forall|j: int| 0 <= j < i ==> (#[trigger] self.entries@[j]).key@ != key@,
            decreases self.entries.len() - i,
        {
            if str_eq(self.entries[i].key.as_str(), key) {
                proof {
                    lemma_spec_get_at(self.entries@, i as int);
                }
                return Some(&self.entries[i].value);
            }
            i = i + 1;
        }
        proof {
            lemma_lookup_none(self.entries@, key@);
        }
        None
    }

    /// How many entries the map holds.
    pub fn len(&self) -> (r: usize)
        ensures
            r == self.entries_view().len(),
            sorted_by_key(self.entries_view()),
    {
        proof { use_type_invariant(self); }
        self.entries.len()
    }

    /// The entry at position `i` in key order.
    pub fn entry(&self, i: usize) -> (r: &FieldEntry)
        requires
            i < self.entries_view().len(),
        ensures
            *r == self.entries_view()[i as int],
    {
        &self.entries[i]
    }

    /// Lookup by key reads the entries in key order.
    pub proof fn lemma_get_is_lookup(self, k: Seq<char>)
        ensures
            self.spec_get(k) == lookup(self.entries_view(), k),
    {
    }

    /// The same map without the entries under `a` and `b`.
    pub fn without_keys(&self, a: &str, b: &str) -> (r: Self)
        ensures
            forall|k: Seq<char>|
                #[trigger] r.spec_get(k) == if k == a@ || k == b@ {
                    None
                } else {
                    self.spec_get(k)
                },
    {
        proof { use_type_invariant(self); }
        let mut m = FieldMap::new();
        let ghost es = self.entries@;
        let mut i: usize = 0;
        while i < self.entries.len()
            invariant
                es == self.entries@,
                i <= es.len(),
                forall|k: Seq<char>|
                    #[trigger] m.spec_get(k) == if k == a@ || k == b@ {
                        None
                    } else {
                        lookup(es.take(i as int), k)
                    },
            decreases self.entries.len() - i,
        {
            proof {
                assert(es.take(i + 1).drop_last() =~= es.take(i as int));
                assert(es.take(i + 1).last() == es[i as int]);
            }
            let key = self.entries[i].key.as_str();
            if !str_eq(key, a) && !str_eq(key, b) {
                m.insert(self.entries[i].key.clone(), self.entries[i].value.clone());
            }
            i = i + 1;
        }
        proof {
            assert(es.take(es.len() as int) =~= es);
        }
        m
    }

    /// The map holding exactly the given pairs, a later pair overriding an
    /// earlier one with the same key.
    pub fn from_pairs(pairs: Vec<(String, String)>) -> (r: Self)
        ensures
            forall|k: Seq<char>|
                #[trigger] r.spec_get(k) == last_pair_value(pairs@, k),
    {
        let mut m = FieldMap::new();
        let mut pairs = pairs;
        let _total = pairs.len();
        let ghost all = pairs@;
        let mut n: usize = 0;
        while pairs.len() > 0
            invariant
                all.len() <= usize::MAX,
                n + pairs@.len() == all.len(),
                pairs@ == all.subrange(n as int, all.len() as int),
                forall|k: Seq<char>|
                    #[trigger] m.spec_get(k) == last_pair_value(all.subrange(0, n as int), k),
            decreases pairs.len(),
        {
            let (k, v) = pairs.remove(0);
            proof {
                assert(all[n as int] == (k, v));
                assert(all.subrange(0, n + 1).drop_last() =~= all.subrange(0, n as int));
                assert(all.subrange(0, n + 1).last() == (k, v));
            }
            m.insert(k, v);
            n = n + 1;
            proof {
                assert(pairs@ =~= all.subrange(n as int, all.len() as int));
            }
        }
        assert(all.subrange(0, n as int) =~= all);
        m
    }

    /// A copy holding the same entries.
    pub fn duplicate(&self) -> (r: Self)
        ensures
            r.entries_view().len() == self.entries_view().len(),
            forall|i: int| 0 <= i < r.entries_view().len() ==> (#[trigger] r.entries_view()[i]).key@
                == self.entries_view()[i].key@ && r.entries_view()[i].value@ == self.entries_view()[i].value@,
            forall|k: Seq<char>| #[trigger] r.spec_get(k) == self.spec_get(k),
    {
        proof { use_type_invariant(self); }
        let mut out: Vec<FieldEntry> = Vec::new();
        let mut i: usize = 0;
        while i < self.entries.len()
            invariant
                sorted_by_key(self.entries@),
                i <= self.entries@.len(),
                out@.len() == i,
                forall|j: int| 0 <= j < i ==> (#[trigger] out@[j]).key@ == self.entries@[j].key@
                    && out@[j].value@ == self.entries@[j].value@,
            decreases self.entries.len() - i,
        {
            out.push(FieldEntry { key: self.entries[i].key.clone(), value: self.entries[i].value.clone() });
            i = i + 1;
        }
        proof {
            assert forall|a: int, b: int| 0 <= a < b < out@.len() implies crate::text::key_lt(
                #[trigger] out@[a].key(),
                #[trigger] out@[b].key(),
            ) by {
                assert(out@[a].key() =~= self.entries@[a].key());
                assert(out@[b].key() =~= self.entries@[b].key());
            }
        }
        let r = FieldMap { entries: out };
        proof {
            assert forall|k: Seq<char>| #[trigger] r.spec_get(k) == self.spec_get(k) by {
                if exists|i: int| 0 <= i < self.entries@.len() && (#[trigger] self.entries@[i]).key@ == k {
                    let i = choose|i: int| 0 <= i < self.entries@.len() && (#[trigger] self.entries@[i]).key@ == k;
                    lemma_spec_get_at(self.entries@, i);
                    lemma_spec_get_at(out@, i);
                } else {
                    lemma_lookup_none(self.entries@, k);
                    assert forall|j: int| 0 <= j < out@.len() implies (#[trigger] out@[j]).key@ != k by {
                        assert(self.entries@[j].key@ == out@[j].key@);
                    }
                    lemma_lookup_none(out@, k);
                }
            }
        }
        r
    }
}


/// One Knowledge Object node of a graph artifact.
#[derive(Debug, Clone, PartialEq, Eq)]
pub struct GraphKnowledgeObjectNode {
    pub id: String,
    pub kind: String,
    /// The producer-declared governed-meaning hash.
    pub content_hash: String,
    /// The lifecycle status slot; `constraint` nodes carry their severity
    /// here and `agent_instruction` nodes their trust.
    pub status: Option<String>,
    pub body: String,
    pub page_id: String,
    pub source_span: GraphSourceSpan,
    pub source_binding: Option<GraphSourceBinding>,
    pub fields: FieldMap,
    pub relations: GraphRelations,
    pub impacts: Vec<String>,
    pub approved_by: Vec<String>,
    pub allowed_actions: Vec<String>,
    pub forbidden_actions: Vec<String>,
    pub contradiction_claims: Vec<String>,
    pub evidence: Vec<GraphEvidence>,
    pub effective_status: Option<String>,
    pub effective_reason: Option<String>,
}

impl GraphKnowledgeObjectNode {
    /// Field-for-field equal content.
    pub open spec fn same(&self, other: &Self) -> bool {
        &&& self.id@ == other.id@
        &&& self.kind@ == other.kind@
        &&& self.content_hash@ == other.content_hash@
        &&& opt_view(self.status) == opt_view(other.status)
        &&& self.body@ == other.body@
        &&& self.page_id@ == other.page_id@
        &&& self.source_span.same(&other.source_span)
        &&& same_binding(self.source_binding, other.source_binding)
        &&& (forall|k: Seq<char>| #[trigger] self.fields.spec_get(k) == other.fields.spec_get(k))
        &&& self.relations.same(&other.relations)
        &&& strs_view(self.impacts@) == strs_view(other.impacts@)
        &&& strs_view(self.approved_by@) == strs_view(other.approved_by@)
        &&& strs_view(self.allowed_actions@) == strs_view(other.allowed_actions@)
        &&& strs_view(self.forbidden_actions@) == strs_view(other.forbidden_actions@)
        &&& strs_view(self.contradiction_claims@) == strs_view(other.contradiction_claims@)
        &&& same_evidence(self.evidence@, other.evidence@)
        &&& opt_view(self.effective_status) == opt_view(other.effective_status)
        &&& opt_view(self.effective_reason) == opt_view(other.effective_reason)
    }

    /// A copy with the same content.
    pub fn duplicate(&self) -> (r: Self)
        ensures
            r.same(self),
    {
        GraphKnowledgeObjectNode {
            id: self.id.clone(),
            kind: self.kind.clone(),
            content_hash: self.content_hash.clone(),
            status: clone_opt_string(&self.status),
            body: self.body.clone(),
            page_id: self.page_id.clone(),
            source_span: self.source_span.duplicate(),
            source_binding: clone_binding(&self.source_binding),
            fields: self.fields.duplicate(),
            relations: self.relations.duplicate(),
            impacts: clone_strings(&self.impacts),
            approved_by: clone_strings(&self.approved_by),
            allowed_actions: clone_strings(&self.allowed_actions),
            forbidden_actions: clone_strings(&self.forbidden_actions),
            contradiction_claims: clone_strings(&self.contradiction_claims),
            evidence: clone_evidence(&self.evidence),
            effective_status: clone_opt_string(&self.effective_status),
            effective_reason: clone_opt_string(&self.effective_reason),
        }
    }
}

/// The repository a graph artifact was produced for: a project bound by
/// its configuration path, or an explicit standalone (`null`) identity.
#[derive(Debug, Clone, PartialEq, Eq)]
pub enum GraphRepositoryIdentity {
    Standalone,
    Project { kind: String, config_path: String },
}

impl GraphRepositoryIdentity {
    pub open spec fn same(&self, other: &Self) -> bool {
        match (self, other) {
            (GraphRepositoryIdentity::Standalone, GraphRepositoryIdentity::Standalone) => true,
            (
                GraphRepositoryIdentity::Project { kind: k1, config_path: p1 },
                GraphRepositoryIdentity::Project { kind: k2, config_path: p2 },
            ) => k1@ == k2@ && p1@ == p2@,
            _ => false,
        }
    }

    /// The identity every project-bound build emits for its configuration.
    pub fn local_project(config_path: String) -> (r: Self)
        ensures
            r matches GraphRepositoryIdentity::Project { kind, config_path: p } && kind@
                == "local_project"@ && p@ == config_path@,
    {
        GraphRepositoryIdentity::Project { kind: owned("local_project"), config_path }
    }

    pub fn standalone() -> (r: Self)
        ensures
            r is Standalone,
    {
        GraphRepositoryIdentity::Standalone
    }

    pub fn same_as(&self, other: &Self) -> (r: bool)
        ensures
            r == self.same(other),
    {
        match (self, other) {
            (GraphRepositoryIdentity::Standalone, GraphRepositoryIdentity::Standalone) => true,
            (
                GraphRepositoryIdentity::Project { kind: k1, config_path: p1 },
                GraphRepositoryIdentity::Project { kind: k2, config_path: p2 },
            ) => str_eq(k1.as_str(), k2.as_str()) && str_eq(p1.as_str(), p2.as_str()),
            _ => false,
        }
    }

    pub fn duplicate(&self) -> (r: Self)
        ensures
            r.same(self),
    {
        match self {
            GraphRepositoryIdentity::Standalone => GraphRepositoryIdentity::Standalone,
            GraphRepositoryIdentity::Project { kind, config_path } => GraphRepositoryIdentity::Project {
                kind: kind.clone(),
                config_path: config_path.clone(),
            },
        }
    }
}

/// A non-Knowledge-Object node of the graph (a page).
#[derive(Debug, Clone, PartialEq, Eq)]
pub struct GraphPageNode {
    pub id: String,
}

/// One node of a graph artifact.
#[derive(Debug, Clone, PartialEq, Eq)]
pub enum GraphNode {
    KnowledgeObject(GraphKnowledgeObjectNode),
    Page(GraphPageNode),
}

/// A published graph artifact.
#[derive(Debug, Clone, PartialEq, Eq)]
pub struct GraphArtifactDocument {
    pub schema_version: String,
    pub repository_identity: GraphRepositoryIdentity,
    pub nodes: Vec<GraphNode>,
}

/// The Knowledge Object nodes of an artifact, in document order.
pub open spec fn knowledge_objects(nodes: Seq<GraphNode>) -> Seq<GraphKnowledgeObjectNode>
    decreases nodes.len(),
{
    if nodes.len() == 0 {
        Seq::empty()
    } else {
        let rest = knowledge_objects(nodes.drop_last());
        match nodes.last() {
            GraphNode::KnowledgeObject(n) => rest.push(n),
            GraphNode::Page(_) => rest,
        }
    }
}

impl Clone for FieldMap {
    fn clone(&self) -> (r: Self)
        ensures
            forall|k: Seq<char>| #[trigger] r.spec_get(k) == self.spec_get(k),
    {
        self.duplicate()
    }
}

/// The value of the last pair with key `k`.
pub open spec fn last_pair_value(pairs: Seq<(String, String)>, k: Seq<char>) -> Option<Seq<char>>
    decreases pairs.len(),
{
    if pairs.len() == 0 {
        None
    } else if pairs.last().0@ == k {
        Some(pairs.last().1@)
    } else {
        last_pair_value(pairs.drop_last(), k)
    }
}

/// The value of the last entry with key `k`; in a sorted map there is at
/// most one.
pub open spec fn lookup(entries: Seq<FieldEntry>, k: Seq<char>) -> Option<Seq<char>>
    decreases entries.len(),
{
    if entries.len() == 0 {
        None
    } else if entries.last().key@ == k {
        Some(entries.last().value@)
    } else {
        lookup(entries.drop_last(), k)
    }
}

pub proof fn lemma_lookup_none(entries: Seq<FieldEntry>, k: Seq<char>)
    requires
        forall|i: int| 0 <= i < entries.len() ==> (#[trigger] entries[i]).key@ != k,
    ensures
        lookup(entries, k) is None,
    decreases entries.len(),
{
    if entries.len() > 0 {
        assert(entries.last() == entries[entries.len() - 1]);
        assert forall|i: int| 0 <= i < entries.drop_last().len() implies (
        #[trigger] entries.drop_last()[i]).key@ != k by {
            assert(entries.drop_last()[i] == entries[i]);
        }
        lemma_lookup_none(entries.drop_last(), k);
    }
}

pub proof fn lemma_lookup_some(entries: Seq<FieldEntry>, k: Seq<char>)
    requires
        lookup(entries, k) is Some,
    ensures
        exists|i: int| 0 <= i < entries.len() && (#[trigger] entries[i]).key@ == k && Some(entries[i].value@) == lookup(entries, k),
    decreases entries.len(),
{
    if entries.last().key@ == k {
        assert(entries[entries.len() - 1].key@ == k);
    } else {
        lemma_lookup_some(entries.drop_last(), k);
        let i = choose|i: int| 0 <= i < entries.drop_last().len() && (#[trigger] entries.drop_last()[i]).key@ == k && Some(entries.drop_last()[i].value@) == lookup(entries.drop_last(), k);
        assert(entries[i] == entries.drop_last()[i]);
    }
}

proof fn lemma_spec_get_at(entries: Seq<FieldEntry>, i: int)
    requires
        sorted_by_key(entries),
        0 <= i < entries.len(),
    ensures
        lookup(entries, entries[i].key@) == Some(entries[i].value@),
    decreases entries.len(),
{
    let n = entries.len() - 1;
    if i < n {
        assert(crate::text::key_lt(entries[i].key(), entries[n].key()));
        assert(entries.last().key@ != entries[i].key@) by {
            if entries.last().key@ == entries[i].key@ {
                assert(entries[i].key() =~= entries[n].key());
                crate::text::lemma_key_lt_irreflexive(entries[i].key());
            }
        }
        assert(entries.drop_last()[i] == entries[i]);
        lemma_spec_get_at(entries.drop_last(), i);
    }
}

proof fn lemma_get_after_insert(old_e: Seq<FieldEntry>, new_e: Seq<FieldEntry>, x: FieldEntry, k: Seq<char>)
    requires
        sorted_by_key(old_e),
        sorted_by_key(new_e),
        forall|i: int|
            0 <= i < old_e.len() && (old_e[i].key() != x.key() || !true) ==> new_e.contains(#[trigger] old_e[i]),
        new_e.contains(x),
        forall|i: int| 0 <= i < new_e.len() ==> (old_e.contains(#[trigger] new_e[i]) || new_e[i] == x),
        forall|i: int|
            0 <= i < new_e.len() && #[trigger] new_e[i].key() == x.key() ==> new_e[i] == x,
    ensures
        lookup(new_e, k) == if k == x.key@ {
            Some(x.value@)
        } else {
            lookup(old_e, k)
        },
{
    if k == x.key@ {
        let xi = choose|i: int| 0 <= i < new_e.len() && new_e[i] == x;
        lemma_spec_get_at(new_e, xi);
    } else {
        if exists|i: int| 0 <= i < old_e.len() && (#[trigger] old_e[i]).key@ == k {
            let i = choose|i: int| 0 <= i < old_e.len() && (#[trigger] old_e[i]).key@ == k;
            assert(old_e[i].key() != x.key()) by {
                if old_e[i].key() == x.key() {
                    assert(old_e[i].key()[0] == x.key()[0]);
                }
            }
            assert(new_e.contains(old_e[i]));
            let j0 = choose|j: int| 0 <= j < new_e.len() && new_e[j] == old_e[i];
            lemma_spec_get_at(new_e, j0);
            lemma_spec_get_at(old_e, i);
        } else {
            lemma_lookup_none(old_e, k);
            assert forall|j: int| 0 <= j < new_e.len() implies (#[trigger] new_e[j]).key@ != k by {
                if new_e[j] != x {
                    assert(old_e.contains(new_e[j]));
                    let i = choose|i: int| 0 <= i < old_e.len() && old_e[i] == new_e[j];
                    assert(old_e[i].key@ == new_e[j].key@);
                }
            }
            lemma_lookup_none(new_e, k);
        }
    }
}

pub open spec fn is_id_alnum(c: char) -> bool {
    ('a' <= c && c <= 'z') || ('0' <= c && c <= '9')
}

/// The Object ID grammar: two or more `.`-separated segments, each made of
/// lowercase letters and digits in runs joined by single `-`.
pub open spec fn is_object_id_text(s: Seq<char>) -> bool {
    &&& s.len() > 0
    &&& forall|i: int| 0 <= i < s.len() ==> is_id_alnum(#[trigger] s[i]) || s[i] == '.' || s[i] == '-'
    &&& is_id_alnum(s[0])
    &&& is_id_alnum(s[s.len() - 1])
    &&& forall|i: int| 0 <= i < s.len() - 1 && !is_id_alnum(#[trigger] s[i]) ==> is_id_alnum(s[i + 1])
    &&& exists|i: int| 0 <= i < s.len() && #[trigger] s[i] == '.'
}

fn id_alnum(c: char) -> (r: bool)
    ensures
        r == is_id_alnum(c),
{
    ('a' <= c && c <= 'z') || ('0' <= c && c <= '9')
}

/// Whether `value` is a valid Object ID.
pub fn is_object_id(value: &str) -> (r: bool)
    ensures
        r == is_object_id_text(value@),
{
    let cs = crate::text::chars_of(value);
    let n = cs.len();
    if n == 0 || !id_alnum(cs[0]) || !id_alnum(cs[n - 1]) {
        return false;
    }
    let mut dot = false;
    let mut i: usize = 0;
    while i < n
        invariant
            cs@ == value@,
            n == cs@.len(),
            n > 0,
            i <= n,
            forall|j: int| 0 <= j < i ==> is_id_alnum(#[trigger] cs@[j]) || cs@[j] == '.' || cs@[j] == '-',
            forall|j: int| 0 <= j < i && j < n - 1 && !is_id_alnum(#[trigger] cs@[j]) ==> is_id_alnum(cs@[j + 1]),
            dot == exists|j: int| 0 <= j < i && #[trigger] cs@[j] == '.',
        decreases n - i,
    {
        let c = cs[i];
        if !(id_alnum(c) || c == '.' || c == '-') {
            return false;
        }
        if !id_alnum(c) && i + 1 < n && !id_alnum(cs[i + 1]) {
            return false;
        }
        if c == '.' {
            dot = true;
        }
        i = i + 1;
    }
    dot
}

/// The kind of an authored relation between Knowledge Objects.
#[derive(Debug, Clone, Copy, PartialEq, Eq, Structural)]
pub enum GraphRelationKind {
    DependsOn,
    Supersedes,
    RelatedTo,
}

impl GraphRelationKind {
    pub open spec fn wire(self) -> Seq<char> {
        match self {
            GraphRelationKind::DependsOn => "depends_on"@,
            GraphRelationKind::Supersedes => "supersedes"@,
            GraphRelationKind::RelatedTo => "related_to"@,
        }
    }

    /// The relation's field name.
    pub fn as_str(self) -> (r: &'static str)
        ensures
            r@ == self.wire(),
    {
        match self {
            GraphRelationKind::DependsOn => "depends_on",
            GraphRelationKind::Supersedes => "supersedes",
            GraphRelationKind::RelatedTo => "related_to",
        }
    }
}

/// Which way a relation is followed from an object.
#[derive(Debug, Clone, Copy, PartialEq, Eq, Structural)]
pub enum GraphDirection {
    Outgoing,
    Incoming,
    Both,
}

} // verus!
