//! The records a managed workspace keeps: immutable versions, Managed
//! Objects over an append-only version list, and each repository's object
//! registry keyed by repository-local Object ID.

use vstd::prelude::*;

use crate::graph::{opt_view, GraphRepositoryIdentity, GraphSourceBinding};
use crate::managed::identity::{ManagedVersionId, SourceAssertionIdentity, WorkspaceCanonicalIdentity};
use crate::text::str_eq;

verus! {

/// A Source Binding as characters.
pub struct BindingView {
    pub connector: Seq<char>,
    pub source: Seq<char>,
    pub revision: Option<Seq<char>>,
    pub path: Seq<char>,
    pub anchor: Seq<char>,
    pub source_revision_digest: Seq<char>,
}

pub open spec fn binding_view(b: Option<GraphSourceBinding>) -> Option<BindingView> {
    match b {
        Some(x) => Some(
            BindingView {
                connector: x.connector@,
                source: x.source@,
                revision: opt_view(x.revision),
                path: x.path@,
                anchor: x.anchor@,
                source_revision_digest: x.source_revision_digest@,
            },
        ),
        None => None,
    }
}

/// A repository identity as characters: `None` for the explicit
/// standalone identity.
pub open spec fn identity_view(r: GraphRepositoryIdentity) -> Option<(Seq<char>, Seq<char>)> {
    match r {
        GraphRepositoryIdentity::Standalone => None,
        GraphRepositoryIdentity::Project { kind, config_path } => Some((kind@, config_path@)),
    }
}

/// One immutable managed version with its preserved provenance.
#[derive(Debug, Clone, PartialEq, Eq)]
pub struct ManagedVersionRecord {
    pub version_id: ManagedVersionId,
    /// The producer-declared governed-meaning hash.
    pub content_hash: String,
    /// The Source Binding observed when the version was minted.
    pub source_binding: Option<GraphSourceBinding>,
    /// Contributing Source Assertions.
    pub source_assertions: Vec<SourceAssertionIdentity>,
}

pub struct VersionModel {
    pub version_id: Seq<char>,
    pub content_hash: Seq<char>,
    pub binding: Option<BindingView>,
    pub assertions: Seq<Seq<char>>,
}

impl View for ManagedVersionRecord {
    type V = VersionModel;

    open spec fn view(&self) -> VersionModel {
        VersionModel {
            version_id: self.version_id@,
            content_hash: self.content_hash@,
            binding: binding_view(self.source_binding),
            assertions: self.source_assertions@.map_values(|a: SourceAssertionIdentity| a@),
        }
    }
}

/// One Managed Object in one repository: a stable Object ID and canonical
/// identity over an append-only list of immutable versions.
#[derive(Debug, Clone, PartialEq, Eq)]
pub struct ManagedObjectRecord {
    pub canonical: WorkspaceCanonicalIdentity,
    pub object_id: String,
    pub versions: Vec<ManagedVersionRecord>,
}

pub struct ObjectModel {
    pub canonical: (Seq<char>, Seq<char>),
    pub object_id: Seq<char>,
    pub versions: Seq<VersionModel>,
}

impl View for ManagedObjectRecord {
    type V = ObjectModel;

    open spec fn view(&self) -> ObjectModel {
        ObjectModel {
            canonical: self.canonical@,
            object_id: self.object_id@,
            versions: self.versions@.map_values(|v: ManagedVersionRecord| v@),
        }
    }
}

/// The objects as a map from Object ID.
pub open spec fn object_map(s: Seq<ManagedObjectRecord>) -> Map<Seq<char>, ObjectModel>
    decreases s.len(),
{
    if s.len() == 0 {
        Map::empty()
    } else {
        object_map(s.drop_last()).insert(s.last().object_id@, s.last()@)
    }
}

pub open spec fn ids_unique(s: Seq<ManagedObjectRecord>) -> bool {
    forall|i: int, j: int| 0 <= i < j < s.len() ==> (#[trigger] s[i]).object_id@ != (#[trigger] s[j]).object_id@
}

pub proof fn lemma_object_map_get(s: Seq<ManagedObjectRecord>, i: int)
    requires
        ids_unique(s),
        0 <= i < s.len(),
    ensures
        object_map(s).contains_key(s[i].object_id@),
        object_map(s)[s[i].object_id@] == s[i]@,
    decreases s.len(),
{
    if i < s.len() - 1 {
        lemma_object_map_get(s.drop_last(), i);
        assert(s.drop_last()[i] == s[i]);
    }
}

pub proof fn lemma_object_map_absent(s: Seq<ManagedObjectRecord>, k: Seq<char>)
    requires
        forall|i: int| 0 <= i < s.len() ==> (#[trigger] s[i]).object_id@ != k,
    ensures
        !object_map(s).contains_key(k),
    decreases s.len(),
{
    if s.len() > 0 {
        assert forall|i: int| 0 <= i < s.drop_last().len() implies (#[trigger] s.drop_last()[i]).object_id@ != k by {
            assert(s.drop_last()[i] == s[i]);
        }
        lemma_object_map_absent(s.drop_last(), k);
    }
}

pub proof fn lemma_object_map_keys(s: Seq<ManagedObjectRecord>, k: Seq<char>)
    ensures
        object_map(s).contains_key(k) ==> exists|i: int| 0 <= i < s.len() && (#[trigger] s[i]).object_id@ == k,
    decreases s.len(),
{
    if s.len() > 0 {
        lemma_object_map_keys(s.drop_last(), k);
        if object_map(s.drop_last()).contains_key(k) {
            let i = choose|i: int| 0 <= i < s.drop_last().len() && (#[trigger] s.drop_last()[i]).object_id@ == k;
            assert(s[i] == s.drop_last()[i]);
        } else if object_map(s).contains_key(k) {
            assert(s[s.len() - 1].object_id@ == k);
        }
    }
}

pub proof fn lemma_object_map_len(s: Seq<ManagedObjectRecord>)
    requires
        ids_unique(s),
    ensures
        object_map(s).dom().finite(),
        object_map(s).dom().len() == s.len(),
    decreases s.len(),
{
    if s.len() > 0 {
        let t = s.drop_last();
        assert(ids_unique(t)) by {
            assert forall|i: int, j: int| 0 <= i < j < t.len() implies (#[trigger] t[i]).object_id@ != (
            #[trigger] t[j]).object_id@ by {
                assert(t[i] == s[i] && t[j] == s[j]);
            }
        }
        lemma_object_map_len(t);
        assert forall|i: int| 0 <= i < t.len() implies (#[trigger] t[i]).object_id@ != s.last().object_id@ by {
            assert(t[i] == s[i]);
        }
        lemma_object_map_absent(t, s.last().object_id@);
    }
}

impl ManagedVersionRecord {
    pub fn duplicate(&self) -> (r: Self)
        ensures
            r@ == self@,
    {
        let mut assertions: Vec<SourceAssertionIdentity> = Vec::new();
        let mut i: usize = 0;
        while i < self.source_assertions.len()
            invariant
                i <= self.source_assertions@.len(),
                assertions@.len() == i,
                forall|j: int| 0 <= j < i ==> (#[trigger] assertions@[j])@ == self.source_assertions@[j]@,
            decreases self.source_assertions.len() - i,
        {
            assertions.push(self.source_assertions[i].duplicate());
            i = i + 1;
        }
        let r = ManagedVersionRecord {
            version_id: self.version_id.duplicate(),
            content_hash: self.content_hash.clone(),
            source_binding: crate::graph::clone_binding(&self.source_binding),
            source_assertions: assertions,
        };
        proof {
            assert(r@.assertions =~= self@.assertions);
        }
        r
    }
}

impl ManagedObjectRecord {
    pub fn duplicate(&self) -> (r: Self)
        ensures
            r@ == self@,
    {
        let mut versions: Vec<ManagedVersionRecord> = Vec::new();
        let mut i: usize = 0;
        while i < self.versions.len()
            invariant
                i <= self.versions@.len(),
                versions@.len() == i,
                forall|j: int| 0 <= j < i ==> (#[trigger] versions@[j])@ == self.versions@[j]@,
            decreases self.versions.len() - i,
        {
            versions.push(self.versions[i].duplicate());
            i = i + 1;
        }
        let r = ManagedObjectRecord {
            canonical: self.canonical.duplicate(),
            object_id: self.object_id.clone(),
            versions,
        };
        proof {
            assert(r@.versions =~= self@.versions);
        }
        r
    }

    /// The latest version; every recorded object has at least one.
    pub fn latest(&self) -> (r: Option<&ManagedVersionRecord>)
        ensures
            self.versions@.len() > 0 ==> r == Some(&self.versions@.last()),
            self.versions@.len() == 0 ==> r is None,
    {
        if self.versions.len() == 0 {
            None
        } else {
            Some(&self.versions[self.versions.len() - 1])
        }
    }
}

/// One repository's Managed Objects, keyed by their repository-local
/// Object ID (one record per ID).
#[derive(Debug, PartialEq, Eq)]
pub struct ObjectRegistry {
    entries: Vec<ManagedObjectRecord>,
}

impl ObjectRegistry {
    #[verifier::type_invariant]
    spec fn wf(self) -> bool {
        ids_unique(self.entries@)
    }

    /// The registry as a map from Object ID.
    pub closed spec fn model(self) -> Map<Seq<char>, ObjectModel> {
        object_map(self.entries@)
    }

    pub fn new() -> (r: Self)
        ensures
            r.model() == Map::<Seq<char>, ObjectModel>::empty(),
    {
        ObjectRegistry { entries: Vec::new() }
    }

    /// The number of objects.
    pub fn len(&self) -> (r: usize)
        ensures
            r == self.model().dom().len(),
            self.model().dom().finite(),
    {
        proof {
            use_type_invariant(self);
            lemma_object_map_len(self.entries@);
        }
        self.entries.len()
    }

    pub fn is_empty(&self) -> (r: bool)
        ensures
            r == (self.model().dom().len() == 0),
            self.model().dom().finite(),
    {
        self.len() == 0
    }

    fn index_of(&self, object_id: &str) -> (r: Option<usize>)
        ensures
            match r {
                Some(i) => i < self.entries@.len() && self.entries@[i as int].object_id@ == object_id@,
                None => forall|i: int| 0 <= i < self.entries@.len() ==> (#[trigger] self.entries@[i]).object_id@ != object_id@,
            },
    {
        let mut i: usize = 0;
        while i < self.entries.len()
            invariant
                i <= self.entries@.len(),
                forall|j: int| 0 <= j < i ==> (#[trigger] self.entries@[j]).object_id@ != object_id@,
            decreases self.entries.len() - i,
        {
            if str_eq(self.entries[i].object_id.as_str(), object_id) {
                return Some(i);
            }
            i = i + 1;
        }
        None
    }

    /// The object recorded under `object_id`.
    pub fn get(&self, object_id: &str) -> (r: Option<&ManagedObjectRecord>)
        ensures
            match r {
                Some(o) => self.model().contains_key(object_id@) && self.model()[object_id@] == o@,
                None => !self.model().contains_key(object_id@),
            },
    {
        proof {
            use_type_invariant(self);
        }
        match self.index_of(object_id) {
            Some(i) => {
                proof {
                    lemma_object_map_get(self.entries@, i as int);
                }
                Some(&self.entries[i])
            },
            None => {
                proof {
                    lemma_object_map_absent(self.entries@, object_id@);
                }
                None
            },
        }
    }

    pub fn contains_key(&self, object_id: &str) -> (r: bool)
        ensures
            r == self.model().contains_key(object_id@),
    {
        self.get(object_id).is_some()
    }

    /// The records in storage order.
    pub fn records(&self) -> (r: &Vec<ManagedObjectRecord>)
        ensures
            object_map(r@) == self.model(),
            ids_unique(r@),
    {
        proof {
            use_type_invariant(self);
        }
        &self.entries
    }

    /// Record a new object under an unused Object ID.
    pub(crate) fn insert_new(&mut self, record: ManagedObjectRecord)
        requires
            !old(self).model().contains_key(record.object_id@),
        ensures
            final(self).model() == old(self).model().insert(record.object_id@, record@),
    {
        proof {
            use_type_invariant(&*self);
            lemma_object_map_keys(self.entries@, record.object_id@);
        }
        let ghost before = self.entries@;
        let mut entries = Vec::new();
        std::mem::swap(&mut entries, &mut self.entries);
        entries.push(record);
        proof {
            assert(entries@.drop_last() =~= before);
            assert forall|i: int, j: int| 0 <= i < j < entries@.len() implies (#[trigger] entries@[i]).object_id@
                != (#[trigger] entries@[j]).object_id@ by {
                if j == entries@.len() - 1 {
                    assert(entries@[i] == before[i]);
                    if before[i].object_id@ == record.object_id@ {
                        lemma_object_map_get(before, i);
                    }
                } else {
                    assert(entries@[i] == before[i] && entries@[j] == before[j]);
                }
            }
        }
        self.entries = entries;
    }

    /// Append a version to the object recorded under `object_id`.
    pub(crate) fn push_version(&mut self, object_id: &str, version: ManagedVersionRecord)
        requires
            old(self).model().contains_key(object_id@),
        ensures
            final(self).model() == old(self).model().insert(
                object_id@,
                ObjectModel { versions: old(self).model()[object_id@].versions.push(version@), ..old(self).model()[object_id@] },
            ),
    {
        proof {
            use_type_invariant(&*self);
            lemma_object_map_keys(self.entries@, object_id@);
        }
        let ghost before = self.entries@;
        let ghost vv = version@;
        let i = match self.index_of(object_id) {
            Some(i) => i,
            None => {
                proof {
                    lemma_object_map_absent(before, object_id@);
                }
                return;
            },
        };
        proof {
            lemma_object_map_get(before, i as int);
        }
        let mut entries = Vec::new();
        std::mem::swap(&mut entries, &mut self.entries);
        let mut record = entries.remove(i);
        let ghost old_record = record;
        record.versions.push(version);
        entries.insert(i, record);
        proof {
            let after = entries@;
            assert(after =~= before.update(i as int, record));
            assert(record@.versions =~= old_record@.versions.push(vv));
            assert forall|a: int, b: int| 0 <= a < b < after.len() implies (#[trigger] after[a]).object_id@
                != (#[trigger] after[b]).object_id@ by {
                assert(after[a].object_id@ == before[a].object_id@);
                assert(after[b].object_id@ == before[b].object_id@);
            }
            let expected = object_map(before).insert(
                object_id@,
                ObjectModel { versions: object_map(before)[object_id@].versions.push(vv), ..object_map(before)[object_id@] },
            );
            assert forall|k: Seq<char>| #[trigger] object_map(after).contains_key(k) <==> expected.contains_key(k) by {
                lemma_object_map_keys(after, k);
                lemma_object_map_keys(before, k);
                if expected.contains_key(k) && k != object_id@ {
                    let j = choose|j: int| 0 <= j < before.len() && (#[trigger] before[j]).object_id@ == k;
                    lemma_object_map_get(after, j);
                }
                if expected.contains_key(k) && k == object_id@ {
                    lemma_object_map_get(after, i as int);
                }
                if object_map(after).contains_key(k) {
                    let j = choose|j: int| 0 <= j < after.len() && (#[trigger] after[j]).object_id@ == k;
                    lemma_object_map_get(before, j);
                }
            }
            assert forall|k: Seq<char>| #[trigger] object_map(after).contains_key(k) implies object_map(after)[k]
                == expected[k] by {
                lemma_object_map_keys(after, k);
                let j = choose|j: int| 0 <= j < after.len() && (#[trigger] after[j]).object_id@ == k;
                lemma_object_map_get(after, j);
                lemma_object_map_get(before, j);
                if j == i {
                } else {
                    assert(after[j] == before[j]);
                }
            }
            assert(object_map(after) =~= expected);
        }
        self.entries = entries;
    }
}

impl ObjectRegistry {
    pub fn duplicate(&self) -> (r: Self)
        ensures
            r.model() == self.model(),
    {
        proof {
            use_type_invariant(self);
        }
        let mut entries: Vec<ManagedObjectRecord> = Vec::new();
        let mut i: usize = 0;
        while i < self.entries.len()
            invariant
                ids_unique(self.entries@),
                i <= self.entries@.len(),
                entries@.len() == i,
                forall|j: int| 0 <= j < i ==> (#[trigger] entries@[j])@ == self.entries@[j]@,
            decreases self.entries.len() - i,
        {
            entries.push(self.entries[i].duplicate());
            i = i + 1;
        }
        proof {
            assert forall|a: int, b: int| 0 <= a < b < entries@.len() implies (#[trigger] entries@[a]).object_id@
                != (#[trigger] entries@[b]).object_id@ by {
                assert(entries@[a]@.object_id == self.entries@[a]@.object_id);
                assert(entries@[b]@.object_id == self.entries@[b]@.object_id);
            }
            lemma_object_map_same(entries@, self.entries@);
        }
        ObjectRegistry { entries }
    }
}

impl Clone for ObjectRegistry {
    fn clone(&self) -> (r: Self)
        ensures
            r.model() == self.model(),
    {
        self.duplicate()
    }
}

/// Element-wise equal views give equal maps.
pub proof fn lemma_object_map_same(a: Seq<ManagedObjectRecord>, b: Seq<ManagedObjectRecord>)
    requires
        a.len() == b.len(),
        forall|j: int| 0 <= j < a.len() ==> (#[trigger] a[j])@ == b[j]@,
    ensures
        object_map(a) == object_map(b),
    decreases a.len(),
{
    if a.len() > 0 {
        lemma_object_map_same(a.drop_last(), b.drop_last());
        assert(a.last()@ == b.last()@);
    }
}

/// One managed repository: the reserved binding slot's recorded repository
/// identity and its Managed Objects.
#[derive(Debug, Clone, PartialEq, Eq)]
pub struct ManagedRepositoryRecord {
    pub repository_identity: GraphRepositoryIdentity,
    pub objects: ObjectRegistry,
}

pub struct RepoModel {
    pub identity: Option<(Seq<char>, Seq<char>)>,
    pub objects: Map<Seq<char>, ObjectModel>,
}

impl View for ManagedRepositoryRecord {
    type V = RepoModel;

    open spec fn view(&self) -> RepoModel {
        RepoModel { identity: identity_view(self.repository_identity), objects: self.objects.model() }
    }
}

} // verus!
