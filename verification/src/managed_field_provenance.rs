//! Immutable field-level links from a managed object version to the native
//! source assertions each of its fields was built from. Validation
//! establishes the manifest's shape, never authority or source existence.

use vstd::prelude::*;

use crate::graph::strs_view;
use crate::identifiers::{is_canonical_uuid, is_digest, is_sha256_digest, is_uuid};
use crate::sorted::{has_key, insert_sorted, lemma_one_component, sorted_by_key, Keyed};
use crate::string_set::{contains_str, insert_str, lemma_sorted_strings, lists_sorted};
use crate::text::{chars_of, seq_lt, str_eq};
use crate::visibility::{canonical_visibility, visibility_named, Visibility};

verus! {

pub const MANAGED_FIELD_PROVENANCE_SCHEMA_VERSION: &'static str = "adoc.managed_field_provenance.v0";

/// Whether every character of a JSON-pointer token after the first is
/// legal: no `/`, and each `~` escapes `0` or `1`.
pub open spec fn is_pointer_token(t: Seq<char>) -> bool {
    &&& t.len() > 0
    &&& forall|i: int| 0 <= i < t.len() ==> #[trigger] t[i] != '/'
    &&& forall|i: int|
        0 <= i < t.len() && #[trigger] t[i] == '~' ==> i + 1 < t.len() && (t[i + 1] == '0' || t[i + 1] == '1')
}

/// A field selector: `/body`, or `/fields/` and one pointer token; at most
/// 256 characters.
pub open spec fn is_selector_text(s: Seq<char>) -> bool {
    &&& s.len() <= 256
    &&& (s == "/body"@ || (s.len() >= 8 && s.subrange(0, 8) == "/fields/"@ && is_pointer_token(s.skip(8))))
}

/// Whether `selector` names a managed field.
pub fn is_selector(selector: &str) -> (r: bool)
    ensures
        r == is_selector_text(selector@),
{
    let cs = chars_of(selector);
    proof {
        reveal_strlit("/body");
        reveal_strlit("/fields/");
    }
    if cs.len() > 256 {
        return false;
    }
    if str_eq(selector, "/body") {
        return true;
    }
    if cs.len() < 8 || !(cs[0] == '/' && cs[1] == 'f' && cs[2] == 'i' && cs[3] == 'e' && cs[4] == 'l' && cs[5]
        == 'd' && cs[6] == 's' && cs[7] == '/') {
        proof {
            if cs@.len() >= 8 && cs@.subrange(0, 8) == "/fields/"@ {
                assert(cs@.subrange(0, 8)[0] == '/' && cs@.subrange(0, 8)[1] == 'f' && cs@.subrange(0, 8)[2]
                    == 'i' && cs@.subrange(0, 8)[3] == 'e' && cs@.subrange(0, 8)[4] == 'l' && cs@.subrange(0, 8)[5]
                    == 'd' && cs@.subrange(0, 8)[6] == 's' && cs@.subrange(0, 8)[7] == '/');
            }
        }
        return false;
    }
    proof {
        assert(cs@.subrange(0, 8) =~= "/fields/"@);
    }
    let ghost t = cs@.skip(8);
    if cs.len() == 8 {
        return false;
    }
    let mut i: usize = 8;
    while i < cs.len()
        invariant
            cs@ == selector@,
            cs@.len() <= 256,
            selector@ != "/body"@,
            cs@.subrange(0, 8) == "/fields/"@,
            t.len() > 0,
            t == cs@.skip(8),
            8 <= i <= cs@.len(),
            forall|j: int| 0 <= j < i - 8 ==> #[trigger] t[j] != '/',
            forall|j: int| 0 <= j < i - 8 && #[trigger] t[j] == '~' ==> j + 1 < t.len() && (t[j + 1] == '0' || t[j + 1] == '1'),
        decreases cs.len() - i,
    {
        let c = cs[i];
        if c == '/' {
            proof {
                assert(t[i - 8] == '/');
            }
            return false;
        }
        if c == '~' {
            if i + 1 >= cs.len() || !(cs[i + 1] == '0' || cs[i + 1] == '1') {
                proof {
                    assert(t[i - 8] == '~');
                }
                return false;
            }
        }
        i = i + 1;
    }
    true
}

/// One selector's contribution as given by the caller.
#[derive(Debug, Clone)]
pub struct ManagedFieldContributionInput {
    pub selector: String,
    pub assertion_ids: Vec<String>,
}

/// The unvalidated coordinates and contributions of a provenance record.
#[derive(Debug, Clone)]
pub struct ManagedFieldProvenanceInput {
    pub workspace_id: String,
    pub canonical_id: String,
    pub version_id: String,
    pub content_digest: String,
    pub fields: Vec<ManagedFieldContributionInput>,
}

/// A contribution as characters.
pub struct ContributionView {
    pub selector: Seq<char>,
    pub assertion_ids: Seq<Seq<char>>,
}

/// One validated selector and its native assertion IDs, in increasing
/// order.
#[derive(Debug, Clone, PartialEq, Eq)]
pub struct ManagedFieldContribution {
    selector: String,
    assertion_ids: Vec<String>,
}

impl View for ManagedFieldContribution {
    type V = ContributionView;

    closed spec fn view(&self) -> ContributionView {
        ContributionView { selector: self.selector@, assertion_ids: strs_view(self.assertion_ids@) }
    }
}

impl Keyed for ManagedFieldContribution {
    closed spec fn key(&self) -> Seq<Seq<char>> {
        seq![self.selector@]
    }

    fn key_less(&self, other: &Self) -> (r: bool) {
        let r = crate::text::str_lt(self.selector.as_str(), other.selector.as_str());
        proof { lemma_one_component(self.selector@, other.selector@); }
        r
    }
}

impl ManagedFieldContribution {
    pub fn selector(&self) -> (r: &str)
        ensures
            r@ == self@.selector,
    {
        self.selector.as_str()
    }

    pub fn assertion_ids(&self) -> (r: &Vec<String>)
        ensures
            strs_view(r@) == self@.assertion_ids,
    {
        &self.assertion_ids
    }
}

/// A provenance record as characters.
pub struct ProvenanceView {
    pub workspace_id: Seq<char>,
    pub canonical_id: Seq<char>,
    pub version_id: Seq<char>,
    pub content_digest: Seq<char>,
    pub fields: Seq<ContributionView>,
}

/// The validated, immutable provenance of one managed object version.
#[derive(Debug, Clone, PartialEq, Eq)]
pub struct ManagedFieldProvenance {
    schema_version: String,
    workspace_id: String,
    canonical_id: String,
    version_id: String,
    content_digest: String,
    fields: Vec<ManagedFieldContribution>,
}

impl View for ManagedFieldProvenance {
    type V = ProvenanceView;

    closed spec fn view(&self) -> ProvenanceView {
        ProvenanceView {
            workspace_id: self.workspace_id@,
            canonical_id: self.canonical_id@,
            version_id: self.version_id@,
            content_digest: self.content_digest@,
            fields: self.fields@.map_values(|f: ManagedFieldContribution| f@),
        }
    }
}

impl ManagedFieldProvenance {
    pub fn workspace_id(&self) -> (r: &str)
        ensures
            r@ == self@.workspace_id,
    {
        self.workspace_id.as_str()
    }

    pub fn canonical_id(&self) -> (r: &str)
        ensures
            r@ == self@.canonical_id,
    {
        self.canonical_id.as_str()
    }

    pub fn version_id(&self) -> (r: &str)
        ensures
            r@ == self@.version_id,
    {
        self.version_id.as_str()
    }

    pub fn content_digest(&self) -> (r: &str)
        ensures
            r@ == self@.content_digest,
    {
        self.content_digest.as_str()
    }

    pub fn fields(&self) -> (r: &Vec<ManagedFieldContribution>)
        ensures
            r@.map_values(|f: ManagedFieldContribution| f@) == self@.fields,
    {
        &self.fields
    }
}

/// Why a provenance record was refused.
#[derive(Debug, Clone, Copy, PartialEq, Eq, Structural)]
pub enum ManagedFieldProvenanceError {
    InvalidDocument,
    UnsupportedVersion,
    InvalidCoordinates,
    InvalidFields,
    InvalidVisibility,
    Serialization,
}

impl ManagedFieldProvenanceError {
    /// The explanation that `message` gives, as text.
    pub open spec fn message_text(self) -> Seq<char> {
        match self {
            Self::InvalidDocument => "Managed field provenance has an invalid closed JSON shape."@,
            Self::UnsupportedVersion => "Managed field provenance has an unsupported schema version."@,
            Self::InvalidCoordinates => "Managed field provenance requires canonical lowercase UUIDs and a lowercase SHA256 digest."@,
            Self::InvalidFields => "Managed field provenance requires 1–100 distinct valid selectors and 1–100 distinct native assertion UUIDs per selector."@,
            Self::InvalidVisibility => "Managed field provenance visibility must be public, internal, or restricted."@,
            Self::Serialization => "Managed field provenance serialization failed."@,
        }
    }

    /// The human-readable explanation.
    pub fn message(&self) -> (r: &'static str)
        ensures
            r@ == self.message_text(),
    {
        match self {
            Self::InvalidDocument => "Managed field provenance has an invalid closed JSON shape.",
            Self::UnsupportedVersion => "Managed field provenance has an unsupported schema version.",
            Self::InvalidCoordinates => "Managed field provenance requires canonical lowercase UUIDs and a lowercase SHA256 digest.",
            Self::InvalidFields => "Managed field provenance requires 1–100 distinct valid selectors and 1–100 distinct native assertion UUIDs per selector.",
            Self::InvalidVisibility => "Managed field provenance visibility must be public, internal, or restricted.",
            Self::Serialization => "Managed field provenance serialization failed.",
        }
    }
}

/// Workspace, object and version are canonical UUIDs and the content
/// digest a `sha256:` digest.
pub open spec fn coordinates_ok(input: ManagedFieldProvenanceInput) -> bool {
    &&& is_uuid(input.workspace_id@)
    &&& is_uuid(input.canonical_id@)
    &&& is_uuid(input.version_id@)
    &&& is_digest(input.content_digest@)
}

/// A valid selector with 1 to 100 distinct canonical assertion UUIDs.
pub open spec fn contribution_ok(f: ManagedFieldContributionInput) -> bool {
    &&& is_selector_text(f.selector@)
    &&& 1 <= f.assertion_ids@.len() <= 100
    &&& forall|i: int| 0 <= i < f.assertion_ids@.len() ==> is_uuid(#[trigger] f.assertion_ids@[i]@)
    &&& strs_view(f.assertion_ids@).no_duplicates()
}

/// 1 to 100 contributions, valid, with distinct selectors.
pub open spec fn fields_ok(fs: Seq<ManagedFieldContributionInput>) -> bool {
    &&& 1 <= fs.len() <= 100
    &&& forall|i: int| 0 <= i < fs.len() ==> contribution_ok(#[trigger] fs[i])
    &&& forall|i: int, j: int| 0 <= i < j < fs.len() ==> (#[trigger] fs[i]).selector@ != (#[trigger] fs[j]).selector@
}

/// `c` is `f` with its assertion IDs listed in increasing order.
pub open spec fn renders(c: ContributionView, f: ManagedFieldContributionInput) -> bool {
    &&& c.selector == f.selector@
    &&& lists_sorted(c.assertion_ids, strs_view(f.assertion_ids@).to_set())
}

pub open spec fn rendered_from(c: ContributionView, fs: Seq<ManagedFieldContributionInput>) -> bool {
    exists|j: int| 0 <= j < fs.len() && renders(c, #[trigger] fs[j])
}

pub open spec fn renders_some(out: Seq<ContributionView>, f: ManagedFieldContributionInput) -> bool {
    exists|i: int| 0 <= i < out.len() && renders(#[trigger] out[i], f)
}

/// The record's contributions: one per input contribution, in selector
/// order.
pub open spec fn contributions_of(out: Seq<ContributionView>, fs: Seq<ManagedFieldContributionInput>) -> bool {
    &&& out.len() == fs.len()
    &&& forall|i: int, j: int| 0 <= i < j < out.len() ==> seq_lt((#[trigger] out[i]).selector, (#[trigger] out[j]).selector)
    &&& forall|i: int| 0 <= i < out.len() ==> rendered_from(#[trigger] out[i], fs)
    &&& forall|j: int| 0 <= j < fs.len() ==> renders_some(out, #[trigger] fs[j])
}

/// The assertion IDs of one contribution in increasing order, or `None`
/// when one is not a canonical UUID or one repeats.
fn sorted_assertion_ids(ids: &Vec<String>) -> (r: Option<Vec<String>>)
    ensures
        r is Some <==> ((forall|i: int| 0 <= i < ids@.len() ==> is_uuid(#[trigger] ids@[i]@)) && strs_view(
            ids@,
        ).no_duplicates()),
        r matches Some(v) ==> sorted_by_key(v@) && lists_sorted(strs_view(v@), strs_view(ids@).to_set()),
{
    let mut out: Vec<String> = Vec::new();
    let mut k: usize = 0;
    while k < ids.len()
        invariant
            k <= ids@.len(),
            sorted_by_key(out@),
            forall|i: int| 0 <= i < k ==> is_uuid(#[trigger] ids@[i]@),
            strs_view(ids@.take(k as int)).no_duplicates(),
            forall|y: Seq<char>| #[trigger] strs_view(out@).contains(y) <==> strs_view(ids@.take(k as int)).contains(y),
        decreases ids.len() - k,
    {
        let ghost prefix = strs_view(ids@.take(k as int));
        proof {
            assert(strs_view(ids@.take(k + 1)) =~= prefix.push(ids@[k as int]@));
        }
        if !is_canonical_uuid(ids[k].as_str()) {
            return None;
        }
        if contains_str(&out, ids[k].as_str()) {
            proof {
                let s = strs_view(ids@);
                let j = choose|j: int| 0 <= j < prefix.len() && prefix[j] == ids@[k as int]@;
                assert(s[j] == s[k as int]);
            }
            return None;
        }
        insert_str(&mut out, ids[k].clone());
        proof {
            let p1 = prefix.push(ids@[k as int]@);
            assert forall|a: int, b: int| 0 <= a < p1.len() && 0 <= b < p1.len() && a != b implies p1[a] != p1[b] by {
                if a == k as int {
                    assert(prefix.contains(p1[b]));
                } else if b == k as int {
                    assert(prefix.contains(p1[a]));
                }
            }
            assert forall|y: Seq<char>| #[trigger] strs_view(out@).contains(y) <==> p1.contains(y) by {
                crate::string_set::lemma_push_contains(prefix, ids@[k as int]@, y);
            }
        }
        k = k + 1;
    }
    proof {
        assert(ids@.take(k as int) =~= ids@);
        lemma_sorted_strings(out@);
    }
    Some(out)
}

/// Validate and normalize one contribution.
fn contribution_from(f: &ManagedFieldContributionInput) -> (r: Option<ManagedFieldContribution>)
    ensures
        r is Some <==> contribution_ok(*f),
        r matches Some(c) ==> renders(c@, *f),
{
    if !is_selector(f.selector.as_str()) || f.assertion_ids.len() < 1 || f.assertion_ids.len() > 100 {
        return None;
    }
    match sorted_assertion_ids(&f.assertion_ids) {
        Some(ids) => Some(ManagedFieldContribution { selector: f.selector.clone(), assertion_ids: ids }),
        None => None,
    }
}

fn find_selector(out: &Vec<ManagedFieldContribution>, selector: &str) -> (r: bool)
    ensures
        r == exists|i: int| 0 <= i < out@.len() && (#[trigger] out@[i])@.selector == selector@,
{
    let mut i: usize = 0;
    while i < out.len()
        invariant
            i <= out@.len(),
            forall|j: int| 0 <= j < i ==> (#[trigger] out@[j])@.selector != selector@,
        decreases out.len() - i,
    {
        if str_eq(out[i].selector.as_str(), selector) {
            return true;
        }
        i = i + 1;
    }
    false
}

/// Validate a provenance manifest and normalize it: contributions in
/// selector order, each one's assertion IDs in increasing order.
#[verifier::rlimit(40)]
pub fn build_managed_field_provenance(input: ManagedFieldProvenanceInput) -> (r: Result<
    ManagedFieldProvenance,
    ManagedFieldProvenanceError,
>)
    ensures
        !coordinates_ok(input) ==> r == Err::<ManagedFieldProvenance, _>(ManagedFieldProvenanceError::InvalidCoordinates),
        coordinates_ok(input) && !fields_ok(input.fields@) ==> r == Err::<ManagedFieldProvenance, _>(
            ManagedFieldProvenanceError::InvalidFields,
        ),
        coordinates_ok(input) && fields_ok(input.fields@) ==> r is Ok,
        r matches Ok(p) ==> {
            &&& p@.workspace_id == input.workspace_id@
            &&& p@.canonical_id == input.canonical_id@
            &&& p@.version_id == input.version_id@
            &&& p@.content_digest == input.content_digest@
            &&& contributions_of(p@.fields, input.fields@)
        },
{
    if !is_canonical_uuid(input.workspace_id.as_str()) || !is_canonical_uuid(input.canonical_id.as_str())
        || !is_canonical_uuid(input.version_id.as_str()) || !is_sha256_digest(input.content_digest.as_str()) {
        return Err(ManagedFieldProvenanceError::InvalidCoordinates);
    }
    let n = input.fields.len();
    if n < 1 || n > 100 {
        return Err(ManagedFieldProvenanceError::InvalidFields);
    }
    let ghost fs = input.fields@;
    let mut out: Vec<ManagedFieldContribution> = Vec::new();
    let mut i: usize = 0;
    while i < input.fields.len()
        invariant
            fs == input.fields@,
            coordinates_ok(input),
            1 <= fs.len() <= 100,
            i <= fs.len(),
            sorted_by_key(out@),
            out@.len() == i,
            forall|j: int| 0 <= j < i ==> contribution_ok(#[trigger] fs[j]),
            forall|a: int, b: int| 0 <= a < b < i ==> (#[trigger] fs[a]).selector@ != (#[trigger] fs[b]).selector@,
            forall|c: int| 0 <= c < out@.len() ==> rendered_from((#[trigger] out@[c])@, fs.take(i as int)),
            forall|j: int| 0 <= j < i ==> renders_some(out@.map_values(|f: ManagedFieldContribution| f@), #[trigger] fs[j]),
        decreases fs.len() - i,
    {
        let c = match contribution_from(&input.fields[i]) {
            Some(c) => c,
            None => {
                return Err(ManagedFieldProvenanceError::InvalidFields);
            },
        };
        if find_selector(&out, input.fields[i].selector.as_str()) {
            proof {
                let k = choose|k: int| 0 <= k < out@.len() && (#[trigger] out@[k])@.selector == fs[i as int].selector@;
                let j = choose|j: int| 0 <= j < fs.take(i as int).len() && renders(out@[k]@, #[trigger] fs.take(i as int)[j]);
                assert(fs[j].selector@ == fs[i as int].selector@);
            }
            return Err(ManagedFieldProvenanceError::InvalidFields);
        }
        let ghost prev = out@;
        let ghost cv = c@;
        proof {
            assert(!has_key(prev, c.key())) by {
                if has_key(prev, c.key()) {
                    let k = choose|k: int| 0 <= k < prev.len() && #[trigger] prev[k].key() == c.key();
                    assert(prev[k].key()[0] == c.key()[0]);
                    assert(prev[k]@.selector == fs[i as int].selector@);
                }
            }
        }
        insert_sorted(&mut out, c, false);
        proof {
            let pv = prev.map_values(|f: ManagedFieldContribution| f@);
            let ov = out@.map_values(|f: ManagedFieldContribution| f@);
            assert(out@.contains(c));
            assert forall|a: int, b: int| 0 <= a < b < i + 1 implies (#[trigger] fs[a]).selector@ != (
            #[trigger] fs[b]).selector@ by {
                if b == i {
                    if fs[a].selector@ == fs[b].selector@ {
                        let k = choose|k: int| 0 <= k < pv.len() && renders(#[trigger] pv[k], fs[a]);
                        assert(prev[k]@.selector == fs[i as int].selector@);
                    }
                }
            }
            assert forall|x: int| 0 <= x < out@.len() implies rendered_from((#[trigger] out@[x])@, fs.take(i + 1)) by {
                if prev.contains(out@[x]) {
                    let k = choose|k: int| 0 <= k < prev.len() && prev[k] == out@[x];
                    let j = choose|j: int| 0 <= j < fs.take(i as int).len() && renders(prev[k]@, #[trigger] fs.take(i as int)[j]);
                    assert(fs.take(i + 1)[j] == fs.take(i as int)[j]);
                } else {
                    assert(out@[x] == c);
                    assert(fs.take(i + 1)[i as int] == fs[i as int]);
                }
            }
            assert forall|j: int| 0 <= j < i + 1 implies renders_some(ov, #[trigger] fs[j]) by {
                if j < i {
                    let k = choose|k: int| 0 <= k < pv.len() && renders(#[trigger] pv[k], fs[j]);
                    assert(out@.contains(prev[k]));
                    let x = choose|x: int| 0 <= x < out@.len() && out@[x] == prev[k];
                    assert(ov[x] == pv[k]);
                } else {
                    let x = choose|x: int| 0 <= x < out@.len() && out@[x] == c;
                    assert(ov[x] == cv);
                }
            }
        }
        i = i + 1;
    }
    proof {
        assert(fs.take(i as int) =~= fs);
        let ov = out@.map_values(|f: ManagedFieldContribution| f@);
        assert forall|a: int, b: int| 0 <= a < b < ov.len() implies seq_lt((#[trigger] ov[a]).selector, (#[trigger] ov[b]).selector) by {
            assert(crate::text::key_lt(out@[a].key(), out@[b].key()));
            lemma_one_component(out@[a]@.selector, out@[b]@.selector);
        }
    }
    Ok(ManagedFieldProvenance {
        schema_version: String::from_str(MANAGED_FIELD_PROVENANCE_SCHEMA_VERSION),
        workspace_id: input.workspace_id,
        canonical_id: input.canonical_id,
        version_id: input.version_id,
        content_digest: input.content_digest,
        fields: out,
    })
}

/// The strictest class among the authored floors and every contributor,
/// when each contributor's class is known; `Ok(None)` when there is no
/// contributor or one is unknown. Every supplied class must be canonical.
pub open spec fn strictest_visibility(
    object: Option<Seq<char>>,
    field: Option<Seq<char>>,
    contributors: Seq<Option<Seq<char>>>,
) -> Result<Option<Seq<char>>, ManagedFieldProvenanceError> {
    if supplied_classes_known(object, field, contributors) {
        if contributors.len() == 0 || exists|i: int| 0 <= i < contributors.len() && #[trigger] contributors[i] is None {
            Ok(None)
        } else {
            Ok(Some(max_visibility(floor_of(floor_of(Visibility::Public, object), field), contributors).name()))
        }
    } else {
        Err(ManagedFieldProvenanceError::InvalidVisibility)
    }
}

pub open spec fn supplied_classes_known(
    object: Option<Seq<char>>,
    field: Option<Seq<char>>,
    contributors: Seq<Option<Seq<char>>>,
) -> bool {
    &&& (object matches Some(o) ==> visibility_named(o) is Some)
    &&& (field matches Some(f) ==> visibility_named(f) is Some)
    &&& forall|i: int| 0 <= i < contributors.len() ==> ((#[trigger] contributors[i]) matches Some(c) ==> visibility_named(c) is Some)
}

pub open spec fn stricter_of(a: Visibility, b: Visibility) -> Visibility {
    if b.rank() > a.rank() {
        b
    } else {
        a
    }
}

pub open spec fn floor_of(acc: Visibility, v: Option<Seq<char>>) -> Visibility {
    match v {
        Some(s) => match visibility_named(s) {
            Some(x) => stricter_of(acc, x),
            None => acc,
        },
        None => acc,
    }
}

pub open spec fn max_visibility(acc: Visibility, contributors: Seq<Option<Seq<char>>>) -> Visibility
    decreases contributors.len(),
{
    if contributors.len() == 0 {
        acc
    } else {
        floor_of(max_visibility(acc, contributors.drop_last()), contributors.last())
    }
}

pub open spec fn opt_str_view(o: Option<&str>) -> Option<Seq<char>> {
    match o {
        Some(s) => Some(s@),
        None => None,
    }
}

/// Fold one optional class into the running strictest class.
fn fold_class(acc: Visibility, value: Option<&str>) -> (r: Option<Visibility>)
    ensures
        r is Some <==> (opt_str_view(value) matches Some(s) ==> visibility_named(s) is Some),
        r matches Some(v) ==> v == floor_of(acc, opt_str_view(value)),
{
    match value {
        Some(s) => match canonical_visibility(s) {
            Some(v) => Some(acc.stricter(v)),
            None => None,
        },
        None => Some(acc),
    }
}

/// The strictest visibility a managed field may carry given its object
/// and field floors (default public) and the classes of the snapshots
/// contributing to it. Missing contributor evidence leaves it unresolved,
/// never public.
pub fn strictest_contributing_visibility(object: Option<&str>, field: Option<&str>, contributors: &[Option<&str>]) -> (r:
    Result<Option<String>, ManagedFieldProvenanceError>)
    ensures
        match r {
            Ok(Some(s)) => strictest_visibility(opt_str_view(object), opt_str_view(field), contributors@.map_values(
                |c: Option<&str>| opt_str_view(c),
            )) == Ok::<Option<Seq<char>>, ManagedFieldProvenanceError>(Some(s@)),
            Ok(None) => strictest_visibility(opt_str_view(object), opt_str_view(field), contributors@.map_values(
                |c: Option<&str>| opt_str_view(c),
            )) == Ok::<Option<Seq<char>>, ManagedFieldProvenanceError>(None),
            Err(e) => strictest_visibility(opt_str_view(object), opt_str_view(field), contributors@.map_values(
                |c: Option<&str>| opt_str_view(c),
            )) == Err::<Option<Seq<char>>, ManagedFieldProvenanceError>(e),
        },
{
    let ghost cs = contributors@.map_values(|c: Option<&str>| opt_str_view(c));
    let mut strictest = match fold_class(Visibility::Public, object) {
        Some(v) => v,
        None => {
            return Err(ManagedFieldProvenanceError::InvalidVisibility);
        },
    };
    strictest = match fold_class(strictest, field) {
        Some(v) => v,
        None => {
            return Err(ManagedFieldProvenanceError::InvalidVisibility);
        },
    };
    let ghost base = strictest;
    let mut unresolved = contributors.len() == 0;
    let mut i: usize = 0;
    while i < contributors.len()
        invariant
            cs == contributors@.map_values(|c: Option<&str>| opt_str_view(c)),
            i <= contributors@.len(),
            forall|j: int| 0 <= j < i ==> ((#[trigger] cs[j]) matches Some(c) ==> visibility_named(c) is Some),
            strictest == max_visibility(base, cs.take(i as int)),
            unresolved == (contributors@.len() == 0 || exists|j: int| 0 <= j < i && #[trigger] cs[j] is None),
        decreases contributors.len() - i,
    {
        proof {
            assert(cs.take(i + 1).drop_last() =~= cs.take(i as int));
            assert(cs.take(i + 1).last() == cs[i as int]);
        }
        match contributors[i] {
            Some(value) => match canonical_visibility(value) {
                Some(v) => {
                    strictest = strictest.stricter(v);
                },
                None => {
                    proof {
                        assert(!supplied_classes_known(opt_str_view(object), opt_str_view(field), cs)) by {
                            assert(cs[i as int] == Some(value@));
                        }
                    }
                    return Err(ManagedFieldProvenanceError::InvalidVisibility);
                },
            },
            None => {
                unresolved = true;
                proof {
                    assert(cs[i as int] is None);
                }
            },
        }
        i = i + 1;
    }
    proof {
        assert(cs.take(i as int) =~= cs);
    }
    if unresolved {
        Ok(None)
    } else {
        Ok(Some(String::from_str(strictest.as_str())))
    }
}

/// A provenance document as read: its schema version and its contents.
pub struct ManagedFieldProvenanceDocument {
    pub schema_version: String,
    pub input: ManagedFieldProvenanceInput,
}

/// Validate a provenance document. `None` stands for bytes that are not a
/// closed JSON object whose `fields` are objects; a document of another
/// schema version is refused; otherwise the record is built from its
/// contents.
pub fn validate_managed_field_provenance(document: Option<ManagedFieldProvenanceDocument>) -> (r: Result<
    ManagedFieldProvenance,
    ManagedFieldProvenanceError,
>)
    ensures
        document is None ==> r == Err::<ManagedFieldProvenance, _>(ManagedFieldProvenanceError::InvalidDocument),
        document is Some && document->0.schema_version@ != MANAGED_FIELD_PROVENANCE_SCHEMA_VERSION@ ==> r == Err::<
            ManagedFieldProvenance,
            _,
        >(ManagedFieldProvenanceError::UnsupportedVersion),
        document is Some && document->0.schema_version@ == MANAGED_FIELD_PROVENANCE_SCHEMA_VERSION@ ==> {
            &&& !coordinates_ok(document->0.input) ==> r == Err::<ManagedFieldProvenance, _>(
                ManagedFieldProvenanceError::InvalidCoordinates,
            )
            &&& coordinates_ok(document->0.input) && !fields_ok(document->0.input.fields@) ==> r == Err::<ManagedFieldProvenance, _>(
                ManagedFieldProvenanceError::InvalidFields,
            )
            &&& coordinates_ok(document->0.input) && fields_ok(document->0.input.fields@) ==> r is Ok
            &&& r matches Ok(p) ==> {
                &&& p@.workspace_id == document->0.input.workspace_id@
                &&& p@.canonical_id == document->0.input.canonical_id@
                &&& p@.version_id == document->0.input.version_id@
                &&& p@.content_digest == document->0.input.content_digest@
                &&& contributions_of(p@.fields, document->0.input.fields@)
            }
        },
{
    match document {
        None => Err(ManagedFieldProvenanceError::InvalidDocument),
        Some(d) => {
            if !str_eq(d.schema_version.as_str(), MANAGED_FIELD_PROVENANCE_SCHEMA_VERSION) {
                Err(ManagedFieldProvenanceError::UnsupportedVersion)
            } else {
                build_managed_field_provenance(d.input)
            }
        },
    }
}

} // verus!
