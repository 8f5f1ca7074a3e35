//! The project configuration document: schema version and mode, the docs
//! path, optional output locations, the embeddings provider, the MCP
//! patch-apply switch and the assessment exclusions.
//!
//! The document's fields arrive already read into [`RawProjectConfig`];
//! [`validate_project_config`] decides whether they form a configuration
//! and what it is.

use vstd::prelude::*;

use crate::graph::{clone_opt_string, opt_view, strs_view};
use crate::logical_path::{is_logical_path, LogicalPath};
use crate::migration::{char_is_control, is_control};
use crate::sorted::sorted_by_key;
use crate::string_set::{insert_str, lemma_lists_sorted_unique, lemma_sorted_strings, lists_sorted, sorted_elems};
use crate::text::{
    append_decimal, chars_of, decimal, is_empty_or_padded, lemma_seq_lt_irreflexive, lemma_seq_lt_skip,
    lemma_seq_lt_transitive, occurs_at, owned, seq_lt, str_eq, str_is_empty_or_padded, str_starts_with,
};

verus! {

broadcast use vstd::string::group_string_axioms;

/// The `Debug` rendering of a string: the characters in double quotes, with
/// quotes, backslashes and non-printable characters escaped.
pub uninterp spec fn debug_quoted(s: Seq<char>) -> Seq<char>;

/// `format!("{:?}", s)`: the `Debug` rendering of `s`, as `str`'s `Debug`
/// impl writes it. The contract names the result and states nothing else.
#[verifier::external_body]
fn debug_str(s: &str) -> (r: String)
    ensures
        r@ == debug_quoted(s@),
{
    format!("{:?}", s)
}

/// The `outputs` section as written.
pub struct RawOutputs {
    pub dir: Option<String>,
    pub html: Option<String>,
    pub graph: Option<String>,
    pub search: Option<String>,
}

/// The configuration document's fields as read, before validation:
/// `embeddings.provider`, `mcp.patch_apply` and
/// `assessment.exclude_paths` are flattened, an absent list being empty.
pub struct RawProjectConfig {
    pub version: u32,
    pub mode: String,
    pub docs_path: String,
    pub outputs: Option<RawOutputs>,
    pub embeddings_provider: Option<String>,
    pub mcp_patch_apply: Option<String>,
    pub assessment_exclude_paths: Vec<String>,
}

/// The output locations of a validated configuration.
pub struct ParsedConfigOutputs {
    pub dir: Option<String>,
    pub html: Option<String>,
    pub graph: Option<String>,
    pub search: Option<String>,
}

/// Which embeddings provider the project uses.
#[derive(Debug, Clone, Copy, PartialEq, Eq, Structural)]
pub enum EmbeddingsProvider {
    Local,
    Deterministic,
    NoProvider,
}

/// A validated project configuration.
pub struct ParsedProjectConfig {
    pub docs_path: String,
    pub outputs: ParsedConfigOutputs,
    pub embeddings_provider: EmbeddingsProvider,
    pub mcp_patch_apply_enabled: bool,
    pub assessment_exclude_paths: Vec<String>,
}

/// Why a configuration document was refused.
#[derive(Debug)]
pub enum ProjectConfigDocumentError {
    /// The document could not be read; the reader's message.
    Parse(String),
    Invalid(String),
    InvalidAssessmentPath { entry: String },
}

/// An error with its text taken by characters.
pub ghost enum ConfigErrorView {
    Parse(Seq<char>),
    Invalid(Seq<char>),
    InvalidAssessmentPath(Seq<char>),
}

impl View for ProjectConfigDocumentError {
    type V = ConfigErrorView;

    open spec fn view(&self) -> ConfigErrorView {
        match self {
            ProjectConfigDocumentError::Parse(m) => ConfigErrorView::Parse(m@),
            ProjectConfigDocumentError::Invalid(m) => ConfigErrorView::Invalid(m@),
            ProjectConfigDocumentError::InvalidAssessmentPath { entry } => ConfigErrorView::InvalidAssessmentPath(
                entry@,
            ),
        }
    }
}

pub open spec fn assessment_path_message(entry: Seq<char>) -> Seq<char> {
    "assessment.exclude_paths entry "@ + debug_quoted(entry)
        + " must be an exact portable project-relative file or a directory prefix ending in `/`"@
}

impl ProjectConfigDocumentError {
    /// The message shown for the error.
    pub fn to_display_string(&self) -> (r: String)
        ensures
            r@ == match self@ {
                ConfigErrorView::Parse(m) => m,
                ConfigErrorView::Invalid(m) => m,
                ConfigErrorView::InvalidAssessmentPath(e) => assessment_path_message(e),
            },
    {
        match self {
            ProjectConfigDocumentError::Parse(m) => m.clone(),
            ProjectConfigDocumentError::Invalid(m) => m.clone(),
            ProjectConfigDocumentError::InvalidAssessmentPath { entry } => {
                let mut m = owned("assessment.exclude_paths entry ");
                let q = debug_str(entry.as_str());
                m.append(q.as_str());
                m.append(" must be an exact portable project-relative file or a directory prefix ending in `/`");
                m
            },
        }
    }
}

// ---- the docs path ----

/// The path `.` as `Path` compares paths, by components: a leading `.`
/// followed only by further `.` components and separators.
pub open spec fn is_current_dir(s: Seq<char>) -> bool {
    &&& s.len() > 0
    &&& s[0] == '.'
    &&& forall|i: int| 0 <= i < s.len() ==> #[trigger] s[i] == '.' || s[i] == '/'
    &&& forall|i: int| 0 <= i < s.len() - 1 && #[trigger] s[i] == '.' ==> s[i + 1] == '/'
}

/// The docs path is the project root or a portable project-relative path.
pub open spec fn is_portable_docs_path(s: Seq<char>) -> bool {
    is_current_dir(s) || is_logical_path(s)
}

fn current_dir(s: &str) -> (r: bool)
    ensures
        r == is_current_dir(s@),
{
    let cs = chars_of(s);
    let n = cs.len();
    if n == 0 || cs[0] != '.' {
        return false;
    }
    let mut i: usize = 0;
    while i < n
        invariant
            cs@ == s@,
            n == cs@.len(),
            i <= n,
            forall|j: int| 0 <= j < i ==> #[trigger] cs@[j] == '.' || cs@[j] == '/',
            forall|j: int| 0 <= j < i && j < n - 1 && #[trigger] cs@[j] == '.' ==> cs@[j + 1] == '/',
        decreases n - i,
    {
        if cs[i] != '.' && cs[i] != '/' {
            return false;
        }
        if cs[i] == '.' && i + 1 < n && cs[i + 1] != '/' {
            return false;
        }
        i = i + 1;
    }
    true
}

fn portable_docs_path(s: &str) -> (r: bool)
    ensures
        r == is_portable_docs_path(s@),
{
    current_dir(s) || LogicalPath::parse(s).is_ok()
}

// ---- assessment exclusions ----

/// The entry with one trailing `/` removed.
pub open spec fn strip_dir_slash(s: Seq<char>) -> Seq<char> {
    if s.len() > 0 && s.last() == '/' {
        s.drop_last()
    } else {
        s
    }
}

/// The second byte of the entry is `:`, as in a drive prefix `C:`.
pub open spec fn has_drive_colon(s: Seq<char>) -> bool {
    s.len() >= 2 && (s[0] as u32) < 0x80 && s[1] == ':'
}

/// An exclusion names one portable project-relative file, or a directory
/// prefix when it ends in `/`.
pub open spec fn is_exclusion_entry(s: Seq<char>) -> bool {
    &&& !is_empty_or_padded(s)
    &&& s != seq!['.']
    &&& s[0] != '/'
    &&& !has_drive_colon(s)
    &&& forall|i: int| 0 <= i < s.len() ==> #[trigger] s[i] != '\\' && !is_control(s[i])
    &&& strip_dir_slash(s).len() > 0
    &&& is_logical_path(strip_dir_slash(s))
}

/// `entries[i]` is the first entry that is not a valid exclusion.
pub open spec fn first_invalid_at(entries: Seq<Seq<char>>, i: int) -> bool {
    &&& 0 <= i < entries.len()
    &&& !is_exclusion_entry(entries[i])
    &&& forall|j: int| 0 <= j < i ==> is_exclusion_entry(#[trigger] entries[j])
}

/// `parent` is a directory prefix that covers the distinct entry `entry`.
pub open spec fn shadows(parent: Seq<char>, entry: Seq<char>) -> bool {
    &&& parent.len() > 0
    &&& parent.last() == '/'
    &&& parent != entry
    &&& occurs_at(entry, parent, 0)
}

/// Some member of `all` is a directory prefix covering `entry`.
pub open spec fn shadowed_in(all: Set<Seq<char>>, entry: Seq<char>) -> bool {
    exists|p: Seq<char>| all.contains(p) && #[trigger] shadows(p, entry)
}

/// The distinct entries in increasing order, without those a listed
/// directory prefix already covers.
pub open spec fn kept_exclusions(entries: Seq<Seq<char>>) -> Seq<Seq<char>> {
    sorted_elems(entries.to_set()).filter(not_shadowed(entries.to_set()))
}

/// The test that an entry is not covered by a member of `all`.
pub open spec fn not_shadowed(all: Set<Seq<char>>) -> spec_fn(Seq<char>) -> bool {
    |e: Seq<char>| !shadowed_in(all, e)
}

fn exclusion_entry_ok(entry: &str) -> (r: bool)
    ensures
        r == is_exclusion_entry(entry@),
{
    let cs = chars_of(entry);
    let n = cs.len();
    if str_is_empty_or_padded(entry) {
        return false;
    }
    if n == 1 && cs[0] == '.' {
        proof {
            assert(entry@ =~= seq!['.']);
        }
        return false;
    }
    if cs[0] == '/' {
        return false;
    }
    if n >= 2 && (cs[0] as u32) < 0x80 && cs[1] == ':' {
        return false;
    }
    let mut i: usize = 0;
    while i < n
        invariant
            cs@ == entry@,
            n == cs@.len(),
            i <= n,
            forall|j: int| 0 <= j < i ==> #[trigger] cs@[j] != '\\' && !is_control(cs@[j]),
        decreases n - i,
    {
        if cs[i] == '\\' || char_is_control(cs[i]) {
            return false;
        }
        i = i + 1;
    }
    proof {
        if n == 1 {
            assert(entry@ != seq!['.']) by {
                if entry@ == seq!['.'] {
                    assert(entry@[0] == '.');
                }
            }
        }
    }
    let logical: &str = if cs[n - 1] == '/' {
        entry.substring_char(0, n - 1)
    } else {
        entry
    };
    proof {
        assert(logical@ == strip_dir_slash(entry@));
    }
    if n - 1 == 0 && cs[n - 1] == '/' {
        return false;
    }
    LogicalPath::parse(logical).is_ok()
}

/// Whether an element of `kept` ending in `/` is a prefix of `entry`.
fn covered_by(kept: &Vec<String>, entry: &str) -> (r: bool)
    ensures
        r == exists|m: int|
            0 <= m < kept@.len() && (#[trigger] kept@[m])@.len() > 0 && kept@[m]@.last() == '/' && occurs_at(
                entry@,
                kept@[m]@,
                0,
            ),
{
    let mut m: usize = 0;
    while m < kept.len()
        invariant
            m <= kept@.len(),
            forall|k: int|
                0 <= k < m ==> !((#[trigger] kept@[k])@.len() > 0 && kept@[k]@.last() == '/' && occurs_at(
                    entry@,
                    kept@[k]@,
                    0,
                )),
        decreases kept.len() - m,
    {
        let p = kept[m].as_str();
        let pc = chars_of(p);
        if pc.len() > 0 && pc[pc.len() - 1] == '/' && str_starts_with(entry, p) {
            return true;
        }
        m = m + 1;
    }
    false
}

/// A proper prefix orders before the string it starts.
proof fn lemma_prefix_lt(p: Seq<char>, e: Seq<char>)
    requires
        occurs_at(e, p, 0),
        p != e,
    ensures
        seq_lt(p, e),
{
    assert(e.subrange(0, p.len() as int) == p);
    if p.len() == e.len() {
        assert(p =~= e);
    }
    assert(p.take(p.len() as int) =~= e.take(p.len() as int));
    lemma_seq_lt_skip(p, e, p.len() as int);
    assert(p.skip(p.len() as int).len() == 0);
}

/// Covering is transitive.
proof fn lemma_shadows_transitive(a: Seq<char>, b: Seq<char>, c: Seq<char>)
    requires
        shadows(a, b),
        shadows(b, c),
    ensures
        shadows(a, c),
{
    assert(c.subrange(0, b.len() as int) == b);
    assert(b.subrange(0, a.len() as int) == a);
    assert(c.subrange(0, a.len() as int) =~= a) by {
        assert forall|k: int| 0 <= k < a.len() implies c.subrange(0, a.len() as int)[k] == a[k] by {
            assert(c[k] == b[k]);
            assert(b[k] == a[k]);
        }
    }
    if a == c {
        assert(a.len() < b.len() || a == b) by {
            if a.len() >= b.len() {
                assert(b.len() <= a.len());
            }
        }
    }
}

/// Validate and normalize the assessment exclusions: each entry must be a
/// portable relative file or directory prefix; the result lists the
/// distinct entries in order, without those a listed directory prefix
/// already covers.
pub fn normalize_assessment_exclusions(entries: Vec<String>) -> (r: Result<
    Vec<String>,
    ProjectConfigDocumentError,
>)
    ensures
        r is Ok <==> forall|i: int| 0 <= i < entries@.len() ==> is_exclusion_entry(#[trigger] entries@[i]@),
        r matches Err(e) ==> exists|i: int|
            first_invalid_at(strs_view(entries@), i) && e@ == ConfigErrorView::InvalidAssessmentPath(
                entries@[i]@,
            ),
        r matches Ok(v) ==> strs_view(v@) == kept_exclusions(strs_view(entries@)),
{
    let ghost ev = strs_view(entries@);
    let mut i: usize = 0;
    while i < entries.len()
        invariant
            i <= entries@.len(),
            ev == strs_view(entries@),
            forall|j: int| 0 <= j < i ==> is_exclusion_entry(#[trigger] entries@[j]@),
        decreases entries.len() - i,
    {
        if !exclusion_entry_ok(entries[i].as_str()) {
            proof {
                assert forall|j: int| 0 <= j < i implies is_exclusion_entry(#[trigger] ev[j]) by {
                    assert(ev[j] == entries@[j]@);
                }
                assert(first_invalid_at(ev, i as int));
            }
            return Err(ProjectConfigDocumentError::InvalidAssessmentPath { entry: entries[i].clone() });
        }
        i = i + 1;
    }
    // the distinct entries in increasing order
    let mut set: Vec<String> = Vec::new();
    let mut k: usize = 0;
    while k < entries.len()
        invariant
            k <= entries@.len(),
            ev == strs_view(entries@),
            sorted_by_key(set@),
            forall|y: Seq<char>| #[trigger] strs_view(set@).contains(y) <==> ev.take(k as int).contains(y),
        decreases entries.len() - k,
    {
        let ghost before = set@;
        insert_str(&mut set, entries[k].clone());
        proof {
            let next = ev.take(k + 1);
            assert(next =~= ev.take(k as int).push(ev[k as int]));
            assert(ev[k as int] == entries@[k as int]@);
            assert forall|y: Seq<char>| #[trigger] strs_view(set@).contains(y) <==> next.contains(y) by {
                if strs_view(before).contains(y) {
                    assert(ev.take(k as int).contains(y));
                    let t = choose|t: int| 0 <= t < k && ev.take(k as int)[t] == y;
                    assert(next[t] == y);
                }
                if y == ev[k as int] {
                    assert(next[k as int] == y);
                }
                if next.contains(y) {
                    let t = choose|t: int| 0 <= t < next.len() && next[t] == y;
                    if t < k {
                        assert(ev.take(k as int)[t] == y);
                        assert(ev.take(k as int).contains(y));
                    }
                }
            }
        }
        k = k + 1;
    }
    let ghost all = ev.to_set();
    let ghost sv = strs_view(set@);
    proof {
        assert(ev.take(entries@.len() as int) =~= ev);
        lemma_sorted_strings(set@);
        assert forall|x: Seq<char>| #[trigger] sv.contains(x) <==> all.contains(x) by {}
        assert(lists_sorted(sv, all));
        lemma_lists_sorted_unique(sv, sorted_elems(all), all);
    }
    // drop the entries a kept directory prefix covers
    let ghost pred = not_shadowed(all);
    let mut kept: Vec<String> = Vec::new();
    let mut j: usize = 0;
    while j < set.len()
        invariant
            j <= set@.len(),
            sv == strs_view(set@),
            lists_sorted(sv, all),
            pred == not_shadowed(all),
            strs_view(kept@) == sv.take(j as int).filter(pred),
            forall|t: int|
                0 <= t < j ==> strs_view(kept@).contains(#[trigger] sv[t]) || exists|m: int|
                    0 <= m < kept@.len() && shadows(#[trigger] kept@[m]@, sv[t]),
        decreases set.len() - j,
    {
        let e = set[j].as_str();
        let ghost ej = sv[j as int];
        let covered = covered_by(&kept, e);
        proof {
            assert(e@ == ej);
            sv.take(j as int).filter_lemma(pred);
            assert forall|m: int| 0 <= m < kept@.len() implies sv.take(j as int).contains(#[trigger] kept@[m]@) by {
                assert(strs_view(kept@)[m] == kept@[m]@);
                assert(sv.take(j as int).filter(pred)[m] == kept@[m]@);
                assert(sv.take(j as int).filter(pred).contains(kept@[m]@));
                sv.take(j as int).lemma_filter_contains_rev(pred, kept@[m]@);
            }
            if covered {
                let m = choose|m: int|
                    0 <= m < kept@.len() && (#[trigger] kept@[m])@.len() > 0 && kept@[m]@.last() == '/'
                        && occurs_at(e@, kept@[m]@, 0);
                let p = kept@[m]@;
                assert(sv.take(j as int).contains(p));
                let t = choose|t: int| 0 <= t < j && sv.take(j as int)[t] == p;
                assert(sv[t] == p);
                assert(seq_lt(sv[t], sv[j as int]));
                if p == ej {
                    lemma_seq_lt_irreflexive(p);
                }
                assert(shadows(p, ej));
                assert(sv.contains(p));
                assert(all.contains(p));
                assert(shadowed_in(all, ej));
            } else {
                if shadowed_in(all, ej) {
                    let p = choose|p: Seq<char>| all.contains(p) && #[trigger] shadows(p, ej);
                    lemma_prefix_lt(p, ej);
                    assert(sv.contains(p));
                    let t = choose|t: int| 0 <= t < sv.len() && sv[t] == p;
                    if t >= j {
                        if t == j {
                            lemma_seq_lt_irreflexive(p);
                        } else {
                            assert(seq_lt(sv[j as int], sv[t]));
                            lemma_seq_lt_transitive(p, ej, p);
                            lemma_seq_lt_irreflexive(p);
                        }
                    }
                    assert(t < j);
                    if strs_view(kept@).contains(sv[t]) {
                        let m = choose|m: int| 0 <= m < strs_view(kept@).len() && strs_view(kept@)[m] == sv[t];
                        assert(kept@[m]@ == p);
                    } else {
                        let m = choose|m: int| 0 <= m < kept@.len() && shadows(#[trigger] kept@[m]@, sv[t]);
                        lemma_shadows_transitive(kept@[m]@, p, ej);
                    }
                    assert(false);
                }
            }
            assert(sv.take(j + 1) =~= sv.take(j as int).push(ej));
            sv.take(j as int).lemma_filter_push(ej, pred);
        }
        let ghost old_kept = kept@;
        if !covered {
            kept.push(set[j].clone());
            proof {
                assert(strs_view(kept@) =~= strs_view(kept@.drop_last()).push(ej));
                assert(kept@.drop_last() =~= kept@.subrange(0, kept@.len() - 1));
            }
        }
        proof {
            assert forall|t: int|
                0 <= t < j + 1 implies strs_view(kept@).contains(#[trigger] sv[t]) || exists|m: int|
                0 <= m < kept@.len() && shadows(#[trigger] kept@[m]@, sv[t]) by {
                if t == j {
                    if !covered {
                        assert(strs_view(kept@)[kept@.len() - 1] == sv[t]);
                    } else {
                        let m = choose|m: int|
                            0 <= m < kept@.len() && (#[trigger] kept@[m])@.len() > 0 && kept@[m]@.last()
                                == '/' && occurs_at(e@, kept@[m]@, 0);
                        let p = kept@[m]@;
                        assert(sv.take(j as int).contains(p));
                        let u = choose|u: int| 0 <= u < j && sv.take(j as int)[u] == p;
                        assert(seq_lt(sv[u], sv[j as int]));
                        if p == ej {
                            lemma_seq_lt_irreflexive(p);
                        }
                        assert(shadows(kept@[m]@, sv[t]));
                    }
                } else if strs_view(old_kept).contains(sv[t]) {
                    let m = choose|m: int| 0 <= m < strs_view(old_kept).len() && strs_view(old_kept)[m] == sv[t];
                    assert(kept@[m] == old_kept[m]);
                    assert(strs_view(kept@)[m] == sv[t]);
                } else {
                    let m = choose|m: int| 0 <= m < old_kept.len() && shadows(#[trigger] old_kept[m]@, sv[t]);
                    assert(kept@[m] == old_kept[m]);
                    assert(shadows(kept@[m]@, sv[t]));
                }
            }
        }
        j = j + 1;
    }
    proof {
        assert(sv.take(set@.len() as int) =~= sv);
    }
    Ok(kept)
}

// ---- the whole document ----

pub open spec fn version_message(version: nat) -> Seq<char> {
    "unsupported version "@ + decimal(version) + "; expected 1"@
}

pub open spec fn mode_message(mode: Seq<char>) -> Seq<char> {
    "unsupported mode "@ + debug_quoted(mode) + "; expected \"strict\""@
}

pub open spec fn docs_path_message() -> Seq<char> {
    "docs_path must be a portable project-relative path"@
}

pub open spec fn provider_message(provider: Seq<char>) -> Seq<char> {
    "unsupported embeddings provider "@ + debug_quoted(provider)
        + "; expected \"local\", \"deterministic\", or \"none\""@
}

pub open spec fn patch_apply_message(value: Seq<char>) -> Seq<char> {
    "unsupported mcp.patch_apply "@ + debug_quoted(value) + "; expected \"enabled\" or \"disabled\""@
}

/// The provider a setting names.
pub open spec fn provider_named(s: Seq<char>) -> Option<EmbeddingsProvider> {
    if s == "local"@ {
        Some(EmbeddingsProvider::Local)
    } else if s == "deterministic"@ {
        Some(EmbeddingsProvider::Deterministic)
    } else if s == "none"@ {
        Some(EmbeddingsProvider::NoProvider)
    } else {
        None
    }
}

/// The first rule the document breaks, in the order they are checked.
pub open spec fn config_error(raw: RawProjectConfig) -> Option<ConfigErrorView> {
    let exclusions = strs_view(raw.assessment_exclude_paths@);
    if raw.version != 1 {
        Some(ConfigErrorView::Invalid(version_message(raw.version as nat)))
    } else if raw.mode@ != "strict"@ {
        Some(ConfigErrorView::Invalid(mode_message(raw.mode@)))
    } else if !is_portable_docs_path(raw.docs_path@) {
        Some(ConfigErrorView::Invalid(docs_path_message()))
    } else if raw.embeddings_provider matches Some(p) && provider_named(p@) is None {
        Some(ConfigErrorView::Invalid(provider_message(raw.embeddings_provider->0@)))
    } else if raw.mcp_patch_apply matches Some(v) && v@ != "enabled"@ && v@ != "disabled"@ {
        Some(ConfigErrorView::Invalid(patch_apply_message(raw.mcp_patch_apply->0@)))
    } else if exists|i: int| first_invalid_at(exclusions, i) {
        Some(ConfigErrorView::InvalidAssessmentPath(exclusions[choose|i: int| first_invalid_at(exclusions, i)]))
    } else {
        None
    }
}

/// The provider of a valid document: the one named, `local` when unset.
pub open spec fn chosen_provider(raw: RawProjectConfig) -> EmbeddingsProvider {
    match raw.embeddings_provider {
        Some(p) => provider_named(p@)->0,
        None => EmbeddingsProvider::Local,
    }
}

/// The outputs of a valid document: those written, none when the section
/// is absent.
pub open spec fn outputs_match(raw: RawProjectConfig, out: ParsedConfigOutputs) -> bool {
    match raw.outputs {
        Some(o) => {
            &&& opt_view(out.dir) == opt_view(o.dir)
            &&& opt_view(out.html) == opt_view(o.html)
            &&& opt_view(out.graph) == opt_view(o.graph)
            &&& opt_view(out.search) == opt_view(o.search)
        },
        None => out.dir is None && out.html is None && out.graph is None && out.search is None,
    }
}

proof fn lemma_first_invalid_unique(s: Seq<Seq<char>>, i: int, j: int)
    requires
        first_invalid_at(s, i),
        first_invalid_at(s, j),
    ensures
        i == j,
{
    if i < j {
        assert(is_exclusion_entry(s[i]));
    } else if j < i {
        assert(is_exclusion_entry(s[j]));
    }
}

fn message_with(prefix: &str, value: &str, suffix: &str) -> (r: String)
    ensures
        r@ == prefix@ + debug_quoted(value@) + suffix@,
{
    let mut m = owned(prefix);
    let q = debug_str(value);
    m.append(q.as_str());
    m.append(suffix);
    m
}

/// Validate the document's fields: version `1`, mode `strict`, a portable
/// docs path, a known embeddings provider (`local` when unset), a known
/// patch-apply setting (disabled when unset) and valid assessment
/// exclusions, normalized.
pub fn validate_project_config(raw: RawProjectConfig) -> (r: Result<
    ParsedProjectConfig,
    ProjectConfigDocumentError,
>)
    ensures
        r is Err <==> config_error(raw) is Some,
        r matches Err(e) ==> config_error(raw) == Some(e@),
        r matches Ok(p) ==> {
            &&& p.docs_path@ == raw.docs_path@
            &&& outputs_match(raw, p.outputs)
            &&& p.embeddings_provider == chosen_provider(raw)
            &&& p.mcp_patch_apply_enabled == (raw.mcp_patch_apply matches Some(v) && v@ == "enabled"@)
            &&& strs_view(p.assessment_exclude_paths@) == kept_exclusions(strs_view(raw.assessment_exclude_paths@))
        },
{
    let ghost exclusions = strs_view(raw.assessment_exclude_paths@);
    let ghost excluded = raw.assessment_exclude_paths@;
    if raw.version != 1 {
        let mut m = owned("unsupported version ");
        append_decimal(&mut m, raw.version as u64);
        m.append("; expected 1");
        return Err(ProjectConfigDocumentError::Invalid(m));
    }
    if !str_eq(raw.mode.as_str(), "strict") {
        return Err(
            ProjectConfigDocumentError::Invalid(
                message_with("unsupported mode ", raw.mode.as_str(), "; expected \"strict\""),
            ),
        );
    }
    if !portable_docs_path(raw.docs_path.as_str()) {
        return Err(ProjectConfigDocumentError::Invalid(owned("docs_path must be a portable project-relative path")));
    }
    let embeddings_provider = match &raw.embeddings_provider {
        Some(p) => {
            if str_eq(p.as_str(), "local") {
                EmbeddingsProvider::Local
            } else if str_eq(p.as_str(), "deterministic") {
                EmbeddingsProvider::Deterministic
            } else if str_eq(p.as_str(), "none") {
                EmbeddingsProvider::NoProvider
            } else {
                return Err(
                    ProjectConfigDocumentError::Invalid(
                        message_with(
                            "unsupported embeddings provider ",
                            p.as_str(),
                            "; expected \"local\", \"deterministic\", or \"none\"",
                        ),
                    ),
                );
            }
        },
        None => EmbeddingsProvider::Local,
    };
    let mcp_patch_apply_enabled = match &raw.mcp_patch_apply {
        Some(v) => {
            if str_eq(v.as_str(), "enabled") {
                true
            } else if str_eq(v.as_str(), "disabled") {
                false
            } else {
                return Err(
                    ProjectConfigDocumentError::Invalid(
                        message_with(
                            "unsupported mcp.patch_apply ",
                            v.as_str(),
                            "; expected \"enabled\" or \"disabled\"",
                        ),
                    ),
                );
            }
        },
        None => false,
    };
    let outputs = match &raw.outputs {
        Some(o) => ParsedConfigOutputs {
            dir: clone_opt_string(&o.dir),
            html: clone_opt_string(&o.html),
            graph: clone_opt_string(&o.graph),
            search: clone_opt_string(&o.search),
        },
        None => ParsedConfigOutputs { dir: None, html: None, graph: None, search: None },
    };
    let docs_path = raw.docs_path.clone();
    let normalized = normalize_assessment_exclusions(raw.assessment_exclude_paths);
    match normalized {
        Err(e) => {
            proof {
                let i = choose|i: int|
                    first_invalid_at(exclusions, i) && e@ == ConfigErrorView::InvalidAssessmentPath(
                        excluded[i]@,
                    );
                let c = choose|c: int| first_invalid_at(exclusions, c);
                lemma_first_invalid_unique(exclusions, i, c);
                assert(exclusions[i] == excluded[i]@);
            }
            Err(e)
        },
        Ok(paths) => {
            proof {
                if exists|i: int| first_invalid_at(exclusions, i) {
                    let i = choose|i: int| first_invalid_at(exclusions, i);
                    assert(is_exclusion_entry(excluded[i]@));
                }
            }
            Ok(
                ParsedProjectConfig {
                    docs_path,
                    outputs,
                    embeddings_provider,
                    mcp_patch_apply_enabled,
                    assessment_exclude_paths: paths,
                },
            )
        },
    }
}

} // verus!
