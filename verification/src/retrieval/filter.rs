//! Search filters over Knowledge Object metadata: case-insensitive
//! substring matches on kind, status, owner and source path, and the
//! diagnostics for a filter no object satisfies.

use vstd::prelude::*;

use crate::diagnostic::{Diagnostic, DiagnosticCode};
use crate::graph::{opt_view, GraphDirection, GraphKnowledgeObjectNode, GraphRelationKind};
use crate::retrieval::metadata::{opt_str_view, owner};
use crate::text::{contains_sub, str_contains};

verus! {

/// What `str::to_lowercase` returns for a string: its Unicode lowercase
/// mapping.
pub uninterp spec fn lowercase(s: Seq<char>) -> Seq<char>;

/// `str::to_lowercase`: the lowercase equivalent of `s` as a new string.
/// Its result is named, not described: the Unicode case mapping is left
/// unsaid.
#[verifier::external_body]
fn to_lowercase(s: &str) -> (r: String)
    ensures
        r@ == lowercase(s@),
{
    s.to_lowercase()
}

/// `filter` occurs in `value`, ignoring case.
pub open spec fn contains_lowercase(value: Seq<char>, filter: Seq<char>) -> bool {
    contains_sub(lowercase(value), lowercase(filter))
}

/// An absent filter accepts; a present one must occur in the value.
pub open spec fn matches_required(value: Seq<char>, filter: Option<Seq<char>>) -> bool {
    match filter {
        None => true,
        Some(f) => contains_lowercase(value, f),
    }
}

/// An absent filter accepts; a present one needs a value it occurs in.
pub open spec fn matches_optional(value: Option<Seq<char>>, filter: Option<Seq<char>>) -> bool {
    match filter {
        None => true,
        Some(f) => value matches Some(v) && contains_lowercase(v, f),
    }
}

fn contains_lowercase_exec(value: &str, filter: &str) -> (r: bool)
    ensures
        r == contains_lowercase(value@, filter@),
{
    let v = to_lowercase(value);
    let f = to_lowercase(filter);
    str_contains(v.as_str(), f.as_str())
}

fn matches_required_exec(value: &str, filter: Option<&str>) -> (r: bool)
    ensures
        r == matches_required(value@, opt_str_view(filter)),
{
    match filter {
        None => true,
        Some(f) => contains_lowercase_exec(value, f),
    }
}

fn matches_optional_exec(value: Option<&str>, filter: Option<&str>) -> (r: bool)
    ensures
        r == matches_optional(opt_str_view(value), opt_str_view(filter)),
{
    match filter {
        None => true,
        Some(f) => match value {
            Some(v) => contains_lowercase_exec(v, f),
            None => false,
        },
    }
}

fn as_opt_str(o: &Option<String>) -> (r: Option<&str>)
    ensures
        opt_str_view(r) == opt_view(*o),
{
    match o {
        Some(s) => Some(s.as_str()),
        None => None,
    }
}

/// Metadata and graph filters of a search.
#[derive(Debug, Clone, PartialEq, Eq, Default)]
pub struct SearchFilters {
    pub kind: Option<String>,
    pub status: Option<String>,
    pub owner: Option<String>,
    pub source_path: Option<String>,
    pub related_to: Option<String>,
    pub relation: Option<GraphRelationKind>,
    pub direction: Option<GraphDirection>,
}

/// The object's kind matches the kind filter.
pub open spec fn kind_matches(f: SearchFilters, o: GraphKnowledgeObjectNode) -> bool {
    matches_required(o.kind@, opt_view(f.kind))
}

pub open spec fn status_matches(f: SearchFilters, o: GraphKnowledgeObjectNode) -> bool {
    matches_optional(opt_view(o.status), opt_view(f.status))
}

pub open spec fn owner_matches(f: SearchFilters, o: GraphKnowledgeObjectNode) -> bool {
    matches_optional(o.fields.spec_get("owner"@), opt_view(f.owner))
}

pub open spec fn path_matches(f: SearchFilters, o: GraphKnowledgeObjectNode) -> bool {
    matches_required(o.source_span.path@, opt_view(f.source_path))
}

/// Some object satisfies the field filter `field`.
pub open spec fn some_object_matches(f: SearchFilters, objects: Seq<GraphKnowledgeObjectNode>, field: int) -> bool {
    exists|i: int|
        0 <= i < objects.len() && #[trigger] field_matches(f, objects[i], field)
}

/// Field 0 is kind, 1 status, 2 owner, 3 source path.
pub open spec fn field_matches(f: SearchFilters, o: GraphKnowledgeObjectNode, field: int) -> bool {
    if field == 0 {
        kind_matches(f, o)
    } else if field == 1 {
        status_matches(f, o)
    } else if field == 2 {
        owner_matches(f, o)
    } else {
        path_matches(f, o)
    }
}

/// The name and value of filter field `field`.
pub open spec fn field_filter(f: SearchFilters, field: int) -> (Seq<char>, Option<Seq<char>>) {
    if field == 0 {
        ("kind"@, opt_view(f.kind))
    } else if field == 1 {
        ("status"@, opt_view(f.status))
    } else if field == 2 {
        ("owner"@, opt_view(f.owner))
    } else {
        ("source_path"@, opt_view(f.source_path))
    }
}

/// The message of a filter that matched nothing.
pub open spec fn invalid_filter_message(field: Seq<char>, value: Seq<char>) -> Seq<char> {
    "Search filter `"@ + field + "="@ + value + "` did not match any object field."@
}

/// The messages of the present filters among fields `0..n` that no object
/// satisfies, in field order.
pub open spec fn invalid_filter_messages(f: SearchFilters, objects: Seq<GraphKnowledgeObjectNode>, n: int) -> Seq<
    Seq<char>,
>
    decreases n,
{
    if n <= 0 {
        Seq::empty()
    } else {
        let earlier = invalid_filter_messages(f, objects, n - 1);
        let (name, value) = field_filter(f, n - 1);
        match value {
            Some(v) => if some_object_matches(f, objects, n - 1) {
                earlier
            } else {
                earlier.push(invalid_filter_message(name, v))
            },
            None => earlier,
        }
    }
}

/// Which filters some object has satisfied so far.
struct FilterValidationState {
    kind_valid: bool,
    status_valid: bool,
    owner_valid: bool,
    source_path_valid: bool,
}

impl SearchFilters {
    /// Any Knowledge Object metadata filter implies object intent.
    pub fn constrains_objects(&self) -> (r: bool)
        ensures
            r == (self.kind is Some || self.status is Some || self.owner is Some || self.source_path is Some
                || self.related_to is Some),
    {
        self.kind.is_some() || self.status.is_some() || self.owner.is_some() || self.source_path.is_some()
            || self.related_to.is_some()
    }

    /// Whether the object's metadata matches these filters; the graph
    /// filters are resolved elsewhere.
    pub fn matches(&self, object: &GraphKnowledgeObjectNode) -> (r: bool)
        ensures
            r == (kind_matches(*self, *object) && status_matches(*self, *object) && owner_matches(*self, *object)
                && path_matches(*self, *object)),
    {
        matches_required_exec(object.kind.as_str(), as_opt_str(&self.kind)) && matches_optional_exec(
            as_opt_str(&object.status),
            as_opt_str(&self.status),
        ) && matches_optional_exec(owner(object), as_opt_str(&self.owner)) && matches_required_exec(
            object.source_span.path.as_str(),
            as_opt_str(&self.source_path),
        )
    }

    fn field_matches_exec(&self, object: &GraphKnowledgeObjectNode, field: usize) -> (r: bool)
        requires
            field < 4,
        ensures
            r == field_matches(*self, *object, field as int),
    {
        if field == 0 {
            matches_required_exec(object.kind.as_str(), as_opt_str(&self.kind))
        } else if field == 1 {
            matches_optional_exec(as_opt_str(&object.status), as_opt_str(&self.status))
        } else if field == 2 {
            matches_optional_exec(owner(object), as_opt_str(&self.owner))
        } else {
            matches_required_exec(object.source_span.path.as_str(), as_opt_str(&self.source_path))
        }
    }

    /// One diagnostic per present filter that no object satisfies, in the
    /// order kind, status, owner, source path.
    pub fn validate_against(&self, objects: &[GraphKnowledgeObjectNode]) -> (r: Vec<Diagnostic>)
        ensures
            r@.len() == invalid_filter_messages(*self, objects@, 4).len(),
            forall|k: int|
                0 <= k < r@.len() ==> (#[trigger] r@[k]).code == DiagnosticCode::SearchInvalidFilter && r@[k].message@
                    == invalid_filter_messages(*self, objects@, 4)[k] && r@[k].object_id is None && r@[k].help is None,
    {
        let state = self.filter_state_against(objects);
        self.diagnostics(&state, objects)
    }

    fn filter_state_against(&self, objects: &[GraphKnowledgeObjectNode]) -> (st: FilterValidationState)
        ensures
            st.kind_valid == (self.kind is None || some_object_matches(*self, objects@, 0)),
            st.status_valid == (self.status is None || some_object_matches(*self, objects@, 1)),
            st.owner_valid == (self.owner is None || some_object_matches(*self, objects@, 2)),
            st.source_path_valid == (self.source_path is None || some_object_matches(*self, objects@, 3)),
    {
        let mut st = FilterValidationState {
            kind_valid: self.kind.is_none(),
            status_valid: self.status.is_none(),
            owner_valid: self.owner.is_none(),
            source_path_valid: self.source_path.is_none(),
        };
        let mut i: usize = 0;
        while i < objects.len() && !(st.kind_valid && st.status_valid && st.owner_valid && st.source_path_valid)
            invariant
                i <= objects@.len(),
                st.kind_valid == (self.kind is None || some_object_matches(*self, objects@.take(i as int), 0)),
                st.status_valid == (self.status is None || some_object_matches(*self, objects@.take(i as int), 1)),
                st.owner_valid == (self.owner is None || some_object_matches(*self, objects@.take(i as int), 2)),
                st.source_path_valid == (self.source_path is None || some_object_matches(
                    *self,
                    objects@.take(i as int),
                    3,
                )),
            decreases objects.len() - i,
        {
            let object = &objects[i];
            if !st.kind_valid && self.field_matches_exec(object, 0) {
                st.kind_valid = true;
            }
            if !st.status_valid && self.field_matches_exec(object, 1) {
                st.status_valid = true;
            }
            if !st.owner_valid && self.field_matches_exec(object, 2) {
                st.owner_valid = true;
            }
            if !st.source_path_valid && self.field_matches_exec(object, 3) {
                st.source_path_valid = true;
            }
            proof {
                let p = objects@.take(i as int);
                let q = objects@.take(i + 1);
                assert(q[i as int] == objects@[i as int]);
                assert forall|field: int| 0 <= field < 4 implies some_object_matches(*self, q, field) == (
                some_object_matches(*self, p, field) || field_matches(*self, objects@[i as int], field)) by {
                    if some_object_matches(*self, p, field) {
                        let j = choose|j: int| 0 <= j < p.len() && #[trigger] field_matches(*self, p[j], field);
                        assert(q[j] == p[j]);
                    }
                    if some_object_matches(*self, q, field) {
                        let j = choose|j: int| 0 <= j < q.len() && #[trigger] field_matches(*self, q[j], field);
                        if j < i {
                            assert(p[j] == q[j]);
                        }
                    }
                }
            }
            i = i + 1;
        }
        proof {
            if i < objects@.len() {
                // stopped early: every filter was already satisfied by a prefix
                let p = objects@.take(i as int);
                assert forall|field: int| 0 <= field < 4 && some_object_matches(*self, p, field) implies some_object_matches(
                    *self,
                    objects@,
                    field,
                ) by {
                    let j = choose|j: int| 0 <= j < p.len() && #[trigger] field_matches(*self, p[j], field);
                    assert(objects@[j] == p[j]);
                }
            } else {
                assert(objects@.take(i as int) =~= objects@);
            }
        }
        st
    }

    fn diagnostics(&self, st: &FilterValidationState, objects: &[GraphKnowledgeObjectNode]) -> (r: Vec<Diagnostic>)
        requires
            st.kind_valid == (self.kind is None || some_object_matches(*self, objects@, 0)),
            st.status_valid == (self.status is None || some_object_matches(*self, objects@, 1)),
            st.owner_valid == (self.owner is None || some_object_matches(*self, objects@, 2)),
            st.source_path_valid == (self.source_path is None || some_object_matches(*self, objects@, 3)),
        ensures
            r@.len() == invalid_filter_messages(*self, objects@, 4).len(),
            forall|k: int|
                0 <= k < r@.len() ==> (#[trigger] r@[k]).code == DiagnosticCode::SearchInvalidFilter && r@[k].message@
                    == invalid_filter_messages(*self, objects@, 4)[k] && r@[k].object_id is None && r@[k].help is None,
    {
        let mut out: Vec<Diagnostic> = Vec::new();
        push_invalid_filter(&mut out, "kind", as_opt_str(&self.kind), st.kind_valid);
        push_invalid_filter(&mut out, "status", as_opt_str(&self.status), st.status_valid);
        push_invalid_filter(&mut out, "owner", as_opt_str(&self.owner), st.owner_valid);
        push_invalid_filter(&mut out, "source_path", as_opt_str(&self.source_path), st.source_path_valid);
        proof {
            reveal_with_fuel(invalid_filter_messages, 5);
        }
        out
    }
}

/// Report a present filter that nothing satisfied.
fn push_invalid_filter(diagnostics: &mut Vec<Diagnostic>, field: &str, value: Option<&str>, is_valid: bool)
    ensures
        match value {
            Some(v) => if !is_valid {
                final(diagnostics)@.len() == old(diagnostics)@.len() + 1 && final(diagnostics)@.take(
                    old(diagnostics)@.len() as int,
                ) == old(diagnostics)@ && final(diagnostics)@.last().code == DiagnosticCode::SearchInvalidFilter
                    && final(diagnostics)@.last().message@ == invalid_filter_message(field@, v@)
                    && final(diagnostics)@.last().object_id is None && final(diagnostics)@.last().help is None
            } else {
                final(diagnostics)@ == old(diagnostics)@
            },
            None => final(diagnostics)@ == old(diagnostics)@,
        },
{
    match value {
        Some(v) => {
            if !is_valid {
                let mut message = String::new();
                message.append("Search filter `");
                message.append(field);
                message.append("=");
                message.append(v);
                message.append("` did not match any object field.");
                diagnostics.push(Diagnostic::error(DiagnosticCode::SearchInvalidFilter, message));
                proof {
                    assert(final(diagnostics)@.take(old(diagnostics)@.len() as int) =~= old(diagnostics)@);
                }
            }
        },
        None => {},
    }
}

} // verus!
