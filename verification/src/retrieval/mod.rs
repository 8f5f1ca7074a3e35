//! Local retrieval: the authority a search runs under, its filters, the
//! object index and the metadata retrieval reads.

pub mod filter;
pub mod lexical;
pub mod lookup_index;
pub mod metadata;
pub mod ranking;
pub mod record;

use vstd::prelude::*;

use crate::diagnostic::{Diagnostic, DiagnosticCode};
use crate::graph::{is_object_id, is_object_id_text, strs_view};
use crate::string_set::contains_str;
use crate::visibility::{canonical_visibility, visibility_named, Visibility};

verus! {

/// Explicit local retrieval authority. The audience is a visibility
/// ceiling; allowed visibilities narrow it, and explicit Object ID
/// exclusions win.
#[derive(Debug, Clone, PartialEq, Eq)]
pub struct RetrievalPolicy {
    pub audience: String,
    pub allowed_visibilities: Vec<String>,
    pub excluded_object_ids: Vec<String>,
}

/// Why a policy is refused, if it is: an audience that is not a canonical
/// visibility, or a non-canonical allowed visibility or invalid excluded
/// Object ID.
pub open spec fn policy_error(p: RetrievalPolicy) -> Option<DiagnosticCode> {
    if visibility_named(p.audience@) is None {
        Some(DiagnosticCode::RetrievalAudienceUnresolved)
    } else if (exists|i: int|
        0 <= i < p.allowed_visibilities@.len() && visibility_named(#[trigger] p.allowed_visibilities@[i]@) is None) || (
    exists|i: int| 0 <= i < p.excluded_object_ids@.len() && !is_object_id_text(#[trigger] p.excluded_object_ids@[i]@)) {
        Some(DiagnosticCode::RetrievalPolicyInvalid)
    } else {
        None
    }
}

pub open spec fn opt_str_view(o: Option<&str>) -> Option<Seq<char>> {
    match o {
        Some(s) => Some(s@),
        None => None,
    }
}

/// The visibility an object carries: `public` when unstated.
pub open spec fn object_visibility(visibility: Option<Seq<char>>) -> Option<Visibility> {
    match visibility {
        Some(v) => visibility_named(v),
        None => Some(Visibility::Public),
    }
}

/// Whether a resolved visibility passes the policy: without a policy only
/// public objects do; with one, the object must not be excluded, its
/// visibility must be allowed, and it must not exceed the audience.
pub open spec fn permitted(policy: Option<RetrievalPolicy>, object_id: Seq<char>, v: Visibility) -> bool {
    match policy {
        None => v == Visibility::Public,
        Some(p) => {
            &&& !strs_view(p.excluded_object_ids@).contains(object_id)
            &&& strs_view(p.allowed_visibilities@).contains(v.name())
            &&& (visibility_named(p.audience@) matches Some(a) && v.rank() <= a.rank())
        },
    }
}

impl RetrievalPolicy {
    /// Check the policy's audience, allowed visibilities and exclusions.
    pub fn validate(&self) -> (r: Result<(), Diagnostic>)
        ensures
            match policy_error(*self) {
                Some(code) => r matches Err(d) && d.code == code && d.object_id is None && d.help is None,
                None => r is Ok,
            },
    {
        if canonical_visibility(self.audience.as_str()).is_none() {
            return Err(
                Diagnostic::error(
                    DiagnosticCode::RetrievalAudienceUnresolved,
                    String::from_str("Retrieval audience must be public, internal, or restricted."),
                ),
            );
        }
        let mut i: usize = 0;
        while i < self.allowed_visibilities.len()
            invariant
                visibility_named(self.audience@) is Some,
                i <= self.allowed_visibilities@.len(),
                forall|j: int| 0 <= j < i ==> visibility_named(#[trigger] self.allowed_visibilities@[j]@) is Some,
            decreases self.allowed_visibilities.len() - i,
        {
            if canonical_visibility(self.allowed_visibilities[i].as_str()).is_none() {
                proof {
                    assert(visibility_named(self.allowed_visibilities@[i as int]@) is None);
                }
                return Err(invalid_policy());
            }
            i = i + 1;
        }
        let mut k: usize = 0;
        while k < self.excluded_object_ids.len()
            invariant
                visibility_named(self.audience@) is Some,
                k <= self.excluded_object_ids@.len(),
                forall|j: int| 0 <= j < self.allowed_visibilities@.len() ==> visibility_named(
                    #[trigger] self.allowed_visibilities@[j]@,
                ) is Some,
                forall|j: int| 0 <= j < k ==> is_object_id_text(#[trigger] self.excluded_object_ids@[j]@),
            decreases self.excluded_object_ids.len() - k,
        {
            if !is_object_id(self.excluded_object_ids[k].as_str()) {
                proof {
                    assert(!is_object_id_text(self.excluded_object_ids@[k as int]@));
                }
                return Err(invalid_policy());
            }
            k = k + 1;
        }
        Ok(())
    }

    /// The one permission predicate, evaluated before any retrieval index
    /// exists, for the object `object_id` carrying `visibility` (`public`
    /// when absent). A visibility that is not canonical cannot be resolved.
    pub fn permits(policy: Option<&Self>, object_id: &str, visibility: Option<&str>) -> (r: Result<bool, Diagnostic>)
        ensures
            match object_visibility(opt_str_view(visibility)) {
                None => r matches Err(d) && d.code == DiagnosticCode::RetrievalVisibilityUnavailable,
                Some(v) => r == Ok::<bool, Diagnostic>(
                    permitted(
                        match policy {
                            Some(p) => Some(*p),
                            None => None,
                        },
                        object_id@,
                        v,
                    ),
                ),
            },
    {
        let named = match visibility {
            Some(v) => v,
            None => "public",
        };
        proof {
            reveal_strlit("public");
        }
        let v = match canonical_visibility(named) {
            Some(v) => v,
            None => {
                return Err(
                    Diagnostic::error(
                        DiagnosticCode::RetrievalVisibilityUnavailable,
                        String::from_str("Retrieval object visibility cannot be resolved."),
                    ),
                );
            },
        };
        match policy {
            None => Ok(v == Visibility::Public),
            Some(p) => {
                let excluded = contains_str(&p.excluded_object_ids, object_id);
                let allowed = contains_str(&p.allowed_visibilities, v.as_str());
                let within = match canonical_visibility(p.audience.as_str()) {
                    Some(a) => v.stricter(a) == a,
                    None => false,
                };
                Ok(!excluded && allowed && within)
            },
        }
    }
}

fn invalid_policy() -> (d: Diagnostic)
    ensures
        d.code == DiagnosticCode::RetrievalPolicyInvalid,
        d.object_id is None,
        d.help is None,
{
    Diagnostic::error(
        DiagnosticCode::RetrievalPolicyInvalid,
        String::from_str("Retrieval policy requires canonical visibilities and valid excluded Object IDs."),
    )
}

} // verus!
