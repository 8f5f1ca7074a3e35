//! Repository-relative file paths.

use vstd::prelude::*;

use crate::text::{chars_of, str_eq};

verus! {

/// A repository-relative path: non-empty, not absolute, `/`-separated.
#[derive(Debug, Clone, PartialEq, Eq)]
pub struct RelPath {
    value: String,
}

/// Accepted: non-empty, not starting with `/`, no `\`.
pub open spec fn valid_rel_path(s: Seq<char>) -> bool {
    &&& s.len() > 0
    &&& s[0] != '/'
    &&& forall|i: int| 0 <= i < s.len() ==> #[trigger] s[i] != '\\'
}

impl RelPath {
    pub closed spec fn spec_str(&self) -> Seq<char> {
        self.value@
    }

    /// The path, when `value` is a valid repository-relative path.
    pub fn try_new(value: &str) -> (r: Option<Self>)
        ensures
            r is Some <==> valid_rel_path(value@),
            r matches Some(p) ==> p.spec_str() == value@,
    {
        let cs = chars_of(value);
        if cs.len() == 0 || cs[0] == '/' {
            return None;
        }
        let mut i: usize = 0;
        while i < cs.len()
            invariant
                cs@ == value@,
                i <= cs.len(),
                forall|j: int| 0 <= j < i ==> #[trigger] cs@[j] != '\\',
            decreases cs.len() - i,
        {
            if cs[i] == '\\' {
                return None;
            }
            i = i + 1;
        }
        Some(RelPath { value: value.to_string() })
    }

    pub fn as_str(&self) -> (r: &str)
        ensures
            r@ == self.spec_str(),
    {
        self.value.as_str()
    }
}

/// The set of paths a change set names.
pub open spec fn path_set(files: Seq<RelPath>) -> Set<Seq<char>> {
    Set::new(|p: Seq<char>| exists|i: int| 0 <= i < files.len() && (#[trigger] files[i]).spec_str() == p)
}

/// Whether `files` names `path`.
pub fn names_path(files: &[RelPath], path: &str) -> (r: bool)
    ensures
        r == path_set(files@).contains(path@),
{
    let mut i: usize = 0;
    while i < files.len()
        invariant
            i <= files@.len(),
            forall|j: int| 0 <= j < i ==> (#[trigger] files@[j]).spec_str() != path@,
        decreases files.len() - i,
    {
        if str_eq(files[i].as_str(), path) {
            return true;
        }
        i = i + 1;
    }
    false
}

} // verus!
