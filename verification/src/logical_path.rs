//! Portable project-relative paths: `/`-separated segments, none empty,
//! none `.` or `..`, never absolute and never with a backslash.

use vstd::prelude::*;

use crate::text::chars_of;

verus! {

/// Position `i` starts a segment of `s`.
pub open spec fn segment_start(s: Seq<char>, i: int) -> bool {
    i == 0 || s[i - 1] == '/'
}

/// Position `i` is just past the end of a segment of `s`.
pub open spec fn segment_end(s: Seq<char>, i: int) -> bool {
    i == s.len() || s[i] == '/'
}

/// A portable logical path.
pub open spec fn is_logical_path(s: Seq<char>) -> bool {
    &&& s.len() > 0
    &&& s[0] != '/'
    &&& s[s.len() - 1] != '/'
    &&& forall|i: int| 0 <= i < s.len() ==> #[trigger] s[i] != '\\'
    &&& forall|i: int| 0 <= i < s.len() - 1 && #[trigger] s[i] == '/' ==> s[i + 1] != '/'
    &&& forall|i: int|
        0 <= i < s.len() && #[trigger] s[i] == '.' && segment_start(s, i) ==> !segment_end(s, i + 1) && !(
        i + 1 < s.len() && s[i + 1] == '.' && segment_end(s, i + 2))
}

/// A validated logical path.
#[derive(Debug, Clone, PartialEq, Eq)]
pub struct LogicalPath(String);

impl View for LogicalPath {
    type V = Seq<char>;

    closed spec fn view(&self) -> Seq<char> {
        self.0@
    }
}

/// Why a logical path was refused.
#[derive(Debug, Clone, Copy, PartialEq, Eq, Structural)]
pub struct LogicalPathError;

fn logical_path_ok(s: &str) -> (r: bool)
    ensures
        r == is_logical_path(s@),
{
    let cs = chars_of(s);
    let n = cs.len();
    if n == 0 || cs[0] == '/' || cs[n - 1] == '/' {
        return false;
    }
    let mut i: usize = 0;
    while i < n
        invariant
            cs@ == s@,
            n == cs@.len(),
            n > 0,
            cs@[0] != '/',
            cs@[n - 1] != '/',
            i <= n,
            forall|j: int| 0 <= j < i ==> #[trigger] cs@[j] != '\\',
            forall|j: int| 0 <= j < i && j < n - 1 && #[trigger] cs@[j] == '/' ==> cs@[j + 1] != '/',
            forall|j: int|
                0 <= j < i && #[trigger] cs@[j] == '.' && segment_start(cs@, j) ==> !segment_end(cs@, j + 1) && !(j + 1
                    < n && cs@[j + 1] == '.' && segment_end(cs@, j + 2)),
        decreases n - i,
    {
        let c = cs[i];
        if c == '\\' {
            return false;
        }
        if c == '/' && i + 1 < n && cs[i + 1] == '/' {
            return false;
        }
        if c == '.' && (i == 0 || cs[i - 1] == '/') {
            let end1 = i + 1 == n || cs[i + 1] == '/';
            let dots = i + 1 < n && cs[i + 1] == '.' && (i + 2 == n || cs[i + 2] == '/');
            if end1 || dots {
                return false;
            }
        }
        i = i + 1;
    }
    true
}

impl LogicalPath {
    /// The path `value`, when it is a portable logical path.
    pub fn parse(value: &str) -> (r: Result<Self, LogicalPathError>)
        ensures
            r is Ok <==> is_logical_path(value@),
            r matches Ok(p) ==> p@ == value@,
    {
        if logical_path_ok(value) {
            Ok(LogicalPath(value.to_string()))
        } else {
            Err(LogicalPathError)
        }
    }

    pub fn as_str(&self) -> (r: &str)
        ensures
            r@ == self@,
    {
        self.0.as_str()
    }
}

} // verus!
