//! The three visibility classes, ordered from least to most restrictive.

use vstd::prelude::*;

use crate::text::str_eq;

verus! {

/// A visibility class: `public` < `internal` < `restricted`.
#[derive(Debug, Clone, Copy, PartialEq, Eq, Structural)]
pub enum Visibility {
    Public,
    Internal,
    Restricted,
}

impl Visibility {
    /// Position in the restrictiveness order.
    pub open spec fn rank(self) -> int {
        match self {
            Visibility::Public => 0,
            Visibility::Internal => 1,
            Visibility::Restricted => 2,
        }
    }

    pub open spec fn name(self) -> Seq<char> {
        match self {
            Visibility::Public => "public"@,
            Visibility::Internal => "internal"@,
            Visibility::Restricted => "restricted"@,
        }
    }

    pub fn as_str(self) -> (r: &'static str)
        ensures
            r@ == self.name(),
    {
        match self {
            Visibility::Public => "public",
            Visibility::Internal => "internal",
            Visibility::Restricted => "restricted",
        }
    }

    /// The more restrictive of two classes.
    pub fn stricter(self, other: Self) -> (r: Self)
        ensures
            r == (if other.rank() > self.rank() { other } else { self }),
    {
        if other.rank_of() > self.rank_of() {
            other
        } else {
            self
        }
    }

    fn rank_of(self) -> (r: u8)
        ensures
            r as int == self.rank(),
    {
        match self {
            Visibility::Public => 0,
            Visibility::Internal => 1,
            Visibility::Restricted => 2,
        }
    }
}

/// The class a string names exactly, in its canonical spelling.
pub open spec fn visibility_named(s: Seq<char>) -> Option<Visibility> {
    if s == "public"@ {
        Some(Visibility::Public)
    } else if s == "internal"@ {
        Some(Visibility::Internal)
    } else if s == "restricted"@ {
        Some(Visibility::Restricted)
    } else {
        None
    }
}

/// Parse a canonical visibility name.
pub fn canonical_visibility(value: &str) -> (r: Option<Visibility>)
    ensures
        r == visibility_named(value@),
{
    if str_eq(value, "public") {
        Some(Visibility::Public)
    } else if str_eq(value, "internal") {
        Some(Visibility::Internal)
    } else if str_eq(value, "restricted") {
        Some(Visibility::Restricted)
    } else {
        None
    }
}

} // verus!
