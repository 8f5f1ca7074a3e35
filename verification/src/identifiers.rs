//! Shape checks for the identifiers managed records carry: canonical
//! lowercase UUIDs and `sha256:` digests.

use vstd::prelude::*;

use crate::text::chars_of;

verus! {

pub open spec fn is_lower_hex(c: char) -> bool {
    ('0' <= c && c <= '9') || ('a' <= c && c <= 'f')
}

/// A canonical lowercase UUID: 36 characters, `-` at positions 8, 13, 18
/// and 23, lowercase hex digits elsewhere.
pub open spec fn is_uuid(s: Seq<char>) -> bool {
    &&& s.len() == 36
    &&& forall|i: int|
        0 <= i < 36 ==> if i == 8 || i == 13 || i == 18 || i == 23 {
            #[trigger] s[i] == '-'
        } else {
            is_lower_hex(s[i])
        }
}

/// A lowercase SHA-256 digest: `sha256:` and 64 lowercase hex digits.
pub open spec fn is_digest(s: Seq<char>) -> bool {
    &&& s.len() == 71
    &&& s.subrange(0, 7) == "sha256:"@
    &&& forall|i: int| 7 <= i < 71 ==> is_lower_hex(#[trigger] s[i])
}

fn lower_hex(c: char) -> (r: bool)
    ensures
        r == is_lower_hex(c),
{
    ('0' <= c && c <= '9') || ('a' <= c && c <= 'f')
}

pub fn is_canonical_uuid(value: &str) -> (r: bool)
    ensures
        r == is_uuid(value@),
{
    let cs = chars_of(value);
    if cs.len() != 36 {
        return false;
    }
    let mut i: usize = 0;
    while i < 36
        invariant
            cs@ == value@,
            cs@.len() == 36,
            i <= 36,
            forall|j: int|
                0 <= j < i ==> if j == 8 || j == 13 || j == 18 || j == 23 {
                    #[trigger] cs@[j] == '-'
                } else {
                    is_lower_hex(cs@[j])
                },
        decreases 36 - i,
    {
        let ok = if i == 8 || i == 13 || i == 18 || i == 23 {
            cs[i] == '-'
        } else {
            lower_hex(cs[i])
        };
        if !ok {
            return false;
        }
        i = i + 1;
    }
    true
}

pub fn is_sha256_digest(value: &str) -> (r: bool)
    ensures
        r == is_digest(value@),
{
    let cs = chars_of(value);
    proof {
        reveal_strlit("sha256:");
    }
    if cs.len() != 71 {
        return false;
    }
    if !(cs[0] == 's' && cs[1] == 'h' && cs[2] == 'a' && cs[3] == '2' && cs[4] == '5' && cs[5] == '6' && cs[6] == ':') {
        proof {
            if value@.subrange(0, 7) == "sha256:"@ {
                assert(value@.subrange(0, 7)[0] == 's');
                assert(value@.subrange(0, 7)[1] == 'h');
                assert(value@.subrange(0, 7)[2] == 'a');
                assert(value@.subrange(0, 7)[3] == '2');
                assert(value@.subrange(0, 7)[4] == '5');
                assert(value@.subrange(0, 7)[5] == '6');
                assert(value@.subrange(0, 7)[6] == ':');
            }
        }
        return false;
    }
    proof {
        assert(value@.subrange(0, 7) =~= "sha256:"@);
    }
    let mut i: usize = 7;
    while i < 71
        invariant
            cs@ == value@,
            cs@.len() == 71,
            7 <= i <= 71,
            forall|j: int| 7 <= j < i ==> is_lower_hex(#[trigger] cs@[j]),
        decreases 71 - i,
    {
        if !lower_hex(cs[i]) {
            return false;
        }
        i = i + 1;
    }
    true
}

} // verus!
