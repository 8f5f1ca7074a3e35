//! Vectors kept strictly sorted by a string key: the ordered-map and
//! ordered-set shape the domain uses wherever output order must be
//! deterministic.

use vstd::prelude::*;

use crate::text::{key_lt, lemma_key_lt_irreflexive, lemma_key_lt_total, lemma_key_lt_transitive};

verus! {

/// A value ordered by a key made of string components.
pub trait Keyed {
    spec fn key(&self) -> Seq<Seq<char>>;

    fn key_less(&self, other: &Self) -> (r: bool)
        ensures
            r == key_lt(self.key(), other.key()),
    ;
}

/// Keys strictly increase: sorted, with no key twice.
pub open spec fn sorted_by_key<T: Keyed>(s: Seq<T>) -> bool {
    forall|i: int, j: int| 0 <= i < j < s.len() ==> key_lt(#[trigger] s[i].key(), #[trigger] s[j].key())
}

/// Some element of `s` carries key `k`.
pub open spec fn has_key<T: Keyed>(s: Seq<T>, k: Seq<Seq<char>>) -> bool {
    exists|i: int| 0 <= i < s.len() && #[trigger] s[i].key() == k
}

/// In a strictly sorted sequence two positions with equal keys coincide.
pub proof fn lemma_sorted_key_unique<T: Keyed>(s: Seq<T>, i: int, j: int)
    requires
        sorted_by_key(s),
        0 <= i < s.len(),
        0 <= j < s.len(),
        s[i].key() == s[j].key(),
    ensures
        i == j,
{
    if i < j {
        lemma_key_lt_irreflexive(s[i].key());
    } else if j < i {
        lemma_key_lt_irreflexive(s[i].key());
    }
}

/// Insert `x` into a strictly sorted vector. When an element with the same
/// key is present it is replaced if `replace` holds (a map insert) and kept
/// otherwise (first occurrence wins); else `x` is inserted in order.
pub fn insert_sorted<T: Keyed>(v: &mut Vec<T>, x: T, replace: bool)
    requires
        sorted_by_key(old(v)@),
    ensures
        sorted_by_key(final(v)@),
        has_key(old(v)@, x.key()) ==> final(v)@.len() == old(v)@.len(),
        !has_key(old(v)@, x.key()) ==> final(v)@.len() == old(v)@.len() + 1,
        // what stays: every old element whose key differs from x's, and
        // the old holder of x's key unless replaced
        forall|i: int|
            0 <= i < old(v)@.len() && (old(v)@[i].key() != x.key() || !replace) ==> final(v)@.contains(#[trigger] old(v)@[i]),
        // what arrives: x, unless its key was already held and kept
        (replace || !has_key(old(v)@, x.key())) ==> final(v)@.contains(x),
        // nothing else
        forall|i: int|
            0 <= i < final(v)@.len() ==> (old(v)@.contains(#[trigger] final(v)@[i]) || final(v)@[i] == x),
        forall|i: int|
            0 <= i < final(v)@.len() && #[trigger] final(v)@[i].key() == x.key() ==> (if replace
                || !has_key(old(v)@, x.key()) {
                final(v)@[i] == x
            } else {
                old(v)@.contains(final(v)@[i])
            }),
{
    let ghost old_v = v@;
    let mut i: usize = 0;
    while i < v.len() && v[i].key_less(&x)
        invariant
            v@ == old_v,
            sorted_by_key(old_v),
            i <= v.len(),
            forall|j: int| 0 <= j < i ==> key_lt(#[trigger] old_v[j].key(), x.key()),
        decreases v.len() - i,
    {
        i = i + 1;
    }
    // every element from position i on is not below x
    proof {
        assert forall|j: int| i <= j < old_v.len() implies !key_lt(
            #[trigger] old_v[j].key(),
            x.key(),
        ) by {
            if j > i {
                assert(!key_lt(old_v[i as int].key(), x.key()));
                if key_lt(old_v[j].key(), x.key()) {
                    lemma_key_lt_transitive(old_v[i as int].key(), old_v[j].key(), x.key());
                }
            }
        }
    }
    if i < v.len() && !x.key_less(&v[i]) {
        // equal keys
        proof {
            lemma_key_lt_total(x.key(), old_v[i as int].key());
            assert(has_key(old_v, x.key()));
        }
        if replace {
            v.set(i, x);
            proof {
                assert forall|a: int, b: int| 0 <= a < b < v@.len() implies key_lt(
                    #[trigger] v@[a].key(),
                    #[trigger] v@[b].key(),
                ) by {
                    if a != i && b != i {
                    } else if a == i {
                        assert(old_v[i as int].key() == x.key());
                    } else {
                        assert(old_v[i as int].key() == x.key());
                    }
                }
                assert forall|k: int|
                    0 <= k < old_v.len() && (old_v[k].key() != x.key()
                        || !replace) implies v@.contains(#[trigger] old_v[k]) by {
                    assert(k != i);
                    assert(v@[k] == old_v[k]);
                }
                assert forall|k: int| 0 <= k < v@.len() implies (old_v.contains(
                    #[trigger] v@[k],
                ) || v@[k] == x) by {
                    if k != i {
                        assert(v@[k] == old_v[k]);
                    }
                }
                assert(v@[i as int] == x);
                assert forall|k: int|
                    0 <= k < v@.len() && #[trigger] v@[k].key() == x.key() implies v@[k] == x by {
                    if k != i {
                        assert(old_v[k].key() == old_v[i as int].key());
                        lemma_sorted_key_unique(old_v, k, i as int);
                    }
                }
            }
        } else {
            proof {
                assert forall|k: int| 0 <= k < old_v.len() implies v@.contains(
                    #[trigger] old_v[k],
                ) by {
                    assert(v@[k] == old_v[k]);
                }
                assert forall|k: int| 0 <= k < v@.len() implies (old_v.contains(
                    #[trigger] v@[k],
                ) || v@[k] == x) by {
                    assert(v@[k] == old_v[k]);
                }
                assert forall|k: int|
                    0 <= k < v@.len() && #[trigger] v@[k].key() == x.key() implies old_v.contains(
                    v@[k],
                ) by {
                    assert(v@[k] == old_v[k]);
                }
            }
        }
    } else {
        proof {
            if i < old_v.len() {
                lemma_key_lt_total(x.key(), old_v[i as int].key());
            }
            assert forall|j: int| i <= j < old_v.len() implies key_lt(
                x.key(),
                #[trigger] old_v[j].key(),
            ) by {
                if j > i {
                    lemma_key_lt_transitive(x.key(), old_v[i as int].key(), old_v[j].key());
                }
            }
            assert(!has_key(old_v, x.key())) by {
                if has_key(old_v, x.key()) {
                    let k = choose|k: int| 0 <= k < old_v.len() && #[trigger] old_v[k].key() == x.key();
                    lemma_key_lt_irreflexive(x.key());
                    if k < i {
                    } else {
                    }
                }
            }
        }
        v.insert(i, x);
        proof {
            assert(v@ =~= old_v.insert(i as int, x));
            assert forall|a: int, b: int| 0 <= a < b < v@.len() implies key_lt(
                #[trigger] v@[a].key(),
                #[trigger] v@[b].key(),
            ) by {
                if b < i {
                } else if a < i && b == i {
                } else if a < i && b > i {
                    assert(v@[b] == old_v[b - 1]);
                    lemma_key_lt_transitive(old_v[a].key(), x.key(), old_v[b - 1].key());
                } else if a == i {
                    assert(v@[b] == old_v[b - 1]);
                } else {
                    assert(v@[a] == old_v[a - 1]);
                    assert(v@[b] == old_v[b - 1]);
                }
            }
            assert forall|k: int| 0 <= k < old_v.len() implies v@.contains(
                #[trigger] old_v[k],
            ) by {
                if k < i {
                    assert(v@[k] == old_v[k]);
                } else {
                    assert(v@[k + 1] == old_v[k]);
                }
            }
            assert(v@[i as int] == x);
            assert forall|k: int| 0 <= k < v@.len() implies (old_v.contains(#[trigger] v@[k])
                || v@[k] == x) by {
                if k < i {
                    assert(v@[k] == old_v[k]);
                } else if k > i {
                    assert(v@[k] == old_v[k - 1]);
                }
            }
            assert forall|k: int|
                0 <= k < v@.len() && #[trigger] v@[k].key() == x.key() implies v@[k] == x by {
                if k != i {
                    lemma_sorted_key_unique(v@, k, i as int);
                }
            }
        }
    }
}

/// Keys never decrease (equal keys allowed).
pub open spec fn sorted_le<T: Keyed>(s: Seq<T>) -> bool {
    forall|i: int, j: int| 0 <= i < j < s.len() ==> !key_lt(#[trigger] s[j].key(), #[trigger] s[i].key())
}

/// Insert `x` after every element whose key is not above its own: a
/// stable insertion into a key-ordered vector.
pub fn insert_stable<T: Keyed>(v: &mut Vec<T>, x: T)
    requires
        sorted_le(old(v)@),
    ensures
        sorted_le(final(v)@),
        exists|pos: int| 0 <= pos <= old(v)@.len() && final(v)@ == old(v)@.insert(pos, x),
{
    let ghost old_v = v@;
    let mut i: usize = 0;
    while i < v.len() && !x.key_less(&v[i])
        invariant
            v@ == old_v,
            sorted_le(old_v),
            i <= v.len(),
            forall|j: int| 0 <= j < i ==> !key_lt(x.key(), #[trigger] old_v[j].key()),
        decreases v.len() - i,
    {
        i = i + 1;
    }
    proof {
        assert forall|j: int| i <= j < old_v.len() implies key_lt(x.key(), #[trigger] old_v[j].key()) by {
            if j > i {
                assert(!key_lt(old_v[j].key(), old_v[i as int].key()));
                lemma_key_lt_total(old_v[j].key(), old_v[i as int].key());
                if old_v[j].key() != old_v[i as int].key() {
                    lemma_key_lt_transitive(x.key(), old_v[i as int].key(), old_v[j].key());
                }
            }
        }
    }
    v.insert(i, x);
    proof {
        assert(v@ =~= old_v.insert(i as int, x));
        assert forall|a: int, b: int| 0 <= a < b < v@.len() implies !key_lt(
            #[trigger] v@[b].key(),
            #[trigger] v@[a].key(),
        ) by {
            if b < i {
            } else if a < i && b == i {
            } else if a < i && b > i {
                assert(v@[b] == old_v[b - 1]);
                assert(key_lt(x.key(), old_v[b - 1].key()));
                if key_lt(old_v[b - 1].key(), old_v[a].key()) {
                    lemma_key_lt_transitive(x.key(), old_v[b - 1].key(), old_v[a].key());
                    lemma_key_lt_total(x.key(), old_v[a].key());
                }
            } else if a == i {
                assert(v@[b] == old_v[b - 1]);
                lemma_key_lt_total(x.key(), old_v[b - 1].key());
            } else {
                assert(v@[a] == old_v[a - 1]);
                assert(v@[b] == old_v[b - 1]);
            }
        }
    }
}

impl Keyed for String {
    open spec fn key(&self) -> Seq<Seq<char>> {
        seq![self@]
    }

    fn key_less(&self, other: &Self) -> (r: bool) {
        let r = crate::text::str_lt(self.as_str(), other.as_str());
        proof { lemma_one_component(self@, other@); }
        r
    }
}

/// A one-component key orders exactly as its component.
pub proof fn lemma_one_component(a: Seq<char>, b: Seq<char>)
    ensures
        key_lt(seq![a], seq![b]) == crate::text::seq_lt(a, b),
{
    if a == b {
        crate::text::lemma_seq_lt_irreflexive(a);
        assert(seq![a] =~= seq![b]);
        lemma_key_lt_irreflexive(seq![a]);
    } else {
        assert(seq![a][0] != seq![b][0]);
    }
}

/// `v` lists the set `s` in strictly increasing order.
pub open spec fn lists_set(v: Seq<String>, s: Set<Seq<char>>) -> bool {
    &&& sorted_by_key(v)
    &&& forall|i: int| 0 <= i < v.len() ==> s.contains(#[trigger] v[i]@)
    &&& forall|p: Seq<char>| #[trigger] s.contains(p) ==> exists|i: int| 0 <= i < v.len() && #[trigger] v[i]@ == p
}

} // verus!
