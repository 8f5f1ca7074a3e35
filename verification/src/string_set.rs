//! Sets of strings listed in increasing order: the shape a `BTreeSet` of
//! strings (or the keys of a `BTreeMap`) has when walked.

use vstd::prelude::*;

use crate::graph::strs_view;
use crate::sorted::{has_key, insert_sorted, lemma_one_component, sorted_by_key, Keyed};
use crate::text::{lemma_seq_lt_irreflexive, lemma_seq_lt_total, lemma_seq_lt_transitive, seq_lt, str_eq};

verus! {

/// Each string is strictly below the next.
pub open spec fn strictly_sorted(s: Seq<Seq<char>>) -> bool {
    forall|i: int, j: int| 0 <= i < j < s.len() ==> seq_lt(#[trigger] s[i], #[trigger] s[j])
}

/// `r` lists exactly the members of `s`, in increasing order.
pub open spec fn lists_sorted(r: Seq<Seq<char>>, s: Set<Seq<char>>) -> bool {
    &&& strictly_sorted(r)
    &&& forall|x: Seq<char>| #[trigger] r.contains(x) <==> s.contains(x)
}

/// The members of a finite set of strings in increasing order.
pub open spec fn sorted_elems(s: Set<Seq<char>>) -> Seq<Seq<char>> {
    choose|r: Seq<Seq<char>>| lists_sorted(r, s)
}

/// The members of `a` that `b` lacks, in increasing order.
pub open spec fn sorted_minus(a: Seq<Seq<char>>, b: Seq<Seq<char>>) -> Seq<Seq<char>> {
    sorted_elems(a.to_set().difference(b.to_set()))
}

/// `x` placed into an increasing list at its place (no change when
/// already present).
pub open spec fn sorted_insert(r: Seq<Seq<char>>, x: Seq<char>) -> Seq<Seq<char>>
    decreases r.len(),
{
    if r.len() == 0 {
        seq![x]
    } else if r[0] == x {
        r
    } else if seq_lt(x, r[0]) {
        seq![x] + r
    } else {
        seq![r[0]] + sorted_insert(r.drop_first(), x)
    }
}

/// Sorted insertion keeps the list increasing and adds exactly `x`.
pub proof fn lemma_sorted_insert(r: Seq<Seq<char>>, x: Seq<char>)
    requires
        strictly_sorted(r),
    ensures
        strictly_sorted(sorted_insert(r, x)),
        forall|y: Seq<char>| #[trigger] sorted_insert(r, x).contains(y) <==> (r.contains(y) || y == x),
    decreases r.len(),
{
    let out = sorted_insert(r, x);
    if r.len() == 0 {
        assert(out[0] == x);
    } else if r[0] == x {
    } else if seq_lt(x, r[0]) {
        assert forall|i: int, j: int| 0 <= i < j < out.len() implies seq_lt(#[trigger] out[i], #[trigger] out[j]) by {
            if i == 0 {
                if j > 1 {
                    lemma_seq_lt_transitive(x, r[0], r[j - 1]);
                }
            } else {
                assert(out[i] == r[i - 1] && out[j] == r[j - 1]);
            }
        }
        assert forall|y: Seq<char>| #[trigger] out.contains(y) <==> (r.contains(y) || y == x) by {
            if out.contains(y) {
                let k = choose|k: int| 0 <= k < out.len() && out[k] == y;
                if k > 0 {
                    assert(r[k - 1] == y);
                }
            }
            if r.contains(y) {
                let k = choose|k: int| 0 <= k < r.len() && r[k] == y;
                assert(out[k + 1] == y);
            }
            if y == x {
                assert(out[0] == y);
            }
        }
    } else {
        let t = r.drop_first();
        assert forall|i: int, j: int| 0 <= i < j < t.len() implies seq_lt(#[trigger] t[i], #[trigger] t[j]) by {
            assert(t[i] == r[i + 1] && t[j] == r[j + 1]);
        }
        lemma_sorted_insert(t, x);
        let si = sorted_insert(t, x);
        assert(out == seq![r[0]] + si);
        lemma_seq_lt_total(x, r[0]);
        assert(seq_lt(r[0], x));
        assert forall|i: int, j: int| 0 <= i < j < out.len() implies seq_lt(#[trigger] out[i], #[trigger] out[j]) by {
            if i == 0 {
                assert(out[j] == si[j - 1]);
                assert(si.contains(si[j - 1]));
                if t.contains(si[j - 1]) {
                    let k = choose|k: int| 0 <= k < t.len() && t[k] == si[j - 1];
                    assert(r[k + 1] == si[j - 1]);
                }
            } else {
                assert(out[i] == si[i - 1] && out[j] == si[j - 1]);
            }
        }
        assert forall|y: Seq<char>| #[trigger] out.contains(y) <==> (r.contains(y) || y == x) by {
            if out.contains(y) {
                let k = choose|k: int| 0 <= k < out.len() && out[k] == y;
                if k > 0 {
                    assert(si[k - 1] == y);
                    assert(si.contains(y));
                    if t.contains(y) {
                        let m = choose|m: int| 0 <= m < t.len() && t[m] == y;
                        assert(r[m + 1] == y);
                    }
                }
            }
            if r.contains(y) {
                let k = choose|k: int| 0 <= k < r.len() && r[k] == y;
                if k > 0 {
                    assert(t[k - 1] == y);
                    assert(si.contains(y));
                    let m = choose|m: int| 0 <= m < si.len() && si[m] == y;
                    assert(out[m + 1] == y);
                }
            }
            if y == x {
                assert(si.contains(x));
                let m = choose|m: int| 0 <= m < si.len() && si[m] == x;
                assert(out[m + 1] == x);
            }
        }
    }
}

/// Every finite set of strings has its increasing listing.
pub proof fn lemma_sorted_elems(s: Set<Seq<char>>)
    requires
        s.finite(),
    ensures
        lists_sorted(sorted_elems(s), s),
    decreases s.len(),
{
    if s.len() == 0 {
        let r = Seq::<Seq<char>>::empty();
        assert forall|x: Seq<char>| #[trigger] r.contains(x) <==> s.contains(x) by {
            if s.contains(x) {
                assert(s.len() > 0);
            }
        }
        assert(lists_sorted(r, s));
    } else {
        let x = s.choose();
        let rest = s.remove(x);
        lemma_sorted_elems(rest);
        let r = sorted_insert(sorted_elems(rest), x);
        lemma_sorted_insert(sorted_elems(rest), x);
        assert forall|y: Seq<char>| #[trigger] r.contains(y) <==> s.contains(y) by {
            assert(sorted_elems(rest).contains(y) <==> rest.contains(y));
        }
        assert(lists_sorted(r, s));
    }
}

/// The members of `a` that `b` lacks, listed once each in increasing
/// order: exactly those of `a` not in `b`.
pub proof fn lemma_sorted_minus(a: Seq<Seq<char>>, b: Seq<Seq<char>>)
    ensures
        strictly_sorted(sorted_minus(a, b)),
        forall|t: Seq<char>| #[trigger] sorted_minus(a, b).contains(t) <==> (a.contains(t) && !b.contains(t)),
{
    vstd::seq_lib::seq_to_set_is_finite(a);
    vstd::set::axiom_set_difference_finite(a.to_set(), b.to_set());
    lemma_sorted_elems(a.to_set().difference(b.to_set()));
}

/// A set has at most one increasing listing.
pub proof fn lemma_lists_sorted_unique(r1: Seq<Seq<char>>, r2: Seq<Seq<char>>, s: Set<Seq<char>>)
    requires
        lists_sorted(r1, s),
        lists_sorted(r2, s),
    ensures
        r1 == r2,
    decreases r1.len(),
{
    if r1.len() == 0 {
        if r2.len() > 0 {
            assert(r2.contains(r2[0]));
            assert(s.contains(r2[0]));
            assert(r1.contains(r2[0]));
        }
        assert(r1 =~= r2);
    } else {
        assert(r1.contains(r1[0]));
        assert(s.contains(r1[0]));
        assert(r2.contains(r1[0]));
        assert(r2.len() > 0);
        assert(r2.contains(r2[0]));
        let a = r1[0];
        let b = r2[0];
        if a != b {
            lemma_seq_lt_total(a, b);
            assert(s.contains(a) && s.contains(b));
            assert(r2.contains(a) && r1.contains(b));
            let k2 = choose|k: int| 0 <= k < r2.len() && r2[k] == a;
            let k1 = choose|k: int| 0 <= k < r1.len() && r1[k] == b;
            if seq_lt(a, b) {
                // a sits after b in r2, so b < a
                assert(k2 > 0);
                assert(seq_lt(r2[0], r2[k2]));
            } else {
                assert(k1 > 0);
                assert(seq_lt(r1[0], r1[k1]));
            }
        }
        let t1 = r1.drop_first();
        let t2 = r2.drop_first();
        let s2 = s.remove(a);
        assert forall|x: Seq<char>| #[trigger] t1.contains(x) <==> s2.contains(x) by {
            if t1.contains(x) {
                let k = choose|k: int| 0 <= k < t1.len() && t1[k] == x;
                assert(r1[k + 1] == x);
                assert(r1.contains(x));
                assert(seq_lt(r1[0], r1[k + 1]));
                lemma_seq_lt_irreflexive(x);
            }
            if s2.contains(x) {
                assert(r1.contains(x));
                let k = choose|k: int| 0 <= k < r1.len() && r1[k] == x;
                assert(k != 0);
                assert(t1[k - 1] == x);
            }
        }
        assert forall|x: Seq<char>| #[trigger] t2.contains(x) <==> s2.contains(x) by {
            if t2.contains(x) {
                let k = choose|k: int| 0 <= k < t2.len() && t2[k] == x;
                assert(r2[k + 1] == x);
                assert(r2.contains(x));
                assert(seq_lt(r2[0], r2[k + 1]));
                lemma_seq_lt_irreflexive(x);
            }
            if s2.contains(x) {
                assert(r2.contains(x));
                let k = choose|k: int| 0 <= k < r2.len() && r2[k] == x;
                assert(k != 0);
                assert(t2[k - 1] == x);
            }
        }
        assert(strictly_sorted(t1)) by {
            assert forall|i: int, j: int| 0 <= i < j < t1.len() implies seq_lt(#[trigger] t1[i], #[trigger] t1[j]) by {
                assert(t1[i] == r1[i + 1] && t1[j] == r1[j + 1]);
            }
        }
        assert(strictly_sorted(t2)) by {
            assert forall|i: int, j: int| 0 <= i < j < t2.len() implies seq_lt(#[trigger] t2[i], #[trigger] t2[j]) by {
                assert(t2[i] == r2[i + 1] && t2[j] == r2[j + 1]);
            }
        }
        lemma_lists_sorted_unique(t1, t2, s2);
        assert(r1 =~= seq![a] + t1);
        assert(r2 =~= seq![b] + t2);
    }
}

/// Membership after a push.
pub proof fn lemma_push_contains<T>(p: Seq<T>, e: T, y: T)
    ensures
        p.push(e).contains(y) <==> (p.contains(y) || y == e),
{
    if p.push(e).contains(y) {
        let k = choose|k: int| 0 <= k < p.push(e).len() && p.push(e)[k] == y;
        if k < p.len() {
            assert(p[k] == y);
        }
    }
    if p.contains(y) {
        let k = choose|k: int| 0 <= k < p.len() && p[k] == y;
        assert(p.push(e)[k] == y);
    }
    if y == e {
        assert(p.push(e)[p.len() as int] == y);
    }
}

/// Strings sorted by their one-component key are strictly sorted.
pub proof fn lemma_sorted_strings(v: Seq<String>)
    requires
        sorted_by_key(v),
    ensures
        strictly_sorted(strs_view(v)),
{
    assert forall|i: int, j: int| 0 <= i < j < strs_view(v).len() implies seq_lt(
        #[trigger] strs_view(v)[i],
        #[trigger] strs_view(v)[j],
    ) by {
        lemma_one_component(v[i]@, v[j]@);
        assert(crate::text::key_lt(v[i].key(), v[j].key()));
        assert(strs_view(v)[i] == v[i]@ && strs_view(v)[j] == v[j]@);
    }
}

/// Whether `v` holds a string equal to `x`.
pub fn contains_str(v: &Vec<String>, x: &str) -> (r: bool)
    ensures
        r == strs_view(v@).contains(x@),
{
    let mut i: usize = 0;
    while i < v.len()
        invariant
            i <= v@.len(),
            forall|j: int| 0 <= j < i ==> (#[trigger] v@[j])@ != x@,
        decreases v.len() - i,
    {
        if str_eq(v[i].as_str(), x) {
            proof {
                assert(strs_view(v@)[i as int] == x@);
            }
            return true;
        }
        i = i + 1;
    }
    proof {
        if strs_view(v@).contains(x@) {
            let k = choose|k: int| 0 <= k < strs_view(v@).len() && strs_view(v@)[k] == x@;
            assert(v@[k]@ == x@);
        }
    }
    false
}

/// Add `x` to a sorted set of strings.
pub fn insert_str(out: &mut Vec<String>, x: String)
    requires
        sorted_by_key(old(out)@),
    ensures
        sorted_by_key(final(out)@),
        forall|y: Seq<char>|
            #[trigger] strs_view(final(out)@).contains(y) <==> (strs_view(old(out)@).contains(y) || y == x@),
{
    let ghost before = out@;
    let ghost xv = x;
    insert_sorted(out, x, false);
    proof {
        assert forall|y: Seq<char>|
            #[trigger] strs_view(out@).contains(y) <==> (strs_view(before).contains(y) || y == xv@) by {
            if strs_view(out@).contains(y) {
                let k = choose|k: int| 0 <= k < strs_view(out@).len() && strs_view(out@)[k] == y;
                if before.contains(out@[k]) {
                    let m = choose|m: int| 0 <= m < before.len() && before[m] == out@[k];
                    assert(strs_view(before)[m] == y);
                }
            }
            if strs_view(before).contains(y) {
                let m = choose|m: int| 0 <= m < strs_view(before).len() && strs_view(before)[m] == y;
                assert(out@.contains(before[m]));
                let k = choose|k: int| 0 <= k < out@.len() && out@[k] == before[m];
                assert(strs_view(out@)[k] == y);
            }
            if y == xv@ && !strs_view(before).contains(y) {
                if has_key(before, xv.key()) {
                    let m = choose|m: int| 0 <= m < before.len() && #[trigger] before[m].key() == xv.key();
                    assert(before[m].key()[0] == xv.key()[0]);
                    assert(strs_view(before)[m] == y);
                }
                assert(out@.contains(xv));
                let k = choose|k: int| 0 <= k < out@.len() && out@[k] == xv;
                assert(strs_view(out@)[k] == y);
            }
        }
    }
}

/// The members of `a` that `b` lacks, as a sorted set.
pub fn set_minus(a: &Vec<String>, b: &Vec<String>) -> (r: Vec<String>)
    ensures
        sorted_by_key(r@),
        lists_sorted(strs_view(r@), strs_view(a@).to_set().difference(strs_view(b@).to_set())),
        strs_view(r@) == sorted_minus(strs_view(a@), strs_view(b@)),
{
    let mut out: Vec<String> = Vec::new();
    let mut i: usize = 0;
    while i < a.len()
        invariant
            i <= a@.len(),
            sorted_by_key(out@),
            forall|y: Seq<char>|
                #[trigger] strs_view(out@).contains(y) <==> (strs_view(a@.take(i as int)).contains(y)
                    && !strs_view(b@).contains(y)),
        decreases a.len() - i,
    {
        let ghost prev = out@;
        proof {
            assert(strs_view(a@.take(i + 1)) =~= strs_view(a@.take(i as int)).push(a@[i as int]@));
        }
        let skip = contains_str(b, a[i].as_str());
        if !skip {
            insert_str(&mut out, a[i].clone());
        }
        proof {
            assert forall|y: Seq<char>|
                #[trigger] strs_view(out@).contains(y) <==> (strs_view(a@.take(i + 1)).contains(y)
                    && !strs_view(b@).contains(y)) by {
                assert(strs_view(prev).contains(y) <==> (strs_view(a@.take(i as int)).contains(y)
                    && !strs_view(b@).contains(y)));
                lemma_push_contains(strs_view(a@.take(i as int)), a@[i as int]@, y);
            }
        }
        i = i + 1;
    }
    let ghost s = strs_view(a@).to_set().difference(strs_view(b@).to_set());
    proof {
        assert(a@.take(a@.len() as int) =~= a@);
        lemma_sorted_strings(out@);
        assert forall|x: Seq<char>| #[trigger] strs_view(out@).contains(x) <==> s.contains(x) by {}
        assert(lists_sorted(strs_view(out@), s));
        lemma_lists_sorted_unique(strs_view(out@), sorted_elems(s), s);
    }
    out
}

} // verus!
