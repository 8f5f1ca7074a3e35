//! Object ID prefix pinning and the merge of pinned and scored results.
//!
//! A query that is a prefix of Object IDs pins those objects above the
//! scored results: shorter IDs first, then in lexicographic order. Pins
//! never consume the scored budget.

use vstd::prelude::*;

use crate::graph::strs_view;
use crate::migration::utf8_len;
use crate::string_set::contains_str;
use crate::text::{chars_of, lemma_seq_lt_irreflexive, lemma_seq_lt_transitive, occurs_at, owned, seq_lt, str_lt, str_starts_with};

verus! {

/// `a` pins before `b`: fewer UTF-8 bytes, or as many and lexicographically
/// smaller.
pub open spec fn pin_lt(a: Seq<char>, b: Seq<char>) -> bool {
    utf8_len(a) < utf8_len(b) || (utf8_len(a) == utf8_len(b) && seq_lt(a, b))
}

/// No later element pins before an earlier one.
pub open spec fn pin_sorted(s: Seq<Seq<char>>) -> bool {
    forall|i: int, j: int| 0 <= i < j < s.len() ==> !pin_lt(#[trigger] s[j], #[trigger] s[i])
}

/// The characters of each borrowed string.
pub open spec fn strs_of(v: Seq<&str>) -> Seq<Seq<char>> {
    v.map_values(|s: &str| s@)
}

/// The candidates that start with the query, in candidate order.
pub open spec fn prefix_matches(query: Seq<char>, ids: Seq<Seq<char>>) -> Seq<Seq<char>> {
    ids.filter(|id: Seq<char>| occurs_at(id, query, 0))
}

proof fn lemma_pin_lt_asymmetric(a: Seq<char>, b: Seq<char>)
    ensures
        !(pin_lt(a, b) && pin_lt(b, a)),
{
    if pin_lt(a, b) && pin_lt(b, a) {
        lemma_seq_lt_transitive(a, b, a);
        lemma_seq_lt_irreflexive(a);
    }
}

proof fn lemma_pin_lt_transitive(a: Seq<char>, b: Seq<char>, c: Seq<char>)
    requires
        pin_lt(a, b),
        pin_lt(b, c),
    ensures
        pin_lt(a, c),
{
    if utf8_len(a) == utf8_len(b) && utf8_len(b) == utf8_len(c) {
        lemma_seq_lt_transitive(a, b, c);
    }
}

/// Inserting `x` after every element that does not pin after it, and
/// before one that does, keeps the order.
proof fn lemma_insert_keeps_pin_sorted(before: Seq<Seq<char>>, p: int, x: Seq<char>)
    requires
        pin_sorted(before),
        0 <= p <= before.len(),
        forall|k: int| 0 <= k < p ==> !pin_lt(x, #[trigger] before[k]),
        p < before.len() ==> pin_lt(x, before[p]),
    ensures
        pin_sorted(before.insert(p, x)),
{
    let s = before.insert(p, x);
    assert forall|i: int, j: int| 0 <= i < j < s.len() implies !pin_lt(#[trigger] s[j], #[trigger] s[i]) by {
        if j < p {
            assert(s[i] == before[i] && s[j] == before[j]);
        } else if j == p {
            assert(s[j] == x && s[i] == before[i]);
        } else if i == p {
            assert(s[i] == x && s[j] == before[j - 1]);
            if pin_lt(before[j - 1], x) {
                if j - 1 == p {
                    lemma_pin_lt_asymmetric(x, before[p]);
                } else {
                    lemma_pin_lt_transitive(before[j - 1], x, before[p]);
                    assert(!pin_lt(before[j - 1], before[p]));
                }
            }
        } else if i < p {
            assert(s[i] == before[i] && s[j] == before[j - 1]);
        } else {
            assert(s[i] == before[i - 1] && s[j] == before[j - 1]);
        }
    }
}

/// The UTF-8 byte length of `s`.
fn utf8_byte_len(s: &str) -> (r: u128)
    ensures
        r == utf8_len(s@),
{
    let cs = chars_of(s);
    let mut n: u128 = 0;
    let mut i: usize = 0;
    while i < cs.len()
        invariant
            cs@ == s@,
            i <= cs@.len(),
            n == utf8_len(cs@.take(i as int)),
            n <= 4 * i,
        decreases cs.len() - i,
    {
        proof {
            assert(cs@.take(i + 1).drop_last() =~= cs@.take(i as int));
        }
        let c = cs[i];
        let v = c as u32;
        let w: u128 = if v < 0x80 {
            1
        } else if v < 0x800 {
            2
        } else if v < 0x10000 {
            3
        } else {
            4
        };
        n = n + w;
        i = i + 1;
    }
    proof {
        assert(cs@.take(cs@.len() as int) =~= cs@);
    }
    n
}

fn pins_before(a: &str, b: &str) -> (r: bool)
    ensures
        r == pin_lt(a@, b@),
{
    let la = utf8_byte_len(a);
    let lb = utf8_byte_len(b);
    la < lb || (la == lb && str_lt(a, b))
}

/// The candidates that start with `query_text`, shorter first, then in
/// lexicographic order; none for an empty query.
pub fn pinned_candidate_ids(query_text: &str, candidate_ids: &[&str]) -> (r: Vec<String>)
    ensures
        query_text@.len() == 0 ==> r@.len() == 0,
        query_text@.len() > 0 ==> strs_view(r@).to_multiset() == prefix_matches(query_text@, strs_of(candidate_ids@)).to_multiset(),
        pin_sorted(strs_view(r@)),
{
    let mut out: Vec<String> = Vec::new();
    if query_text.is_empty() {
        proof {
            assert(strs_view(out@) =~= Seq::<Seq<char>>::empty());
        }
        return out;
    }
    let ghost ids = strs_of(candidate_ids@);
    let ghost pred = |id: Seq<char>| occurs_at(id, query_text@, 0);
    proof {
        broadcast use vstd::seq_lib::group_to_multiset_ensures;
        assert(ids.take(0) =~= Seq::<Seq<char>>::empty());
        ids.take(0).lemma_filter_len(pred);
        assert(ids.take(0).filter(pred).len() == 0);
        assert(ids.take(0).filter(pred).to_multiset() =~= vstd::multiset::Multiset::empty());
        assert(strs_view(out@).to_multiset() =~= vstd::multiset::Multiset::empty());
    }
    let mut i: usize = 0;
    while i < candidate_ids.len()
        invariant
            ids == strs_of(candidate_ids@),
            pred == (|id: Seq<char>| occurs_at(id, query_text@, 0)),
            i <= candidate_ids@.len(),
            pin_sorted(strs_view(out@)),
            strs_view(out@).to_multiset() == ids.take(i as int).filter(pred).to_multiset(),
        decreases candidate_ids.len() - i,
    {
        let id = candidate_ids[i];
        proof {
            assert(ids.take(i + 1) =~= ids.take(i as int).push(ids[i as int]));
            assert(ids[i as int] == id@);
            ids.take(i as int).lemma_filter_push(id@, pred);
        }
        let ghost prior = ids.take(i as int).filter(pred);
        if str_starts_with(id, query_text) {
            insert_pinned(&mut out, owned(id));
            proof {
                broadcast use vstd::seq_lib::group_to_multiset_ensures;
                assert(pred(id@));
                assert(prior.push(id@).to_multiset() =~= prior.to_multiset().insert(id@));
            }
        } else {
            proof {
                assert(!pred(id@));
            }
        }
        i = i + 1;
    }
    proof {
        assert(ids.take(candidate_ids@.len() as int) =~= ids);
    }
    out
}

/// The first position whose element pins after `x`, or the end.
fn insert_position(out: &Vec<String>, x: &str) -> (p: usize)
    ensures
        p <= out@.len(),
        forall|k: int| 0 <= k < p ==> !pin_lt(x@, #[trigger] strs_view(out@)[k]),
        p < out@.len() ==> pin_lt(x@, strs_view(out@)[p as int]),
{
    let mut p: usize = 0;
    while p < out.len()
        invariant
            p <= out@.len(),
            forall|k: int| 0 <= k < p ==> !pin_lt(x@, #[trigger] strs_view(out@)[k]),
        decreases out.len() - p,
    {
        if pins_before(x, out[p].as_str()) {
            return p;
        }
        p = p + 1;
    }
    p
}

/// Insert `x` after every element that does not pin after it.
fn insert_pinned(out: &mut Vec<String>, x: String)
    requires
        pin_sorted(strs_view(old(out)@)),
    ensures
        pin_sorted(strs_view(final(out)@)),
        strs_view(final(out)@).to_multiset() == strs_view(old(out)@).to_multiset().insert(x@),
{
    let ghost before = strs_view(out@);
    let ghost xv = x@;
    let p = insert_position(out, x.as_str());
    out.insert(p, x);
    proof {
        assert(strs_view(out@) =~= before.insert(p as int, xv));
        lemma_insert_keeps_pin_sorted(before, p as int, xv);
        assert(before.insert(p as int, xv) =~= before.take(p as int).push(xv) + before.skip(p as int));
        assert(before =~= before.take(p as int) + before.skip(p as int));
        vstd::seq_lib::lemma_multiset_commutative(before.take(p as int).push(xv), before.skip(p as int));
        vstd::seq_lib::lemma_multiset_commutative(before.take(p as int), before.skip(p as int));
        broadcast use vstd::seq_lib::group_to_multiset_ensures;
        assert(before.take(p as int).push(xv).to_multiset() =~= before.take(p as int).to_multiset().insert(xv));
    }
}

/// The first occurrence of each element, in order.
pub open spec fn distinct_in_order(s: Seq<Seq<char>>) -> Seq<Seq<char>>
    decreases s.len(),
{
    if s.len() == 0 {
        seq![]
    } else {
        let rest = distinct_in_order(s.drop_last());
        if rest.contains(s.last()) {
            rest
        } else {
            rest.push(s.last())
        }
    }
}

/// At most `budget` elements of `s` not in `seen`, in order, each once.
pub open spec fn take_unseen(s: Seq<Seq<char>>, seen: Set<Seq<char>>, budget: nat) -> Seq<Seq<char>>
    decreases s.len(),
{
    if s.len() == 0 || budget == 0 {
        seq![]
    } else if seen.contains(s[0]) {
        take_unseen(s.drop_first(), seen, budget)
    } else {
        seq![s[0]] + take_unseen(s.drop_first(), seen.insert(s[0]), (budget - 1) as nat)
    }
}

/// Pins first, each once; then scored items not already listed, each
/// once, until `top` of them are taken.
pub open spec fn merged(pinned: Seq<Seq<char>>, scored: Seq<Seq<char>>, top: nat) -> Seq<Seq<char>> {
    let p = distinct_in_order(pinned);
    p + take_unseen(scored, p.to_set(), top)
}

/// Merge pinned and scored result ids: pins first, each once; then scored
/// ids not already listed until `top` of them are taken. `top` bounds the
/// scored results only, so the result may exceed it by the pin count.
pub fn merge_pinned_then_scored(pinned: Vec<String>, scored: Vec<String>, top: usize) -> (r: Vec<String>)
    ensures
        strs_view(r@) == merged(strs_view(pinned@), strs_view(scored@), top as nat),
{
    let ghost pv = strs_view(pinned@);
    let ghost sv = strs_view(scored@);
    let mut results: Vec<String> = Vec::new();
    let mut i: usize = 0;
    while i < pinned.len()
        invariant
            pv == strs_view(pinned@),
            i <= pinned@.len(),
            strs_view(results@) == distinct_in_order(pv.take(i as int)),
        decreases pinned.len() - i,
    {
        proof {
            assert(pv.take(i + 1).drop_last() =~= pv.take(i as int));
            assert(pv.take(i + 1).last() == pv[i as int]);
            assert(pv[i as int] == pinned@[i as int]@);
        }
        if !contains_str(&results, pinned[i].as_str()) {
            let ghost before = strs_view(results@);
            results.push(pinned[i].clone());
            proof {
                assert(strs_view(results@) =~= before.push(pv[i as int]));
            }
        }
        i = i + 1;
    }
    proof {
        assert(pv.take(pinned@.len() as int) =~= pv);
        assert(sv.skip(0) =~= sv);
    }
    let ghost pins = strs_view(results@);
    let mut taken: usize = 0;
    let mut j: usize = 0;
    while j < scored.len() && taken < top
        invariant
            sv == strs_view(scored@),
            pins == distinct_in_order(pv),
            j <= scored@.len(),
            taken <= top,
            strs_view(results@) + take_unseen(sv.skip(j as int), strs_view(results@).to_set(), (top - taken) as nat)
                == pins + take_unseen(sv, pins.to_set(), top as nat),
        decreases scored.len() - j,
    {
        let ghost rest = sv.skip(j as int);
        let ghost seen = strs_view(results@).to_set();
        proof {
            assert(rest[0] == sv[j as int]);
            assert(rest.drop_first() =~= sv.skip(j + 1));
            assert(sv[j as int] == scored@[j as int]@);
        }
        if !contains_str(&results, scored[j].as_str()) {
            let ghost before = strs_view(results@);
            results.push(scored[j].clone());
            taken = taken + 1;
            proof {
                let after = strs_view(results@);
                let y = sv[j as int];
                assert(after =~= before.push(y));
                assert forall|x: Seq<char>| after.to_set().contains(x) <==> seen.insert(y).contains(x) by {
                    if before.contains(x) {
                        let k = choose|k: int| 0 <= k < before.len() && before[k] == x;
                        assert(after[k] == x);
                    }
                    if x == y {
                        assert(after[before.len() as int] == x);
                    }
                    if after.contains(x) {
                        let k = choose|k: int| 0 <= k < after.len() && after[k] == x;
                        if k < before.len() {
                            assert(before[k] == x);
                        }
                    }
                }
                assert(after.to_set() =~= seen.insert(y));
                assert(before + (seq![sv[j as int]] + take_unseen(sv.skip(j + 1), seen.insert(sv[j as int]), (top - taken) as nat))
                    =~= before.push(sv[j as int]) + take_unseen(sv.skip(j + 1), seen.insert(sv[j as int]), (top - taken) as nat));
            }
        } else {
            proof {
                assert(seen.contains(sv[j as int]));
            }
        }
        j = j + 1;
    }
    proof {
        if j >= scored@.len() {
            assert(sv.skip(j as int).len() == 0);
        }
        assert(take_unseen(sv.skip(j as int), strs_view(results@).to_set(), (top - taken) as nat) =~= seq![]);
        assert(strs_view(results@) + seq![] =~= strs_view(results@));
    }
    results
}

// ---- laws ----

proof fn lemma_take_unseen_budget(s: Seq<Seq<char>>, seen: Set<Seq<char>>, budget: nat)
    ensures
        take_unseen(s, seen, budget).len() <= budget,
        forall|x: Seq<char>| #[trigger] take_unseen(s, seen, budget).contains(x) ==> !seen.contains(x),
    decreases s.len(),
{
    if s.len() == 0 || budget == 0 {
    } else if seen.contains(s[0]) {
        lemma_take_unseen_budget(s.drop_first(), seen, budget);
    } else {
        lemma_take_unseen_budget(s.drop_first(), seen.insert(s[0]), (budget - 1) as nat);
        let rest = take_unseen(s.drop_first(), seen.insert(s[0]), (budget - 1) as nat);
        assert forall|x: Seq<char>| #[trigger] (seq![s[0]] + rest).contains(x) implies !seen.contains(x) by {
            let k = choose|k: int| 0 <= k < (seq![s[0]] + rest).len() && (seq![s[0]] + rest)[k] == x;
            if k > 0 {
                assert(rest[k - 1] == x);
                assert(rest.contains(x));
            }
        }
    }
}

/// Pins ride above the scored budget: the merged list starts with every
/// pin once, and adds at most `top` scored ids, none of them a pin.
pub proof fn lemma_pins_never_consume_budget(pinned: Seq<Seq<char>>, scored: Seq<Seq<char>>, top: nat)
    ensures
        merged(pinned, scored, top).subrange(0, distinct_in_order(pinned).len() as int) == distinct_in_order(pinned),
        merged(pinned, scored, top).len() <= distinct_in_order(pinned).len() + top,
        forall|k: int|
            distinct_in_order(pinned).len() <= k < merged(pinned, scored, top).len() ==> !distinct_in_order(
                pinned,
            ).contains(#[trigger] merged(pinned, scored, top)[k]),
{
    let p = distinct_in_order(pinned);
    let rest = take_unseen(scored, p.to_set(), top);
    lemma_take_unseen_budget(scored, p.to_set(), top);
    assert((p + rest).subrange(0, p.len() as int) =~= p);
    assert forall|k: int| p.len() <= k < (p + rest).len() implies !p.contains(#[trigger] (p + rest)[k]) by {
        assert((p + rest)[k] == rest[k - p.len()]);
        assert(rest.contains(rest[k - p.len()]));
    }
}

} // verus!
