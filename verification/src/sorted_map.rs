//! Ordered maps kept as key-sorted vectors of entries: the shape a
//! `BTreeMap` has when walked, stated as a `Map` from key to value view.

use vstd::prelude::*;

use crate::sorted::{has_key, insert_sorted, lemma_sorted_key_unique, sorted_by_key, Keyed};
use crate::text::{key_lt, lemma_key_lt_irreflexive, lemma_key_lt_total};

verus! {

/// A map entry: a key (through `Keyed`) and the view of its value.
pub trait MapEntry: Keyed {
    type Val;

    spec fn val(&self) -> Self::Val;
}

/// The entries as a map from key to value; a later entry overrides an
/// earlier one with the same key (in a sorted sequence there is none).
pub open spec fn entry_map<T: MapEntry>(s: Seq<T>) -> Map<Seq<Seq<char>>, T::Val>
    decreases s.len(),
{
    if s.len() == 0 {
        Map::empty()
    } else {
        entry_map(s.drop_last()).insert(s.last().key(), s.last().val())
    }
}

pub proof fn lemma_entry_map_keys<T: MapEntry>(s: Seq<T>, k: Seq<Seq<char>>)
    ensures
        entry_map(s).contains_key(k) <==> has_key(s, k),
    decreases s.len(),
{
    if s.len() > 0 {
        lemma_entry_map_keys(s.drop_last(), k);
        if has_key(s.drop_last(), k) {
            let i = choose|i: int| 0 <= i < s.drop_last().len() && #[trigger] s.drop_last()[i].key() == k;
            assert(s[i] == s.drop_last()[i]);
        }
        if has_key(s, k) && s.last().key() != k {
            let i = choose|i: int| 0 <= i < s.len() && #[trigger] s[i].key() == k;
            assert(s.drop_last()[i] == s[i]);
        }
        if s.last().key() == k {
            assert(s[s.len() - 1].key() == k);
        }
    }
}

pub proof fn lemma_entry_map_get<T: MapEntry>(s: Seq<T>, i: int)
    requires
        sorted_by_key(s),
        0 <= i < s.len(),
    ensures
        entry_map(s).contains_key(s[i].key()),
        entry_map(s)[s[i].key()] == s[i].val(),
    decreases s.len(),
{
    if i < s.len() - 1 {
        let t = s.drop_last();
        assert(sorted_by_key(t)) by {
            assert forall|a: int, b: int| 0 <= a < b < t.len() implies key_lt(#[trigger] t[a].key(), #[trigger] t[b].key()) by {
                assert(t[a] == s[a] && t[b] == s[b]);
            }
        }
        lemma_entry_map_get(t, i);
        assert(t[i] == s[i]);
        if s.last().key() == s[i].key() {
            lemma_sorted_key_unique(s, i, s.len() - 1);
        }
    }
}

/// Insert or replace the entry under `x`'s key.
pub fn upsert<T: MapEntry>(v: &mut Vec<T>, x: T)
    requires
        sorted_by_key(old(v)@),
    ensures
        sorted_by_key(final(v)@),
        entry_map(final(v)@) == entry_map(old(v)@).insert(x.key(), x.val()),
        forall|i: int| 0 <= i < final(v)@.len() ==> old(v)@.contains(#[trigger] final(v)@[i]) || final(v)@[i] == x,
{
    let ghost before = v@;
    let ghost xv = x;
    insert_sorted(v, x, true);
    proof {
        let after = v@;
        let expected = entry_map(before).insert(xv.key(), xv.val());
        assert forall|k: Seq<Seq<char>>| #[trigger] entry_map(after).contains_key(k) <==> expected.contains_key(k) by {
            lemma_entry_map_keys(after, k);
            lemma_entry_map_keys(before, k);
            if has_key(before, k) && k != xv.key() {
                let i = choose|i: int| 0 <= i < before.len() && #[trigger] before[i].key() == k;
                assert(after.contains(before[i]));
                let j = choose|j: int| 0 <= j < after.len() && after[j] == before[i];
                assert(after[j].key() == k);
            }
            if k == xv.key() {
                assert(after.contains(xv));
                let j = choose|j: int| 0 <= j < after.len() && after[j] == xv;
                assert(after[j].key() == k);
            }
            if has_key(after, k) && k != xv.key() {
                let j = choose|j: int| 0 <= j < after.len() && #[trigger] after[j].key() == k;
                assert(before.contains(after[j]) || after[j] == xv);
                let i = choose|i: int| 0 <= i < before.len() && before[i] == after[j];
                assert(before[i].key() == k);
            }
        }
        assert forall|k: Seq<Seq<char>>| #[trigger] entry_map(after).contains_key(k) implies entry_map(after)[k]
            == expected[k] by {
            lemma_entry_map_keys(after, k);
            let j = choose|j: int| 0 <= j < after.len() && #[trigger] after[j].key() == k;
            lemma_entry_map_get(after, j);
            if k == xv.key() {
                assert(after[j] == xv);
            } else {
                assert(before.contains(after[j]) || after[j] == xv);
                let i = choose|i: int| 0 <= i < before.len() && before[i] == after[j];
                lemma_entry_map_get(before, i);
            }
        }
        assert(entry_map(after) =~= expected);
    }
}

/// The position of the entry carrying `probe`'s key.
pub fn index_of_key<T: Keyed>(v: &Vec<T>, probe: &T) -> (r: Option<usize>)
    requires
        sorted_by_key(v@),
    ensures
        match r {
            Some(i) => i < v@.len() && v@[i as int].key() == probe.key(),
            None => !has_key(v@, probe.key()),
        },
{
    let mut i: usize = 0;
    while i < v.len()
        invariant
            i <= v@.len(),
            forall|j: int| 0 <= j < i ==> (#[trigger] v@[j]).key() != probe.key(),
        decreases v.len() - i,
    {
        let less = v[i].key_less(probe);
        let more = probe.key_less(&v[i]);
        if !less && !more {
            proof {
                lemma_key_lt_total(v@[i as int].key(), probe.key());
            }
            return Some(i);
        }
        proof {
            if v@[i as int].key() == probe.key() {
                lemma_key_lt_irreflexive(probe.key());
            }
        }
        i = i + 1;
    }
    None
}

} // verus!
