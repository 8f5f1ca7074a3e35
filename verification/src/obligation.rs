//! The stateless proof obligation shared by patch validation and review.

use vstd::prelude::*;

use crate::sorted::{has_key, insert_sorted, sorted_by_key, Keyed};
use crate::text::str_eq;

verus! {

/// What must be proven about one Knowledge Object, and with which
/// evidence.
#[derive(Debug, Clone, PartialEq, Eq)]
pub struct ProofObligation {
    pub object_id: String,
    pub reason: String,
    pub required_evidence: Vec<String>,
}

impl Keyed for ProofObligation {
    open spec fn key(&self) -> Seq<Seq<char>> {
        seq![self.object_id@, self.reason@]
    }

    fn key_less(&self, other: &Self) -> (r: bool) {
        proof { lemma_key2(self.object_id@, self.reason@, other.object_id@, other.reason@); }
        if !str_eq(self.object_id.as_str(), other.object_id.as_str()) {
            crate::text::str_lt(self.object_id.as_str(), other.object_id.as_str())
        } else {
            crate::text::str_lt(self.reason.as_str(), other.reason.as_str())
        }
    }
}

/// Two-component keys order by the first differing component.
pub proof fn lemma_key2(a0: Seq<char>, a1: Seq<char>, b0: Seq<char>, b1: Seq<char>)
    ensures
        crate::text::key_lt(seq![a0, a1], seq![b0, b1]) == if a0 != b0 {
            crate::text::seq_lt(a0, b0)
        } else {
            crate::text::seq_lt(a1, b1)
        },
{
    reveal_with_fuel(crate::text::key_lt, 3);
    let a = seq![a0, a1];
    let b = seq![b0, b1];
    assert(a.drop_first() =~= seq![a1]);
    assert(b.drop_first() =~= seq![b1]);
    assert(a.drop_first().drop_first() =~= Seq::<Seq<char>>::empty());
    assert(b.drop_first().drop_first() =~= Seq::<Seq<char>>::empty());
    if a1 == b1 {
        crate::text::lemma_seq_lt_irreflexive(a1);
    }
}

/// Position `j` holds the first element of `s` with its key.
pub open spec fn is_first_occurrence<T: Keyed>(s: Seq<T>, j: int) -> bool {
    0 <= j < s.len() && forall|k: int| 0 <= k < j ==> (#[trigger] s[k]).key() != s[j].key()
}

/// `out` is the key-ordered list of the first occurrence of every key of
/// `input`.
pub open spec fn first_occurrences_sorted<T: Keyed>(out: Seq<T>, input: Seq<T>) -> bool {
    &&& sorted_by_key(out)
    &&& forall|i: int| 0 <= i < out.len() ==> exists|j: int| is_first_occurrence(input, j) && input[j] == #[trigger] out[i]
    &&& forall|j: int| 0 <= j < input.len() ==> has_key(out, (#[trigger] input[j]).key())
}

impl ProofObligation {
    /// Merge obligations into a deterministic deduplicated list: an
    /// `(object_id, reason)` pair seen again is dropped (first occurrence
    /// wins), and the result is sorted by `(object_id, reason)`.
    pub fn merge_dedup_sorted(obligations: Vec<Self>) -> (r: Vec<Self>)
        ensures
            first_occurrences_sorted(r@, obligations@),
    {
        let ghost all = obligations@;
        let mut rest = obligations;
        let mut out: Vec<Self> = Vec::new();
        let mut n: usize = 0;
        let total = rest.len();
        while rest.len() > 0
            invariant
                total == all.len(),
                n + rest@.len() == all.len(),
                rest@ == all.skip(n as int),
                first_occurrences_sorted(out@, all.take(n as int)),
            decreases rest.len(),
        {
            let x = rest.remove(0);
            let ghost before = out@;
            let ghost pre = all.take(n as int);
            let ghost post = all.take(n + 1);
            proof {
                assert(x == all[n as int]);
                assert(post =~= pre.push(x));
            }
            insert_sorted(&mut out, x, false);
            proof {
                assert forall|i: int| 0 <= i < out@.len() implies exists|j: int|
                    is_first_occurrence(post, j) && post[j] == #[trigger] out@[i] by {
                    if before.contains(out@[i]) {
                        let m = choose|m: int| 0 <= m < before.len() && before[m] == out@[i];
                        let j = choose|j: int| is_first_occurrence(pre, j) && pre[j] == #[trigger] before[m];
                        assert(post[j] == pre[j]);
                        assert forall|k: int| 0 <= k < j implies (#[trigger] post[k]).key() != post[j].key() by {
                            assert(post[k] == pre[k]);
                        }
                    } else {
                        assert(out@[i] == x);
                        assert(!has_key(before, x.key())) by {
                            if has_key(before, x.key()) {
                                assert(out@[i].key() == x.key());
                            }
                        }
                        assert forall|k: int| 0 <= k < n implies (#[trigger] post[k]).key() != post[n as int].key() by {
                            assert(post[k] == pre[k]);
                            assert(has_key(before, pre[k].key()));
                        }
                        assert(is_first_occurrence(post, n as int));
                    }
                }
                assert forall|j: int| 0 <= j < post.len() implies has_key(out@, (#[trigger] post[j]).key()) by {
                    if j < n {
                        assert(post[j] == pre[j]);
                        assert(has_key(before, pre[j].key()));
                        let m = choose|m: int| 0 <= m < before.len() && #[trigger] before[m].key() == pre[j].key();
                        assert(out@.contains(before[m]));
                        let w = choose|w: int| 0 <= w < out@.len() && out@[w] == before[m];
                        assert(out@[w].key() == post[j].key());
                    } else {
                        if has_key(before, x.key()) {
                            let m = choose|m: int| 0 <= m < before.len() && #[trigger] before[m].key() == x.key();
                            assert(out@.contains(before[m]));
                            let w = choose|w: int| 0 <= w < out@.len() && out@[w] == before[m];
                            assert(out@[w].key() == post[j].key());
                        } else {
                            let w = choose|w: int| 0 <= w < out@.len() && out@[w] == x;
                            assert(out@[w].key() == post[j].key());
                        }
                    }
                }
            }
            n = n + 1;
            proof {
                assert(rest@ =~= all.skip(n as int));
            }
        }
        proof {
            assert(all.take(n as int) =~= all);
        }
        out
    }
}

} // verus!
