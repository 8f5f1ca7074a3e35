//! The counting side of the lexical index: the tokens of a text and of an
//! object, each document's term frequencies and token count, and how many
//! documents hold each term. The BM25 scores computed from these counts
//! are floating point and are not part of this module.

use vstd::prelude::*;

use crate::graph::{strs_view, GraphKnowledgeObjectNode};
use crate::retrieval::metadata::{indexed_field_values, inline_values};
use crate::sorted::{has_key, insert_sorted, lemma_sorted_key_unique, sorted_by_key, Keyed};
use crate::text::{chars_of, str_eq, str_lt};

verus! {

broadcast use vstd::string::group_string_axioms;

/// `char::is_alphanumeric`.
pub uninterp spec fn alphanumeric(c: char) -> bool;

/// `char::to_lowercase`, as a string.
pub uninterp spec fn char_lowercase(c: char) -> Seq<char>;

/// `char::is_alphanumeric`: whether the character is Unicode alphabetic or
/// numeric. The result is named; the Unicode tables are left unsaid.
#[verifier::external_body]
fn is_alphanumeric(c: char) -> (r: bool)
    ensures
        r == alphanumeric(c),
{
    c.is_alphanumeric()
}

/// `char::to_lowercase`, collected into a string: the character's
/// lowercase mapping. The result is named; the mapping is left unsaid.
#[verifier::external_body]
fn lowercase_of(c: char) -> (r: String)
    ensures
        r@ == char_lowercase(c),
{
    c.to_lowercase().collect()
}

/// The tokens finished so far and the token being read, after `s`.
pub open spec fn scan(s: Seq<char>) -> (Seq<Seq<char>>, Seq<char>)
    decreases s.len(),
{
    if s.len() == 0 {
        (seq![], seq![])
    } else {
        let prior = scan(s.drop_last());
        let c = s.last();
        if alphanumeric(c) {
            (prior.0, prior.1 + char_lowercase(c))
        } else if prior.1.len() > 0 {
            (prior.0.push(prior.1), seq![])
        } else {
            prior
        }
    }
}

/// The tokens of a text: its maximal runs of alphanumeric characters,
/// lowercased.
pub open spec fn tokens(s: Seq<char>) -> Seq<Seq<char>> {
    let end = scan(s);
    if end.1.len() > 0 {
        end.0.push(end.1)
    } else {
        end.0
    }
}

/// Split `text` into lowercased alphanumeric tokens.
pub fn tokenize(text: &str) -> (r: Vec<String>)
    ensures
        strs_view(r@) == tokens(text@),
{
    let cs = chars_of(text);
    let mut out: Vec<String> = Vec::new();
    let mut current = String::new();
    let mut i: usize = 0;
    while i < cs.len()
        invariant
            cs@ == text@,
            i <= cs@.len(),
            (strs_view(out@), current@) == scan(cs@.take(i as int)),
        decreases cs.len() - i,
    {
        proof {
            assert(cs@.take(i + 1).drop_last() =~= cs@.take(i as int));
            assert(cs@.take(i + 1).last() == cs@[i as int]);
        }
        let c = cs[i];
        if is_alphanumeric(c) {
            let lower = lowercase_of(c);
            current.append(lower.as_str());
        } else if !current.as_str().is_empty() {
            let ghost before = strs_view(out@);
            let ghost cur = current@;
            out.push(current);
            current = String::new();
            proof {
                assert(strs_view(out@) =~= before.push(cur));
            }
        }
        i = i + 1;
    }
    proof {
        assert(cs@.take(cs@.len() as int) =~= cs@);
    }
    if !current.as_str().is_empty() {
        let ghost before = strs_view(out@);
        let ghost cur = current@;
        out.push(current);
        proof {
            assert(strs_view(out@) =~= before.push(cur));
        }
    }
    out
}

/// The tokens of each text, one after another.
pub open spec fn tokens_of_all(texts: Seq<Seq<char>>) -> Seq<Seq<char>>
    decreases texts.len(),
{
    if texts.len() == 0 {
        seq![]
    } else {
        tokens_of_all(texts.drop_last()) + tokens(texts.last())
    }
}

/// The field values an object is indexed under: its owner, then its
/// inline evidence values.
pub open spec fn indexed_values(o: GraphKnowledgeObjectNode) -> Seq<Seq<char>> {
    let head = match o.fields.spec_get("owner"@) {
        Some(owner) => seq![owner],
        None => Seq::empty(),
    };
    head + inline_values(o.evidence@)
}

/// The tokens an object is indexed under: those of its body, Object ID and
/// kind, then those of its indexed field values.
pub open spec fn object_tokens(o: GraphKnowledgeObjectNode) -> Seq<Seq<char>> {
    tokens(o.body@) + tokens(o.id@) + tokens(o.kind@) + tokens_of_all(indexed_values(o))
}

fn append_tokens(out: &mut Vec<String>, text: &str)
    ensures
        strs_view(final(out)@) == strs_view(old(out)@) + tokens(text@),
{
    let more = tokenize(text);
    let ghost before = strs_view(out@);
    let mut i: usize = 0;
    while i < more.len()
        invariant
            i <= more@.len(),
            strs_view(out@) == before + strs_view(more@).take(i as int),
        decreases more.len() - i,
    {
        let ghost prev = strs_view(out@);
        out.push(more[i].clone());
        proof {
            assert(strs_view(out@) =~= prev.push(more@[i as int]@));
            assert(strs_view(more@).take(i + 1) =~= strs_view(more@).take(i as int).push(more@[i as int]@));
            assert(strs_view(out@) =~= before + strs_view(more@).take(i + 1));
        }
        i = i + 1;
    }
    proof {
        assert(strs_view(more@).take(more@.len() as int) =~= strs_view(more@));
    }
}

/// The tokens an object is indexed under.
pub fn indexed_tokens(object: &GraphKnowledgeObjectNode) -> (r: Vec<String>)
    ensures
        strs_view(r@) == object_tokens(*object),
{
    let mut out: Vec<String> = Vec::new();
    append_tokens(&mut out, object.body.as_str());
    append_tokens(&mut out, object.id.as_str());
    append_tokens(&mut out, object.kind.as_str());
    proof {
        assert(strs_view(Seq::<String>::empty()) =~= seq![]);
    }
    let values = indexed_field_values(object);
    let ghost vals = values@.map_values(|s: &str| s@);
    let ghost head = strs_view(out@);
    let mut i: usize = 0;
    while i < values.len()
        invariant
            vals == values@.map_values(|s: &str| s@),
            i <= values@.len(),
            strs_view(out@) == head + tokens_of_all(vals.take(i as int)),
        decreases values.len() - i,
    {
        proof {
            assert(vals.take(i + 1).drop_last() =~= vals.take(i as int));
            assert(vals.take(i + 1).last() == values@[i as int]@);
        }
        append_tokens(&mut out, values[i]);
        proof {
            assert(strs_view(out@) =~= head + tokens_of_all(vals.take(i + 1)));
        }
        i = i + 1;
    }
    proof {
        assert(vals.take(values@.len() as int) =~= vals);
        assert(vals == indexed_values(*object));
    }
    out
}

// ---- term counts ----

/// How often a term occurs: in a document, or across documents.
#[derive(Debug, Clone, PartialEq, Eq)]
pub struct TermCount {
    pub term: String,
    pub count: usize,
}

impl Keyed for TermCount {
    open spec fn key(&self) -> Seq<Seq<char>> {
        seq![self.term@]
    }

    fn key_less(&self, other: &Self) -> (r: bool) {
        proof {
            crate::sorted::lemma_one_component(self.term@, other.term@);
        }
        str_lt(self.term.as_str(), other.term.as_str())
    }
}

/// `t` is recorded at position `i`.
pub open spec fn records_at(v: Seq<TermCount>, t: Seq<char>, i: int) -> bool {
    0 <= i < v.len() && v[i].term@ == t
}

/// The count recorded for `t`; zero when none is.
pub open spec fn count_of(v: Seq<TermCount>, t: Seq<char>) -> nat {
    if exists|i: int| #[trigger] records_at(v, t, i) {
        v[choose|i: int| #[trigger] records_at(v, t, i)].count as nat
    } else {
        0
    }
}

proof fn lemma_count_at(v: Seq<TermCount>, p: int)
    requires
        sorted_by_key(v),
        0 <= p < v.len(),
    ensures
        count_of(v, v[p].term@) == v[p].count,
{
    let t = v[p].term@;
    assert(records_at(v, t, p));
    let c = choose|i: int| #[trigger] records_at(v, t, i);
    assert(records_at(v, t, c));
    assert(v[c].key() =~= v[p].key());
    lemma_sorted_key_unique(v, c, p);
    assert(count_of(v, t) == v[c].count);
}

/// Add one occurrence of `term`.
fn count_one(v: &mut Vec<TermCount>, term: &String)
    requires
        sorted_by_key(old(v)@),
        count_of(old(v)@, term@) < usize::MAX,
    ensures
        sorted_by_key(final(v)@),
        forall|t: Seq<char>|
            #[trigger] count_of(final(v)@, t) == if t == term@ {
                count_of(old(v)@, t) + 1
            } else {
                count_of(old(v)@, t)
            },
{
    let ghost before = v@;
    let mut i: usize = 0;
    while i < v.len()
        invariant
            v@ == before,
            old(v)@ == before,
            sorted_by_key(before),
            count_of(before, term@) < usize::MAX,
            i <= v@.len(),
            forall|k: int| 0 <= k < i ==> (#[trigger] v@[k]).term@ != term@,
        decreases v.len() - i,
    {
        if str_eq(v[i].term.as_str(), term.as_str()) {
            proof {
                lemma_count_at(before, i as int);
            }
            let n = v[i].count + 1;
            let entry = TermCount { term: term.clone(), count: n };
            let ghost e = entry;
            v.set(i, entry);
            proof {
                assert forall|a: int, b: int| 0 <= a < b < v@.len() implies crate::text::key_lt(
                    #[trigger] v@[a].key(),
                    #[trigger] v@[b].key(),
                ) by {
                    assert(v@[a].key() == before[a].key() || a == i);
                    if a == i {
                        assert(v@[a].key() =~= before[a].key());
                    }
                    if b == i {
                        assert(v@[b].key() =~= before[b].key());
                    }
                }
                assert forall|t: Seq<char>|
                    #[trigger] count_of(v@, t) == if t == term@ {
                        count_of(before, t) + 1
                    } else {
                        count_of(before, t)
                    } by {
                    if t == term@ {
                        assert(v@[i as int] == e);
                        lemma_count_at(v@, i as int);
                    } else if exists|k: int| #[trigger] records_at(v@, t, k) {
                        let k = choose|k: int| #[trigger] records_at(v@, t, k);
                        lemma_count_at(v@, k);
                        assert(before[k] == v@[k]);
                        lemma_count_at(before, k);
                    } else {
                        assert(!exists|k: int| #[trigger] records_at(before, t, k)) by {
                            if exists|k: int| #[trigger] records_at(before, t, k) {
                                let k = choose|k: int| #[trigger] records_at(before, t, k);
                                assert(k != i);
                                assert(v@[k].term@ == t);
                                assert(records_at(v@, t, k));
                            }
                        }
                    }
                }
            }
            return;
        }
        i = i + 1;
    }
    let entry = TermCount { term: term.clone(), count: 1 };
    let ghost e = entry;
    proof {
        assert(!has_key(before, e.key())) by {
            if has_key(before, e.key()) {
                let k = choose|k: int| 0 <= k < before.len() && #[trigger] before[k].key() == e.key();
                assert(before[k].key()[0] == e.key()[0]);
            }
        }
        assert(!exists|k: int| #[trigger] records_at(before, term@, k));
    }
    insert_sorted(v, entry, false);
    proof {
        assert forall|t: Seq<char>|
            #[trigger] count_of(v@, t) == if t == term@ {
                count_of(before, t) + 1
            } else {
                count_of(before, t)
            } by {
            if t == term@ {
                assert(v@.contains(e));
                let k = choose|k: int| 0 <= k < v@.len() && v@[k] == e;
                lemma_count_at(v@, k);
            } else if exists|k: int| #[trigger] records_at(v@, t, k) {
                let k = choose|k: int| #[trigger] records_at(v@, t, k);
                lemma_count_at(v@, k);
                assert(v@[k] != e);
                assert(before.contains(v@[k]));
                let m = choose|m: int| 0 <= m < before.len() && before[m] == v@[k];
                lemma_count_at(before, m);
            } else {
                if exists|k: int| #[trigger] records_at(before, t, k) {
                    let k = choose|k: int| #[trigger] records_at(before, t, k);
                    assert(before[k].key() != e.key()) by {
                        if before[k].key() == e.key() {
                            assert(before[k].key()[0] == e.key()[0]);
                        }
                    }
                    assert(v@.contains(before[k]));
                    let q = choose|q: int| 0 <= q < v@.len() && v@[q] == before[k];
                    assert(v@[q].term@ == t);
                    assert(records_at(v@, t, q));
                }
            }
        }
    }
}

/// One indexed document: its Object ID, how often each term occurs in it,
/// and how many tokens it has.
pub struct IndexedDocument {
    pub id: String,
    pub term_frequencies: Vec<TermCount>,
    pub token_count: usize,
}

/// The document of an object.
pub fn index_document(object: &GraphKnowledgeObjectNode) -> (r: IndexedDocument)
    ensures
        r.id@ == object.id@,
        r.token_count == object_tokens(*object).len(),
        sorted_by_key(r.term_frequencies@),
        forall|t: Seq<char>| #[trigger] count_of(r.term_frequencies@, t) == object_tokens(*object).to_multiset().count(t),
{
    let toks = indexed_tokens(object);
    let ghost tv = strs_view(toks@);
    let mut tf: Vec<TermCount> = Vec::new();
    let mut i: usize = 0;
    proof {
        broadcast use vstd::seq_lib::group_to_multiset_ensures;
        assert(tv.take(0) =~= seq![]);
        assert(tv.take(0).to_multiset() =~= vstd::multiset::Multiset::empty());
    }
    while i < toks.len()
        invariant
            tv == strs_view(toks@),
            i <= toks@.len(),
            sorted_by_key(tf@),
            forall|t: Seq<char>| #[trigger] count_of(tf@, t) == tv.take(i as int).to_multiset().count(t),
            forall|t: Seq<char>| #[trigger] tv.take(i as int).to_multiset().count(t) <= i,
        decreases toks.len() - i,
    {
        let ghost x = toks@[i as int]@;
        proof {
            assert(tv.take(i + 1) =~= tv.take(i as int).push(x));
            assert(tv.take(i as int).to_multiset().count(x) <= i);
        }
        count_one(&mut tf, &toks[i]);
        proof {
            broadcast use vstd::seq_lib::group_to_multiset_ensures;
            broadcast use vstd::multiset::group_multiset_axioms;
            assert(tv.take(i + 1).to_multiset() =~= tv.take(i as int).to_multiset().insert(x));
            assert forall|t: Seq<char>| #[trigger] count_of(tf@, t) == tv.take(i + 1).to_multiset().count(t) by {
                assert(tv.take(i + 1).to_multiset().count(t) == tv.take(i as int).to_multiset().insert(x).count(t));
            }
            assert forall|t: Seq<char>| #[trigger] tv.take(i + 1).to_multiset().count(t) <= i + 1 by {
                assert(tv.take(i + 1).to_multiset().count(t) == tv.take(i as int).to_multiset().insert(x).count(t));
            }
        }
        i = i + 1;
    }
    proof {
        assert(tv.take(toks@.len() as int) =~= tv);
    }
    IndexedDocument { id: object.id.clone(), term_frequencies: tf, token_count: toks.len() }
}

// ---- the corpus ----

/// The document records term `t`.
pub open spec fn has_term(tf: Seq<TermCount>, t: Seq<char>) -> bool {
    exists|k: int| #[trigger] records_at(tf, t, k)
}

/// How many documents record term `t`.
pub open spec fn doc_freq(docs: Seq<IndexedDocument>, t: Seq<char>) -> nat
    decreases docs.len(),
{
    if docs.len() == 0 {
        0
    } else {
        doc_freq(docs.drop_last(), t) + if has_term(docs.last().term_frequencies@, t) {
            1nat
        } else {
            0nat
        }
    }
}

/// The documents' token counts, summed.
pub open spec fn total_tokens(docs: Seq<IndexedDocument>) -> nat
    decreases docs.len(),
{
    if docs.len() == 0 {
        0
    } else {
        total_tokens(docs.drop_last()) + docs.last().token_count as nat
    }
}

/// No term is recorded by more documents than the corpus has.
pub proof fn lemma_doc_freq_bound(docs: Seq<IndexedDocument>, t: Seq<char>)
    ensures
        doc_freq(docs, t) <= docs.len(),
    decreases docs.len(),
{
    if docs.len() > 0 {
        lemma_doc_freq_bound(docs.drop_last(), t);
    }
}

/// The lexical index of a corpus: one document per object, in order, the
/// number of documents recording each term, and the corpus token count.
pub struct LexicalIndex {
    pub documents: Vec<IndexedDocument>,
    pub document_frequencies: Vec<TermCount>,
    pub total_tokens: u128,
}

impl LexicalIndex {
    /// Index `objects`: each object's document, in order; how many
    /// documents hold each term; and the total token count, from which the
    /// average document length is taken.
    pub fn from_objects(objects: &[GraphKnowledgeObjectNode]) -> (r: Self)
        ensures
            r.documents@.len() == objects@.len(),
            forall|i: int|
                0 <= i < objects@.len() ==> {
                    &&& (#[trigger] r.documents@[i]).id@ == objects@[i].id@
                    &&& r.documents@[i].token_count == object_tokens(objects@[i]).len()
                    &&& sorted_by_key(r.documents@[i].term_frequencies@)
                    &&& forall|t: Seq<char>|
                        #[trigger] count_of(r.documents@[i].term_frequencies@, t) == object_tokens(
                            objects@[i],
                        ).to_multiset().count(t)
                },
            sorted_by_key(r.document_frequencies@),
            forall|t: Seq<char>| #[trigger] count_of(r.document_frequencies@, t) == doc_freq(r.documents@, t),
            r.total_tokens == total_tokens(r.documents@),
    {
        let mut documents: Vec<IndexedDocument> = Vec::new();
        let mut i: usize = 0;
        while i < objects.len()
            invariant
                i <= objects@.len(),
                documents@.len() == i,
                forall|k: int|
                    0 <= k < i ==> {
                        &&& (#[trigger] documents@[k]).id@ == objects@[k].id@
                        &&& documents@[k].token_count == object_tokens(objects@[k]).len()
                        &&& sorted_by_key(documents@[k].term_frequencies@)
                        &&& forall|t: Seq<char>|
                            #[trigger] count_of(documents@[k].term_frequencies@, t) == object_tokens(
                                objects@[k],
                            ).to_multiset().count(t)
                    },
            decreases objects.len() - i,
        {
            let d = index_document(&objects[i]);
            documents.push(d);
            i = i + 1;
        }
        let ghost docs = documents@;
        let mut df: Vec<TermCount> = Vec::new();
        let mut total: u128 = 0;
        let mut j: usize = 0;
        proof {
            assert(docs.take(0) =~= seq![]);
        }
        while j < documents.len()
            invariant
                docs == documents@,
                docs.len() <= usize::MAX,
                forall|k: int| 0 <= k < docs.len() ==> sorted_by_key(#[trigger] docs[k].term_frequencies@),
                j <= docs.len(),
                sorted_by_key(df@),
                forall|t: Seq<char>| #[trigger] count_of(df@, t) == doc_freq(docs.take(j as int), t),
                total == total_tokens(docs.take(j as int)),
                total <= j * 18446744073709551615,
            decreases documents.len() - j,
        {
            let doc = &documents[j];
            let ghost tf = doc.term_frequencies@;
            let ghost prior = docs.take(j as int);
            proof {
                assert(sorted_by_key(docs[j as int].term_frequencies@));
                assert(docs.take(j + 1).drop_last() =~= prior);
                assert(docs.take(j + 1).last() == docs[j as int]);
            }
            let mut m: usize = 0;
            while m < doc.term_frequencies.len()
                invariant
                    docs == documents@,
                    *doc == docs[j as int],
                    tf == doc.term_frequencies@,
                    sorted_by_key(tf),
                    j < docs.len(),
                    docs.len() <= usize::MAX,
                    prior == docs.take(j as int),
                    prior.len() == j,
                    m <= tf.len(),
                    sorted_by_key(df@),
                    forall|t: Seq<char>|
                        #[trigger] count_of(df@, t) == doc_freq(prior, t) + if exists|k: int|
                            0 <= k < m && #[trigger] records_at(tf, t, k) {
                            1nat
                        } else {
                            0nat
                        },
                decreases doc.term_frequencies.len() - m,
            {
                let term = &doc.term_frequencies[m].term;
                proof {
                    assert(!exists|k: int| 0 <= k < m && #[trigger] records_at(tf, term@, k)) by {
                        if exists|k: int| 0 <= k < m && #[trigger] records_at(tf, term@, k) {
                            let k = choose|k: int| 0 <= k < m && #[trigger] records_at(tf, term@, k);
                            assert(tf[k].key() =~= tf[m as int].key());
                            lemma_sorted_key_unique(tf, k, m as int);
                        }
                    }
                    lemma_doc_freq_bound(prior, term@);
                }
                count_one(&mut df, term);
                proof {
                    assert forall|t: Seq<char>|
                        #[trigger] count_of(df@, t) == doc_freq(prior, t) + if exists|k: int|
                            0 <= k < m + 1 && #[trigger] records_at(tf, t, k) {
                            1nat
                        } else {
                            0nat
                        } by {
                        if t == term@ {
                            assert(records_at(tf, t, m as int));
                        } else {
                            if exists|k: int| 0 <= k < m + 1 && #[trigger] records_at(tf, t, k) {
                                let k = choose|k: int| 0 <= k < m + 1 && #[trigger] records_at(tf, t, k);
                                assert(k != m);
                                assert(0 <= k < m && records_at(tf, t, k));
                            }
                        }
                    }
                }
                m = m + 1;
            }
            proof {
                assert forall|t: Seq<char>| #[trigger] count_of(df@, t) == doc_freq(docs.take(j + 1), t) by {
                    if has_term(tf, t) {
                        let k = choose|k: int| #[trigger] records_at(tf, t, k);
                        assert(0 <= k < tf.len() && records_at(tf, t, k));
                    }
                    if exists|k: int| 0 <= k < tf.len() && #[trigger] records_at(tf, t, k) {
                        let k = choose|k: int| 0 <= k < tf.len() && #[trigger] records_at(tf, t, k);
                        assert(has_term(tf, t));
                    }
                }
            }
            total = total + doc.token_count as u128;
            j = j + 1;
        }
        proof {
            assert(docs.take(docs.len() as int) =~= docs);
        }
        LexicalIndex { documents, document_frequencies: df, total_tokens: total }
    }
}

} // verus!
