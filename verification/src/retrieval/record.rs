//! The retrieval record: what a search or lookup returns about one
//! Knowledge Object, projected from its graph node.

use vstd::prelude::*;

use crate::graph::{clone_opt_string, clone_strings, opt_view, strs_view, FieldMap, GraphKnowledgeObjectNode, GraphRelations};
use crate::retrieval::metadata::{evidence_fields, evidence_value, generic_fields, opt_str_view, owner, verified_at};
use crate::sorted::sorted_by_key;
use crate::string_set::{insert_str, lemma_lists_sorted_unique, lemma_sorted_strings, lists_sorted, sorted_elems};
use crate::text::owned;

verus! {

/// How a search ranked its results.
#[derive(Debug, Clone, Copy, PartialEq, Eq, Structural)]
pub enum SearchMode {
    Hybrid,
    Lexical,
    Semantic,
}

impl SearchMode {
    pub open spec fn wire(self) -> Seq<char> {
        match self {
            SearchMode::Hybrid => "hybrid"@,
            SearchMode::Lexical => "lexical"@,
            SearchMode::Semantic => "semantic"@,
        }
    }

    /// The mode's wire name.
    pub fn as_str(self) -> (r: &'static str)
        ensures
            r@ == self.wire(),
    {
        match self {
            SearchMode::Hybrid => "hybrid",
            SearchMode::Lexical => "lexical",
            SearchMode::Semantic => "semantic",
        }
    }
}

/// Where an object is authored.
#[derive(Debug, Clone, PartialEq, Eq)]
pub struct RetrievalSource {
    pub path: String,
    pub line: u32,
    pub column: u32,
}

/// The authored relations of a retrieved object.
#[derive(Debug, Clone, PartialEq, Eq, Default)]
pub struct RetrievalRelations {
    pub depends_on: Vec<String>,
    pub supersedes: Vec<String>,
    pub related_to: Vec<String>,
}

/// Every relation target of the three slots, as a set.
pub open spec fn relation_targets(r: RetrievalRelations) -> Set<Seq<char>> {
    strs_view(r.depends_on@).to_set() + strs_view(r.supersedes@).to_set() + strs_view(r.related_to@).to_set()
}

impl RetrievalRelations {
    /// No slot names a target.
    pub fn is_empty(&self) -> (r: bool)
        ensures
            r == (self.depends_on@.len() == 0 && self.supersedes@.len() == 0 && self.related_to@.len() == 0),
    {
        self.depends_on.len() == 0 && self.supersedes.len() == 0 && self.related_to.len() == 0
    }

    /// The relations of a graph node.
    pub fn from_graph(relations: &GraphRelations) -> (r: Self)
        ensures
            strs_view(r.depends_on@) == strs_view(relations.depends_on@),
            strs_view(r.supersedes@) == strs_view(relations.supersedes@),
            strs_view(r.related_to@) == strs_view(relations.related_to@),
    {
        RetrievalRelations {
            depends_on: clone_strings(&relations.depends_on),
            supersedes: clone_strings(&relations.supersedes),
            related_to: clone_strings(&relations.related_to),
        }
    }

    /// Every target of every slot, each once, in increasing order.
    pub fn targets(&self) -> (r: Vec<String>)
        ensures
            strs_view(r@) == sorted_elems(relation_targets(*self)),
    {
        let mut out: Vec<String> = Vec::new();
        add_all(&mut out, &self.depends_on);
        add_all(&mut out, &self.supersedes);
        add_all(&mut out, &self.related_to);
        proof {
            let all = relation_targets(*self);
            lemma_sorted_strings(out@);
            assert forall|x: Seq<char>| #[trigger] strs_view(out@).contains(x) <==> all.contains(x) by {}
            assert(lists_sorted(strs_view(out@), all));
            lemma_lists_sorted_unique(strs_view(out@), sorted_elems(all), all);
        }
        out
    }
}

/// Add every string of `items` to a sorted set of strings.
fn add_all(out: &mut Vec<String>, items: &Vec<String>)
    requires
        sorted_by_key(old(out)@),
    ensures
        sorted_by_key(final(out)@),
        forall|x: Seq<char>|
            #[trigger] strs_view(final(out)@).contains(x) <==> (strs_view(old(out)@).contains(x) || strs_view(
                items@,
            ).contains(x)),
{
    let ghost start = strs_view(out@);
    let ghost iv = strs_view(items@);
    let mut i: usize = 0;
    while i < items.len()
        invariant
            iv == strs_view(items@),
            i <= items@.len(),
            sorted_by_key(out@),
            forall|x: Seq<char>|
                #[trigger] strs_view(out@).contains(x) <==> (start.contains(x) || iv.take(i as int).contains(x)),
        decreases items.len() - i,
    {
        let ghost before = strs_view(out@);
        insert_str(out, items[i].clone());
        proof {
            let next = iv.take(i + 1);
            assert(next =~= iv.take(i as int).push(iv[i as int]));
            assert forall|x: Seq<char>| #[trigger] strs_view(out@).contains(x) <==> (start.contains(x) || next.contains(x)) by {
                if iv.take(i as int).contains(x) {
                    let t = choose|t: int| 0 <= t < i && iv.take(i as int)[t] == x;
                    assert(next[t] == x);
                }
                if x == iv[i as int] {
                    assert(next[i as int] == x);
                }
                if next.contains(x) {
                    let t = choose|t: int| 0 <= t < next.len() && next[t] == x;
                    if t < i {
                        assert(iv.take(i as int)[t] == x);
                    }
                }
            }
        }
        i = i + 1;
    }
    proof {
        assert(iv.take(items@.len() as int) =~= iv);
    }
}

/// What retrieval returns about one object.
pub struct RetrievalRecord {
    pub id: String,
    pub kind: String,
    pub status: Option<String>,
    pub content_hash: String,
    pub owner: Option<String>,
    pub verified_at: Option<String>,
    pub body: String,
    pub source: RetrievalSource,
    pub evidence: FieldMap,
    pub fields: FieldMap,
    pub relations: RetrievalRelations,
}

fn opt_owned(o: Option<&str>) -> (r: Option<String>)
    ensures
        opt_view(r) == opt_str_view(o),
{
    match o {
        Some(s) => Some(owned(s)),
        None => None,
    }
}

impl RetrievalRecord {
    /// The record of a graph node: its identity, lifecycle and body, its
    /// owner and verification date, its inline evidence by kind, its other
    /// authored fields, its source place and its relations.
    pub fn from_object(object: &GraphKnowledgeObjectNode) -> (r: Self)
        ensures
            r.id@ == object.id@,
            r.kind@ == object.kind@,
            opt_view(r.status) == opt_view(object.status),
            r.content_hash@ == object.content_hash@,
            opt_view(r.owner) == object.fields.spec_get("owner"@),
            opt_view(r.verified_at) == object.fields.spec_get("verified_at"@),
            r.body@ == object.body@,
            r.source.path@ == object.source_span.path@,
            r.source.line == object.source_span.line,
            r.source.column == object.source_span.column,
            forall|k: Seq<char>| #[trigger] r.evidence.spec_get(k) == evidence_value(object.evidence@, k),
            forall|k: Seq<char>|
                #[trigger] r.fields.spec_get(k) == if k == "owner"@ || k == "verified_at"@ {
                    None
                } else {
                    object.fields.spec_get(k)
                },
            strs_view(r.relations.depends_on@) == strs_view(object.relations.depends_on@),
            strs_view(r.relations.supersedes@) == strs_view(object.relations.supersedes@),
            strs_view(r.relations.related_to@) == strs_view(object.relations.related_to@),
    {
        RetrievalRecord {
            id: object.id.clone(),
            kind: object.kind.clone(),
            status: clone_opt_string(&object.status),
            content_hash: object.content_hash.clone(),
            owner: opt_owned(owner(object)),
            verified_at: opt_owned(verified_at(object)),
            body: object.body.clone(),
            source: RetrievalSource {
                path: object.source_span.path.clone(),
                line: object.source_span.line,
                column: object.source_span.column,
            },
            evidence: evidence_fields(object),
            fields: generic_fields(&object.fields),
            relations: RetrievalRelations::from_graph(&object.relations),
        }
    }
}

} // verus!
