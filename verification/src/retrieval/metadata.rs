//! The object metadata retrieval reads: owner and verification date from
//! the authored fields, inline evidence values, and the canonical text an
//! embedding is computed from.

use vstd::prelude::*;

use crate::graph::{opt_view, FieldMap, GraphEvidence, GraphKnowledgeObjectNode};
use crate::text::{normalize_newlines, normalized_newlines, owned, trim, trimmed};

verus! {

pub const OWNER_FIELD: &'static str = "owner";

pub const VERIFIED_AT_FIELD: &'static str = "verified_at";

pub open spec fn opt_str_view(o: Option<&str>) -> Option<Seq<char>> {
    match o {
        Some(s) => Some(s@),
        None => None,
    }
}

/// The authored `owner` field.
pub fn owner(object: &GraphKnowledgeObjectNode) -> (r: Option<&str>)
    ensures
        opt_str_view(r) == object.fields.spec_get("owner"@),
{
    match object.fields.get(OWNER_FIELD) {
        Some(v) => Some(v.as_str()),
        None => None,
    }
}

/// The authored `verified_at` field.
pub fn verified_at(object: &GraphKnowledgeObjectNode) -> (r: Option<&str>)
    ensures
        opt_str_view(r) == object.fields.spec_get("verified_at"@),
{
    match object.fields.get(VERIFIED_AT_FIELD) {
        Some(v) => Some(v.as_str()),
        None => None,
    }
}

/// The inline value of the last evidence entry of kind `k` that carries one.
pub open spec fn evidence_value(evidence: Seq<GraphEvidence>, k: Seq<char>) -> Option<Seq<char>>
    decreases evidence.len(),
{
    if evidence.len() == 0 {
        None
    } else if evidence.last().kind@ == k && evidence.last().value is Some {
        opt_view(evidence.last().value)
    } else {
        evidence_value(evidence.drop_last(), k)
    }
}

/// The inline evidence values keyed by evidence kind; a later entry of a
/// kind overrides an earlier one, and reference-only entries are skipped.
pub fn evidence_fields(object: &GraphKnowledgeObjectNode) -> (r: FieldMap)
    ensures
        forall|k: Seq<char>| #[trigger] r.spec_get(k) == evidence_value(object.evidence@, k),
{
    let ghost ev = object.evidence@;
    let mut m = FieldMap::new();
    let mut i: usize = 0;
    while i < object.evidence.len()
        invariant
            ev == object.evidence@,
            i <= ev.len(),
            forall|k: Seq<char>| #[trigger] m.spec_get(k) == evidence_value(ev.take(i as int), k),
        decreases object.evidence.len() - i,
    {
        proof {
            assert(ev.take(i + 1).drop_last() =~= ev.take(i as int));
            assert(ev.take(i + 1).last() == ev[i as int]);
        }
        let entry = &object.evidence[i];
        match &entry.value {
            Some(v) => {
                m.insert(entry.kind.clone(), v.clone());
            },
            None => {},
        }
        i = i + 1;
    }
    proof {
        assert(ev.take(ev.len() as int) =~= ev);
    }
    m
}

/// All authored fields except `owner` and `verified_at`.
pub fn generic_fields(fields: &FieldMap) -> (r: FieldMap)
    ensures
        forall|k: Seq<char>|
            #[trigger] r.spec_get(k) == if k == "owner"@ || k == "verified_at"@ {
                None
            } else {
                fields.spec_get(k)
            },
{
    fields.without_keys(OWNER_FIELD, VERIFIED_AT_FIELD)
}

/// The inline values of `evidence`, in order.
pub open spec fn inline_values(evidence: Seq<GraphEvidence>) -> Seq<Seq<char>>
    decreases evidence.len(),
{
    if evidence.len() == 0 {
        Seq::empty()
    } else {
        match evidence.last().value {
            Some(v) => inline_values(evidence.drop_last()).push(v@),
            None => inline_values(evidence.drop_last()),
        }
    }
}

/// The field values search indexes: the owner, then each inline evidence
/// value in order.
pub fn indexed_field_values(object: &GraphKnowledgeObjectNode) -> (r: Vec<&str>)
    ensures
        r@.map_values(|s: &str| s@) == match object.fields.spec_get("owner"@) {
            Some(o) => seq![o],
            None => Seq::empty(),
        } + inline_values(object.evidence@),
{
    let mut values: Vec<&str> = Vec::new();
    match owner(object) {
        Some(o) => values.push(o),
        None => {},
    }
    let ghost head = values@.map_values(|s: &str| s@);
    let ghost ev = object.evidence@;
    let mut i: usize = 0;
    while i < object.evidence.len()
        invariant
            ev == object.evidence@,
            i <= ev.len(),
            values@.map_values(|s: &str| s@) == head + inline_values(ev.take(i as int)),
        decreases object.evidence.len() - i,
    {
        proof {
            assert(ev.take(i + 1).drop_last() =~= ev.take(i as int));
            assert(ev.take(i + 1).last() == ev[i as int]);
        }
        let ghost before = values@;
        match &object.evidence[i].value {
            Some(v) => {
                values.push(v.as_str());
                proof {
                    assert(values@.map_values(|s: &str| s@) =~= before.map_values(|s: &str| s@).push(v@));
                    assert(head + inline_values(ev.take(i + 1)) =~= (head + inline_values(ev.take(i as int))).push(v@));
                }
            },
            None => {},
        }
        i = i + 1;
    }
    proof {
        assert(ev.take(ev.len() as int) =~= ev);
    }
    values
}

/// The text an embedding is computed from.
pub open spec fn embedding_text(kind: Seq<char>, body: Seq<char>, id: Seq<char>, status: Seq<char>, owner: Seq<char>) -> Seq<char> {
    kind + ": "@ + trim(normalize_newlines(body)) + "\n[id: "@ + id + "] [status: "@ + status + "] [owner: "@ + owner + "]"@
}

/// The canonical embedding input: kind, normalized body, Object ID, status
/// and owner, with `unknown` for an absent status or owner.
pub fn embedding_input(object: &GraphKnowledgeObjectNode) -> (r: String)
    ensures
        r@ == embedding_text(
            object.kind@,
            object.body@,
            object.id@,
            match opt_view(object.status) {
                Some(s) => s,
                None => "unknown"@,
            },
            match object.fields.spec_get("owner"@) {
                Some(o) => o,
                None => "unknown"@,
            },
        ),
{
    let status: &str = match &object.status {
        Some(s) => s.as_str(),
        None => "unknown",
    };
    let owner: &str = match owner(object) {
        Some(o) => o,
        None => "unknown",
    };
    let normalized = normalized_newlines(object.body.as_str());
    let body = trimmed(normalized.as_str());
    let mut out = owned(object.kind.as_str());
    out.append(": ");
    out.append(body);
    out.append("\n[id: ");
    out.append(object.id.as_str());
    out.append("] [status: ");
    out.append(status);
    out.append("] [owner: ");
    out.append(owner);
    out.append("]");
    out
}

} // verus!
