//! Object lookup by Object ID over an agent artifact's objects. An
//! artifact carrying an Object ID twice has no index: every repeat is
//! reported.

use vstd::prelude::*;

use crate::artifact::AgentJsonObject;
use crate::diagnostic::{Diagnostic, DiagnosticCode};
use crate::graph::strs_view;
use crate::string_set::{contains_str, insert_str, lemma_push_contains};
use crate::sorted::sorted_by_key;
use crate::text::{owned, str_eq};

verus! {

/// The Object IDs of `objects`, in order.
pub open spec fn object_ids(objects: Seq<AgentJsonObject>) -> Seq<Seq<char>> {
    objects.map_values(|o: AgentJsonObject| o.id@)
}

/// Each Object ID that repeats an earlier one, once per repeat, in order.
pub open spec fn repeated_ids(ids: Seq<Seq<char>>) -> Seq<Seq<char>>
    decreases ids.len(),
{
    if ids.len() == 0 {
        Seq::empty()
    } else {
        let earlier = repeated_ids(ids.drop_last());
        if ids.drop_last().contains(ids.last()) {
            earlier.push(ids.last())
        } else {
            earlier
        }
    }
}

/// The hint every duplicate-ID diagnostic carries.
pub open spec fn duplicate_help() -> Seq<char> {
    "Run `adoc build` to regenerate docs.agent.json from validated AgentDoc Source."@
}

/// The message reporting a repeated Object ID.
pub open spec fn duplicate_message(id: Seq<char>) -> Seq<char> {
    "duplicate Object ID `"@ + id + "` in agent artifact"@
}

/// The position of `id` in `ids`, if present (the first one).
pub open spec fn position_of(ids: Seq<Seq<char>>, id: Seq<char>) -> Option<int> {
    if ids.contains(id) {
        Some(choose|i: int| 0 <= i < ids.len() && ids[i] == id && forall|j: int| 0 <= j < i ==> ids[j] != id)
    } else {
        None
    }
}

/// An index from Object ID to the object's position in its artifact.
#[derive(Debug, Clone, PartialEq, Eq)]
pub struct LookupIndex {
    ids: Vec<String>,
}

impl View for LookupIndex {
    type V = Seq<Seq<char>>;

    closed spec fn view(&self) -> Seq<Seq<char>> {
        strs_view(self.ids@)
    }
}

fn duplicate_diagnostic(id: &str) -> (r: Diagnostic)
    ensures
        r.code == DiagnosticCode::IdDuplicateInArtifact,
        r.message@ == duplicate_message(id@),
        r.object_id matches Some(o) && o@ == id@,
        r.help matches Some(h) && h@ == duplicate_help(),
{
    let mut message = String::new();
    message.append("duplicate Object ID `");
    message.append(id);
    message.append("` in agent artifact");
    Diagnostic::error(DiagnosticCode::IdDuplicateInArtifact, message).with_object_id(owned(id)).with_help(
        owned("Run `adoc build` to regenerate docs.agent.json from validated AgentDoc Source."),
    )
}

impl LookupIndex {
    /// Index `objects` by Object ID, or report each repeated Object ID.
    pub fn build(objects: &[AgentJsonObject]) -> (r: Result<Self, Vec<Diagnostic>>)
        ensures
            (r is Ok) == (repeated_ids(object_ids(objects@)).len() == 0),
            r matches Ok(ix) ==> ix@ == object_ids(objects@),
            r matches Err(ds) ==> ds@.len() == repeated_ids(object_ids(objects@)).len() && forall|k: int|
                0 <= k < ds@.len() ==> {
                    let d = #[trigger] ds@[k];
                    let id = repeated_ids(object_ids(objects@))[k];
                    &&& d.code == DiagnosticCode::IdDuplicateInArtifact
                    &&& d.message@ == duplicate_message(id)
                    &&& d.object_id matches Some(o) && o@ == id
                    &&& d.help matches Some(h) && h@ == duplicate_help()
                },
    {
        let ghost all = object_ids(objects@);
        let mut seen: Vec<String> = Vec::new();
        let mut ids: Vec<String> = Vec::new();
        let mut diagnostics: Vec<Diagnostic> = Vec::new();
        let mut i: usize = 0;
        while i < objects.len()
            invariant
                all == object_ids(objects@),
                i <= objects@.len(),
                sorted_by_key(seen@),
                forall|x: Seq<char>| #[trigger] strs_view(seen@).contains(x) <==> all.take(i as int).contains(x),
                strs_view(ids@) == all.take(i as int),
                diagnostics@.len() == repeated_ids(all.take(i as int)).len(),
                forall|k: int|
                    0 <= k < diagnostics@.len() ==> {
                        let d = #[trigger] diagnostics@[k];
                        let id = repeated_ids(all.take(i as int))[k];
                        &&& d.code == DiagnosticCode::IdDuplicateInArtifact
                        &&& d.message@ == duplicate_message(id)
                        &&& d.object_id matches Some(o) && o@ == id
                        &&& d.help matches Some(h) && h@ == duplicate_help()
                    },
            decreases objects.len() - i,
        {
            let id = objects[i].id.as_str();
            proof {
                assert(all[i as int] == id@);
                assert(all.take(i + 1).drop_last() =~= all.take(i as int));
                assert(all.take(i + 1).last() == id@);
                assert(all.take(i + 1) =~= all.take(i as int).push(id@));
            }
            let ghost prev_seen = seen@;
            let ghost prev_diags = diagnostics@;
            if contains_str(&seen, id) {
                diagnostics.push(duplicate_diagnostic(id));
                proof {
                    assert(repeated_ids(all.take(i + 1)) == repeated_ids(all.take(i as int)).push(id@));
                    assert forall|k: int| 0 <= k < diagnostics@.len() implies {
                        let d = #[trigger] diagnostics@[k];
                        let idk = repeated_ids(all.take(i + 1))[k];
                        &&& d.code == DiagnosticCode::IdDuplicateInArtifact
                        &&& d.message@ == duplicate_message(idk)
                        &&& d.object_id matches Some(o) && o@ == idk
                        &&& d.help matches Some(h) && h@ == duplicate_help()
                    } by {
                        if k < prev_diags.len() {
                            assert(diagnostics@[k] == prev_diags[k]);
                        }
                    }
                }
            } else {
                insert_str(&mut seen, owned(id));
                proof {
                    assert(repeated_ids(all.take(i + 1)) == repeated_ids(all.take(i as int)));
                }
            }
            let ghost prev_ids = ids@;
            ids.push(owned(id));
            proof {
                assert(strs_view(ids@) =~= strs_view(prev_ids).push(id@));
                assert forall|x: Seq<char>| #[trigger] strs_view(seen@).contains(x) <==> all.take(i + 1).contains(x) by {
                    lemma_push_contains(all.take(i as int), id@, x);
                }
            }
            i = i + 1;
        }
        proof {
            assert(all.take(objects@.len() as int) =~= all);
        }
        if diagnostics.len() == 0 {
            Ok(LookupIndex { ids })
        } else {
            Err(diagnostics)
        }
    }

    /// The object of `objects` standing at the position indexed for `id`.
    pub fn get<'a>(&self, objects: &'a [AgentJsonObject], id: &str) -> (r: Option<&'a AgentJsonObject>)
        ensures
            match position_of(self@, id@) {
                Some(i) => if i < objects@.len() {
                    r == Some(&objects@[i])
                } else {
                    r is None
                },
                None => r is None,
            },
    {
        let ghost ids = self@;
        let mut i: usize = 0;
        while i < self.ids.len()
            invariant
                ids == self@,
                ids.len() == self.ids@.len(),
                i <= ids.len(),
                forall|j: int| 0 <= j < i ==> ids[j] != id@,
            decreases self.ids.len() - i,
        {
            proof {
                assert(ids[i as int] == self.ids@[i as int]@);
            }
            if str_eq(self.ids[i].as_str(), id) {
                proof {
                    assert(ids.contains(id@));
                    assert(0 <= i < ids.len() && ids[i as int] == id@ && forall|j: int| 0 <= j < i ==> ids[j] != id@);
                    let p = choose|p: int| 0 <= p < ids.len() && ids[p] == id@ && forall|j: int| 0 <= j < p ==> ids[j] != id@;
                    if p < i {
                        assert(ids[p] != id@);
                    }
                    if p > i {
                        assert(ids[i as int] != id@);
                    }
                    assert(p == i);
                }
                if i < objects.len() {
                    return Some(&objects[i]);
                } else {
                    return None;
                }
            }
            i = i + 1;
        }
        proof {
            if ids.contains(id@) {
                let k = choose|k: int| 0 <= k < ids.len() && ids[k] == id@;
                assert(ids[k] != id@);
            }
        }
        None
    }
}

} // verus!
