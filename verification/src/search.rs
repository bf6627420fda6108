//! Finding objects by text: which objects a query matches, and which
//! roots of the hierarchy have a match in their tree.

use std::collections::HashSet;
use vstd::prelude::*;
use crate::graph::{
    ancestor, find_object, is_first, lemma_lookup_some, parent_of, reaches,
};
use crate::idset::{is_marked, mark_id, no_marks};
use crate::model::{BasObject, ObjectView, Project, object_views};
use crate::text::{
    contains_chars, contains_ignoring_case, lowered, lowered_chars, occurs_ignoring_case, occurs_in,
};

verus! {

/// A template counts as archived where its name holds the word "archive",
/// in capital or small letters.
pub open spec fn is_archived(name: Seq<char>) -> bool {
    occurs_ignoring_case("archive"@, name)
}

/// Whether the template name marks the template as archived.
pub fn template_is_archived(template_name: &str) -> (r: bool)
    ensures
        r == is_archived(template_name@),
{
    contains_ignoring_case(template_name, "archive")
}

/// The text is not empty and holds the query, ignoring case.
pub open spec fn text_matches(text: Seq<char>, query: Seq<char>) -> bool {
    text.len() > 0 && occurs_ignoring_case(query, text)
}

/// The object matches the query: the query is empty, or the name, the
/// equipment type, the tag or the template name holds it.
pub open spec fn object_matches(o: ObjectView, query: Seq<char>) -> bool {
    ||| query.len() == 0
    ||| text_matches(o.name, query)
    ||| text_matches(o.equipment_type, query)
    ||| text_matches(o.equipment_tag, query)
    ||| text_matches(o.template_name, query)
}

fn text_holds(text: &String, query_lower: &Vec<char>) -> (r: bool)
    ensures
        r == (text@.len() > 0 && occurs_in(query_lower@, lowered(text@))),
{
    if text.as_str().is_empty() {
        return false;
    }
    let t = lowered_chars(text.as_str());
    contains_chars(&t, query_lower)
}

fn matches_lowered(obj: &BasObject, query_lower: &Vec<char>) -> (r: bool)
    ensures
        r == (query_lower@.len() == 0 || (obj@.name.len() > 0 && occurs_in(
            query_lower@,
            lowered(obj@.name),
        )) || (obj@.equipment_type.len() > 0 && occurs_in(
            query_lower@,
            lowered(obj@.equipment_type),
        )) || (obj@.equipment_tag.len() > 0 && occurs_in(
            query_lower@,
            lowered(obj@.equipment_tag),
        )) || (obj@.template_name.len() > 0 && occurs_in(
            query_lower@,
            lowered(obj@.template_name),
        ))),
{
    query_lower.len() == 0 || text_holds(&obj.name, query_lower) || text_holds(
        &obj.equipment_type,
        query_lower,
    ) || text_holds(&obj.equipment_tag, query_lower) || text_holds(&obj.template_name, query_lower)
}

/// Whether the object matches the query.
pub fn object_matches_query(obj: &BasObject, query: &str) -> (r: bool)
    ensures
        r == object_matches(obj@, query@),
{
    let q = lowered_chars(query);
    matches_lowered(obj, &q)
}

/// The identifier `id` is shown for the query: it lies on the way up from
/// an object that matches, that object included.
pub open spec fn shown(nodes: Seq<ObjectView>, query: Seq<char>, id: u64) -> bool {
    exists|i: int|
        #![trigger nodes[i]]
        0 <= i < nodes.len() && object_matches(nodes[i], query) && reaches(nodes, nodes[i].id, id)
}

/// Of the nodes of `part`, the identifiers of the roots that are shown.
pub open spec fn shown_roots(part: Seq<ObjectView>, nodes: Seq<ObjectView>, query: Seq<char>) -> Seq<
    u64,
>
    decreases part.len(),
{
    if part.len() == 0 {
        Seq::empty()
    } else if part.last().parent_id is None && shown(nodes, query, part.last().id) {
        shown_roots(part.drop_last(), nodes, query).push(part.last().id)
    } else {
        shown_roots(part.drop_last(), nodes, query)
    }
}

/// Every identifier of `seen` that has a parent has it in `seen`, but
/// possibly for the parent `open_end`.
spec fn closed_upward(nodes: Seq<ObjectView>, seen: Set<u64>, open_end: Option<u64>) -> bool {
    forall|x: u64|
        #![trigger parent_of(nodes, x)]
        seen.contains(x) && parent_of(nodes, x) is Some ==> seen.contains(parent_of(nodes, x)->0)
            || open_end == parent_of(nodes, x)
}

/// Number of nodes whose identifier is not in `seen`.
spec fn unmarked(nodes: Seq<ObjectView>, seen: Set<u64>) -> nat
    decreases nodes.len(),
{
    if nodes.len() == 0 {
        0
    } else {
        let one: nat = if seen.contains(nodes.last().id) {
            0
        } else {
            1
        };
        unmarked(nodes.drop_last(), seen) + one
    }
}

proof fn lemma_unmarked_shrinks(nodes: Seq<ObjectView>, seen: Set<u64>, cur: u64)
    ensures
        unmarked(nodes, seen.insert(cur)) <= unmarked(nodes, seen),
    decreases nodes.len(),
{
    if nodes.len() > 0 {
        lemma_unmarked_shrinks(nodes.drop_last(), seen, cur);
    }
}

proof fn lemma_unmarked_visit(nodes: Seq<ObjectView>, seen: Set<u64>, cur: u64, i: int)
    requires
        0 <= i < nodes.len(),
        nodes[i].id == cur,
        !seen.contains(cur),
    ensures
        unmarked(nodes, seen.insert(cur)) < unmarked(nodes, seen),
    decreases nodes.len(),
{
    if i == nodes.len() - 1 {
        lemma_unmarked_shrinks(nodes.drop_last(), seen, cur);
    } else {
        lemma_unmarked_visit(nodes.drop_last(), seen, cur, i);
    }
}

proof fn lemma_closed_holds_chain(nodes: Seq<ObjectView>, seen: Set<u64>, start: u64, k: nat)
    requires
        closed_upward(nodes, seen, None),
        seen.contains(start),
        ancestor(nodes, start, k) is Some,
    ensures
        seen.contains(ancestor(nodes, start, k)->0),
    decreases k,
{
    if k > 0 {
        let before = ancestor(nodes, start, (k - 1) as nat);
        lemma_closed_holds_chain(nodes, seen, start, (k - 1) as nat);
        assert(parent_of(nodes, before->0) == ancestor(nodes, start, k));
    }
}

impl Project {
    /// The identifiers of the roots to show for a query, in the order of
    /// the objects: with an empty query every root, else every root with
    /// a match in its tree.
    pub fn filtered_root_ids(&self, query: &str) -> (r: Vec<u64>)
        ensures
            r@ == shown_roots(self@.objects, self@.objects, query@),
    {
        let ghost nodes = self@.objects;
        let q = lowered_chars(query);
        let mut seen: HashSet<u64> = no_marks();
        let mut i: usize = 0;
        while i < self.objects.len()
            invariant
                i <= self.objects.len(),
                nodes == object_views(self.objects@),
                q@ == lowered(query@),
                closed_upward(nodes, seen@, None),
                forall|x: u64|
                    seen@.contains(x) ==> exists|j: int|
                        #![trigger nodes[j]]
                        0 <= j < i && object_matches(nodes[j], query@) && reaches(
                            nodes,
                            nodes[j].id,
                            x,
                        ),
                forall|j: int|
                    #![trigger nodes[j]]
                    0 <= j < i && object_matches(nodes[j], query@) ==> seen@.contains(nodes[j].id),
            decreases self.objects.len() - i,
        {
            if matches_lowered(&self.objects[i], &q) {
                let start = self.objects[i].id;
                let mut cursor: u64 = start;
                let ghost mut k: nat = 0;
                let ghost seen_before = seen@;
                loop
                    invariant
                        i < self.objects.len(),
                        nodes == object_views(self.objects@),
                        start == nodes[i as int].id,
                        object_matches(nodes[i as int], query@),
                        ancestor(nodes, start, k) == Some(cursor),
                        closed_upward(nodes, seen@, Some(cursor)),
                        seen@.contains(start) || cursor == start,
                        forall|x: u64| seen_before.contains(x) ==> seen@.contains(x),
                        forall|x: u64|
                            seen@.contains(x) ==> seen_before.contains(x) || reaches(nodes, start, x),
                    ensures
                        closed_upward(nodes, seen@, None),
                        seen@.contains(start),
                        forall|x: u64| seen_before.contains(x) ==> seen@.contains(x),
                        forall|x: u64|
                            seen@.contains(x) ==> seen_before.contains(x) || reaches(nodes, start, x),
                    decreases unmarked(nodes, seen@),
                {
                    let ghost old_seen = seen@;
                    if !mark_id(&mut seen, cursor) {
                        proof {
                            assert(seen@ =~= old_seen);
                        }
                        break ;
                    }
                    let next = match find_object(&self.objects, cursor) {
                        Some(at) => self.objects[at].parent_id,
                        None => None,
                    };
                    assert(next == parent_of(nodes, cursor));
                    match next {
                        None => {
                            break ;
                        },
                        Some(p) => {
                            proof {
                                let at = choose|at: int| is_first(nodes, cursor, at);
                                lemma_lookup_some(nodes, cursor);
                                lemma_unmarked_visit(nodes, old_seen, cursor, at);
                                assert(ancestor(nodes, start, k + 1) == Some(p));
                                k = k + 1;
                            }
                            cursor = p;
                        },
                    }
                }
                proof {
                    assert forall|x: u64| seen@.contains(x) implies exists|j: int|
                        #![trigger nodes[j]]
                        0 <= j < i + 1 && object_matches(nodes[j], query@) && reaches(
                            nodes,
                            nodes[j].id,
                            x,
                        ) by {
                        if seen_before.contains(x) {
                            let j = choose|j: int|
                                #![trigger nodes[j]]
                                0 <= j < i && object_matches(nodes[j], query@) && reaches(
                                    nodes,
                                    nodes[j].id,
                                    x,
                                );
                            assert(0 <= j < i + 1 && object_matches(nodes[j], query@) && reaches(
                                nodes,
                                nodes[j].id,
                                x,
                            ));
                        } else {
                            assert(object_matches(nodes[i as int], query@) && reaches(
                                nodes,
                                nodes[i as int].id,
                                x,
                            ));
                        }
                    }
                }
            }
            i += 1;
        }
        proof {
            assert forall|x: u64| seen@.contains(x) <==> shown(nodes, query@, x) by {
                if shown(nodes, query@, x) {
                    let j = choose|j: int|
                        #![trigger nodes[j]]
                        0 <= j < nodes.len() && object_matches(nodes[j], query@) && reaches(
                            nodes,
                            nodes[j].id,
                            x,
                        );
                    let k = choose|k: nat| ancestor(nodes, nodes[j].id, k) == Some(x);
                    lemma_closed_holds_chain(nodes, seen@, nodes[j].id, k);
                }
            }
        }
        let mut roots: Vec<u64> = Vec::new();
        let mut r: usize = 0;
        proof {
            assert(nodes.take(0) =~= Seq::<ObjectView>::empty());
        }
        while r < self.objects.len()
            invariant
                r <= self.objects.len(),
                nodes == object_views(self.objects@),
                forall|x: u64| seen@.contains(x) <==> shown(nodes, query@, x),
                roots@ == shown_roots(nodes.take(r as int), nodes, query@),
            decreases self.objects.len() - r,
        {
            proof {
                assert(nodes.take(r as int + 1).drop_last() =~= nodes.take(r as int));
            }
            let is_root = match self.objects[r].parent_id {
                None => true,
                Some(_) => false,
            };
            if is_root && is_marked(&seen, self.objects[r].id) {
                roots.push(self.objects[r].id);
            }
            r += 1;
        }
        proof {
            assert(nodes.take(r as int) =~= nodes);
        }
        roots
    }
}

} // verus!
