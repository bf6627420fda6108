//! What holds of a project, on two levels.
//!
//! A project is consistent when every reference in it leads somewhere:
//! every node names a parent that is there, or none; every token stands
//! for an object that is there; the counter lies above every identifier.
//! The repair after loading makes any project consistent, and every
//! operation keeps it so.
//!
//! A project is well formed when, beyond that, identifiers are unique and
//! every node stands under a node of the kind before it or, a building, at
//! the root.  A new project is well formed, and every operation keeps it
//! so.
//!
//! The one exception are the steps back and forward in the edit log of the
//! drawing.  They bring back a drawing exactly as it was recorded; where
//! an object was removed since, its tokens come back with the drawing and
//! stand for nothing until the references are repaired.

use vstd::prelude::*;
use crate::estimate::is_first_named;
use crate::graph::{
    ancestor, can_reparent, descends, duplicate_of, fresh_object, has_id, in_subtree, is_first,
    legal_placement, parent_of, reaches,
    lemma_child_in_subtree, lemma_first_unique, lemma_has_first, lemma_lookup_first,
    lemma_lookup_some, lookup, objects_with_parent, objects_without, subtree_ids, tokens_without,
    with_duplicate, with_object, with_parent, without_subtree,
};
use crate::graph::find_object;
use crate::model::{
    ObjectType, ObjectView, OverlayNode, Project, ProjectView, TemplatePointView, object_views,
};
use crate::repair::{
    all_anchored, lemma_pruned_is_anchored, lemma_pruned_keeps_anchored,
    lemma_repaired_counter_is_fresh, max_id, parent_known, pruned, repaired, tokens_on,
};
use crate::settings::{first_building, starter_project};
use crate::studio::{CanvasPoint, with_line, with_token};
use crate::templates::{adopt_template, sync_target, synced, with_points};

verus! {

/// No two nodes have the same identifier.
pub open spec fn ids_unique(nodes: Seq<ObjectView>) -> bool {
    forall|i: int, j: int|
        0 <= i < j < nodes.len() ==> (#[trigger] nodes[i]).id != (#[trigger] nodes[j]).id
}

/// Every node stands where its kind may stand.
pub open spec fn kinds_legal(nodes: Seq<ObjectView>) -> bool {
    forall|i: int|
        0 <= i < nodes.len() ==> legal_placement(
            nodes,
            (#[trigger] nodes[i]).object_type,
            nodes[i].parent_id,
        )
}

/// Every token stands for an object that is there.
pub open spec fn tokens_bound(tokens: Seq<OverlayNode>, nodes: Seq<ObjectView>) -> bool {
    forall|k: int| 0 <= k < tokens.len() ==> has_id(nodes, (#[trigger] tokens[k]).object_id)
}

/// Every reference in the project leads somewhere, and the counter lies
/// above every identifier.
pub open spec fn consistent(p: ProjectView) -> bool {
    &&& all_anchored(p.objects)
    &&& tokens_bound(p.overlay_nodes, p.objects)
    &&& forall|i: int| 0 <= i < p.objects.len() ==> (#[trigger] p.objects[i]).id < p.next_id
}

/// The invariant of a project.
pub open spec fn well_formed(p: ProjectView) -> bool {
    &&& ids_unique(p.objects)
    &&& forall|i: int| 0 <= i < p.objects.len() ==> (#[trigger] p.objects[i]).id < p.next_id
    &&& kinds_legal(p.objects)
    &&& tokens_bound(p.overlay_nodes, p.objects)
}

/// A step from `before` to `after` keeps what held: a consistent project
/// stays consistent, a well-formed one well formed.
pub open spec fn keeps_invariants(before: ProjectView, after: ProjectView) -> bool {
    &&& consistent(before) ==> consistent(after)
    &&& well_formed(before) ==> well_formed(after)
}

/// A well-formed project is consistent.
pub proof fn lemma_well_formed_is_consistent(p: ProjectView)
    requires
        well_formed(p),
    ensures
        consistent(p),
{
    assert forall|i: int| 0 <= i < p.objects.len() implies parent_known(
        p.objects,
        #[trigger] p.objects[i],
    ) by {
        assert(legal_placement(p.objects, p.objects[i].object_type, p.objects[i].parent_id));
        if p.objects[i].parent_id is Some {
            lemma_lookup_some(p.objects, p.objects[i].parent_id->0);
        }
    }
}

impl Project {
    /// Whether every token stands for an object that is there.
    fn tokens_are_bound(&self) -> (r: bool)
        ensures
            r == tokens_bound(self@.overlay_nodes, self@.objects),
    {
        let mut k: usize = 0;
        while k < self.overlay_nodes.len()
            invariant
                k <= self.overlay_nodes.len(),
                forall|j: int|
                    0 <= j < k ==> has_id(self@.objects, (#[trigger] self@.overlay_nodes[j]).object_id),
            decreases self.overlay_nodes.len() - k,
        {
            match find_object(&self.objects, self.overlay_nodes[k].object_id) {
                Some(_) => {
                    proof {
                        lemma_lookup_some(self@.objects, self.overlay_nodes[k as int].object_id);
                    }
                },
                None => {
                    assert(!has_id(self@.objects, self@.overlay_nodes[k as int].object_id));
                    return false;
                },
            }
            k += 1;
        }
        true
    }

    /// Whether the project is consistent.
    pub fn is_consistent(&self) -> (r: bool)
        ensures
            r == consistent(self@),
    {
        let ghost nodes = self@.objects;
        let mut i: usize = 0;
        while i < self.objects.len()
            invariant
                i <= self.objects.len(),
                nodes == object_views(self.objects@),
                forall|j: int|
                    0 <= j < i ==> parent_known(nodes, #[trigger] nodes[j]) && nodes[j].id
                        < self.next_id,
            decreases self.objects.len() - i,
        {
            if self.objects[i].id >= self.next_id {
                assert(!(nodes[i as int].id < self.next_id));
                return false;
            }
            match self.objects[i].parent_id {
                None => {},
                Some(p) => match find_object(&self.objects, p) {
                    Some(_) => {
                        proof {
                            lemma_lookup_some(nodes, p);
                        }
                    },
                    None => {
                        assert(!parent_known(nodes, nodes[i as int]));
                        return false;
                    },
                },
            }
            i += 1;
        }
        self.tokens_are_bound()
    }

    /// Whether the project is well formed.
    pub fn is_well_formed(&self) -> (r: bool)
        ensures
            r == well_formed(self@),
    {
        let ghost nodes = self@.objects;
        let mut i: usize = 0;
        while i < self.objects.len()
            invariant
                i <= self.objects.len(),
                nodes == object_views(self.objects@),
                forall|j: int|
                    0 <= j < i ==> is_first(nodes, (#[trigger] nodes[j]).id, j) && nodes[j].id
                        < self.next_id && legal_placement(
                        nodes,
                        nodes[j].object_type,
                        nodes[j].parent_id,
                    ),
            decreases self.objects.len() - i,
        {
            if self.objects[i].id >= self.next_id {
                assert(!(nodes[i as int].id < self.next_id));
                return false;
            }
            match find_object(&self.objects, self.objects[i].id) {
                Some(f) => {
                    if f != i {
                        assert(nodes[f as int].id == nodes[i as int].id);
                        return false;
                    }
                },
                None => {
                    assert(nodes[i as int].id == self.objects[i as int].id);
                    return false;
                },
            }
            if !self.can_add_object(self.objects[i].object_type, self.objects[i].parent_id) {
                assert(!legal_placement(
                    nodes,
                    nodes[i as int].object_type,
                    nodes[i as int].parent_id,
                ));
                return false;
            }
            i += 1;
        }
        proof {
            assert forall|a: int, b: int| 0 <= a < b < nodes.len() implies (#[trigger] nodes[a]).id != (
            #[trigger] nodes[b]).id by {
                assert(is_first(nodes, nodes[b].id, b));
            }
        }
        self.tokens_are_bound()
    }
}

/// Among unique identifiers, looking up the identifier of a node finds
/// that node.
pub proof fn lemma_lookup_own(nodes: Seq<ObjectView>, i: int)
    requires
        ids_unique(nodes),
        0 <= i < nodes.len(),
    ensures
        lookup(nodes, nodes[i].id) == Some(nodes[i]),
{
    assert(is_first(nodes, nodes[i].id, i));
    lemma_lookup_first(nodes, nodes[i].id, i);
}

/// Adding a node at the end changes no lookup that found something.
pub proof fn lemma_lookup_after_push(nodes: Seq<ObjectView>, x: ObjectView, id: u64)
    requires
        has_id(nodes, id),
    ensures
        lookup(nodes.push(x), id) == lookup(nodes, id),
{
    let w = choose|i: int| 0 <= i < nodes.len() && (#[trigger] nodes[i]).id == id;
    lemma_has_first(nodes, id, w);
    let f = choose|i: int| is_first(nodes, id, i);
    lemma_lookup_first(nodes, id, f);
    let grown = nodes.push(x);
    assert(is_first(grown, id, f)) by {
        assert(grown[f] == nodes[f]);
        assert forall|j: int| 0 <= j < f implies (#[trigger] grown[j]).id != id by {
            assert(grown[j] == nodes[j]);
        }
    }
    lemma_lookup_first(grown, id, f);
}

/// A placement that is legal stays legal when a node is added at the end.
pub proof fn lemma_placement_after_push(
    nodes: Seq<ObjectView>,
    x: ObjectView,
    kind: ObjectType,
    parent: Option<u64>,
)
    requires
        legal_placement(nodes, kind, parent),
    ensures
        legal_placement(nodes.push(x), kind, parent),
{
    if parent is Some {
        lemma_lookup_some(nodes, parent->0);
        lemma_lookup_after_push(nodes, x, parent->0);
    }
}

/// `a` is the beginning of `b`.
spec fn begins(a: Seq<ObjectView>, b: Seq<ObjectView>) -> bool {
    a.len() <= b.len() && forall|i: int| 0 <= i < a.len() ==> (#[trigger] b[i]) == a[i]
}

proof fn lemma_lookup_in_longer(a: Seq<ObjectView>, b: Seq<ObjectView>, id: u64)
    requires
        begins(a, b),
        has_id(a, id),
    ensures
        lookup(b, id) == lookup(a, id),
{
    let w = choose|i: int| 0 <= i < a.len() && (#[trigger] a[i]).id == id;
    lemma_has_first(a, id, w);
    let f = choose|i: int| is_first(a, id, i);
    lemma_lookup_first(a, id, f);
    assert(is_first(b, id, f)) by {
        assert(b[f] == a[f]);
        assert forall|j: int| 0 <= j < f implies (#[trigger] b[j]).id != id by {
            assert(b[j] == a[j]);
        }
    }
    lemma_lookup_first(b, id, f);
}

proof fn lemma_has_id_in_longer(a: Seq<ObjectView>, b: Seq<ObjectView>, id: u64)
    requires
        begins(a, b),
        has_id(a, id),
    ensures
        has_id(b, id),
{
    let w = choose|w: int| 0 <= w < a.len() && (#[trigger] a[w]).id == id;
    assert(b[w].id == id);
}

proof fn lemma_has_id_same_ids(a: Seq<ObjectView>, b: Seq<ObjectView>, id: u64)
    requires
        a.len() == b.len(),
        forall|i: int| 0 <= i < a.len() ==> (#[trigger] a[i]).id == b[i].id,
        has_id(a, id),
    ensures
        has_id(b, id),
{
    let w = choose|w: int| 0 <= w < a.len() && (#[trigger] a[w]).id == id;
    assert(b[w].id == id);
}

/// Lists with the same identifiers at the same positions find an
/// identifier at the same position.
proof fn lemma_lookup_same_ids(a: Seq<ObjectView>, b: Seq<ObjectView>, id: u64)
    requires
        a.len() == b.len(),
        forall|i: int| 0 <= i < a.len() ==> (#[trigger] a[i]).id == b[i].id,
    ensures
        lookup(a, id) is Some <==> lookup(b, id) is Some,
        lookup(a, id) is Some ==> exists|i: int|
            is_first(a, id, i) && is_first(b, id, i) && lookup(a, id) == Some(a[i]) && lookup(b, id)
                == Some(b[i]),
{
    assert forall|i: int| is_first(a, id, i) <==> is_first(b, id, i) by {
        if is_first(a, id, i) {
            assert(b[i].id == a[i].id);
            assert forall|j: int| 0 <= j < i implies (#[trigger] b[j]).id != id by {
                assert(a[j].id != id);
            }
        }
        if is_first(b, id, i) {
            assert(b[i].id == a[i].id);
            assert forall|j: int| 0 <= j < i implies (#[trigger] a[j]).id != id by {
                assert(a[j].id == b[j].id);
            }
        }
    }
    if exists|i: int| is_first(a, id, i) {
        let i = choose|i: int| is_first(a, id, i);
        assert(is_first(b, id, i));
        lemma_lookup_first(a, id, i);
        lemma_lookup_first(b, id, i);
    } else {
        assert(!(exists|i: int| is_first(b, id, i)));
    }
}

/// What is left after a removal is what was there and is not removed.
pub proof fn lemma_objects_without_members(nodes: Seq<ObjectView>, gone: Set<u64>, x: ObjectView)
    ensures
        objects_without(nodes, gone).contains(x) <==> nodes.contains(x) && !gone.contains(x.id),
    decreases nodes.len(),
{
    if nodes.len() > 0 {
        let rest = nodes.drop_last();
        let kept = objects_without(rest, gone);
        let all = objects_without(nodes, gone);
        lemma_objects_without_members(rest, gone, x);
        if all.contains(x) {
            let v = choose|v: int| 0 <= v < all.len() && all[v] == x;
            if v < kept.len() {
                assert(kept[v] == x);
                let w = choose|w: int| 0 <= w < rest.len() && rest[w] == x;
                assert(nodes[w] == x);
            } else {
                assert(nodes[nodes.len() - 1] == x);
            }
        }
        if nodes.contains(x) && !gone.contains(x.id) {
            let w = choose|w: int| 0 <= w < nodes.len() && nodes[w] == x;
            if w < rest.len() {
                assert(rest[w] == x);
                let v = choose|v: int| 0 <= v < kept.len() && kept[v] == x;
                assert(all[v] == x);
            } else {
                assert(all[kept.len() as int] == x);
            }
        }
    }
}

/// A removal keeps identifiers unique.
pub proof fn lemma_objects_without_unique(nodes: Seq<ObjectView>, gone: Set<u64>)
    requires
        ids_unique(nodes),
    ensures
        ids_unique(objects_without(nodes, gone)),
    decreases nodes.len(),
{
    if nodes.len() > 0 {
        let rest = nodes.drop_last();
        let kept = objects_without(rest, gone);
        let all = objects_without(nodes, gone);
        assert(ids_unique(rest)) by {
            assert forall|i: int, j: int| 0 <= i < j < rest.len() implies (#[trigger] rest[i]).id != (
            #[trigger] rest[j]).id by {
                assert(rest[i] == nodes[i] && rest[j] == nodes[j]);
            }
        }
        lemma_objects_without_unique(rest, gone);
        if !gone.contains(nodes.last().id) {
            assert forall|i: int, j: int| 0 <= i < j < all.len() implies (#[trigger] all[i]).id != (
            #[trigger] all[j]).id by {
                if j < kept.len() {
                    assert(all[i] == kept[i] && all[j] == kept[j]);
                } else {
                    assert(all[i] == kept[i]);
                    lemma_objects_without_members(rest, gone, kept[i]);
                    let w = choose|w: int| 0 <= w < rest.len() && rest[w] == kept[i];
                    assert(nodes[w] == kept[i]);
                    assert(nodes[nodes.len() - 1] == all[j]);
                }
            }
        }
    }
}

/// The tokens that are left after a removal are tokens that were there,
/// for objects that are not removed.
pub proof fn lemma_tokens_without_members(tokens: Seq<OverlayNode>, gone: Set<u64>, k: int)
    requires
        0 <= k < tokens_without(tokens, gone).len(),
    ensures
        tokens.contains(tokens_without(tokens, gone)[k]),
        !gone.contains(tokens_without(tokens, gone)[k].object_id),
    decreases tokens.len(),
{
    if tokens.len() > 0 {
        let rest = tokens.drop_last();
        let kept = tokens_without(rest, gone);
        if k < kept.len() {
            lemma_tokens_without_members(rest, gone, k);
            let w = choose|w: int| 0 <= w < rest.len() && rest[w] == kept[k];
            assert(tokens[w] == kept[k]);
        } else {
            assert(tokens[tokens.len() - 1] == tokens.last());
        }
    }
}

/// The shape of a list that template points were added to: it begins
/// with the list before, and what follows are points under `parent` with
/// the identifiers from `first_id` on.
spec fn points_appended(
    nodes: Seq<ObjectView>,
    first_id: u64,
    parent: u64,
    grown: Seq<ObjectView>,
) -> bool {
    &&& begins(nodes, grown)
    &&& forall|j: int|
        nodes.len() <= j < grown.len() ==> (#[trigger] grown[j]).id == first_id + (j - nodes.len())
            && grown[j].parent_id == Some(parent) && grown[j].object_type == ObjectType::Point
}

proof fn lemma_with_points_shape(
    nodes: Seq<ObjectView>,
    first_id: u64,
    parent: u64,
    points: Seq<TemplatePointView>,
)
    requires
        first_id + points.len() <= u64::MAX,
    ensures
        points_appended(nodes, first_id, parent, with_points(nodes, first_id, parent, points)),
        with_points(nodes, first_id, parent, points).len() <= nodes.len() + points.len(),
    decreases points.len(),
{
    if points.len() > 0 {
        lemma_with_points_shape(nodes, first_id, parent, points.drop_last());
        let before = with_points(nodes, first_id, parent, points.drop_last());
        let grown = with_points(nodes, first_id, parent, points);
        assert forall|i: int| 0 <= i < nodes.len() implies (#[trigger] grown[i]) == nodes[i] by {
            assert(before[i] == nodes[i]);
        }
        assert forall|j: int| nodes.len() <= j < grown.len() implies (#[trigger] grown[j]).id
            == first_id + (j - nodes.len()) && grown[j].parent_id == Some(parent)
            && grown[j].object_type == ObjectType::Point by {
            if j < before.len() {
                assert(grown[j] == before[j]);
            }
        }
    }
}

proof fn lemma_tokens_on_bound(tokens: Seq<OverlayNode>, nodes: Seq<ObjectView>)
    ensures
        tokens_bound(tokens_on(tokens, nodes), nodes),
    decreases tokens.len(),
{
    if tokens.len() > 0 {
        lemma_tokens_on_bound(tokens.drop_last(), nodes);
        let kept = tokens_on(tokens.drop_last(), nodes);
        let all = tokens_on(tokens, nodes);
        assert forall|k: int| 0 <= k < all.len() implies has_id(
            nodes,
            (#[trigger] all[k]).object_id,
        ) by {
            if k < kept.len() {
                assert(all[k] == kept[k]);
            }
        }
    }
}

proof fn lemma_repaired_references_lead(p: ProjectView)
    ensures
        all_anchored(repaired(p).objects),
        tokens_bound(repaired(p).overlay_nodes, repaired(p).objects),
{
    lemma_pruned_is_anchored(p.objects);
    lemma_tokens_on_bound(p.overlay_nodes, pruned(p.objects));
}

/// The repair makes a project consistent.
pub proof fn lemma_repair_makes_consistent(p: ProjectView)
    requires
        forall|j: int| 0 <= j < p.objects.len() ==> (#[trigger] p.objects[j]).id < u64::MAX,
    ensures
        consistent(repaired(p)),
{
    lemma_repaired_references_lead(p);
    assert forall|i: int| 0 <= i < repaired(p).objects.len() implies (
    #[trigger] repaired(p).objects[i]).id < repaired(p).next_id by {
        lemma_repaired_counter_is_fresh(p, i);
    }
}

proof fn lemma_tokens_on_keeps_bound(tokens: Seq<OverlayNode>, nodes: Seq<ObjectView>)
    requires
        tokens_bound(tokens, nodes),
    ensures
        tokens_on(tokens, nodes) == tokens,
    decreases tokens.len(),
{
    if tokens.len() > 0 {
        assert forall|k: int| 0 <= k < tokens.drop_last().len() implies has_id(
            nodes,
            (#[trigger] tokens.drop_last()[k]).object_id,
        ) by {
            assert(tokens.drop_last()[k] == tokens[k]);
        }
        lemma_tokens_on_keeps_bound(tokens.drop_last(), nodes);
        assert(has_id(nodes, tokens[tokens.len() - 1].object_id));
        assert(tokens_on(tokens, nodes) =~= tokens);
    }
}

proof fn lemma_max_id_below(nodes: Seq<ObjectView>, bound: int)
    requires
        bound > 0,
        forall|i: int| 0 <= i < nodes.len() ==> (#[trigger] nodes[i]).id < bound,
    ensures
        max_id(nodes) < bound,
    decreases nodes.len(),
{
    if nodes.len() > 0 {
        assert forall|i: int| 0 <= i < nodes.drop_last().len() implies (
        #[trigger] nodes.drop_last()[i]).id < bound by {
            assert(nodes.drop_last()[i] == nodes[i]);
        }
        lemma_max_id_below(nodes.drop_last(), bound);
        assert(nodes[nodes.len() - 1].id < bound);
    }
}

/// The repair changes nothing in a project that is consistent: one in
/// which every parent and every token's object is there and the counter,
/// at least one, lies above every identifier.  What is stored of such a
/// project is what is worked with after loading.
pub proof fn lemma_repair_keeps_consistent(p: ProjectView)
    requires
        all_anchored(p.objects),
        tokens_bound(p.overlay_nodes, p.objects),
        p.next_id >= 1,
        forall|i: int| 0 <= i < p.objects.len() ==> (#[trigger] p.objects[i]).id < p.next_id,
    ensures
        repaired(p) == p,
{
    lemma_pruned_keeps_anchored(p.objects);
    lemma_tokens_on_keeps_bound(p.overlay_nodes, p.objects);
    lemma_max_id_below(p.objects, p.next_id as int);
}

/// Adding nodes at the end, each with a parent that is there and an
/// identifier below the new counter, keeps a project consistent.
proof fn lemma_growth_keeps_consistent(p: ProjectView, grown: Seq<ObjectView>, next_id: u64)
    requires
        consistent(p),
        begins(p.objects, grown),
        p.next_id <= next_id,
        forall|j: int|
            p.objects.len() <= j < grown.len() ==> (#[trigger] grown[j]).id < next_id
                && parent_known(grown, grown[j]),
    ensures
        consistent(ProjectView { objects: grown, next_id, ..p }),
{
    assert forall|i: int| 0 <= i < grown.len() implies parent_known(grown, #[trigger] grown[i]) by {
        if i < p.objects.len() {
            assert(grown[i] == p.objects[i]);
            assert(parent_known(p.objects, p.objects[i]));
            if p.objects[i].parent_id is Some {
                lemma_has_id_in_longer(p.objects, grown, p.objects[i].parent_id->0);
            }
        }
    }
    assert forall|k: int| 0 <= k < p.overlay_nodes.len() implies has_id(
        grown,
        (#[trigger] p.overlay_nodes[k]).object_id,
    ) by {
        lemma_has_id_in_longer(p.objects, grown, p.overlay_nodes[k].object_id);
    }
    assert forall|i: int| 0 <= i < grown.len() implies (#[trigger] grown[i]).id < next_id by {
        if i < p.objects.len() {
            assert(grown[i] == p.objects[i]);
            assert(p.objects[i].id < p.next_id);
        }
    }
}

/// Adding a node where it may stand keeps a project consistent.
pub proof fn lemma_add_keeps_consistent(p: ProjectView, kind: ObjectType, parent: Option<u64>)
    requires
        consistent(p),
        legal_placement(p.objects, kind, parent),
        p.next_id < u64::MAX,
    ensures
        consistent(with_object(p, kind, parent)),
{
    let node = fresh_object(p.next_id, kind, parent);
    let grown = p.objects.push(node);
    if parent is Some {
        lemma_lookup_some(p.objects, parent->0);
        lemma_has_id_in_longer(p.objects, grown, parent->0);
    }
    lemma_growth_keeps_consistent(p, grown, (p.next_id + 1) as u64);
}

/// Duplicating a node keeps a project consistent.
pub proof fn lemma_duplicate_keeps_consistent(p: ProjectView, id: u64)
    requires
        consistent(p),
        has_id(p.objects, id),
        p.next_id < u64::MAX,
    ensures
        consistent(with_duplicate(p, id)),
{
    lemma_lookup_some(p.objects, id);
    let src = lookup(p.objects, id)->0;
    let w = choose|w: int| 0 <= w < p.objects.len() && p.objects[w] == src;
    assert(parent_known(p.objects, p.objects[w]));
    let grown = p.objects.push(duplicate_of(src, p.next_id));
    if src.parent_id is Some {
        lemma_has_id_in_longer(p.objects, grown, src.parent_id->0);
    }
    lemma_growth_keeps_consistent(p, grown, (p.next_id + 1) as u64);
}

/// Removing a subtree keeps a project consistent.
pub proof fn lemma_remove_keeps_consistent(p: ProjectView, id: u64)
    requires
        consistent(p),
    ensures
        consistent(without_subtree(p, id)),
{
    let gone = subtree_ids(p.objects, id);
    let left = objects_without(p.objects, gone);
    let q = without_subtree(p, id);
    assert forall|i: int| 0 <= i < left.len() implies (#[trigger] left[i]).id < p.next_id
        && parent_known(left, left[i]) by {
        let n = left[i];
        lemma_objects_without_members(p.objects, gone, n);
        let w = choose|w: int| 0 <= w < p.objects.len() && p.objects[w] == n;
        assert(p.objects[w].id < p.next_id);
        assert(parent_known(p.objects, p.objects[w]));
        if n.parent_id is Some {
            let pid = n.parent_id->0;
            if gone.contains(pid) {
                lemma_child_in_subtree(p.objects, w, id);
            }
            let o = choose|o: int| 0 <= o < p.objects.len() && (#[trigger] p.objects[o]).id == pid;
            lemma_objects_without_members(p.objects, gone, p.objects[o]);
            let v = choose|v: int| 0 <= v < left.len() && left[v] == p.objects[o];
            assert(left[v].id == pid);
        }
    }
    assert forall|k: int| 0 <= k < q.overlay_nodes.len() implies has_id(
        left,
        (#[trigger] q.overlay_nodes[k]).object_id,
    ) by {
        let t = q.overlay_nodes[k];
        lemma_tokens_without_members(p.overlay_nodes, gone, k);
        let w = choose|w: int| 0 <= w < p.overlay_nodes.len() && p.overlay_nodes[w] == t;
        assert(has_id(p.objects, p.overlay_nodes[w].object_id));
        let o = choose|o: int|
            0 <= o < p.objects.len() && (#[trigger] p.objects[o]).id == t.object_id;
        lemma_objects_without_members(p.objects, gone, p.objects[o]);
        let v = choose|v: int| 0 <= v < left.len() && left[v] == p.objects[o];
        assert(left[v].id == t.object_id);
    }
}

/// A legal move keeps a project consistent.
pub proof fn lemma_reparent_keeps_consistent(p: ProjectView, child: u64, new_parent: u64)
    requires
        consistent(p),
        can_reparent(p.objects, child, new_parent),
    ensures
        consistent(with_parent(p, child, new_parent)),
{
    let nodes = p.objects;
    let after = objects_with_parent(nodes, child, new_parent);
    let c = choose|i: int| is_first(nodes, child, i);
    lemma_lookup_some(nodes, child);
    lemma_lookup_some(nodes, new_parent);
    assert forall|i: int| 0 <= i < nodes.len() implies (#[trigger] nodes[i]).id == after[i].id by {}
    lemma_has_id_same_ids(nodes, after, new_parent);
    assert forall|i: int| 0 <= i < after.len() implies parent_known(after, #[trigger] after[i])
        && after[i].id < p.next_id by {
        assert(nodes[i].id < p.next_id);
        assert(parent_known(nodes, nodes[i]));
        if i != c && nodes[i].parent_id is Some {
            lemma_has_id_same_ids(nodes, after, nodes[i].parent_id->0);
        }
    }
    assert forall|k: int| 0 <= k < p.overlay_nodes.len() implies has_id(
        after,
        (#[trigger] p.overlay_nodes[k]).object_id,
    ) by {
        lemma_has_id_same_ids(nodes, after, p.overlay_nodes[k].object_id);
    }
}

/// Synchronising a piece of equipment with its template keeps a project
/// consistent, as long as the counter has room for the template's points.
pub proof fn lemma_sync_keeps_consistent(p: ProjectView, obj_id: u64)
    requires
        consistent(p),
        forall|i: int|
            0 <= i < p.templates.len() ==> p.next_id + (#[trigger] p.templates[i]).points.len()
                <= u64::MAX,
    ensures
        consistent(synced(p, obj_id)),
{
    match sync_target(p, obj_id) {
        None => {},
        Some((eq, t)) => {
            let nodes = p.objects;
            let c = choose|i: int| is_first(nodes, obj_id, i);
            lemma_lookup_some(nodes, obj_id);
            lemma_lookup_first(nodes, obj_id, c);
            let ti = choose|i: int| is_first_named(p.templates, eq.template_name, i);
            assert(p.next_id + p.templates[ti].points.len() <= u64::MAX);
            let adopted = nodes.update(c, adopt_template(eq, t));
            let grown = with_points(adopted, p.next_id, obj_id, t.points);
            lemma_with_points_shape(adopted, p.next_id, obj_id, t.points);
            let q = synced(p, obj_id);
            assert forall|i: int| 0 <= i < nodes.len() implies (#[trigger] nodes[i]).id
                == adopted[i].id by {}
            let middle = ProjectView { objects: adopted, ..p };
            assert(consistent(middle)) by {
                assert forall|i: int| 0 <= i < adopted.len() implies parent_known(
                    adopted,
                    #[trigger] adopted[i],
                ) && adopted[i].id < p.next_id by {
                    assert(nodes[i].id < p.next_id);
                    assert(parent_known(nodes, nodes[i]));
                    if nodes[i].parent_id is Some {
                        lemma_has_id_same_ids(nodes, adopted, nodes[i].parent_id->0);
                    }
                }
                assert forall|k: int| 0 <= k < p.overlay_nodes.len() implies has_id(
                    adopted,
                    (#[trigger] p.overlay_nodes[k]).object_id,
                ) by {
                    lemma_has_id_same_ids(nodes, adopted, p.overlay_nodes[k].object_id);
                }
            }
            assert(has_id(grown, obj_id)) by {
                assert(grown[c] == adopted[c]);
            }
            lemma_growth_keeps_consistent(middle, grown, q.next_id);
        },
    }
}

/// A token for an object that is there keeps a project consistent, and so
/// does a line.
pub proof fn lemma_drawing_keeps_consistent(
    p: ProjectView,
    object_id: u64,
    at: CanvasPoint,
    to: CanvasPoint,
)
    requires
        consistent(p),
        has_id(p.objects, object_id),
        p.next_id < u64::MAX,
    ensures
        consistent(with_token(p, object_id, at)),
        consistent(with_line(p, at, to)),
{
    let q = with_token(p, object_id, at);
    assert forall|k: int| 0 <= k < q.overlay_nodes.len() implies has_id(
        q.objects,
        (#[trigger] q.overlay_nodes[k]).object_id,
    ) by {
        if k < p.overlay_nodes.len() {
            assert(q.overlay_nodes[k] == p.overlay_nodes[k]);
        }
    }
    assert forall|i: int| 0 <= i < q.objects.len() implies (#[trigger] q.objects[i]).id
        < q.next_id by {
        assert(p.objects[i].id < p.next_id);
    }
}

/// A new project is well formed.
pub proof fn lemma_starter_project_well_formed(project_uuid: u128)
    ensures
        well_formed(starter_project(project_uuid)),
{
    let p = starter_project(project_uuid);
    assert(p.objects.len() == 1);
    assert(p.objects[0] == first_building());
}

/// Adding at the end a node with the next identifier, standing where its
/// kind may stand, keeps a project well formed.
proof fn lemma_push_keeps_well_formed(p: ProjectView, node: ObjectView)
    requires
        well_formed(p),
        node.id == p.next_id,
        legal_placement(p.objects, node.object_type, node.parent_id),
        p.next_id < u64::MAX,
    ensures
        well_formed(ProjectView {
            objects: p.objects.push(node),
            next_id: (p.next_id + 1) as u64,
            ..p
        }),
{
    let grown = p.objects.push(node);
    assert forall|i: int, j: int| 0 <= i < j < grown.len() implies (#[trigger] grown[i]).id != (
    #[trigger] grown[j]).id by {
        if j < p.objects.len() {
            assert(grown[i] == p.objects[i] && grown[j] == p.objects[j]);
        } else {
            assert(grown[i] == p.objects[i]);
        }
    }
    assert forall|i: int| 0 <= i < grown.len() implies legal_placement(
        grown,
        (#[trigger] grown[i]).object_type,
        grown[i].parent_id,
    ) by {
        if i < p.objects.len() {
            assert(grown[i] == p.objects[i]);
            lemma_placement_after_push(
                p.objects,
                node,
                p.objects[i].object_type,
                p.objects[i].parent_id,
            );
        } else {
            lemma_placement_after_push(p.objects, node, node.object_type, node.parent_id);
        }
    }
    assert forall|k: int| 0 <= k < p.overlay_nodes.len() implies has_id(
        grown,
        (#[trigger] p.overlay_nodes[k]).object_id,
    ) by {
        let w = choose|w: int|
            0 <= w < p.objects.len() && (#[trigger] p.objects[w]).id
                == p.overlay_nodes[k].object_id;
        assert(grown[w].id == p.overlay_nodes[k].object_id);
    }
    assert forall|i: int| 0 <= i < grown.len() implies (#[trigger] grown[i]).id < p.next_id
        + 1 by {
        if i < p.objects.len() {
            assert(grown[i] == p.objects[i]);
        }
    }
}

/// Adding a node where it may stand keeps a project well formed.
pub proof fn lemma_add_keeps_well_formed(p: ProjectView, kind: ObjectType, parent: Option<u64>)
    requires
        well_formed(p),
        legal_placement(p.objects, kind, parent),
        p.next_id < u64::MAX,
    ensures
        well_formed(with_object(p, kind, parent)),
{
    let node = fresh_object(p.next_id, kind, parent);
    lemma_push_keeps_well_formed(p, node);
}

/// Duplicating a node keeps a project well formed.
pub proof fn lemma_duplicate_keeps_well_formed(p: ProjectView, id: u64)
    requires
        well_formed(p),
        has_id(p.objects, id),
        p.next_id < u64::MAX,
    ensures
        well_formed(with_duplicate(p, id)),
{
    lemma_lookup_some(p.objects, id);
    let src = lookup(p.objects, id)->0;
    let w = choose|w: int| 0 <= w < p.objects.len() && p.objects[w] == src;
    assert(legal_placement(p.objects, p.objects[w].object_type, p.objects[w].parent_id));
    lemma_push_keeps_well_formed(p, duplicate_of(src, p.next_id));
}

/// Removing a subtree keeps a project well formed.
pub proof fn lemma_remove_keeps_well_formed(p: ProjectView, id: u64)
    requires
        well_formed(p),
    ensures
        well_formed(without_subtree(p, id)),
{
    let gone = subtree_ids(p.objects, id);
    let left = objects_without(p.objects, gone);
    let q = without_subtree(p, id);
    lemma_objects_without_unique(p.objects, gone);
    assert forall|i: int| 0 <= i < left.len() implies (#[trigger] left[i]).id < p.next_id
        && legal_placement(left, left[i].object_type, left[i].parent_id) by {
        let n = left[i];
        lemma_objects_without_members(p.objects, gone, n);
        let w = choose|w: int| 0 <= w < p.objects.len() && p.objects[w] == n;
        assert(p.objects[w].id < p.next_id);
        assert(legal_placement(p.objects, p.objects[w].object_type, p.objects[w].parent_id));
        if n.parent_id is Some {
            let pid = n.parent_id->0;
            lemma_lookup_some(p.objects, pid);
            let parent = lookup(p.objects, pid)->0;
            if gone.contains(pid) {
                lemma_child_in_subtree(p.objects, w, id);
            }
            lemma_objects_without_members(p.objects, gone, parent);
            let v = choose|v: int| 0 <= v < left.len() && left[v] == parent;
            lemma_lookup_own(left, v);
        }
    }
    assert forall|k: int| 0 <= k < q.overlay_nodes.len() implies has_id(
        left,
        (#[trigger] q.overlay_nodes[k]).object_id,
    ) by {
        let t = q.overlay_nodes[k];
        lemma_tokens_without_members(p.overlay_nodes, gone, k);
        let w = choose|w: int| 0 <= w < p.overlay_nodes.len() && p.overlay_nodes[w] == t;
        assert(has_id(p.objects, p.overlay_nodes[w].object_id));
        let o = choose|o: int|
            0 <= o < p.objects.len() && (#[trigger] p.objects[o]).id == t.object_id;
        lemma_objects_without_members(p.objects, gone, p.objects[o]);
        let v = choose|v: int| 0 <= v < left.len() && left[v] == p.objects[o];
        assert(left[v].id == t.object_id);
    }
}

/// A legal move keeps a project well formed.
pub proof fn lemma_reparent_keeps_well_formed(p: ProjectView, child: u64, new_parent: u64)
    requires
        well_formed(p),
        can_reparent(p.objects, child, new_parent),
    ensures
        well_formed(with_parent(p, child, new_parent)),
{
    let nodes = p.objects;
    let after = objects_with_parent(nodes, child, new_parent);
    let c = choose|i: int| is_first(nodes, child, i);
    lemma_lookup_some(nodes, child);
    lemma_lookup_first(nodes, child, c);
    assert forall|i: int| 0 <= i < nodes.len() implies (#[trigger] after[i]).id == nodes[i].id
        && after[i].object_type == nodes[i].object_type by {}
    assert forall|i: int, j: int| 0 <= i < j < after.len() implies (#[trigger] after[i]).id != (
    #[trigger] after[j]).id by {
        assert(nodes[i].id != nodes[j].id);
    }
    assert forall|i: int| 0 <= i < after.len() implies legal_placement(
        after,
        (#[trigger] after[i]).object_type,
        after[i].parent_id,
    ) by {
        assert(legal_placement(nodes, nodes[i].object_type, nodes[i].parent_id));
        if after[i].parent_id is Some {
            let pid = after[i].parent_id->0;
            lemma_lookup_same_ids(nodes, after, pid);
            if i != c {
                assert(after[i] == nodes[i]);
            }
            let f = choose|f: int|
                is_first(nodes, pid, f) && is_first(after, pid, f) && lookup(nodes, pid) == Some(
                    nodes[f],
                ) && lookup(after, pid) == Some(after[f]);
            assert(after[f].object_type == nodes[f].object_type);
        }
    }
    assert forall|k: int| 0 <= k < p.overlay_nodes.len() implies has_id(
        after,
        (#[trigger] p.overlay_nodes[k]).object_id,
    ) by {
        let w = choose|w: int|
            0 <= w < nodes.len() && (#[trigger] nodes[w]).id == p.overlay_nodes[k].object_id;
        assert(after[w].id == p.overlay_nodes[k].object_id);
    }
    assert forall|i: int| 0 <= i < after.len() implies (#[trigger] after[i]).id < p.next_id by {
        assert(nodes[i].id < p.next_id);
    }
}

/// Synchronising a piece of equipment with its template keeps a project
/// well formed, as long as the counter has room for the template's points.
pub proof fn lemma_sync_keeps_well_formed(p: ProjectView, obj_id: u64)
    requires
        well_formed(p),
        forall|i: int|
            0 <= i < p.templates.len() ==> p.next_id + (#[trigger] p.templates[i]).points.len()
                <= u64::MAX,
    ensures
        well_formed(synced(p, obj_id)),
{
    match sync_target(p, obj_id) {
        None => {},
        Some((eq, t)) => {
            let nodes = p.objects;
            let c = choose|i: int| is_first(nodes, obj_id, i);
            lemma_lookup_some(nodes, obj_id);
            lemma_lookup_first(nodes, obj_id, c);
            let name = eq.template_name;
            let ti = choose|i: int| is_first_named(p.templates, name, i);
            assert(p.next_id + p.templates[ti].points.len() <= u64::MAX);
            let adopted = nodes.update(c, adopt_template(eq, t));
            let grown = with_points(adopted, p.next_id, obj_id, t.points);
            lemma_with_points_shape(adopted, p.next_id, obj_id, t.points);
            let q = synced(p, obj_id);
            assert(q.objects == grown);
            assert forall|i: int| 0 <= i < nodes.len() implies (#[trigger] adopted[i]).id
                == nodes[i].id && adopted[i].object_type == nodes[i].object_type
                && adopted[i].parent_id == nodes[i].parent_id by {}
            assert forall|i: int| 0 <= i < grown.len() implies (#[trigger] grown[i]).id
                < q.next_id by {
                if i < nodes.len() {
                    assert(grown[i] == adopted[i]);
                    assert(nodes[i].id < p.next_id);
                }
            }
            assert forall|i: int, j: int| 0 <= i < j < grown.len() implies (#[trigger] grown[i]).id
                != (#[trigger] grown[j]).id by {
                if j < nodes.len() {
                    assert(grown[i] == adopted[i] && grown[j] == adopted[j]);
                    assert(nodes[i].id != nodes[j].id);
                } else if i < nodes.len() {
                    assert(grown[i] == adopted[i]);
                    assert(nodes[i].id < p.next_id);
                }
            }
            assert(has_id(adopted, obj_id)) by {
                assert(adopted[c].id == obj_id);
            }
            lemma_lookup_same_ids(nodes, adopted, obj_id);
            lemma_lookup_in_longer(adopted, grown, obj_id);
            assert(lookup(grown, obj_id)->0.object_type == ObjectType::Equipment) by {
                let f = choose|f: int|
                    is_first(nodes, obj_id, f) && is_first(adopted, obj_id, f) && lookup(
                        nodes,
                        obj_id,
                    ) == Some(nodes[f]) && lookup(adopted, obj_id) == Some(adopted[f]);
                lemma_first_unique(nodes, obj_id, f, c);
            }
            assert forall|i: int| 0 <= i < grown.len() implies legal_placement(
                grown,
                (#[trigger] grown[i]).object_type,
                grown[i].parent_id,
            ) by {
                if i < nodes.len() {
                    assert(grown[i] == adopted[i]);
                    assert(legal_placement(nodes, nodes[i].object_type, nodes[i].parent_id));
                    if nodes[i].parent_id is Some {
                        let pid = nodes[i].parent_id->0;
                        lemma_lookup_some(nodes, pid);
                        lemma_lookup_same_ids(nodes, adopted, pid);
                        let f = choose|f: int|
                            is_first(nodes, pid, f) && is_first(adopted, pid, f) && lookup(
                                nodes,
                                pid,
                            ) == Some(nodes[f]) && lookup(adopted, pid) == Some(adopted[f]);
                        assert(adopted[f].object_type == nodes[f].object_type);
                        assert(has_id(adopted, pid)) by {
                            assert(adopted[f].id == pid);
                        }
                        lemma_lookup_in_longer(adopted, grown, pid);
                    }
                }
            }
            assert forall|k: int| 0 <= k < p.overlay_nodes.len() implies has_id(
                grown,
                (#[trigger] p.overlay_nodes[k]).object_id,
            ) by {
                let w = choose|w: int|
                    0 <= w < nodes.len() && (#[trigger] nodes[w]).id
                        == p.overlay_nodes[k].object_id;
                assert(grown[w] == adopted[w]);
                assert(grown[w].id == p.overlay_nodes[k].object_id);
            }
        },
    }
}

/// A token for an object that is there keeps a project well formed, and
/// so does a line.
pub proof fn lemma_drawing_keeps_well_formed(
    p: ProjectView,
    object_id: u64,
    at: CanvasPoint,
    to: CanvasPoint,
)
    requires
        well_formed(p),
        has_id(p.objects, object_id),
        p.next_id < u64::MAX,
    ensures
        well_formed(with_token(p, object_id, at)),
        well_formed(with_line(p, at, to)),
{
    let q = with_token(p, object_id, at);
    assert forall|k: int| 0 <= k < q.overlay_nodes.len() implies has_id(
        q.objects,
        (#[trigger] q.overlay_nodes[k]).object_id,
    ) by {
        if k < p.overlay_nodes.len() {
            assert(q.overlay_nodes[k] == p.overlay_nodes[k]);
        }
    }
    assert forall|i: int| 0 <= i < q.objects.len() implies (#[trigger] q.objects[i]).id
        < q.next_id by {
        assert(p.objects[i].id < p.next_id);
    }
}

/// Changing a node in anything but its identifier, its parent and its
/// kind keeps a project consistent and well formed.
pub proof fn lemma_edit_keeps_invariants(p: ProjectView, i: int, node: ObjectView)
    requires
        0 <= i < p.objects.len(),
        node.id == p.objects[i].id,
        node.parent_id == p.objects[i].parent_id,
        node.object_type == p.objects[i].object_type,
    ensures
        keeps_invariants(p, ProjectView { objects: p.objects.update(i, node), ..p }),
{
    let nodes = p.objects;
    let after = nodes.update(i, node);
    assert forall|j: int| 0 <= j < nodes.len() implies (#[trigger] nodes[j]).id == after[j].id by {}
    if consistent(p) {
        assert forall|j: int| 0 <= j < after.len() implies parent_known(after, #[trigger] after[j])
            && after[j].id < p.next_id by {
            assert(nodes[j].id < p.next_id);
            assert(parent_known(nodes, nodes[j]));
            if nodes[j].parent_id is Some {
                lemma_has_id_same_ids(nodes, after, nodes[j].parent_id->0);
            }
        }
        assert forall|k: int| 0 <= k < p.overlay_nodes.len() implies has_id(
            after,
            (#[trigger] p.overlay_nodes[k]).object_id,
        ) by {
            lemma_has_id_same_ids(nodes, after, p.overlay_nodes[k].object_id);
        }
    }
    if well_formed(p) {
        assert forall|a: int, b: int| 0 <= a < b < after.len() implies (#[trigger] after[a]).id != (
        #[trigger] after[b]).id by {
            assert(nodes[a].id != nodes[b].id);
        }
        assert forall|j: int| 0 <= j < after.len() implies legal_placement(
            after,
            (#[trigger] after[j]).object_type,
            after[j].parent_id,
        ) && after[j].id < p.next_id by {
            assert(nodes[j].id < p.next_id);
            assert(legal_placement(nodes, nodes[j].object_type, nodes[j].parent_id));
            if after[j].parent_id is Some {
                let pid = after[j].parent_id->0;
                lemma_lookup_same_ids(nodes, after, pid);
                let f = choose|f: int|
                    is_first(nodes, pid, f) && is_first(after, pid, f) && lookup(nodes, pid)
                        == Some(nodes[f]) && lookup(after, pid) == Some(after[f]);
                assert(after[f].object_type == nodes[f].object_type);
            }
        }
        assert forall|k: int| 0 <= k < p.overlay_nodes.len() implies has_id(
            after,
            (#[trigger] p.overlay_nodes[k]).object_id,
        ) by {
            lemma_has_id_same_ids(nodes, after, p.overlay_nodes[k].object_id);
        }
    }
}

/// The way up from `id` is the way up from its parent, one step later.
proof fn lemma_chain_through_parent(nodes: Seq<ObjectView>, id: u64, k: nat)
    requires
        parent_of(nodes, id) is Some,
    ensures
        ancestor(nodes, id, k + 1) == ancestor(nodes, parent_of(nodes, id)->0, k),
    decreases k,
{
    reveal_with_fuel(ancestor, 3);
    if k > 0 {
        lemma_chain_through_parent(nodes, id, (k - 1) as nat);
    }
}

proof fn lemma_chain_needs_parent(nodes: Seq<ObjectView>, id: u64, k: nat)
    requires
        parent_of(nodes, id) is None,
        k > 0,
    ensures
        ancestor(nodes, id, k) is None,
    decreases k,
{
    reveal_with_fuel(ancestor, 3);
    if k > 1 {
        lemma_chain_needs_parent(nodes, id, (k - 1) as nat);
    }
}

proof fn lemma_walk_descends(nodes: Seq<ObjectView>, d: u64, a: u64, k: nat)
    requires
        ancestor(nodes, d, k) == Some(a),
    ensures
        descends(nodes, d, a, k),
    decreases k,
{
    if k > 0 {
        if parent_of(nodes, d) is None {
            lemma_chain_needs_parent(nodes, d, k);
        }
        let p = parent_of(nodes, d)->0;
        lemma_chain_through_parent(nodes, d, (k - 1) as nat);
        lemma_walk_descends(nodes, p, a, (k - 1) as nat);
        lemma_lookup_some(nodes, d);
        let n = lookup(nodes, d)->0;
        let w = choose|w: int| 0 <= w < nodes.len() && nodes[w] == n;
        assert(nodes[w].id == d && nodes[w].parent_id is Some && descends(
            nodes,
            nodes[w].parent_id->0,
            a,
            (k - 1) as nat,
        ));
    }
}

proof fn lemma_descent_walks(nodes: Seq<ObjectView>, d: u64, a: u64, k: nat)
    requires
        ids_unique(nodes),
        descends(nodes, d, a, k),
    ensures
        ancestor(nodes, d, k) == Some(a),
    decreases k,
{
    if k > 0 {
        let i = choose|i: int|
            #![trigger nodes[i]]
            0 <= i < nodes.len() && nodes[i].id == d && nodes[i].parent_id is Some && descends(
                nodes,
                nodes[i].parent_id->0,
                a,
                (k - 1) as nat,
            );
        lemma_lookup_own(nodes, i);
        lemma_descent_walks(nodes, nodes[i].parent_id->0, a, (k - 1) as nat);
        lemma_chain_through_parent(nodes, d, (k - 1) as nat);
    }
}

/// What is met on the way up from `d` has `d` in its subtree; among
/// unique identifiers the subtree of `a` is exactly what meets `a` on its
/// way up.
pub proof fn lemma_subtree_is_what_reaches(nodes: Seq<ObjectView>, d: u64, a: u64)
    ensures
        reaches(nodes, d, a) ==> in_subtree(nodes, d, a),
        ids_unique(nodes) ==> (in_subtree(nodes, d, a) <==> reaches(nodes, d, a)),
{
    if reaches(nodes, d, a) {
        let k = choose|k: nat| ancestor(nodes, d, k) == Some(a);
        lemma_walk_descends(nodes, d, a, k);
    }
    if ids_unique(nodes) && in_subtree(nodes, d, a) {
        let k = choose|k: nat| descends(nodes, d, a, k);
        lemma_descent_walks(nodes, d, a, k);
    }
}

} // verus!
