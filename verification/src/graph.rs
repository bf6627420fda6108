//! The object hierarchy: lookup, insertion, subtree removal, reparenting.
//!
//! The hierarchy is the list of objects of a project, each naming its parent
//! by identifier.  The operations work on any list, also one that a damaged
//! file produced; on a well-formed project they keep it well formed.

use std::collections::BTreeSet;
use vstd::prelude::*;
use crate::idset::{holds_id, no_ids, put_id};
use crate::model::{
    BasObject, HourCalculationMode, ObjectType, ObjectView, OverlayNode, PointKind, Project,
    ProjectView, PropertyGroupView, object_views,
};
use crate::invariants::{
    consistent, keeps_invariants, lemma_add_keeps_consistent, lemma_add_keeps_well_formed,
    lemma_duplicate_keeps_consistent, lemma_duplicate_keeps_well_formed,
    lemma_remove_keeps_consistent, lemma_remove_keeps_well_formed,
    lemma_reparent_keeps_consistent, lemma_reparent_keeps_well_formed, well_formed,
};
use crate::text::{decimal, joined, numbered};

verus! {

/// Why a change of the hierarchy was refused.
#[derive(Debug, Clone, Copy, PartialEq, Eq, Structural)]
pub enum GraphError {
    /// The kind of the new node may not stand under the parent given.
    InvalidParent,
}

/// The table of legal (child, parent) kinds.
pub open spec fn allowed_pair(child: ObjectType, parent: ObjectType) -> bool {
    ||| child == ObjectType::Controller && parent == ObjectType::Building
    ||| child == ObjectType::Equipment && parent == ObjectType::Controller
    ||| child == ObjectType::Point && parent == ObjectType::Equipment
}

/// `i` is the first position in `nodes` that holds the identifier `id`.
pub open spec fn is_first(nodes: Seq<ObjectView>, id: u64, i: int) -> bool {
    &&& 0 <= i < nodes.len()
    &&& nodes[i].id == id
    &&& forall|j: int| 0 <= j < i ==> (#[trigger] nodes[j]).id != id
}

/// Some node of `nodes` carries the identifier `id`.
pub open spec fn has_id(nodes: Seq<ObjectView>, id: u64) -> bool {
    exists|i: int| 0 <= i < nodes.len() && (#[trigger] nodes[i]).id == id
}

/// The first node with identifier `id`, if there is one.
pub open spec fn lookup(nodes: Seq<ObjectView>, id: u64) -> Option<ObjectView> {
    if exists|i: int| is_first(nodes, id, i) {
        Some(nodes[choose|i: int| is_first(nodes, id, i)])
    } else {
        None
    }
}

/// A node of kind `kind` may be placed under `parent`: a building stands
/// at the root, every other kind under a node of the kind before it.
pub open spec fn legal_placement(nodes: Seq<ObjectView>, kind: ObjectType, parent: Option<u64>) -> bool {
    match parent {
        None => kind == ObjectType::Building,
        Some(p) => match lookup(nodes, p) {
            Some(n) => allowed_pair(kind, n.object_type),
            None => false,
        },
    }
}

/// The node that `add_object` creates.
pub open spec fn fresh_object(id: u64, kind: ObjectType, parent: Option<u64>) -> ObjectView {
    ObjectView {
        id,
        parent_id: parent,
        object_type: kind,
        name: joined(kind.label_text(), " "@, decimal(id as nat)),
        equipment_type: Seq::empty(),
        equipment_tag: Seq::empty(),
        make: Seq::empty(),
        model: Seq::empty(),
        controller_type: "Lynxspring Edge"@,
        controller_license: "None"@,
        template_name: Seq::empty(),
        equipment_type_override: false,
        hours_override: false,
        hours_override_mode: HourCalculationMode::StaticByEquipment,
        override_engineering_hours: 0,
        override_engineering_hours_per_point: 0,
        override_graphics_hours: 0,
        override_graphics_hours_per_point: 0,
        override_commissioning_hours: 0,
        override_commissioning_hours_per_point: 0,
        point_kind: PointKind::AI,
        property_groups: Seq::empty(),
    }
}

/// The project after a node of kind `kind` was added under `parent`.
pub open spec fn with_object(p: ProjectView, kind: ObjectType, parent: Option<u64>) -> ProjectView {
    ProjectView {
        objects: p.objects.push(fresh_object(p.next_id, kind, parent)),
        next_id: (p.next_id + 1) as u64,
        ..p
    }
}

/// `d` lies `k` parent links below `a`: for `k` zero they are the same
/// identifier; otherwise some node with identifier `d` names a parent that
/// lies `k - 1` links below `a`.
pub open spec fn descends(nodes: Seq<ObjectView>, d: u64, a: u64, k: nat) -> bool
    decreases k,
{
    if k == 0 {
        d == a
    } else {
        exists|i: int|
            #![trigger nodes[i]]
            0 <= i < nodes.len() && nodes[i].id == d && nodes[i].parent_id is Some && descends(
                nodes,
                nodes[i].parent_id->0,
                a,
                (k - 1) as nat,
            )
    }
}

/// `d` is `a` itself or one of its descendants.
pub open spec fn in_subtree(nodes: Seq<ObjectView>, d: u64, a: u64) -> bool {
    exists|k: nat| descends(nodes, d, a, k)
}

/// The identifiers of the subtree below and including `a`.
pub open spec fn subtree_ids(nodes: Seq<ObjectView>, a: u64) -> Set<u64> {
    Set::new(|d: u64| in_subtree(nodes, d, a))
}

/// The nodes of `nodes` whose identifier is not in `gone`, in their order.
pub open spec fn objects_without(nodes: Seq<ObjectView>, gone: Set<u64>) -> Seq<ObjectView>
    decreases nodes.len(),
{
    if nodes.len() == 0 {
        nodes
    } else if gone.contains(nodes.last().id) {
        objects_without(nodes.drop_last(), gone)
    } else {
        objects_without(nodes.drop_last(), gone).push(nodes.last())
    }
}

/// The tokens of `tokens` whose object is not in `gone`, in their order.
pub open spec fn tokens_without(tokens: Seq<OverlayNode>, gone: Set<u64>) -> Seq<OverlayNode>
    decreases tokens.len(),
{
    if tokens.len() == 0 {
        tokens
    } else if gone.contains(tokens.last().object_id) {
        tokens_without(tokens.drop_last(), gone)
    } else {
        tokens_without(tokens.drop_last(), gone).push(tokens.last())
    }
}

/// The project after the subtree of `id` was removed, with the tokens of
/// the removed objects.
pub open spec fn without_subtree(p: ProjectView, id: u64) -> ProjectView {
    ProjectView {
        objects: objects_without(p.objects, subtree_ids(p.objects, id)),
        overlay_nodes: tokens_without(p.overlay_nodes, subtree_ids(p.objects, id)),
        ..p
    }
}

/// The parent that the first node with identifier `id` names, if any.
pub open spec fn parent_of(nodes: Seq<ObjectView>, id: u64) -> Option<u64> {
    match lookup(nodes, id) {
        Some(n) => n.parent_id,
        None => None,
    }
}

/// The identifier reached from `id` after `k` steps from a node to its
/// parent; `None` where the chain has ended before.
pub open spec fn ancestor(nodes: Seq<ObjectView>, id: u64, k: nat) -> Option<u64>
    decreases k,
{
    if k == 0 {
        Some(id)
    } else {
        match ancestor(nodes, id, (k - 1) as nat) {
            Some(a) => parent_of(nodes, a),
            None => None,
        }
    }
}

/// Walking upward from `from`, parent by parent, comes to `target`.
pub open spec fn reaches(nodes: Seq<ObjectView>, from: u64, target: u64) -> bool {
    exists|k: nat| ancestor(nodes, from, k) == Some(target)
}

/// The node `child` may be moved under `new_parent`: both exist, their
/// kinds are a legal pair, they differ, and `child` is not met on the way
/// up from `new_parent`.
pub open spec fn can_reparent(nodes: Seq<ObjectView>, child: u64, new_parent: u64) -> bool {
    &&& lookup(nodes, child) is Some
    &&& lookup(nodes, new_parent) is Some
    &&& allowed_pair(lookup(nodes, child)->0.object_type, lookup(nodes, new_parent)->0.object_type)
    &&& child != new_parent
    &&& !reaches(nodes, new_parent, child)
}

/// `nodes` with the parent of the first node `child` set to `new_parent`.
pub open spec fn objects_with_parent(nodes: Seq<ObjectView>, child: u64, new_parent: u64) -> Seq<
    ObjectView,
> {
    let i = choose|i: int| is_first(nodes, child, i);
    nodes.update(i, ObjectView { parent_id: Some(new_parent), ..nodes[i] })
}

/// The project after `child` was moved under `new_parent`.
pub open spec fn with_parent(p: ProjectView, child: u64, new_parent: u64) -> ProjectView {
    ProjectView { objects: objects_with_parent(p.objects, child, new_parent), ..p }
}

/// The copy that `duplicate_object` makes of `src`.
pub open spec fn duplicate_of(src: ObjectView, id: u64) -> ObjectView {
    ObjectView { id, name: src.name + " (Copy)"@, ..src }
}

/// The project after the node `id` was duplicated.
pub open spec fn with_duplicate(p: ProjectView, id: u64) -> ProjectView {
    ProjectView {
        objects: p.objects.push(duplicate_of(lookup(p.objects, id)->0, p.next_id)),
        next_id: (p.next_id + 1) as u64,
        ..p
    }
}

/// Two first positions of one identifier are the same position.
pub proof fn lemma_first_unique(nodes: Seq<ObjectView>, id: u64, i: int, j: int)
    requires
        is_first(nodes, id, i),
        is_first(nodes, id, j),
    ensures
        i == j,
{
    if i < j {
        assert(nodes[i].id != id);
    } else if j < i {
        assert(nodes[j].id != id);
    }
}

/// What `lookup` yields, given the first position of an identifier.
pub proof fn lemma_lookup_first(nodes: Seq<ObjectView>, id: u64, i: int)
    requires
        is_first(nodes, id, i),
    ensures
        lookup(nodes, id) == Some(nodes[i]),
{
    let c = choose|c: int| is_first(nodes, id, c);
    lemma_first_unique(nodes, id, i, c);
}

/// An identifier that occurs has a first position.
pub proof fn lemma_has_first(nodes: Seq<ObjectView>, id: u64, w: int)
    requires
        0 <= w < nodes.len(),
        nodes[w].id == id,
    ensures
        exists|i: int| is_first(nodes, id, i),
    decreases w,
{
    if exists|j: int| 0 <= j < w && (#[trigger] nodes[j]).id == id {
        let j = choose|j: int| 0 <= j < w && (#[trigger] nodes[j]).id == id;
        lemma_has_first(nodes, id, j);
    } else {
        assert(is_first(nodes, id, w));
    }
}

/// `lookup` finds a node exactly when the identifier occurs.
pub proof fn lemma_lookup_some(nodes: Seq<ObjectView>, id: u64)
    ensures
        lookup(nodes, id) is Some <==> has_id(nodes, id),
        lookup(nodes, id) matches Some(n) ==> n.id == id && nodes.contains(n),
{
    if has_id(nodes, id) {
        let w = choose|i: int| 0 <= i < nodes.len() && (#[trigger] nodes[i]).id == id;
        lemma_has_first(nodes, id, w);
    }
    if exists|i: int| is_first(nodes, id, i) {
        let c = choose|i: int| is_first(nodes, id, i);
        assert(nodes[c].id == id);
    }
}

/// Position of the first node with identifier `id`, if there is one.
pub fn find_object(objects: &Vec<BasObject>, id: u64) -> (r: Option<usize>)
    ensures
        match r {
            Some(i) => is_first(object_views(objects@), id, i as int) && lookup(
                object_views(objects@),
                id,
            ) == Some(objects@[i as int]@),
            None => !has_id(object_views(objects@), id) && lookup(object_views(objects@), id)
                is None,
        },
{
    let mut i: usize = 0;
    while i < objects.len()
        invariant
            i <= objects.len(),
            forall|j: int| 0 <= j < i ==> (#[trigger] object_views(objects@)[j]).id != id,
        decreases objects.len() - i,
    {
        if objects[i].id == id {
            proof {
                lemma_lookup_first(object_views(objects@), id, i as int);
            }
            return Some(i);
        }
        i += 1;
    }
    proof {
        lemma_lookup_some(object_views(objects@), id);
    }
    None
}

/// A node with the defaults of its kind: its name is the kind's label, a
/// space and the identifier.
pub fn new_object(id: u64, object_type: ObjectType, parent: Option<u64>) -> (node: BasObject)
    ensures
        node@ == fresh_object(id, object_type, parent),
{
    let node = BasObject {
        id,
        parent_id: parent,
        object_type,
        name: numbered(object_type.label(), " ", id),
        equipment_type: String::new(),
        equipment_tag: String::new(),
        make: String::new(),
        model: String::new(),
        controller_type: "Lynxspring Edge".to_owned(),
        controller_license: "None".to_owned(),
        template_name: String::new(),
        equipment_type_override: false,
        hours_override: false,
        hours_override_mode: HourCalculationMode::StaticByEquipment,
        override_engineering_hours: 0,
        override_engineering_hours_per_point: 0,
        override_graphics_hours: 0,
        override_graphics_hours_per_point: 0,
        override_commissioning_hours: 0,
        override_commissioning_hours_per_point: 0,
        point_kind: PointKind::AI,
        property_groups: Vec::new(),
    };
    proof {
        assert(node@.property_groups =~= Seq::<PropertyGroupView>::empty());
    }
    node
}

fn kinds_allowed(child: ObjectType, parent: ObjectType) -> (r: bool)
    ensures
        r == allowed_pair(child, parent),
{
    match (child, parent) {
        (ObjectType::Controller, ObjectType::Building) => true,
        (ObjectType::Equipment, ObjectType::Controller) => true,
        (ObjectType::Point, ObjectType::Equipment) => true,
        _ => false,
    }
}

/// Every node whose parent is in `seen` is itself in `seen`.
spec fn closed_under_children(nodes: Seq<ObjectView>, seen: Set<u64>) -> bool {
    forall|i: int|
        #![trigger nodes[i]]
        0 <= i < nodes.len() && nodes[i].parent_id is Some && seen.contains(nodes[i].parent_id->0)
            ==> seen.contains(nodes[i].id)
}

/// Number of nodes whose parent is not in `seen`.
spec fn pending(nodes: Seq<ObjectView>, seen: Set<u64>) -> nat
    decreases nodes.len(),
{
    if nodes.len() == 0 {
        0
    } else {
        let last = nodes.last();
        let one: nat = if last.parent_id is Some && !seen.contains(last.parent_id->0) {
            1
        } else {
            0
        };
        pending(nodes.drop_last(), seen) + one
    }
}

/// Number of nodes that name `parent` as their parent.
spec fn child_count(nodes: Seq<ObjectView>, parent: u64) -> nat
    decreases nodes.len(),
{
    if nodes.len() == 0 {
        0
    } else {
        let one: nat = if nodes.last().parent_id == Some(parent) {
            1
        } else {
            0
        };
        child_count(nodes.drop_last(), parent) + one
    }
}

proof fn lemma_pending_visit(nodes: Seq<ObjectView>, seen: Set<u64>, cur: u64)
    requires
        !seen.contains(cur),
    ensures
        pending(nodes, seen.insert(cur)) + child_count(nodes, cur) == pending(nodes, seen),
    decreases nodes.len(),
{
    if nodes.len() > 0 {
        lemma_pending_visit(nodes.drop_last(), seen, cur);
    }
}

/// A node whose parent lies in the subtree of `a` lies in it too.
pub proof fn lemma_child_in_subtree(nodes: Seq<ObjectView>, i: int, a: u64)
    requires
        0 <= i < nodes.len(),
        nodes[i].parent_id is Some,
        in_subtree(nodes, nodes[i].parent_id->0, a),
    ensures
        in_subtree(nodes, nodes[i].id, a),
{
    let k = choose|k: nat| descends(nodes, nodes[i].parent_id->0, a, k);
    assert(descends(nodes, nodes[i].id, a, k + 1));
}

proof fn lemma_closed_covers(nodes: Seq<ObjectView>, seen: Set<u64>, a: u64, d: u64, k: nat)
    requires
        seen.contains(a),
        closed_under_children(nodes, seen),
        descends(nodes, d, a, k),
    ensures
        seen.contains(d),
    decreases k,
{
    if k > 0 {
        let i = choose|i: int|
            #![trigger nodes[i]]
            0 <= i < nodes.len() && nodes[i].id == d && nodes[i].parent_id is Some && descends(
                nodes,
                nodes[i].parent_id->0,
                a,
                (k - 1) as nat,
            );
        lemma_closed_covers(nodes, seen, a, nodes[i].parent_id->0, (k - 1) as nat);
    }
}

/// Whether `x` occurs in `v`.
pub fn contains_id(v: &Vec<u64>, x: u64) -> (r: bool)
    ensures
        r == v@.contains(x),
{
    let mut i: usize = 0;
    while i < v.len()
        invariant
            i <= v.len(),
            forall|j: int| 0 <= j < i ==> v@[j] != x,
        decreases v.len() - i,
    {
        if v[i] == x {
            return true;
        }
        i += 1;
    }
    false
}

/// The identifiers of the subtree of `id`: `id` itself and, link by link,
/// the identifier of every node whose parent is already among them.  The
/// walk keeps a stack of identifiers still to expand and a set of those
/// expanded, and expands none twice, so a list with a cycle in it is
/// walked to the end as well.
pub fn subtree_of(objects: &Vec<BasObject>, id: u64) -> (seen: BTreeSet<u64>)
    ensures
        seen@ == subtree_ids(object_views(objects@), id),
{
    let ghost nodes = object_views(objects@);
    let mut seen: BTreeSet<u64> = no_ids();
    let mut stack: Vec<u64> = Vec::new();
    stack.push(id);
    proof {
        assert(descends(nodes, id, id, 0));
        assert(stack@[0] == id);
    }
    while stack.len() > 0
        invariant
            nodes == object_views(objects@),
            forall|x: u64| seen@.contains(x) || stack@.contains(x) ==> in_subtree(nodes, x, id),
            seen@.contains(id) || stack@.contains(id),
            forall|i: int|
                #![trigger nodes[i]]
                0 <= i < nodes.len() && nodes[i].parent_id is Some && seen@.contains(
                    nodes[i].parent_id->0,
                ) ==> seen@.contains(nodes[i].id) || stack@.contains(nodes[i].id),
        decreases pending(nodes, seen@) + stack.len(),
    {
        let ghost stack_before = stack@;
        let ghost seen_before = seen@;
        let current = stack.pop().unwrap();
        assert(stack_before =~= stack@.push(current));
        assert(forall|x: u64| stack_before.contains(x) ==> x == current || stack@.contains(x)) by {
            assert forall|x: u64| stack_before.contains(x) implies x == current || stack@.contains(
                x,
            ) by {
                let w = choose|w: int| 0 <= w < stack_before.len() && stack_before[w] == x;
                if w < stack@.len() {
                    assert(stack@[w] == x);
                }
            }
        }
        assert(in_subtree(nodes, current, id)) by {
            assert(stack_before[stack_before.len() - 1] == current);
        }
        if put_id(&mut seen, current) {
            let ghost stack_popped = stack@;
            proof {
                lemma_pending_visit(nodes, seen_before, current);
                assert(nodes.take(0) =~= Seq::<ObjectView>::empty());
            }
            let mut j: usize = 0;
            while j < objects.len()
                invariant
                    j <= objects.len(),
                    nodes == object_views(objects@),
                    in_subtree(nodes, current, id),
                    stack@.len() == stack_popped.len() + child_count(nodes.take(j as int), current),
                    forall|x: u64| stack_popped.contains(x) ==> stack@.contains(x),
                    forall|x: u64| stack@.contains(x) ==> in_subtree(nodes, x, id),
                    forall|i: int|
                        #![trigger nodes[i]]
                        0 <= i < j && nodes[i].parent_id == Some(current) ==> stack@.contains(
                            nodes[i].id,
                        ),
                decreases objects.len() - j,
            {
                let ghost stack_in = stack@;
                let is_child = match objects[j].parent_id {
                    Some(p) => p == current,
                    None => false,
                };
                proof {
                    assert(nodes.take(j as int + 1).drop_last() =~= nodes.take(j as int));
                    assert(nodes.take(j as int + 1).last() == nodes[j as int]);
                }
                if is_child {
                    stack.push(objects[j].id);
                    proof {
                        lemma_child_in_subtree(nodes, j as int, id);
                        assert(stack@[stack@.len() - 1] == nodes[j as int].id);
                        assert forall|x: u64| stack_in.contains(x) implies stack@.contains(x) by {
                            let w = choose|w: int| 0 <= w < stack_in.len() && stack_in[w] == x;
                            assert(stack@[w] == x);
                        }
                        assert forall|x: u64| stack@.contains(x) implies in_subtree(nodes, x, id) by {
                            let w = choose|w: int| 0 <= w < stack@.len() && stack@[w] == x;
                            if w < stack_in.len() {
                                assert(stack_in[w] == x);
                            }
                        }
                    }
                }
                j += 1;
            }
            proof {
                assert(nodes.take(objects.len() as int) =~= nodes);
            }
        } else {
            proof {
                assert(seen@ =~= seen_before);
            }
        }
    }
    proof {
        assert(seen@.contains(id)) by {
            if stack@.contains(id) {
                let w = choose|w: int| 0 <= w < stack@.len() && stack@[w] == id;
            }
        }
        assert(closed_under_children(nodes, seen@)) by {
            assert forall|i: int|
                #![trigger nodes[i]]
                0 <= i < nodes.len() && nodes[i].parent_id is Some && seen@.contains(
                    nodes[i].parent_id->0,
                ) implies seen@.contains(nodes[i].id) by {
                if stack@.contains(nodes[i].id) {
                    let w = choose|w: int| 0 <= w < stack@.len() && stack@[w] == nodes[i].id;
                }
            }
        }
        assert forall|x: u64| seen@.contains(x) <==> subtree_ids(nodes, id).contains(x) by {
            if in_subtree(nodes, x, id) {
                let k = choose|k: nat| descends(nodes, x, id, k);
                lemma_closed_covers(nodes, seen@, id, x, k);
            }
        }
        assert(seen@ =~= subtree_ids(nodes, id));
    }
    seen
}

/// Removes from `objects` every node whose identifier is in `gone`.
fn drop_objects(objects: &mut Vec<BasObject>, gone: &BTreeSet<u64>)
    ensures
        object_views(final(objects)@) == objects_without(object_views(old(objects)@), gone@),
{
    let ghost src = object_views(old(objects)@);
    let ghost g = gone@;
    let ghost mut k: int = 0;
    let mut i: usize = 0;
    proof {
        assert(src.take(0) =~= Seq::<ObjectView>::empty());
        assert(object_views(objects@).take(0) =~= Seq::<ObjectView>::empty());
        assert(object_views(objects@).skip(0) =~= src.skip(0));
    }
    while i < objects.len()
        invariant
            0 <= k <= src.len(),
            i <= objects.len(),
            objects.len() - i == src.len() - k,
            g == gone@,
            object_views(objects@).take(i as int) == objects_without(src.take(k), g),
            object_views(objects@).skip(i as int) == src.skip(k),
        decreases objects.len() - i,
    {
        let ghost before = object_views(objects@);
        proof {
            assert(src.take(k + 1).drop_last() =~= src.take(k));
            assert(before.skip(i as int)[0] == src.skip(k)[0]);
        }
        if holds_id(gone, objects[i].id) {
            objects.remove(i);
            proof {
                assert(object_views(objects@) =~= before.remove(i as int));
                assert(object_views(objects@).take(i as int) =~= before.take(i as int));
                assert(object_views(objects@).skip(i as int) =~= before.skip(i as int).skip(1));
                assert(src.skip(k).skip(1) =~= src.skip(k + 1));
            }
        } else {
            i += 1;
            proof {
                assert(before.take(i as int) =~= before.take(i as int - 1).push(src[k]));
                assert(before.skip(i as int) =~= before.skip(i as int - 1).skip(1));
                assert(src.skip(k).skip(1) =~= src.skip(k + 1));
            }
        }
        proof {
            k = k + 1;
        }
    }
    proof {
        assert(src.take(k) =~= src);
        assert(object_views(objects@).take(i as int) =~= object_views(objects@));
    }
}

/// The tokens of `tokens` whose object is not in `gone`.
fn keep_tokens(tokens: &Vec<OverlayNode>, gone: &BTreeSet<u64>) -> (kept: Vec<OverlayNode>)
    ensures
        kept@ == tokens_without(tokens@, gone@),
{
    let mut kept: Vec<OverlayNode> = Vec::new();
    let mut i: usize = 0;
    proof {
        assert(tokens@.take(0) =~= Seq::<OverlayNode>::empty());
    }
    while i < tokens.len()
        invariant
            i <= tokens.len(),
            kept@ == tokens_without(tokens@.take(i as int), gone@),
        decreases tokens.len() - i,
    {
        proof {
            assert(tokens@.take(i as int + 1).drop_last() =~= tokens@.take(i as int));
        }
        if !holds_id(gone, tokens[i].object_id) {
            kept.push(tokens[i]);
        }
        i += 1;
    }
    proof {
        assert(tokens@.take(i as int) =~= tokens@);
    }
    kept
}

/// Number of nodes whose identifier is not in `seen`.
spec fn unseen(nodes: Seq<ObjectView>, seen: Seq<u64>) -> nat
    decreases nodes.len(),
{
    if nodes.len() == 0 {
        0
    } else {
        let one: nat = if seen.contains(nodes.last().id) {
            0
        } else {
            1
        };
        unseen(nodes.drop_last(), seen) + one
    }
}

proof fn lemma_unseen_grows(nodes: Seq<ObjectView>, seen: Seq<u64>, cur: u64)
    ensures
        unseen(nodes, seen.push(cur)) <= unseen(nodes, seen),
    decreases nodes.len(),
{
    if nodes.len() > 0 {
        lemma_unseen_grows(nodes.drop_last(), seen, cur);
        let x = nodes.last().id;
        if seen.contains(x) {
            let w = choose|w: int| 0 <= w < seen.len() && seen[w] == x;
            assert(seen.push(cur)[w] == x);
        }
    }
}

proof fn lemma_unseen_visit(nodes: Seq<ObjectView>, seen: Seq<u64>, cur: u64, i: int)
    requires
        0 <= i < nodes.len(),
        nodes[i].id == cur,
        !seen.contains(cur),
    ensures
        unseen(nodes, seen.push(cur)) < unseen(nodes, seen),
    decreases nodes.len(),
{
    if i == nodes.len() - 1 {
        lemma_unseen_grows(nodes.drop_last(), seen, cur);
        assert(seen.push(cur)[seen.len() as int] == cur);
    } else {
        lemma_unseen_visit(nodes.drop_last(), seen, cur, i);
        let x = nodes.last().id;
        if seen.contains(x) {
            let w = choose|w: int| 0 <= w < seen.len() && seen[w] == x;
            assert(seen.push(cur)[w] == x);
        }
    }
}

/// Once the chain has ended it stays ended.
proof fn lemma_chain_ended(nodes: Seq<ObjectView>, from: u64, k: nat, m: nat)
    requires
        ancestor(nodes, from, k) is None,
        k <= m,
    ensures
        ancestor(nodes, from, m) is None,
    decreases m,
{
    if k < m {
        lemma_chain_ended(nodes, from, k, (m - 1) as nat);
    }
}

/// A chain that comes back to an earlier identifier repeats from there.
proof fn lemma_chain_repeats(nodes: Seq<ObjectView>, from: u64, j: nat, k: nat, t: nat)
    requires
        ancestor(nodes, from, k) == ancestor(nodes, from, j),
    ensures
        ancestor(nodes, from, k + t) == ancestor(nodes, from, j + t),
    decreases t,
{
    if t > 0 {
        lemma_chain_repeats(nodes, from, j, k, (t - 1) as nat);
    }
}

/// In a chain that repeats, what is not met before the repetition is never
/// met.
proof fn lemma_cycle_misses(
    nodes: Seq<ObjectView>,
    from: u64,
    j: nat,
    k: nat,
    target: u64,
    m: nat,
)
    requires
        j < k,
        ancestor(nodes, from, k) == ancestor(nodes, from, j),
        forall|t: nat| t < k ==> ancestor(nodes, from, t) != Some(target),
    ensures
        ancestor(nodes, from, m) != Some(target),
    decreases m,
{
    if m >= k {
        lemma_chain_repeats(nodes, from, j, k, (m - k) as nat);
        lemma_cycle_misses(nodes, from, j, k, target, (j + (m - k)) as nat);
    }
}

impl Project {
    /// Whether a node of kind `object_type` may be placed under `parent`.
    pub fn can_add_object(&self, object_type: ObjectType, parent: Option<u64>) -> (r: bool)
        ensures
            r == legal_placement(self@.objects, object_type, parent),
    {
        match parent {
            None => match object_type {
                ObjectType::Building => true,
                _ => false,
            },
            Some(p) => match find_object(&self.objects, p) {
                Some(i) => kinds_allowed(object_type, self.objects[i].object_type),
                None => false,
            },
        }
    }

    /// Adds a node of kind `object_type` under `parent` and returns its
    /// identifier, the next free one.  A placement that the table of kinds
    /// does not allow is refused and changes nothing.
    pub fn add_object(&mut self, object_type: ObjectType, parent: Option<u64>) -> (r: Result<
        u64,
        GraphError,
    >)
        requires
            old(self).next_id < u64::MAX,
        ensures
            r is Ok <==> legal_placement(old(self)@.objects, object_type, parent),
            r matches Ok(id) ==> id == old(self).next_id && final(self)@ == with_object(
                old(self)@,
                object_type,
                parent,
            ),
            r matches Err(e) ==> e == GraphError::InvalidParent && *final(self) == *old(self),
            keeps_invariants(old(self)@, final(self)@),
    {
        if !self.can_add_object(object_type, parent) {
            return Err(GraphError::InvalidParent);
        }
        proof {
            if consistent(self@) {
                lemma_add_keeps_consistent(self@, object_type, parent);
            }
            if well_formed(self@) {
                lemma_add_keeps_well_formed(self@, object_type, parent);
            }
        }
        let id = self.next_id;
        self.next_id = id + 1;
        let node = new_object(id, object_type, parent);
        self.objects.push(node);
        proof {
            assert(object_views(self.objects@) =~= object_views(old(self).objects@).push(
                fresh_object(id, object_type, parent),
            ));
        }
        Ok(id)
    }

    /// Removes the node `id` with all its descendants, and the tokens placed
    /// for any of them.  Returns the identifiers removed: the subtree of
    /// `id`.  Nothing else changes.
    pub fn remove_object_subtree(&mut self, id: u64) -> (removed: BTreeSet<u64>)
        ensures
            final(self)@ == without_subtree(old(self)@, id),
            removed@ == subtree_ids(old(self)@.objects, id),
            keeps_invariants(old(self)@, final(self)@),
    {
        proof {
            if consistent(self@) {
                lemma_remove_keeps_consistent(self@, id);
            }
            if well_formed(self@) {
                lemma_remove_keeps_well_formed(self@, id);
            }
        }
        let removed = subtree_of(&self.objects, id);
        drop_objects(&mut self.objects, &removed);
        self.overlay_nodes = keep_tokens(&self.overlay_nodes, &removed);
        removed
    }

    /// Whether `child_id` may be moved under `new_parent_id`.  The way up
    /// from the new parent is walked once; an identifier met a second time
    /// ends the walk, so a list with a cycle in it is answered as well.
    pub fn can_reparent_object(&self, child_id: u64, new_parent_id: u64) -> (r: bool)
        ensures
            r == can_reparent(self@.objects, child_id, new_parent_id),
    {
        let ghost nodes = self@.objects;
        let ci = match find_object(&self.objects, child_id) {
            Some(i) => i,
            None => {
                return false;
            },
        };
        let pi = match find_object(&self.objects, new_parent_id) {
            Some(i) => i,
            None => {
                return false;
            },
        };
        if !kinds_allowed(self.objects[ci].object_type, self.objects[pi].object_type) {
            return false;
        }
        if child_id == new_parent_id {
            return false;
        }
        let mut seen: Vec<u64> = Vec::new();
        let mut cursor: u64 = new_parent_id;
        loop
            invariant
                nodes == object_views(self.objects@),
                lookup(nodes, child_id) is Some,
                lookup(nodes, new_parent_id) is Some,
                allowed_pair(
                    lookup(nodes, child_id)->0.object_type,
                    lookup(nodes, new_parent_id)->0.object_type,
                ),
                child_id != new_parent_id,
                ancestor(nodes, new_parent_id, seen@.len()) == Some(cursor),
                forall|t: nat|
                    t < seen@.len() ==> ancestor(nodes, new_parent_id, t) == Some(
                        #[trigger] seen@[t as int],
                    ) && seen@[t as int] != child_id,
            decreases unseen(nodes, seen@),
        {
            let ghost k: nat = seen@.len();
            if cursor == child_id {
                return false;
            }
            if contains_id(&seen, cursor) {
                proof {
                    let j = choose|j: int| 0 <= j < seen@.len() && seen@[j] == cursor;
                    assert(ancestor(nodes, new_parent_id, j as nat) == Some(seen@[j]));
                    assert forall|m: nat| ancestor(nodes, new_parent_id, m) != Some(child_id) by {
                        assert forall|t: nat| t < k implies ancestor(nodes, new_parent_id, t)
                            != Some(child_id) by {
                            assert(ancestor(nodes, new_parent_id, t) == Some(seen@[t as int]));
                        }
                        lemma_cycle_misses(nodes, new_parent_id, j as nat, k, child_id, m);
                    }
                }
                return true;
            }
            let next = match find_object(&self.objects, cursor) {
                Some(i) => self.objects[i].parent_id,
                None => None,
            };
            assert(next == parent_of(nodes, cursor));
            match next {
                None => {
                    proof {
                        assert(ancestor(nodes, new_parent_id, k + 1) is None);
                        assert forall|m: nat| ancestor(nodes, new_parent_id, m) != Some(
                            child_id,
                        ) by {
                            if m > k {
                                lemma_chain_ended(nodes, new_parent_id, k + 1, m);
                            } else if m < k {
                                assert(ancestor(nodes, new_parent_id, m) == Some(seen@[m as int]));
                            }
                        }
                    }
                    return true;
                },
                Some(p) => {
                    proof {
                        let i = choose|i: int| is_first(nodes, cursor, i);
                        lemma_lookup_some(nodes, cursor);
                        lemma_unseen_visit(nodes, seen@, cursor, i);
                        assert(ancestor(nodes, new_parent_id, k + 1) == Some(p));
                    }
                    seen.push(cursor);
                    cursor = p;
                },
            }
        }
    }

    /// Moves `child_id` under `new_parent_id` where that is legal, and says
    /// whether it did.  A refused move changes nothing.
    pub fn reparent_object(&mut self, child_id: u64, new_parent_id: u64) -> (r: bool)
        ensures
            r == can_reparent(old(self)@.objects, child_id, new_parent_id),
            r ==> final(self)@ == with_parent(old(self)@, child_id, new_parent_id),
            !r ==> *final(self) == *old(self),
            keeps_invariants(old(self)@, final(self)@),
    {
        if !self.can_reparent_object(child_id, new_parent_id) {
            return false;
        }
        proof {
            if consistent(self@) {
                lemma_reparent_keeps_consistent(self@, child_id, new_parent_id);
            }
            if well_formed(self@) {
                lemma_reparent_keeps_well_formed(self@, child_id, new_parent_id);
            }
        }
        match find_object(&self.objects, child_id) {
            Some(i) => {
                let ghost before = object_views(self.objects@);
                self.objects[i].parent_id = Some(new_parent_id);
                proof {
                    let c = choose|c: int| is_first(before, child_id, c);
                    lemma_first_unique(before, child_id, c, i as int);
                    assert(object_views(self.objects@) =~= objects_with_parent(
                        before,
                        child_id,
                        new_parent_id,
                    ));
                }
                true
            },
            None => false,
        }
    }

    /// Copies the node `id` alone, without its children: the copy gets the
    /// next free identifier, the same parent and the name of the source
    /// followed by " (Copy)".  Returns the new identifier, or `None` where
    /// no node has the identifier `id`; then nothing changes.
    pub fn duplicate_object(&mut self, id: u64) -> (r: Option<u64>)
        requires
            old(self).next_id < u64::MAX,
        ensures
            r is Some <==> has_id(old(self)@.objects, id),
            r matches Some(n) ==> n == old(self).next_id && final(self)@ == with_duplicate(
                old(self)@,
                id,
            ),
            r is None ==> *final(self) == *old(self),
            keeps_invariants(old(self)@, final(self)@),
    {
        let i = match find_object(&self.objects, id) {
            Some(i) => i,
            None => {
                return None;
            },
        };
        proof {
            lemma_lookup_some(self@.objects, id);
            if consistent(self@) {
                lemma_duplicate_keeps_consistent(self@, id);
            }
            if well_formed(self@) {
                lemma_duplicate_keeps_well_formed(self@, id);
            }
        }
        let mut copy = self.objects[i].copy();
        let new_id = self.next_id;
        self.next_id = new_id + 1;
        copy.id = new_id;
        copy.name.append(" (Copy)");
        let ghost before = object_views(self.objects@);
        self.objects.push(copy);
        proof {
            assert(object_views(self.objects@) =~= before.push(
                duplicate_of(before[i as int], new_id),
            ));
        }
        Some(new_id)
    }
}

/// A move that `can_reparent` allows closes no cycle: after it, the way up
/// from the new parent still never meets the moved node.
pub proof fn lemma_reparent_closes_no_cycle(nodes: Seq<ObjectView>, child: u64, new_parent: u64)
    requires
        can_reparent(nodes, child, new_parent),
    ensures
        !reaches(objects_with_parent(nodes, child, new_parent), new_parent, child),
{
    let after = objects_with_parent(nodes, child, new_parent);
    assert forall|k: nat| ancestor(after, new_parent, k) != Some(child) by {
        lemma_chain_unchanged(nodes, child, new_parent, k);
    }
}

/// Setting the parent of one node leaves the parent of every other
/// identifier as it was.
proof fn lemma_parent_unchanged(nodes: Seq<ObjectView>, child: u64, new_parent: u64, a: u64)
    requires
        lookup(nodes, child) is Some,
        a != child,
    ensures
        parent_of(objects_with_parent(nodes, child, new_parent), a) == parent_of(nodes, a),
{
    let after = objects_with_parent(nodes, child, new_parent);
    let c = choose|i: int| is_first(nodes, child, i);
    assert(after.len() == nodes.len());
    assert forall|i: int| 0 <= i < nodes.len() implies (#[trigger] after[i]).id == nodes[i].id by {}
    assert forall|i: int| is_first(nodes, a, i) <==> is_first(after, a, i) by {
        if is_first(nodes, a, i) {
            assert forall|j: int| 0 <= j < i implies (#[trigger] after[j]).id != a by {
                assert(nodes[j].id != a);
            }
        }
        if is_first(after, a, i) {
            assert forall|j: int| 0 <= j < i implies (#[trigger] nodes[j]).id != a by {
                assert(after[j].id != a);
            }
        }
    }
    if exists|i: int| is_first(nodes, a, i) {
        let i = choose|i: int| is_first(nodes, a, i);
        assert(is_first(after, a, i));
        lemma_lookup_first(nodes, a, i);
        lemma_lookup_first(after, a, i);
        assert(i != c);
    } else {
        assert(!(exists|i: int| is_first(after, a, i)));
    }
}

proof fn lemma_chain_unchanged(nodes: Seq<ObjectView>, child: u64, new_parent: u64, k: nat)
    requires
        can_reparent(nodes, child, new_parent),
    ensures
        ancestor(objects_with_parent(nodes, child, new_parent), new_parent, k) == ancestor(
            nodes,
            new_parent,
            k,
        ),
        ancestor(nodes, new_parent, k) != Some(child),
    decreases k,
{
    if k > 0 {
        lemma_chain_unchanged(nodes, child, new_parent, (k - 1) as nat);
        match ancestor(nodes, new_parent, (k - 1) as nat) {
            Some(a) => {
                lemma_parent_unchanged(nodes, child, new_parent, a);
            },
            None => {},
        }
    }
}

/// The walk up from `id`, parent by parent, comes to an end.
pub open spec fn walk_ends(nodes: Seq<ObjectView>, id: u64) -> bool {
    exists|k: nat| ancestor(nodes, id, k) is None
}

/// A walk that has come to `y` goes on as the walk from `y`.
proof fn lemma_walk_goes_on(nodes: Seq<ObjectView>, x: u64, j: nat, y: u64, m: nat)
    requires
        ancestor(nodes, x, j) == Some(y),
    ensures
        ancestor(nodes, x, j + m) == ancestor(nodes, y, m),
    decreases m,
{
    if m > 0 {
        lemma_walk_goes_on(nodes, x, j, y, (m - 1) as nat);
    }
}

/// After a granted move the walk from `x` comes to an end, given that it
/// did before and that it has not met the moved node in its first `j`
/// steps, in which it is the walk of before.
proof fn lemma_walk_ends_after_move(
    nodes: Seq<ObjectView>,
    child: u64,
    new_parent: u64,
    x: u64,
    end: nat,
    j: nat,
)
    requires
        can_reparent(nodes, child, new_parent),
        walk_ends(nodes, new_parent),
        ancestor(nodes, x, end) is None,
        j <= end,
        forall|t: nat| t < j ==> ancestor(nodes, x, t) != Some(child),
        ancestor(objects_with_parent(nodes, child, new_parent), x, j) == ancestor(nodes, x, j),
    ensures
        walk_ends(objects_with_parent(nodes, child, new_parent), x),
    decreases end - j,
{
    let after = objects_with_parent(nodes, child, new_parent);
    if ancestor(nodes, x, j) == Some(child) {
        let c = choose|i: int| is_first(nodes, child, i);
        lemma_lookup_some(nodes, child);
        assert(is_first(after, child, c)) by {
            assert(after[c].id == child);
            assert forall|t: int| 0 <= t < c implies (#[trigger] after[t]).id != child by {
                assert(nodes[t].id != child);
            }
        }
        lemma_lookup_first(after, child, c);
        assert(ancestor(after, x, j + 1) == Some(new_parent));
        let m = choose|m: nat| ancestor(nodes, new_parent, m) is None;
        lemma_chain_unchanged(nodes, child, new_parent, m);
        lemma_walk_goes_on(after, x, j + 1, new_parent, m);
        assert(ancestor(after, x, j + 1 + m) is None);
    } else if j == end {
        assert(ancestor(after, x, end) is None);
    } else {
        match ancestor(nodes, x, j) {
            Some(a) => {
                lemma_parent_unchanged(nodes, child, new_parent, a);
            },
            None => {},
        }
        assert forall|t: nat| t < j + 1 implies ancestor(nodes, x, t) != Some(child) by {}
        lemma_walk_ends_after_move(nodes, child, new_parent, x, end, j + 1);
    }
}

/// A move that `can_reparent` allows keeps the walks finite: where the
/// walks up from the new parent and from `x` came to an end before, the
/// walk from `x` comes to an end after it.
pub proof fn lemma_reparent_keeps_walks_finite(
    nodes: Seq<ObjectView>,
    child: u64,
    new_parent: u64,
    x: u64,
)
    requires
        can_reparent(nodes, child, new_parent),
        walk_ends(nodes, new_parent),
        walk_ends(nodes, x),
    ensures
        walk_ends(objects_with_parent(nodes, child, new_parent), x),
{
    let end = choose|k: nat| ancestor(nodes, x, k) is None;
    lemma_walk_ends_after_move(nodes, child, new_parent, x, end, 0);
}

} // verus!
