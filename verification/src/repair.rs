//! Making a project consistent after it was read from a file: a file may
//! have been edited by hand or written in part, so nothing is taken for
//! granted about what its references point to.

use std::collections::BTreeSet;
use vstd::prelude::*;
use uuid::Uuid;
use crate::graph::has_id;
use crate::idset::{holds_id, no_ids, put_id};
use crate::invariants::{
    consistent, lemma_repair_keeps_consistent, lemma_repair_makes_consistent,
};
use crate::model::{BasObject, ObjectView, OverlayNode, Project, ProjectView, object_views};

verus! {

/// The parent that `n` names is among `all`, or `n` names none.
pub open spec fn parent_known(all: Seq<ObjectView>, n: ObjectView) -> bool {
    n.parent_id is None || has_id(all, n.parent_id->0)
}

/// The nodes of `part` whose parent is known among `all`, in their order.
pub open spec fn anchored_part(part: Seq<ObjectView>, all: Seq<ObjectView>) -> Seq<ObjectView>
    decreases part.len(),
{
    if part.len() == 0 {
        part
    } else if parent_known(all, part.last()) {
        anchored_part(part.drop_last(), all).push(part.last())
    } else {
        anchored_part(part.drop_last(), all)
    }
}

/// `nodes` without the nodes whose parent is missing, and then without
/// those that lost their parent by that, until none is left to remove.
pub open spec fn pruned(nodes: Seq<ObjectView>) -> Seq<ObjectView>
    decreases nodes.len(),
{
    let once = anchored_part(nodes, nodes);
    if once.len() < nodes.len() {
        pruned(once)
    } else {
        nodes
    }
}

/// Every node names a parent that is there, or none.
pub open spec fn all_anchored(nodes: Seq<ObjectView>) -> bool {
    forall|i: int| 0 <= i < nodes.len() ==> parent_known(nodes, #[trigger] nodes[i])
}

/// The tokens whose object is among `nodes`, in their order.
pub open spec fn tokens_on(tokens: Seq<OverlayNode>, nodes: Seq<ObjectView>) -> Seq<OverlayNode>
    decreases tokens.len(),
{
    if tokens.len() == 0 {
        tokens
    } else if has_id(nodes, tokens.last().object_id) {
        tokens_on(tokens.drop_last(), nodes).push(tokens.last())
    } else {
        tokens_on(tokens.drop_last(), nodes)
    }
}

/// The greatest identifier among `nodes`, zero for none.
pub open spec fn max_id(nodes: Seq<ObjectView>) -> int
    decreases nodes.len(),
{
    if nodes.len() == 0 {
        0
    } else {
        let rest = max_id(nodes.drop_last());
        if nodes.last().id > rest {
            nodes.last().id as int
        } else {
            rest
        }
    }
}

/// The counter that a repaired project continues with: the one it had, or
/// one past its greatest identifier where that is more.
pub open spec fn repaired_next_id(next_id: u64, nodes: Seq<ObjectView>) -> int {
    if next_id > max_id(nodes) {
        next_id as int
    } else {
        max_id(nodes) + 1
    }
}

/// The project after the repair, but for its identifier.
pub open spec fn repaired(p: ProjectView) -> ProjectView {
    let objects = pruned(p.objects);
    ProjectView {
        objects,
        overlay_nodes: tokens_on(p.overlay_nodes, objects),
        next_id: repaired_next_id(p.next_id, objects) as u64,
        ..p
    }
}

proof fn lemma_anchored_part_len(part: Seq<ObjectView>, all: Seq<ObjectView>)
    ensures
        anchored_part(part, all).len() <= part.len(),
        anchored_part(part, all).len() == part.len() ==> anchored_part(part, all) == part && (forall|
            i: int,
        | 0 <= i < part.len() ==> parent_known(all, #[trigger] part[i])),
        (forall|i: int| 0 <= i < part.len() ==> parent_known(all, #[trigger] part[i]))
            ==> anchored_part(part, all) == part,
    decreases part.len(),
{
    if part.len() > 0 {
        lemma_anchored_part_len(part.drop_last(), all);
        if anchored_part(part, all).len() == part.len() {
            assert(anchored_part(part, all) =~= part);
            assert forall|i: int| 0 <= i < part.len() implies parent_known(
                all,
                #[trigger] part[i],
            ) by {
                if i < part.len() - 1 {
                    assert(part.drop_last()[i] == part[i]);
                }
            }
        }
        if forall|i: int| 0 <= i < part.len() ==> parent_known(all, #[trigger] part[i]) {
            assert forall|i: int| 0 <= i < part.drop_last().len() implies parent_known(
                all,
                #[trigger] part.drop_last()[i],
            ) by {
                assert(part.drop_last()[i] == part[i]);
            }
            assert(parent_known(all, part[part.len() - 1]));
            assert(anchored_part(part, all) =~= part);
        }
    }
}

/// After pruning, every node names a parent that is there, or none.
pub proof fn lemma_pruned_is_anchored(nodes: Seq<ObjectView>)
    ensures
        all_anchored(pruned(nodes)),
    decreases nodes.len(),
{
    let once = anchored_part(nodes, nodes);
    lemma_anchored_part_len(nodes, nodes);
    if once.len() < nodes.len() {
        lemma_pruned_is_anchored(once);
    }
}

/// Pruning removes nothing from a list in which every parent is there.
pub proof fn lemma_pruned_keeps_anchored(nodes: Seq<ObjectView>)
    requires
        all_anchored(nodes),
    ensures
        pruned(nodes) == nodes,
{
    lemma_anchored_part_len(nodes, nodes);
}

proof fn lemma_max_id_bounds(nodes: Seq<ObjectView>, i: int)
    requires
        0 <= i < nodes.len(),
    ensures
        nodes[i].id <= max_id(nodes),
    decreases nodes.len(),
{
    if i < nodes.len() - 1 {
        lemma_max_id_bounds(nodes.drop_last(), i);
    }
}

/// After the repair the counter lies above every identifier.
pub proof fn lemma_repaired_counter_is_fresh(p: ProjectView, i: int)
    requires
        0 <= i < repaired(p).objects.len(),
        forall|j: int| 0 <= j < p.objects.len() ==> (#[trigger] p.objects[j]).id < u64::MAX,
    ensures
        repaired(p).objects[i].id < repaired(p).next_id,
{
    let objects = pruned(p.objects);
    lemma_max_id_bounds(objects, i);
    lemma_max_id_below_limit(objects);
    lemma_pruned_is_sublist(p.objects);
}

proof fn lemma_anchored_part_members(part: Seq<ObjectView>, all: Seq<ObjectView>, i: int)
    requires
        0 <= i < anchored_part(part, all).len(),
    ensures
        part.contains(anchored_part(part, all)[i]),
    decreases part.len(),
{
    if part.len() > 0 {
        let rest = anchored_part(part.drop_last(), all);
        if i < rest.len() {
            lemma_anchored_part_members(part.drop_last(), all, i);
            let w = choose|w: int| 0 <= w < part.drop_last().len() && part.drop_last()[w] == rest[i];
            assert(part[w] == rest[i]);
        } else {
            assert(part[part.len() - 1] == part.last());
        }
    }
}

/// Every node of the pruned list is a node of the list.
pub proof fn lemma_pruned_is_sublist(nodes: Seq<ObjectView>)
    ensures
        forall|i: int| 0 <= i < pruned(nodes).len() ==> nodes.contains(#[trigger] pruned(nodes)[i]),
    decreases nodes.len(),
{
    let once = anchored_part(nodes, nodes);
    if once.len() < nodes.len() {
        lemma_pruned_is_sublist(once);
        assert forall|i: int| 0 <= i < pruned(nodes).len() implies nodes.contains(
            #[trigger] pruned(nodes)[i],
        ) by {
            let x = pruned(once)[i];
            let w = choose|w: int| 0 <= w < once.len() && once[w] == x;
            lemma_anchored_part_members(nodes, nodes, w);
        }
    }
}

proof fn lemma_max_id_below_limit(nodes: Seq<ObjectView>)
    ensures
        0 <= max_id(nodes) <= u64::MAX,
        (forall|j: int| 0 <= j < nodes.len() ==> (#[trigger] nodes[j]).id < u64::MAX) ==> max_id(nodes)
            < u64::MAX,
    decreases nodes.len(),
{
    if nodes.len() > 0 {
        lemma_max_id_below_limit(nodes.drop_last());
        if forall|j: int| 0 <= j < nodes.len() ==> (#[trigger] nodes[j]).id < u64::MAX {
            assert forall|j: int| 0 <= j < nodes.drop_last().len() implies (
            #[trigger] nodes.drop_last()[j]).id < u64::MAX by {
                assert(nodes.drop_last()[j] == nodes[j]);
            }
            assert(nodes[nodes.len() - 1].id < u64::MAX);
        }
    }
}

/// The identifiers of `objects`, as a set.
fn collect_ids(objects: &Vec<BasObject>) -> (ids: BTreeSet<u64>)
    ensures
        forall|x: u64| ids@.contains(x) <==> has_id(object_views(objects@), x),
{
    let ghost nodes = object_views(objects@);
    let mut ids: BTreeSet<u64> = no_ids();
    let mut i: usize = 0;
    while i < objects.len()
        invariant
            i <= objects.len(),
            nodes == object_views(objects@),
            forall|x: u64|
                ids@.contains(x) <==> exists|j: int| 0 <= j < i && (#[trigger] nodes[j]).id == x,
        decreases objects.len() - i,
    {
        let ghost before = ids@;
        put_id(&mut ids, objects[i].id);
        proof {
            assert forall|x: u64| ids@.contains(x) <==> exists|j: int|
                0 <= j < i + 1 && (#[trigger] nodes[j]).id == x by {
                if before.contains(x) {
                    let j = choose|j: int| 0 <= j < i && (#[trigger] nodes[j]).id == x;
                    assert(0 <= j < i + 1 && nodes[j].id == x);
                }
                if x == nodes[i as int].id {
                    assert(0 <= i < i + 1 && nodes[i as int].id == x);
                }
                if exists|j: int| 0 <= j < i + 1 && (#[trigger] nodes[j]).id == x {
                    let j = choose|j: int| 0 <= j < i + 1 && (#[trigger] nodes[j]).id == x;
                    if j < i {
                        assert(before.contains(x));
                    }
                }
            }
        }
        i += 1;
    }
    ids
}

/// Removes the nodes whose parent is not among the nodes; one pass.
fn drop_orphans(objects: &mut Vec<BasObject>)
    ensures
        object_views(final(objects)@) == anchored_part(
            object_views(old(objects)@),
            object_views(old(objects)@),
        ),
{
    let ghost src = object_views(old(objects)@);
    let ids = collect_ids(objects);
    let ghost mut k: int = 0;
    let mut i: usize = 0;
    proof {
        assert(src.take(0) =~= Seq::<ObjectView>::empty());
        assert(object_views(objects@).take(0) =~= Seq::<ObjectView>::empty());
        assert(object_views(objects@).skip(0) =~= src.skip(0));
    }
    while i < objects.len()
        invariant
            0 <= k <= src.len(),
            i <= objects.len(),
            objects.len() - i == src.len() - k,
            forall|x: u64| ids@.contains(x) <==> has_id(src, x),
            object_views(objects@).take(i as int) == anchored_part(src.take(k), src),
            object_views(objects@).skip(i as int) == src.skip(k),
        decreases objects.len() - i,
    {
        let ghost before = object_views(objects@);
        proof {
            assert(src.take(k + 1).drop_last() =~= src.take(k));
            assert(before.skip(i as int)[0] == src.skip(k)[0]);
        }
        let known = match objects[i].parent_id {
            None => true,
            Some(p) => holds_id(&ids, p),
        };
        if !known {
            objects.remove(i);
            proof {
                assert(object_views(objects@) =~= before.remove(i as int));
                assert(object_views(objects@).take(i as int) =~= before.take(i as int));
                assert(object_views(objects@).skip(i as int) =~= before.skip(i as int).skip(1));
                assert(src.skip(k).skip(1) =~= src.skip(k + 1));
            }
        } else {
            i += 1;
            proof {
                assert(before.take(i as int) =~= before.take(i as int - 1).push(src[k]));
                assert(before.skip(i as int) =~= before.skip(i as int - 1).skip(1));
                assert(src.skip(k).skip(1) =~= src.skip(k + 1));
            }
        }
        proof {
            k = k + 1;
        }
    }
    proof {
        assert(src.take(k) =~= src);
        assert(object_views(objects@).take(i as int) =~= object_views(objects@));
    }
}

/// The tokens whose object is among `objects`.
fn keep_tokens_on(tokens: &Vec<OverlayNode>, objects: &Vec<BasObject>) -> (kept: Vec<OverlayNode>)
    ensures
        kept@ == tokens_on(tokens@, object_views(objects@)),
{
    let ids = collect_ids(objects);
    let mut kept: Vec<OverlayNode> = Vec::new();
    let mut i: usize = 0;
    proof {
        assert(tokens@.take(0) =~= Seq::<OverlayNode>::empty());
    }
    while i < tokens.len()
        invariant
            i <= tokens.len(),
            forall|x: u64| ids@.contains(x) <==> has_id(object_views(objects@), x),
            kept@ == tokens_on(tokens@.take(i as int), object_views(objects@)),
        decreases tokens.len() - i,
    {
        proof {
            assert(tokens@.take(i as int + 1).drop_last() =~= tokens@.take(i as int));
        }
        if holds_id(&ids, tokens[i].object_id) {
            kept.push(tokens[i]);
        }
        i += 1;
    }
    proof {
        assert(tokens@.take(i as int) =~= tokens@);
    }
    kept
}

/// The greatest identifier among `objects`, zero for none.
fn greatest_id(objects: &Vec<BasObject>) -> (m: u64)
    ensures
        m == max_id(object_views(objects@)),
{
    let ghost nodes = object_views(objects@);
    let mut m: u64 = 0;
    let mut i: usize = 0;
    proof {
        assert(nodes.take(0) =~= Seq::<ObjectView>::empty());
    }
    while i < objects.len()
        invariant
            i <= objects.len(),
            nodes == object_views(objects@),
            m == max_id(nodes.take(i as int)),
        decreases objects.len() - i,
    {
        proof {
            assert(nodes.take(i as int + 1).drop_last() =~= nodes.take(i as int));
        }
        if objects[i].id > m {
            m = objects[i].id;
        }
        i += 1;
    }
    proof {
        assert(nodes.take(i as int) =~= nodes);
    }
    m
}

/// `Uuid::new_v4` of the `uuid` crate, as a number: a random identifier
/// with the version and variant bits set, hence never nil.
#[verifier::external_body]
pub(crate) fn fresh_project_uuid() -> (id: u128)
    ensures
        id != 0,
{
    Uuid::new_v4().as_u128()
}

/// The identifier that a project continues with: its own, or `fresh`
/// where its own is nil.
pub fn settled_uuid(current: u128, fresh: u128) -> (id: u128)
    ensures
        id == if current == 0 {
            fresh
        } else {
            current
        },
{
    if current == 0 {
        fresh
    } else {
        current
    }
}

impl Project {
    /// Removes what dangles: the nodes whose parent is missing, with all
    /// that hung on them; the tokens whose object is missing.  Raises the
    /// counter above every identifier.  The rest stays as it is.
    pub fn repair_references(&mut self)
        requires
            forall|i: int| 0 <= i < old(self).objects.len() ==> (#[trigger] old(self).objects[i]).id < u64::MAX,
        ensures
            final(self)@ == repaired(old(self)@),
            consistent(final(self)@),
            consistent(old(self)@) && old(self).next_id >= 1 ==> final(self)@ == old(self)@,
    {
        let ghost start = object_views(self.objects@);
        proof {
            lemma_repair_makes_consistent(self@);
            if consistent(self@) && self.next_id >= 1 {
                lemma_repair_keeps_consistent(self@);
            }
        }
        loop
            invariant
                pruned(object_views(self.objects@)) == pruned(start),
                self@ == (ProjectView { objects: object_views(self.objects@), ..old(self)@ }),
            ensures
                object_views(self.objects@) == pruned(start),
                self@ == (ProjectView { objects: object_views(self.objects@), ..old(self)@ }),
            decreases self.objects.len(),
        {
            let ghost before = object_views(self.objects@);
            let n = self.objects.len();
            drop_orphans(&mut self.objects);
            proof {
                lemma_anchored_part_len(before, before);
            }
            if self.objects.len() >= n {
                break ;
            }
        }
        self.overlay_nodes = keep_tokens_on(&self.overlay_nodes, &self.objects);
        let greatest = greatest_id(&self.objects);
        proof {
            lemma_pruned_is_sublist(start);
            assert forall|j: int| 0 <= j < self.objects.len() implies (#[trigger] object_views(
                self.objects@,
            )[j]).id < u64::MAX by {
                let x = pruned(start)[j];
                let w = choose|w: int| 0 <= w < start.len() && start[w] == x;
                assert(start[w].id == old(self).objects[w].id);
            }
            lemma_max_id_below_limit(object_views(self.objects@));
        }
        if self.next_id <= greatest {
            self.next_id = greatest + 1;
        }
    }

    /// The repair after loading: a project without an identifier gets a
    /// new random one, and the references are repaired.
    pub fn normalize_loaded_project(&mut self)
        requires
            forall|i: int| 0 <= i < old(self).objects.len() ==> (#[trigger] old(self).objects[i]).id < u64::MAX,
        ensures
            final(self).project_uuid != 0,
            old(self).project_uuid != 0 ==> final(self).project_uuid == old(self).project_uuid,
            final(self)@ == (ProjectView {
                project_uuid: final(self).project_uuid,
                ..repaired(old(self)@)
            }),
            consistent(final(self)@),
            consistent(old(self)@) && old(self).next_id >= 1 && old(self).project_uuid != 0
                ==> final(self)@ == old(self)@,
    {
        if self.project_uuid == 0 {
            self.project_uuid = settled_uuid(self.project_uuid, fresh_project_uuid());
        }
        self.repair_references();
    }
}

} // verus!
