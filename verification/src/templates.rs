//! Bringing a piece of equipment in line with the template it names.

use vstd::prelude::*;
use crate::estimate::{find_template, template_named};
use crate::graph::{
    find_object, fresh_object, is_first, lemma_first_unique, lemma_lookup_first, lemma_lookup_some,
    lookup, new_object,
};
use crate::model::{
    BasObject, ObjectType, ObjectView, Project, ProjectView, PropertyGroupView,
    TemplatePointView, TemplateView, object_views, template_views,
};
use crate::invariants::{
    consistent, keeps_invariants, lemma_sync_keeps_consistent, lemma_sync_keeps_well_formed,
    well_formed,
};
use crate::text::{blank, decimal, is_blank, is_white_space, joined, numbered};

verus! {

/// Some point under `parent` has the name `name`.
pub open spec fn has_point_named(nodes: Seq<ObjectView>, parent: u64, name: Seq<char>) -> bool {
    exists|i: int|
        #![trigger nodes[i]]
        0 <= i < nodes.len() && nodes[i].parent_id == Some(parent) && nodes[i].object_type
            == ObjectType::Point && nodes[i].name == name
}

/// The equipment `eq` after it took over what template `t` sets: the type
/// unless the node keeps its own, a tag made of the template's type, a
/// hyphen and the identifier where the node's tag is blank, and the hour
/// mode unless the node overrides its hours.
pub open spec fn adopt_template(eq: ObjectView, t: TemplateView) -> ObjectView {
    ObjectView {
        equipment_type: if eq.equipment_type_override {
            eq.equipment_type
        } else {
            t.equipment_type
        },
        equipment_tag: if blank(eq.equipment_tag) {
            joined(t.equipment_type, "-"@, decimal(eq.id as nat))
        } else {
            eq.equipment_tag
        },
        hours_override_mode: if eq.hours_override {
            eq.hours_override_mode
        } else {
            t.hour_mode
        },
        ..eq
    }
}

/// The point that is created for the template point `tp`.
pub open spec fn synced_point(id: u64, parent: u64, tp: TemplatePointView) -> ObjectView {
    ObjectView {
        name: tp.name,
        point_kind: tp.kind,
        ..fresh_object(id, ObjectType::Point, Some(parent))
    }
}

/// `nodes` after the template points `points` were gone through in order:
/// for each whose name no point under `parent` has yet, a point is added
/// at the end.  The points added take the identifiers from `first_id` on.
pub open spec fn with_points(
    nodes: Seq<ObjectView>,
    first_id: u64,
    parent: u64,
    points: Seq<TemplatePointView>,
) -> Seq<ObjectView>
    decreases points.len(),
{
    if points.len() == 0 {
        nodes
    } else {
        let before = with_points(nodes, first_id, parent, points.drop_last());
        if has_point_named(before, parent, points.last().name) {
            before
        } else {
            before.push(
                synced_point((first_id + (before.len() - nodes.len())) as u64, parent, points.last()),
            )
        }
    }
}

/// The equipment that a synchronisation of `obj_id` works on, with its
/// template: the first node with that identifier, where it is a piece of
/// equipment that names a template of the catalog.
pub open spec fn sync_target(p: ProjectView, obj_id: u64) -> Option<(ObjectView, TemplateView)> {
    match lookup(p.objects, obj_id) {
        None => None,
        Some(eq) => if eq.object_type != ObjectType::Equipment || eq.template_name.len() == 0 {
            None
        } else {
            match template_named(p.templates, eq.template_name) {
                None => None,
                Some(t) => Some((eq, t)),
            }
        },
    }
}

/// The project after the equipment `obj_id` was synchronised with its
/// template.
pub open spec fn synced(p: ProjectView, obj_id: u64) -> ProjectView {
    match sync_target(p, obj_id) {
        None => p,
        Some((eq, t)) => {
            let i = choose|i: int| is_first(p.objects, obj_id, i);
            let adopted = p.objects.update(i, adopt_template(eq, t));
            let objects = with_points(adopted, p.next_id, obj_id, t.points);
            ProjectView {
                objects,
                next_id: (p.next_id + (objects.len() - p.objects.len())) as u64,
                ..p
            }
        },
    }
}

proof fn lemma_with_points_len(
    nodes: Seq<ObjectView>,
    first_id: u64,
    parent: u64,
    points: Seq<TemplatePointView>,
)
    ensures
        nodes.len() <= with_points(nodes, first_id, parent, points).len() <= nodes.len()
            + points.len(),
    decreases points.len(),
{
    if points.len() > 0 {
        lemma_with_points_len(nodes, first_id, parent, points.drop_last());
    }
}

/// Whether some point among `objects` under `parent` has the name `name`.
pub fn has_point_child_named(objects: &Vec<BasObject>, parent: u64, name: &String) -> (r: bool)
    ensures
        r == has_point_named(object_views(objects@), parent, name@),
{
    let ghost nodes = object_views(objects@);
    let mut i: usize = 0;
    while i < objects.len()
        invariant
            i <= objects.len(),
            nodes == object_views(objects@),
            forall|j: int|
                #![trigger nodes[j]]
                0 <= j < i ==> !(nodes[j].parent_id == Some(parent) && nodes[j].object_type
                    == ObjectType::Point && nodes[j].name == name@),
        decreases objects.len() - i,
    {
        let is_child = match objects[i].parent_id {
            Some(p) => p == parent,
            None => false,
        };
        let is_point = match objects[i].object_type {
            ObjectType::Point => true,
            _ => false,
        };
        if is_child && is_point && objects[i].name == *name {
            assert(nodes[i as int].name == name@);
            return true;
        }
        i += 1;
    }
    false
}

impl Project {
    /// Brings the equipment `obj_id` in line with the template it names:
    /// the node takes over type, tag and hour mode as far as it does not
    /// keep its own, and every point of the template that the equipment
    /// lacks, by name, is created under it.  Where `obj_id` is no piece of
    /// equipment, names no template, or names one that the catalog does
    /// not hold, nothing changes.
    pub fn sync_equipment_from_template(&mut self, obj_id: u64)
        requires
            forall|i: int|
                0 <= i < old(self).templates.len() ==> old(self).next_id + (
                #[trigger] old(self).templates[i]).points.len() <= u64::MAX,
        ensures
            final(self)@ == synced(old(self)@, obj_id),
            keeps_invariants(old(self)@, final(self)@),
    {
        let ghost p = old(self)@;
        proof {
            if consistent(p) {
                lemma_sync_keeps_consistent(p, obj_id);
            }
            if well_formed(p) {
                lemma_sync_keeps_well_formed(p, obj_id);
            }
        }
        let idx = match find_object(&self.objects, obj_id) {
            Some(i) => i,
            None => {
                return ;
            },
        };
        let is_equipment = match self.objects[idx].object_type {
            ObjectType::Equipment => true,
            _ => false,
        };
        if !is_equipment || self.objects[idx].template_name.as_str().is_empty() {
            return ;
        }
        let ti = match find_template(&self.templates, &self.objects[idx].template_name) {
            Some(t) => t,
            None => {
                return ;
            },
        };
        let ghost eq = p.objects[idx as int];
        let ghost t = p.templates[ti as int];
        proof {
            assert(sync_target(p, obj_id) == Some((eq, t)));
            let c = choose|c: int| is_first(p.objects, obj_id, c);
            lemma_first_unique(p.objects, obj_id, c, idx as int);
        }
        if !self.objects[idx].equipment_type_override {
            self.objects[idx].equipment_type = self.templates[ti].equipment_type.clone();
        }
        if is_blank(self.objects[idx].equipment_tag.as_str()) {
            self.objects[idx].equipment_tag = numbered(
                self.templates[ti].equipment_type.as_str(),
                "-",
                obj_id,
            );
        }
        if !self.objects[idx].hours_override {
            self.objects[idx].hours_override_mode = self.templates[ti].hour_mode;
        }
        let ghost adopted = p.objects.update(idx as int, adopt_template(eq, t));
        proof {
            assert(object_views(self.objects@) =~= adopted);
            assert(t.points.take(0) =~= Seq::<TemplatePointView>::empty());
        }
        let count = self.templates[ti].points.len();
        let mut j: usize = 0;
        while j < count
            invariant
                j <= count,
                count == self.templates[ti as int].points.len(),
                ti < self.templates.len(),
                template_views(self.templates@) == p.templates,
                t == p.templates[ti as int],
                p.next_id + count <= u64::MAX,
                adopted.len() == p.objects.len(),
                object_views(self.objects@) == with_points(
                    adopted,
                    p.next_id,
                    obj_id,
                    t.points.take(j as int),
                ),
                self.next_id == p.next_id + (self.objects.len() - adopted.len()),
                self.objects.len() <= adopted.len() + j,
                self@ == (ProjectView {
                    objects: object_views(self.objects@),
                    next_id: self.next_id,
                    ..p
                }),
            decreases count - j,
        {
            let ghost before = object_views(self.objects@);
            proof {
                assert(t.points.take(j as int + 1).drop_last() =~= t.points.take(j as int));
                assert(t.points.take(j as int + 1).last() == t.points[j as int]);
                assert(t.points[j as int] == self.templates[ti as int].points[j as int]@);
            }
            if !has_point_child_named(&self.objects, obj_id, &self.templates[ti].points[j].name) {
                let id = self.next_id;
                self.next_id = id + 1;
                let mut node = new_object(id, ObjectType::Point, Some(obj_id));
                node.name = self.templates[ti].points[j].name.clone();
                node.point_kind = self.templates[ti].points[j].kind;
                proof {
                    assert(node@.property_groups =~= Seq::<PropertyGroupView>::empty());
                    assert(node@ == synced_point(id, obj_id, t.points[j as int]));
                }
                self.objects.push(node);
                proof {
                    assert(object_views(self.objects@) =~= before.push(
                        synced_point(id, obj_id, t.points[j as int]),
                    ));
                }
            }
            j += 1;
        }
        proof {
            assert(t.points.take(j as int) =~= t.points);
        }
    }
}

proof fn lemma_with_points_prefix(
    nodes: Seq<ObjectView>,
    first_id: u64,
    parent: u64,
    points: Seq<TemplatePointView>,
    k: int,
)
    requires
        0 <= k < nodes.len(),
    ensures
        k < with_points(nodes, first_id, parent, points).len(),
        with_points(nodes, first_id, parent, points)[k] == nodes[k],
    decreases points.len(),
{
    if points.len() > 0 {
        lemma_with_points_prefix(nodes, first_id, parent, points.drop_last(), k);
    }
}

proof fn lemma_with_points_covers(
    nodes: Seq<ObjectView>,
    first_id: u64,
    parent: u64,
    points: Seq<TemplatePointView>,
    j: int,
)
    requires
        0 <= j < points.len(),
    ensures
        has_point_named(with_points(nodes, first_id, parent, points), parent, points[j].name),
    decreases points.len(),
{
    let before = with_points(nodes, first_id, parent, points.drop_last());
    let after = with_points(nodes, first_id, parent, points);
    if j < points.len() - 1 {
        lemma_with_points_covers(nodes, first_id, parent, points.drop_last(), j);
        assert(points.drop_last()[j] == points[j]);
        let w = choose|w: int|
            #![trigger before[w]]
            0 <= w < before.len() && before[w].parent_id == Some(parent) && before[w].object_type
                == ObjectType::Point && before[w].name == points[j].name;
        assert(after[w] == before[w]);
    } else {
        if !has_point_named(before, parent, points.last().name) {
            let w = before.len() as int;
            assert(after[w].name == points[j].name);
        }
    }
}

proof fn lemma_with_points_settled(
    nodes: Seq<ObjectView>,
    first_id: u64,
    parent: u64,
    points: Seq<TemplatePointView>,
)
    requires
        forall|j: int| 0 <= j < points.len() ==> has_point_named(nodes, parent, (#[trigger] points[j]).name),
    ensures
        with_points(nodes, first_id, parent, points) == nodes,
    decreases points.len(),
{
    if points.len() > 0 {
        assert forall|j: int| 0 <= j < points.drop_last().len() implies has_point_named(
            nodes,
            parent,
            (#[trigger] points.drop_last()[j]).name,
        ) by {
            assert(points.drop_last()[j] == points[j]);
        }
        lemma_with_points_settled(nodes, first_id, parent, points.drop_last());
        assert(has_point_named(nodes, parent, points[points.len() - 1].name));
    }
}

proof fn lemma_tag_not_blank(kind: Seq<char>, digits: Seq<char>)
    ensures
        !blank(joined(kind, "-"@, digits)),
{
    reveal_strlit("-");
    let s = joined(kind, "-"@, digits);
    assert(s[kind.len() as int] == '-');
    assert(!is_white_space(s[kind.len() as int]));
}

/// Synchronising a second time changes nothing: the node has taken over
/// what it takes over, and every point of the template is there.
pub proof fn lemma_sync_idempotent(p: ProjectView, obj_id: u64)
    ensures
        synced(synced(p, obj_id), obj_id) == synced(p, obj_id),
{
    match sync_target(p, obj_id) {
        None => {},
        Some((eq, t)) => {
            let q = synced(p, obj_id);
            let i = choose|i: int| is_first(p.objects, obj_id, i);
            lemma_lookup_some(p.objects, obj_id);
            lemma_lookup_first(p.objects, obj_id, i);
            let eq2 = adopt_template(eq, t);
            let adopted = p.objects.update(i, eq2);
            assert(q.objects == with_points(adopted, p.next_id, obj_id, t.points));
            lemma_with_points_len(adopted, p.next_id, obj_id, t.points);
            assert forall|k: int| 0 <= k < adopted.len() implies (#[trigger] q.objects[k])
                == adopted[k] by {
                lemma_with_points_prefix(adopted, p.next_id, obj_id, t.points, k);
            }
            assert(is_first(q.objects, obj_id, i)) by {
                assert(q.objects[i] == adopted[i]);
                assert forall|j: int| 0 <= j < i implies (#[trigger] q.objects[j]).id != obj_id by {
                    assert(q.objects[j] == adopted[j]);
                    assert(p.objects[j].id != obj_id);
                }
            }
            lemma_lookup_first(q.objects, obj_id, i);
            assert(sync_target(q, obj_id) == Some((eq2, t)));
            lemma_tag_not_blank(t.equipment_type, decimal(eq.id as nat));
            assert(adopt_template(eq2, t) == eq2);
            let c = choose|c: int| is_first(q.objects, obj_id, c);
            lemma_first_unique(q.objects, obj_id, c, i);
            assert(q.objects.update(i, eq2) =~= q.objects);
            assert forall|j: int| 0 <= j < t.points.len() implies has_point_named(
                q.objects,
                obj_id,
                (#[trigger] t.points[j]).name,
            ) by {
                lemma_with_points_covers(adopted, p.next_id, obj_id, t.points, j);
            }
            lemma_with_points_settled(q.objects, q.next_id, obj_id, t.points);
        },
    }
}

/// Number of points under `parent` that have the name `name`.
pub open spec fn points_named(nodes: Seq<ObjectView>, parent: u64, name: Seq<char>) -> nat
    decreases nodes.len(),
{
    if nodes.len() == 0 {
        0
    } else {
        let last = nodes.last();
        let one: nat = if last.parent_id == Some(parent) && last.object_type == ObjectType::Point
            && last.name == name {
            1
        } else {
            0
        };
        points_named(nodes.drop_last(), parent, name) + one
    }
}

proof fn lemma_points_named_some(nodes: Seq<ObjectView>, parent: u64, name: Seq<char>)
    ensures
        points_named(nodes, parent, name) > 0 <==> has_point_named(nodes, parent, name),
    decreases nodes.len(),
{
    if nodes.len() > 0 {
        let rest = nodes.drop_last();
        lemma_points_named_some(rest, parent, name);
        if has_point_named(rest, parent, name) {
            let w = choose|w: int|
                #![trigger rest[w]]
                0 <= w < rest.len() && rest[w].parent_id == Some(parent) && rest[w].object_type
                    == ObjectType::Point && rest[w].name == name;
            assert(nodes[w] == rest[w]);
        }
        if has_point_named(nodes, parent, name) {
            let w = choose|w: int|
                #![trigger nodes[w]]
                0 <= w < nodes.len() && nodes[w].parent_id == Some(parent) && nodes[w].object_type
                    == ObjectType::Point && nodes[w].name == name;
            if w < rest.len() {
                assert(rest[w] == nodes[w]);
            }
        }
        if points_named(nodes, parent, name) > points_named(rest, parent, name) {
            assert(nodes[nodes.len() - 1] == nodes.last());
        }
    }
}

proof fn lemma_with_points_adds_once(
    nodes: Seq<ObjectView>,
    first_id: u64,
    parent: u64,
    points: Seq<TemplatePointView>,
    name: Seq<char>,
)
    ensures
        points_named(with_points(nodes, first_id, parent, points), parent, name) == points_named(
            nodes,
            parent,
            name,
        ) || (points_named(nodes, parent, name) == 0 && points_named(
            with_points(nodes, first_id, parent, points),
            parent,
            name,
        ) == 1),
    decreases points.len(),
{
    if points.len() > 0 {
        lemma_with_points_adds_once(nodes, first_id, parent, points.drop_last(), name);
        let before = with_points(nodes, first_id, parent, points.drop_last());
        let after = with_points(nodes, first_id, parent, points);
        lemma_points_named_some(before, parent, points.last().name);
        if !has_point_named(before, parent, points.last().name) {
            assert(after.drop_last() =~= before);
        }
    }
}

proof fn lemma_points_named_after_edit(
    nodes: Seq<ObjectView>,
    i: int,
    node: ObjectView,
    parent: u64,
    name: Seq<char>,
)
    requires
        0 <= i < nodes.len(),
        node.parent_id == nodes[i].parent_id,
        node.object_type == nodes[i].object_type,
        node.name == nodes[i].name,
    ensures
        points_named(nodes.update(i, node), parent, name) == points_named(nodes, parent, name),
    decreases nodes.len(),
{
    if i < nodes.len() - 1 {
        lemma_points_named_after_edit(nodes.drop_last(), i, node, parent, name);
        assert(nodes.update(i, node).drop_last() =~= nodes.drop_last().update(i, node));
    } else {
        assert(nodes.update(i, node).drop_last() =~= nodes.drop_last());
    }
}

/// Synchronising brings every name under the equipment at most once
/// more, also a name that the template lists twice: the number of points
/// of a name stays as it was, or goes from none to one.
pub proof fn lemma_sync_adds_each_name_once(p: ProjectView, obj_id: u64, name: Seq<char>)
    ensures
        points_named(synced(p, obj_id).objects, obj_id, name) == points_named(
            p.objects,
            obj_id,
            name,
        ) || (points_named(p.objects, obj_id, name) == 0 && points_named(
            synced(p, obj_id).objects,
            obj_id,
            name,
        ) == 1),
{
    match sync_target(p, obj_id) {
        None => {},
        Some((eq, t)) => {
            let i = choose|i: int| is_first(p.objects, obj_id, i);
            lemma_lookup_some(p.objects, obj_id);
            lemma_lookup_first(p.objects, obj_id, i);
            let adopted = p.objects.update(i, adopt_template(eq, t));
            lemma_points_named_after_edit(p.objects, i, adopt_template(eq, t), obj_id, name);
            lemma_with_points_adds_once(adopted, p.next_id, obj_id, t.points, name);
        },
    }
}

} // verus!
