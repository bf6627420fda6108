use std::collections::BTreeSet;

use bas_studio::graph::{contains_id, find_object, new_object, subtree_of, GraphError};
use bas_studio::model::{ObjectType, OverlayNode, Project};

const KINDS: [ObjectType; 4] = [
    ObjectType::Building,
    ObjectType::Controller,
    ObjectType::Equipment,
    ObjectType::Point,
];

fn sample() -> (Project, u64, u64, u64) {
    let mut p = Project::with_uuid(1);
    let c = p.add_object(ObjectType::Controller, Some(1)).unwrap();
    let e = p.add_object(ObjectType::Equipment, Some(c)).unwrap();
    let pt = p.add_object(ObjectType::Point, Some(e)).unwrap();
    (p, c, e, pt)
}

fn listed(set: BTreeSet<u64>) -> Vec<u64> {
    set.into_iter().collect()
}

fn ids(p: &Project) -> Vec<u64> {
    p.objects.iter().map(|o| o.id).collect()
}

#[test]
fn new_object_is_named_after_kind_and_id() {
    let node = new_object(7, ObjectType::Controller, Some(1));
    assert_eq!(node.name, "Controller 7");
    assert_eq!(node.id, 7);
    assert_eq!(node.parent_id, Some(1));
    assert_eq!(node.controller_type, "Lynxspring Edge");
    assert_eq!(node.controller_license, "None");
    assert_eq!(node.equipment_type, "");
    assert!(node.property_groups.is_empty());
    assert!(!node.hours_override);
}

#[test]
fn new_object_renders_large_ids() {
    let node = new_object(18_446_744_073_709_551_615, ObjectType::Point, None);
    assert_eq!(node.name, "Point 18446744073709551615");
    let zero = new_object(0, ObjectType::Building, None);
    assert_eq!(zero.name, "Building 0");
}

#[test]
fn add_object_assigns_next_id_and_appends() {
    let (p, c, e, pt) = sample();
    assert_eq!((c, e, pt), (2, 3, 4));
    assert_eq!(p.next_id, 5);
    assert_eq!(ids(&p), vec![1, 2, 3, 4]);
    assert_eq!(p.objects[1].name, "Controller 2");
    assert_eq!(p.objects[2].parent_id, Some(2));
    assert_eq!(p.objects[3].object_type, ObjectType::Point);
}

#[test]
fn add_object_accepts_exactly_the_legal_pairs() {
    let (base, c, e, pt) = sample();
    let parents: [(Option<u64>, Option<ObjectType>); 5] = [
        (None, None),
        (Some(1), Some(ObjectType::Building)),
        (Some(c), Some(ObjectType::Controller)),
        (Some(e), Some(ObjectType::Equipment)),
        (Some(pt), Some(ObjectType::Point)),
    ];
    for kind in KINDS {
        for (parent, parent_kind) in parents {
            let legal = matches!(
                (kind, parent_kind),
                (ObjectType::Building, None)
                    | (ObjectType::Controller, Some(ObjectType::Building))
                    | (ObjectType::Equipment, Some(ObjectType::Controller))
                    | (ObjectType::Point, Some(ObjectType::Equipment))
            );
            let mut p = base.clone();
            assert_eq!(p.can_add_object(kind, parent), legal);
            let r = p.add_object(kind, parent);
            if legal {
                assert_eq!(r, Ok(5));
                assert_eq!(p.objects.len(), 5);
                assert_eq!(p.objects[4].object_type, kind);
                assert_eq!(p.objects[4].parent_id, parent);
                assert_eq!(p.next_id, 6);
            } else {
                assert_eq!(r, Err(GraphError::InvalidParent));
                assert_eq!(ids(&p), ids(&base));
                assert_eq!(p.next_id, base.next_id);
            }
        }
    }
}

#[test]
fn add_object_refuses_unknown_parent() {
    let (mut p, _, _, _) = sample();
    assert_eq!(p.add_object(ObjectType::Controller, Some(99)), Err(GraphError::InvalidParent));
    assert_eq!(p.objects.len(), 4);
    assert_eq!(p.next_id, 5);
}

#[test]
fn find_object_gives_first_position() {
    let (mut p, _, _, _) = sample();
    assert_eq!(find_object(&p.objects, 3), Some(2));
    assert_eq!(find_object(&p.objects, 42), None);
    p.objects.push(new_object(3, ObjectType::Point, None));
    assert_eq!(find_object(&p.objects, 3), Some(2));
}

#[test]
fn contains_id_scans_the_list() {
    let v = vec![5u64, 9, 12];
    assert!(contains_id(&v, 9));
    assert!(!contains_id(&v, 10));
    assert!(!contains_id(&Vec::new(), 0));
}

#[test]
fn subtree_of_collects_descendants_once() {
    let (mut p, c, e, pt) = sample();
    let c2 = p.add_object(ObjectType::Controller, Some(1)).unwrap();
    let e2 = p.add_object(ObjectType::Equipment, Some(c2)).unwrap();
    assert_eq!(listed(subtree_of(&p.objects, c)), vec![c, e, pt]);
    assert_eq!(listed(subtree_of(&p.objects, 1)), vec![1, c, e, pt, c2, e2]);
    assert_eq!(listed(subtree_of(&p.objects, pt)), vec![pt]);
    assert_eq!(listed(subtree_of(&p.objects, 77)), vec![77]);
}

#[test]
fn subtree_of_ends_on_a_cycle() {
    let mut p = Project::with_uuid(1);
    p.objects.clear();
    let mut a = new_object(10, ObjectType::Controller, Some(11));
    a.name = "a".to_string();
    let b = new_object(11, ObjectType::Controller, Some(10));
    let c = new_object(12, ObjectType::Equipment, Some(11));
    p.objects.push(a);
    p.objects.push(b);
    p.objects.push(c);
    assert_eq!(listed(subtree_of(&p.objects, 10)), vec![10, 11, 12]);
}

#[test]
fn remove_subtree_removes_exactly_the_closure() {
    let (mut p, c, e, pt) = sample();
    let c2 = p.add_object(ObjectType::Controller, Some(1)).unwrap();
    let e2 = p.add_object(ObjectType::Equipment, Some(c2)).unwrap();
    p.overlay_nodes.push(OverlayNode { id: 100, object_id: e, x: 1, y: 2 });
    p.overlay_nodes.push(OverlayNode { id: 101, object_id: e2, x: 3, y: 4 });
    p.overlay_nodes.push(OverlayNode { id: 102, object_id: c, x: 5, y: 6 });
    let next = p.next_id;
    let removed = p.remove_object_subtree(c);
    assert_eq!(listed(removed), vec![c, e, pt]);
    assert_eq!(ids(&p), vec![1, c2, e2]);
    assert_eq!(p.overlay_nodes, vec![OverlayNode { id: 101, object_id: e2, x: 3, y: 4 }]);
    assert_eq!(p.next_id, next);
}

#[test]
fn remove_subtree_of_leaf_and_of_unknown_id() {
    let (mut p, c, e, pt) = sample();
    assert_eq!(listed(p.remove_object_subtree(pt)), vec![pt]);
    assert_eq!(ids(&p), vec![1, c, e]);
    assert_eq!(listed(p.remove_object_subtree(999)), vec![999]);
    assert_eq!(ids(&p), vec![1, c, e]);
}

#[test]
fn graph_itself_removes_the_root_building() {
    let (mut p, _, _, _) = sample();
    p.remove_object_subtree(1);
    assert!(p.objects.is_empty());
}

#[test]
fn reparent_moves_under_legal_parent() {
    let (mut p, c, e, _) = sample();
    let c2 = p.add_object(ObjectType::Controller, Some(1)).unwrap();
    assert!(p.can_reparent_object(e, c2));
    assert!(p.reparent_object(e, c2));
    assert_eq!(p.objects[2].parent_id, Some(c2));
    assert_eq!(p.objects[1].parent_id, Some(1));
    assert_eq!(p.objects[1].id, c);
}

#[test]
fn reparent_moves_point_under_other_equipment() {
    let (mut p, c, _, pt) = sample();
    let e2 = p.add_object(ObjectType::Equipment, Some(c)).unwrap();
    assert!(p.reparent_object(pt, e2));
    assert_eq!(p.objects[3].parent_id, Some(e2));
}

#[test]
fn reparent_refuses_illegal_kinds_self_and_unknown() {
    let (mut p, c, e, pt) = sample();
    let before: Vec<Option<u64>> = p.objects.iter().map(|o| o.parent_id).collect();
    assert!(!p.reparent_object(e, 1));
    assert!(!p.reparent_object(c, e));
    assert!(!p.reparent_object(pt, c));
    assert!(!p.reparent_object(1, c));
    assert!(!p.reparent_object(c, c));
    assert!(!p.reparent_object(99, 1));
    assert!(!p.reparent_object(c, 99));
    let after: Vec<Option<u64>> = p.objects.iter().map(|o| o.parent_id).collect();
    assert_eq!(before, after);
}

#[test]
fn reparent_refuses_to_close_a_cycle() {
    let mut p = Project::with_uuid(1);
    p.objects.clear();
    p.objects.push(new_object(1, ObjectType::Building, Some(3)));
    p.objects.push(new_object(2, ObjectType::Controller, Some(1)));
    p.objects.push(new_object(3, ObjectType::Equipment, Some(2)));
    p.objects.push(new_object(4, ObjectType::Controller, None));
    assert!(!p.can_reparent_object(2, 1));
    assert!(!p.can_reparent_object(3, 2));
    assert!(p.can_reparent_object(3, 4));
    assert!(p.reparent_object(3, 4));
    let mut cursor = Some(4u64);
    let mut steps = 0;
    while let Some(id) = cursor {
        assert_ne!(id, 3);
        cursor = p.objects.iter().find(|o| o.id == id).and_then(|o| o.parent_id);
        steps += 1;
        assert!(steps < 10);
    }
}

#[test]
fn reparent_answers_on_a_cycle_above_the_new_parent() {
    let mut p = Project::with_uuid(1);
    p.objects.clear();
    p.objects.push(new_object(1, ObjectType::Building, Some(2)));
    p.objects.push(new_object(2, ObjectType::Building, Some(1)));
    p.objects.push(new_object(3, ObjectType::Controller, None));
    assert!(p.can_reparent_object(3, 1));
}

#[test]
fn duplicate_copies_one_node_with_fresh_id() {
    let (mut p, c, e, pt) = sample();
    p.objects[2].equipment_tag = "AHU-3".to_string();
    p.objects[2].hours_override = true;
    p.objects[2].override_engineering_hours = 250;
    let r = p.duplicate_object(e);
    assert_eq!(r, Some(5));
    assert_eq!(p.next_id, 6);
    assert_eq!(p.objects.len(), 5);
    let copy = &p.objects[4];
    assert_eq!(copy.id, 5);
    assert_eq!(copy.parent_id, Some(c));
    assert_eq!(copy.name, "Equipment 3 (Copy)");
    assert_eq!(copy.equipment_tag, "AHU-3");
    assert!(copy.hours_override);
    assert_eq!(copy.override_engineering_hours, 250);
    let children: Vec<u64> = p.objects.iter().filter(|o| o.parent_id == Some(5)).map(|o| o.id).collect();
    assert!(children.is_empty());
    assert_eq!(p.objects[3].parent_id, Some(e));
    assert_eq!(p.objects[3].id, pt);
}

#[test]
fn duplicate_of_unknown_id_changes_nothing() {
    let (mut p, _, _, _) = sample();
    assert_eq!(p.duplicate_object(50), None);
    assert_eq!(p.objects.len(), 4);
    assert_eq!(p.next_id, 5);
}
