use bas_studio::graph::new_object;
use bas_studio::model::{ObjectType, OverlayNode, Project};
use bas_studio::repair::settled_uuid;

fn ids(p: &Project) -> Vec<u64> {
    p.objects.iter().map(|o| o.id).collect()
}

#[test]
fn orphans_are_pruned_with_what_hung_on_them() {
    let mut p = Project::with_uuid(5);
    p.objects.push(new_object(2, ObjectType::Controller, Some(1)));
    p.objects.push(new_object(3, ObjectType::Equipment, Some(40)));
    p.objects.push(new_object(4, ObjectType::Point, Some(3)));
    p.objects.push(new_object(5, ObjectType::Point, Some(4)));
    p.objects.push(new_object(6, ObjectType::Equipment, Some(2)));
    p.repair_references();
    assert_eq!(ids(&p), vec![1, 2, 6]);
}

#[test]
fn consistent_project_is_left_alone() {
    let mut p = Project::with_uuid(5);
    let c = p.add_object(ObjectType::Controller, Some(1)).unwrap();
    p.add_object(ObjectType::Equipment, Some(c)).unwrap();
    p.overlay_nodes.push(OverlayNode { id: 9, object_id: c, x: 1, y: 1 });
    let before = format!("{:?}", p);
    p.repair_references();
    assert_eq!(format!("{:?}", p), before);
}

#[test]
fn tokens_of_missing_objects_are_pruned() {
    let mut p = Project::with_uuid(5);
    p.objects.push(new_object(3, ObjectType::Controller, Some(99)));
    p.overlay_nodes.push(OverlayNode { id: 10, object_id: 1, x: 0, y: 0 });
    p.overlay_nodes.push(OverlayNode { id: 11, object_id: 3, x: 0, y: 0 });
    p.overlay_nodes.push(OverlayNode { id: 12, object_id: 8, x: 0, y: 0 });
    p.repair_references();
    assert_eq!(ids(&p), vec![1]);
    assert_eq!(p.overlay_nodes, vec![OverlayNode { id: 10, object_id: 1, x: 0, y: 0 }]);
}

#[test]
fn counter_is_raised_above_every_id() {
    let mut p = Project::with_uuid(5);
    p.objects.push(new_object(30, ObjectType::Controller, Some(1)));
    p.objects.push(new_object(500, ObjectType::Controller, Some(404)));
    p.next_id = 2;
    p.repair_references();
    assert_eq!(p.next_id, 31);
    p.next_id = 100;
    p.repair_references();
    assert_eq!(p.next_id, 100);
}

#[test]
fn empty_project_gets_counter_one() {
    let mut p = Project::with_uuid(5);
    p.objects.clear();
    p.next_id = 0;
    p.repair_references();
    assert_eq!(p.next_id, 1);
    assert!(p.objects.is_empty());
}

#[test]
fn nil_identifier_is_replaced_and_other_kept() {
    let mut p = Project::with_uuid(0);
    p.normalize_loaded_project();
    assert_ne!(p.project_uuid, 0);
    let mut q = Project::with_uuid(77);
    q.objects.push(new_object(3, ObjectType::Controller, Some(99)));
    q.normalize_loaded_project();
    assert_eq!(q.project_uuid, 77);
    assert_eq!(ids(&q), vec![1]);
    assert_eq!(settled_uuid(0, 9), 9);
    assert_eq!(settled_uuid(4, 9), 4);
}

#[test]
fn repair_keeps_property_groups_and_cycles() {
    let mut p = Project::with_uuid(5);
    p.objects.clear();
    p.objects.push(new_object(1, ObjectType::Controller, Some(2)));
    p.objects.push(new_object(2, ObjectType::Controller, Some(1)));
    p.repair_references();
    assert_eq!(ids(&p), vec![1, 2]);
    assert_eq!(p.next_id, 3);
}
