use bas_studio::graph::new_object;
use bas_studio::model::{ObjectType, OverlayNode, Project};
use bas_studio::studio::{CanvasPoint, Studio};

fn built() -> Project {
    let mut p = Project::with_uuid(9);
    let c = p.add_object(ObjectType::Controller, Some(1)).unwrap();
    let e = p.add_object(ObjectType::Equipment, Some(c)).unwrap();
    p.add_object(ObjectType::Point, Some(e)).unwrap();
    p.objects[2].template_name = "AHU Typical".to_string();
    p.sync_equipment_from_template(e);
    p.overlay_nodes.push(OverlayNode { id: 99, object_id: c, x: 0, y: 0 });
    p.next_id = 100;
    p
}

#[test]
fn operations_keep_a_new_project_well_formed() {
    let mut p = Project::with_uuid(9);
    assert!(p.is_well_formed());
    assert!(p.is_consistent());
    let mut p2 = built();
    assert!(p2.is_well_formed());
    let c2 = p2.add_object(ObjectType::Controller, Some(1)).unwrap();
    assert!(p2.reparent_object(3, c2));
    assert!(p2.is_well_formed());
    p2.duplicate_object(3).unwrap();
    assert!(p2.is_well_formed());
    p2.remove_object_subtree(2);
    assert!(p2.is_well_formed());
    p2.remove_object_subtree(1);
    assert!(p2.is_well_formed());
    assert!(p2.objects.is_empty());
    p.run_qol_pass();
    assert!(p.is_well_formed());
}

#[test]
fn damage_is_detected() {
    let mut p = built();
    p.objects.push(new_object(3, ObjectType::Point, Some(3)));
    assert!(p.is_consistent());
    assert!(!p.is_well_formed());
    let mut p = built();
    p.objects[1].parent_id = Some(3);
    assert!(p.is_consistent());
    assert!(!p.is_well_formed());
    let mut p = built();
    p.objects[1].parent_id = None;
    assert!(!p.is_well_formed());
    let mut p = built();
    p.objects[3].parent_id = Some(1234);
    assert!(!p.is_consistent());
    assert!(!p.is_well_formed());
    let mut p = built();
    p.next_id = 4;
    assert!(!p.is_consistent());
    let mut p = built();
    p.overlay_nodes.push(OverlayNode { id: 5, object_id: 777, x: 0, y: 0 });
    assert!(!p.is_consistent());
    assert!(!p.is_well_formed());
}

#[test]
fn repair_makes_a_damaged_project_consistent() {
    let mut p = built();
    p.objects[1].parent_id = Some(5000);
    p.overlay_nodes.push(OverlayNode { id: 5, object_id: 777, x: 0, y: 0 });
    p.next_id = 1;
    assert!(!p.is_consistent());
    p.repair_references();
    assert!(p.is_consistent());
    let ids: Vec<u64> = p.objects.iter().map(|o| o.id).collect();
    assert_eq!(ids, vec![1]);
    assert!(p.overlay_nodes.is_empty());
    assert_eq!(p.next_id, 2);
}

#[test]
fn step_back_after_a_removal_brings_tokens_back_until_repaired() {
    let mut s = Studio::new(Vec::new());
    let c = s.add_object(ObjectType::Controller, Some(1)).unwrap();
    s.place_overlay_node(c, CanvasPoint { x: 1, y: 2 });
    s.overlay_click(CanvasPoint { x: 0, y: 0 });
    s.overlay_click(CanvasPoint { x: 5, y: 5 });
    assert!(s.project.is_well_formed());
    s.remove_object_subtree(c);
    assert!(s.project.overlay_nodes.is_empty());
    assert!(s.project.is_well_formed());
    assert!(s.overlay_undo());
    assert_eq!(s.project.overlay_nodes.len(), 1);
    assert!(!s.project.is_consistent());
    s.project.repair_references();
    assert!(s.project.is_consistent());
    assert!(s.project.overlay_nodes.is_empty());
}
