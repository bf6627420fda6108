use bas_studio::codec::{encode_project_file, open_project_file};
use bas_studio::graph::{new_object, GraphError};
use bas_studio::catalog::new_template;
use bas_studio::model::{HourCalculationMode, ObjectType, OverlayLine, OverlayNode, Project};
use bas_studio::studio::{
    autosave_plan, AutosavePlan, CanvasPoint, DeleteOutcome, OverlayTool, PendingDrop, PlaceOutcome,
    Studio,
};

fn at(x: f32, y: f32) -> CanvasPoint {
    CanvasPoint { x: x.to_bits(), y: y.to_bits() }
}

fn studio() -> (Studio, u64, u64, u64) {
    let mut s = Studio::new(Vec::new());
    let c = s.add_object(ObjectType::Controller, Some(1)).unwrap();
    let e = s.add_object(ObjectType::Equipment, Some(c)).unwrap();
    let p = s.add_object(ObjectType::Point, Some(e)).unwrap();
    (s, c, e, p)
}

#[test]
fn new_session_selects_the_building() {
    let s = Studio::new(Vec::new());
    assert_eq!(s.selected_object, Some(1));
    assert_eq!(s.project.objects.len(), 1);
    assert_eq!(s.project.objects[0].name, "HQ Building");
    assert_ne!(s.project.project_uuid, 0);
    assert_eq!(s.overlay_tool, OverlayTool::Route);
    assert_eq!(s.history.undo_depth(), 0);
}

#[test]
fn new_sessions_get_distinct_identifiers() {
    let a = Studio::new(Vec::new());
    let b = Studio::new(Vec::new());
    assert_ne!(a.project.project_uuid, b.project.project_uuid);
    assert_eq!((a.project.project_uuid >> 76) & 0xF, 4);
}

#[test]
fn add_selects_the_new_object() {
    let (mut s, c, _, p) = studio();
    assert_eq!(s.selected_object, Some(p));
    assert_eq!(s.add_object(ObjectType::Point, Some(c)), Err(GraphError::InvalidParent));
    assert_eq!(s.selected_object, Some(p));
    let d = s.duplicate_object(c).unwrap();
    assert_eq!(s.selected_object, Some(d));
}

#[test]
fn deleting_the_root_building_is_refused_but_the_graph_allows_it() {
    let (mut s, _, _, _) = studio();
    assert!(!s.can_delete_object(1));
    assert_eq!(s.delete_object(1), DeleteOutcome::BlockedBuilding);
    assert_eq!(s.project.objects.len(), 4);
    s.remove_object_subtree(1);
    assert!(s.project.objects.is_empty());
    assert_eq!(s.selected_object, None);
}

#[test]
fn delete_removes_subtree_and_reselects() {
    let (mut s, c, e, p) = studio();
    assert!(s.can_delete_object(c));
    s.selected_object = Some(p);
    assert_eq!(s.delete_object(e), DeleteOutcome::Deleted);
    let ids: Vec<u64> = s.project.objects.iter().map(|o| o.id).collect();
    assert_eq!(ids, vec![1, c]);
    assert_eq!(s.selected_object, Some(1));
    assert_eq!(s.delete_object(e), DeleteOutcome::Missing);
    assert!(!s.can_delete_object(e));
}

#[test]
fn delete_keeps_selection_outside_the_subtree() {
    let (mut s, c, e, _) = studio();
    s.selected_object = Some(c);
    assert_eq!(s.delete_object(e), DeleteOutcome::Deleted);
    assert_eq!(s.selected_object, Some(c));
}

#[test]
fn place_token_records_history_and_uses_next_id() {
    let (mut s, c, _, p) = studio();
    let next = s.project.next_id;
    assert_eq!(s.place_overlay_node(c, at(10.5, 20.0)), PlaceOutcome::Placed);
    assert_eq!(
        s.project.overlay_nodes,
        vec![OverlayNode { id: next, object_id: c, x: 10.5f32.to_bits(), y: 20.0f32.to_bits() }]
    );
    assert_eq!(s.project.next_id, next + 1);
    assert_eq!(s.history.undo_depth(), 1);
    assert_eq!(s.place_overlay_node(p, at(0.0, 0.0)), PlaceOutcome::WrongKind);
    assert_eq!(s.place_overlay_node(1, at(0.0, 0.0)), PlaceOutcome::WrongKind);
    assert_eq!(s.place_overlay_node(99, at(0.0, 0.0)), PlaceOutcome::MissingObject);
    assert_eq!(s.project.overlay_nodes.len(), 1);
    assert_eq!(s.history.undo_depth(), 1);
    assert!(s.overlay_undo());
    assert!(s.project.overlay_nodes.is_empty());
}

#[test]
fn route_tool_draws_on_second_click() {
    let (mut s, _, _, _) = studio();
    s.overlay_click(at(1.0, 2.0));
    assert_eq!(s.active_line_start, Some(at(1.0, 2.0)));
    assert!(s.project.overlay_lines.is_empty());
    assert_eq!(s.history.undo_depth(), 0);
    s.overlay_click(at(3.0, 4.0));
    assert_eq!(s.active_line_start, None);
    assert_eq!(
        s.project.overlay_lines,
        vec![OverlayLine {
            from_x: 1.0f32.to_bits(),
            from_y: 2.0f32.to_bits(),
            to_x: 3.0f32.to_bits(),
            to_y: 4.0f32.to_bits(),
        }]
    );
    assert_eq!(s.history.undo_depth(), 1);
}

#[test]
fn undo_cancels_a_line_that_was_begun() {
    let (mut s, c, _, _) = studio();
    s.place_overlay_node(c, at(1.0, 1.0));
    s.overlay_click(at(5.0, 5.0));
    assert!(s.active_line_start.is_some());
    assert!(s.overlay_undo());
    assert_eq!(s.active_line_start, None);
    s.overlay_click(at(6.0, 6.0));
    assert!(s.overlay_redo());
    assert_eq!(s.active_line_start, None);
    assert_eq!(s.project.overlay_nodes.len(), 1);
    s.overlay_click(at(7.0, 7.0));
    assert!(!s.overlay_redo());
    assert_eq!(s.active_line_start, Some(at(7.0, 7.0)));
}

#[test]
fn placement_tool_leaves_a_token_waiting() {
    let (mut s, c, e, _) = studio();
    s.select_overlay_tool(OverlayTool::PlaceEquipment);
    s.overlay_click(at(8.0, 9.0));
    assert_eq!(
        s.pending_overlay_drop,
        Some(PendingDrop { kind: ObjectType::Equipment, at: at(8.0, 9.0) })
    );
    assert!(!s.bind_pending_drop(c));
    assert!(!s.bind_pending_drop(404));
    assert!(s.pending_overlay_drop.is_some());
    assert!(s.project.overlay_nodes.is_empty());
    assert!(s.bind_pending_drop(e));
    assert_eq!(s.pending_overlay_drop, None);
    assert_eq!(s.project.overlay_nodes.len(), 1);
    assert_eq!(s.project.overlay_nodes[0].object_id, e);
    assert!(!s.bind_pending_drop(c));
    s.select_overlay_tool(OverlayTool::PlaceController);
    s.overlay_click(at(1.0, 1.0));
    assert_eq!(s.pending_overlay_drop.unwrap().kind, ObjectType::Controller);
    s.cancel_pending_drop();
    assert_eq!(s.pending_overlay_drop, None);
    assert_eq!(s.project.overlay_nodes.len(), 1);
}

#[test]
fn selecting_a_tool_cancels_a_line_that_was_begun() {
    let (mut s, _, _, _) = studio();
    s.overlay_click(at(1.0, 2.0));
    s.select_overlay_tool(OverlayTool::Route);
    assert_eq!(s.active_line_start, None);
}

#[test]
fn apply_template_works_on_the_selection() {
    let (mut s, _, e, _) = studio();
    s.project.objects[2].template_name = "VAV Typical".to_string();
    s.selected_object = Some(e);
    s.apply_template_to_selected_equipment();
    assert_eq!(s.project.objects.len(), 8);
    s.selected_object = None;
    s.apply_template_to_selected_equipment();
    assert_eq!(s.project.objects.len(), 8);
}

#[test]
fn seeding_fills_catalog_and_project() {
    let mut s = Studio::new(Vec::new());
    s.ensure_template_seeded();
    assert_eq!(s.user_templates.len(), 5);
    assert_eq!(s.project.templates.len(), 5);
    assert_eq!(s.project.templates[4].name, "Fan Coil Unit");
}

#[test]
fn load_takes_over_project_and_assets() {
    let mut stored = Project::with_uuid(42);
    stored.overview_image = Some("site.png".to_string());
    stored.overlay_pdf = Some("missing.pdf".to_string());
    stored.objects.push(new_object(9, ObjectType::Controller, Some(1)));
    stored.objects.push(new_object(10, ObjectType::Equipment, Some(77)));
    stored.overlay_nodes.push(OverlayNode { id: 50, object_id: 9, x: 0, y: 0 });
    stored.overlay_nodes.push(OverlayNode { id: 51, object_id: 10, x: 0, y: 0 });
    stored.next_id = 3;
    let file = encode_project_file(
        &b"{}".to_vec(),
        &stored.overview_image,
        &Some(vec![7, 7, 7]),
        &None,
        &None,
    )
    .unwrap();
    let mut opened = open_project_file(file).unwrap();
    let (mut s, c, _, _) = studio();
    s.place_overlay_node(c, at(1.0, 1.0));
    s.overlay_tool = OverlayTool::PlaceController;
    s.overlay_click(at(2.0, 2.0));
    assert!(s.load_project(stored, &mut opened.archive).is_ok());
    assert_eq!(s.project.project_uuid, 42);
    let ids: Vec<u64> = s.project.objects.iter().map(|o| o.id).collect();
    assert_eq!(ids, vec![1, 9]);
    assert_eq!(s.project.overlay_nodes, vec![OverlayNode { id: 50, object_id: 9, x: 0, y: 0 }]);
    assert_eq!(s.project.next_id, 10);
    assert_eq!(s.selected_object, Some(1));
    assert_eq!(s.overview_image_bytes, Some(vec![7, 7, 7]));
    assert_eq!(s.overlay_pdf_bytes, None);
    assert_eq!(s.history.undo_depth(), 0);
    assert_eq!(s.pending_overlay_drop, None);
}

#[test]
fn save_writes_assets_that_have_name_and_bytes() {
    let mut s = Studio::new(Vec::new());
    s.project.overview_image = Some("a.png".to_string());
    s.overview_image_bytes = Some(vec![1, 2]);
    s.project.overlay_pdf = Some("b.pdf".to_string());
    s.overlay_pdf_bytes = None;
    let file = s.save_bytes(&b"payload".to_vec()).unwrap();
    let mut opened = open_project_file(file).unwrap();
    assert_eq!(opened.payload, b"payload".to_vec());
    let mut t = Studio::new(Vec::new());
    let mut loaded = Project::with_uuid(0);
    loaded.overview_image = Some("a.png".to_string());
    loaded.overlay_pdf = Some("b.pdf".to_string());
    t.load_project(loaded, &mut opened.archive).unwrap();
    assert_eq!(t.overview_image_bytes, Some(vec![1, 2]));
    assert_eq!(t.overlay_pdf_bytes, None);
    assert_ne!(t.project.project_uuid, 0);
}

#[test]
fn autosave_waits_for_the_interval() {
    assert_eq!(autosave_plan(599, 10, true), AutosavePlan::NotDue);
    assert_eq!(autosave_plan(600, 10, true), AutosavePlan::UseProjectPath);
    assert_eq!(autosave_plan(600, 10, false), AutosavePlan::UseFallbackPath);
    assert_eq!(autosave_plan(59, 0, true), AutosavePlan::NotDue);
    assert_eq!(autosave_plan(60, 0, false), AutosavePlan::UseFallbackPath);
    assert_eq!(autosave_plan(u64::MAX, u32::MAX, true), AutosavePlan::UseProjectPath);
    assert_eq!(autosave_plan(257_698_037_699, u32::MAX, true), AutosavePlan::NotDue);
}

#[test]
fn assigning_a_template_synchronises_once() {
    let (mut s, _, e, _) = studio();
    s.assign_template(e, "VAV Typical".to_string());
    assert_eq!(s.project.objects[2].template_name, "VAV Typical");
    assert_eq!(s.project.objects[2].equipment_type, "VAV");
    assert_eq!(s.project.objects.len(), 8);
    s.project.objects.truncate(4);
    s.assign_template(e, "VAV Typical".to_string());
    assert_eq!(s.project.objects.len(), 4);
    s.assign_template(e, "Chiller".to_string());
    assert_eq!(s.project.objects[2].equipment_type, "Chiller");
    assert_eq!(s.project.objects.len(), 10);
    s.assign_template(404, "Chiller".to_string());
    assert_eq!(s.project.objects.len(), 10);
    s.assign_template(e, "Unknown".to_string());
    assert_eq!(s.project.objects[2].template_name, "Unknown");
    assert_eq!(s.project.objects.len(), 10);
}

#[test]
fn switching_the_override_synchronises_the_mode() {
    let (mut s, _, e, _) = studio();
    s.project.templates[0].hour_mode = HourCalculationMode::PointsBased;
    s.project.objects[2].template_name = "VAV Typical".to_string();
    s.project.objects[2].hours_override = true;
    s.set_hours_override(e, true);
    assert_eq!(s.project.objects.len(), 4);
    assert_eq!(s.project.objects[2].hours_override_mode, HourCalculationMode::StaticByEquipment);
    s.set_hours_override(e, false);
    assert!(!s.project.objects[2].hours_override);
    assert_eq!(s.project.objects[2].hours_override_mode, HourCalculationMode::PointsBased);
    assert_eq!(s.project.objects.len(), 8);
}

#[test]
fn archived_templates_are_offered_on_request() {
    let mut s = Studio::new(Vec::new());
    s.project.templates[1].name = "AHU (archived)".to_string();
    assert_eq!(s.selectable_templates(false), vec![0, 2, 3]);
    assert_eq!(s.selectable_templates(true), vec![0, 1, 2, 3]);
}

#[test]
fn candidates_for_a_token_are_the_objects_of_its_kind() {
    let (mut s, c, e, _) = studio();
    let c2 = s.add_object(ObjectType::Controller, Some(1)).unwrap();
    assert_eq!(s.drop_candidates(ObjectType::Controller), vec![c, c2]);
    assert_eq!(s.drop_candidates(ObjectType::Equipment), vec![e]);
    assert_eq!(s.drop_candidates(ObjectType::Building), vec![1]);
}

#[test]
fn new_template_is_named_by_position() {
    let t = new_template(5);
    assert_eq!(t.name, "Template 6");
    assert_eq!(t.equipment_type, "");
    assert_eq!(t.points.len(), 1);
    assert_eq!(t.points[0].name, "New Point");
    assert_eq!(t.hour_mode, HourCalculationMode::StaticByEquipment);
    assert_eq!(
        (t.engineering_hours, t.engineering_hours_per_point, t.graphics_hours),
        (0, 25, 0)
    );
    assert_eq!(
        (t.graphics_hours_per_point, t.commissioning_hours, t.commissioning_hours_per_point),
        (12, 0, 18)
    );
    assert_eq!(OverlayTool::Route.label(), "Wire tool");
    assert_eq!(OverlayTool::PlaceController.label(), "Place controller");
    assert_eq!(OverlayTool::PlaceEquipment.label(), "Place equipment");
}

#[test]
fn saved_session_loads_back_with_project_and_assets() {
    let (mut s, c, e, _) = studio();
    s.assign_template(e, "AHU Typical".to_string());
    s.place_overlay_node(c, at(3.5, 4.25));
    s.overlay_click(at(0.0, 0.0));
    s.overlay_click(at(9.0, 9.0));
    s.project.overview_image = Some("site.png".to_string());
    s.overview_image_bytes = Some(vec![1, 2, 3, 4]);
    s.project.overlay_pdf = Some("plan.pdf".to_string());
    s.overlay_pdf_bytes = Some(vec![5u8; 300]);
    assert!(s.project.is_consistent());
    let file = s.save_bytes(&b"text of the project".to_vec()).expect("save");
    let mut opened = open_project_file(file).expect("open");
    assert_eq!(opened.payload, b"text of the project".to_vec());
    let mut t = Studio::new(Vec::new());
    t.load_project(s.project.clone(), &mut opened.archive).expect("load");
    assert_eq!(format!("{:?}", t.project), format!("{:?}", s.project));
    assert_eq!(t.overview_image_bytes, Some(vec![1, 2, 3, 4]));
    assert_eq!(t.overlay_pdf_bytes, Some(vec![5u8; 300]));
    assert_eq!(t.selected_object, Some(1));
}
