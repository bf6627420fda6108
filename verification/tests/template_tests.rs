use bas_studio::catalog::{
    copy_templates, ensure_template_seeded, keep_first_of_each_name, starter_templates,
    template_seed_data,
};
use bas_studio::graph::new_object;
use bas_studio::model::{
    EquipmentTemplate, HourCalculationMode, ObjectType, PointKind, Project, TemplatePoint,
};
use bas_studio::templates::has_point_child_named;

fn names(p: &Project, parent: u64) -> Vec<String> {
    p.objects
        .iter()
        .filter(|o| o.parent_id == Some(parent) && o.object_type == ObjectType::Point)
        .map(|o| o.name.clone())
        .collect()
}

fn project_with_equipment(template: &str) -> (Project, u64) {
    let mut p = Project::with_uuid(1);
    let c = p.add_object(ObjectType::Controller, Some(1)).unwrap();
    let e = p.add_object(ObjectType::Equipment, Some(c)).unwrap();
    p.objects[2].template_name = template.to_string();
    (p, e)
}

#[test]
fn sync_creates_the_points_of_the_template() {
    let (mut p, e) = project_with_equipment("VAV Typical");
    p.sync_equipment_from_template(e);
    assert_eq!(names(&p, e), vec!["Space Temp", "Discharge Temp", "Damper Cmd", "Airflow"]);
    assert_eq!(p.objects.len(), 7);
    assert_eq!(p.next_id, 8);
    let ids: Vec<u64> = p.objects[3..].iter().map(|o| o.id).collect();
    assert_eq!(ids, vec![4, 5, 6, 7]);
    assert!(p.objects[3..].iter().all(|o| o.point_kind == PointKind::AI));
    assert!(p.objects[3..].iter().all(|o| o.property_groups.is_empty()));
    assert_eq!(p.objects[2].equipment_type, "VAV");
    assert_eq!(p.objects[2].equipment_tag, "VAV-3");
    assert_eq!(p.objects[2].hours_override_mode, HourCalculationMode::StaticByEquipment);
}

#[test]
fn sync_twice_is_sync_once() {
    let (mut p, e) = project_with_equipment("AHU Typical");
    p.sync_equipment_from_template(e);
    let once = format!("{:?}", p);
    p.sync_equipment_from_template(e);
    assert_eq!(format!("{:?}", p), once);
    assert_eq!(names(&p, e).len(), 6);
}

#[test]
fn sync_adds_only_missing_points_and_assigns_kind() {
    let (mut p, e) = project_with_equipment("Mixed");
    p.templates.push(EquipmentTemplate {
        name: "Mixed".to_string(),
        equipment_type: "RTU".to_string(),
        points: vec![
            TemplatePoint { name: "Fan Cmd".to_string(), kind: PointKind::DO },
            TemplatePoint { name: "Space Temp".to_string(), kind: PointKind::AI },
            TemplatePoint { name: "Fan Cmd".to_string(), kind: PointKind::DI },
            TemplatePoint { name: "Link".to_string(), kind: PointKind::NetworkX },
        ],
        hour_mode: HourCalculationMode::PointsBased,
        engineering_hours: 0,
        engineering_hours_per_point: 10,
        graphics_hours: 0,
        graphics_hours_per_point: 10,
        commissioning_hours: 0,
        commissioning_hours_per_point: 10,
    });
    let existing = p.add_object(ObjectType::Point, Some(e)).unwrap();
    p.objects[3].name = "Space Temp".to_string();
    p.objects[3].point_kind = PointKind::AO;
    p.sync_equipment_from_template(e);
    assert_eq!(names(&p, e), vec!["Space Temp", "Fan Cmd", "Link"]);
    assert_eq!(p.objects[3].id, existing);
    assert_eq!(p.objects[3].point_kind, PointKind::AO);
    assert_eq!(p.objects[4].point_kind, PointKind::DO);
    assert_eq!(p.objects[5].point_kind, PointKind::NetworkX);
    assert_eq!(p.objects[2].hours_override_mode, HourCalculationMode::PointsBased);
    assert_eq!(p.objects[2].equipment_tag, "RTU-3");
}

#[test]
fn sync_respects_overrides_and_existing_tag() {
    let (mut p, e) = project_with_equipment("Boiler Plant");
    p.objects[2].equipment_type_override = true;
    p.objects[2].equipment_type = "Custom".to_string();
    p.objects[2].equipment_tag = "B-1".to_string();
    p.objects[2].hours_override = true;
    p.objects[2].hours_override_mode = HourCalculationMode::PointsBased;
    p.sync_equipment_from_template(e);
    assert_eq!(p.objects[2].equipment_type, "Custom");
    assert_eq!(p.objects[2].equipment_tag, "B-1");
    assert_eq!(p.objects[2].hours_override_mode, HourCalculationMode::PointsBased);
    assert_eq!(names(&p, e).len(), 5);
}

#[test]
fn sync_replaces_a_blank_tag() {
    let (mut p, e) = project_with_equipment("Chiller");
    p.objects[2].equipment_tag = " \t\u{a0}".to_string();
    p.sync_equipment_from_template(e);
    assert_eq!(p.objects[2].equipment_tag, "Chiller-3");
}

#[test]
fn sync_without_target_changes_nothing() {
    let (mut p, e) = project_with_equipment("No Such Template");
    let before = format!("{:?}", p);
    p.sync_equipment_from_template(e);
    assert_eq!(format!("{:?}", p), before);
    p.objects[2].template_name = String::new();
    let before = format!("{:?}", p);
    p.sync_equipment_from_template(e);
    assert_eq!(format!("{:?}", p), before);
    p.sync_equipment_from_template(2);
    assert_eq!(format!("{:?}", p), before);
    p.sync_equipment_from_template(404);
    assert_eq!(format!("{:?}", p), before);
}

#[test]
fn sync_ignores_points_of_other_parents_and_kinds() {
    let (mut p, e) = project_with_equipment("VAV Typical");
    let mut stray = new_object(90, ObjectType::Point, Some(2));
    stray.name = "Airflow".to_string();
    p.objects.push(stray);
    let mut wrong_kind = new_object(91, ObjectType::Equipment, Some(e));
    wrong_kind.name = "Damper Cmd".to_string();
    p.objects.push(wrong_kind);
    assert!(!has_point_child_named(&p.objects, e, &"Airflow".to_string()));
    assert!(!has_point_child_named(&p.objects, e, &"Damper Cmd".to_string()));
    p.sync_equipment_from_template(e);
    assert_eq!(names(&p, e), vec!["Space Temp", "Discharge Temp", "Damper Cmd", "Airflow"]);
    assert!(has_point_child_named(&p.objects, e, &"Airflow".to_string()));
}

#[test]
fn seed_data_holds_five_templates() {
    let seed = template_seed_data();
    let names: Vec<&str> = seed.iter().map(|t| t.name.as_str()).collect();
    assert_eq!(names, vec!["VAV Typical", "AHU Typical", "Boiler Plant", "Chiller", "Fan Coil Unit"]);
    let fcu = &seed[4];
    assert_eq!(fcu.equipment_type, "FCU");
    assert_eq!(fcu.hour_mode, HourCalculationMode::StaticByEquipment);
    assert_eq!(
        (
            fcu.engineering_hours,
            fcu.engineering_hours_per_point,
            fcu.graphics_hours,
            fcu.graphics_hours_per_point,
            fcu.commissioning_hours,
            fcu.commissioning_hours_per_point
        ),
        (250, 25, 100, 12, 150, 18)
    );
    let points: Vec<&str> = fcu.points.iter().map(|p| p.name.as_str()).collect();
    assert_eq!(points, vec!["Space Temp", "Room Temp", "Fan Speed", "Valve Cmd", "Occupancy"]);
    assert!(fcu.points.iter().all(|p| p.kind == PointKind::AI));
    let boiler = &seed[2];
    assert_eq!(boiler.engineering_hours, 400);
    assert_eq!(boiler.graphics_hours, 150);
    assert_eq!(boiler.commissioning_hours, 250);
}

#[test]
fn starter_templates_are_the_first_four() {
    let starter = starter_templates();
    let names: Vec<&str> = starter.iter().map(|t| t.name.as_str()).collect();
    assert_eq!(names, vec!["VAV Typical", "AHU Typical", "Boiler Plant", "Chiller"]);
    let default = EquipmentTemplate::default();
    assert_eq!(default.name, "VAV Typical");
    assert_eq!(default.points.len(), 4);
    assert_eq!(default.engineering_hours, 200);
    assert_eq!(default.commissioning_hours_per_point, 18);
}

#[test]
fn template_point_ai_has_name_and_kind() {
    let p = TemplatePoint::ai("Filter DP");
    assert_eq!(p.name, "Filter DP");
    assert_eq!(p.kind, PointKind::AI);
}

#[test]
fn first_template_of_each_name_is_kept() {
    let mut list = template_seed_data();
    let mut dup = EquipmentTemplate::default();
    dup.equipment_type = "Second".to_string();
    list.insert(2, dup);
    let mut dup2 = EquipmentTemplate::default();
    dup2.name = "Chiller".to_string();
    list.push(dup2);
    keep_first_of_each_name(&mut list);
    let names: Vec<&str> = list.iter().map(|t| t.name.as_str()).collect();
    assert_eq!(names, vec!["VAV Typical", "AHU Typical", "Boiler Plant", "Chiller", "Fan Coil Unit"]);
    assert_eq!(list[0].equipment_type, "VAV");
    assert_eq!(list[3].equipment_type, "Chiller");
}

#[test]
fn empty_catalog_is_seeded_and_copied_to_project() {
    let mut user: Vec<EquipmentTemplate> = Vec::new();
    let mut project: Vec<EquipmentTemplate> = vec![EquipmentTemplate::default()];
    ensure_template_seeded(&mut user, &mut project);
    assert_eq!(user.len(), 5);
    assert_eq!(format!("{:?}", project), format!("{:?}", user));
    let mut one = vec![EquipmentTemplate::default(), EquipmentTemplate::default()];
    ensure_template_seeded(&mut one, &mut project);
    assert_eq!(one.len(), 1);
    assert_eq!(project.len(), 1);
    assert_eq!(format!("{:?}", copy_templates(&one)), format!("{:?}", one));
}
