use bas_studio::estimate::{
    count_objects, count_point_children, custom_lines_total, find_template, EstimateError,
    HoursEstimate, KindCount, CUSTOM_UNITS_PER_HOUR, DIRECT_UNITS_PER_HOUR, TOTAL_UNITS_PER_HOUR,
};
use bas_studio::model::{
    EquipmentTemplate, EstimatorSettings, HourCalculationMode, HourLine, ObjectType, Project,
    TemplatePoint,
};

fn neutral() -> EstimatorSettings {
    EstimatorSettings {
        complexity_factor: 100,
        renovation_factor: 100,
        integration_factor: 100,
        qa_percent: 0,
        project_management_percent: 0,
        risk_percent: 0,
    }
}

fn template(name: &str, mode: HourCalculationMode, hours: [i32; 6]) -> EquipmentTemplate {
    EquipmentTemplate {
        name: name.to_string(),
        equipment_type: "AHU".to_string(),
        points: vec![TemplatePoint::ai("Supply Temp")],
        hour_mode: mode,
        engineering_hours: hours[0],
        engineering_hours_per_point: hours[1],
        graphics_hours: hours[2],
        graphics_hours_per_point: hours[3],
        commissioning_hours: hours[4],
        commissioning_hours_per_point: hours[5],
    }
}

fn hours(units: i128, per_hour: i128) -> f64 {
    units as f64 / per_hour as f64
}

#[test]
fn empty_project_estimates_to_zero() {
    let mut p = Project::with_uuid(1);
    p.estimator = neutral();
    assert_eq!(
        p.estimate_hours(),
        Ok(HoursEstimate {
            engineering: 0,
            graphics: 0,
            commissioning: 0,
            custom_total: 0,
            overhead_hours: 0,
            grand_total: 0,
        })
    );
    let with_defaults = Project::with_uuid(1);
    let e = with_defaults.estimate_hours().unwrap();
    assert_eq!(e.grand_total, 0);
    assert_eq!(hours(e.grand_total, TOTAL_UNITS_PER_HOUR), 0.0);
}

#[test]
fn controller_and_static_equipment() {
    let mut p = Project::with_uuid(1);
    p.estimator = neutral();
    p.templates = vec![template("T", HourCalculationMode::StaticByEquipment, [500, 0, 200, 0, 300, 0])];
    let c = p.add_object(ObjectType::Controller, Some(1)).unwrap();
    let e = p.add_object(ObjectType::Equipment, Some(c)).unwrap();
    p.objects[2].template_name = "T".to_string();
    assert_eq!(p.objects[2].id, e);
    let r = p.estimate_hours().unwrap();
    assert_eq!(r.engineering, 1200);
    assert_eq!(r.graphics, 300);
    assert_eq!(r.commissioning, 850);
    assert_eq!(r.custom_total, 0);
    assert_eq!(r.overhead_hours, 0);
    assert_eq!(r.grand_total, 2350 * 1_000_000_000_000);
    assert_eq!(hours(r.engineering, DIRECT_UNITS_PER_HOUR), 12.0);
    assert_eq!(hours(r.graphics, DIRECT_UNITS_PER_HOUR), 3.0);
    assert_eq!(hours(r.commissioning, DIRECT_UNITS_PER_HOUR), 8.5);
    assert_eq!(hours(r.grand_total, TOTAL_UNITS_PER_HOUR), 23.5);
}

#[test]
fn points_based_equipment_counts_its_own_points() {
    let mut p = Project::with_uuid(1);
    p.estimator = neutral();
    p.templates = vec![template("T", HourCalculationMode::PointsBased, [500, 30, 200, 15, 300, 20])];
    let c = p.add_object(ObjectType::Controller, Some(1)).unwrap();
    let e1 = p.add_object(ObjectType::Equipment, Some(c)).unwrap();
    let e2 = p.add_object(ObjectType::Equipment, Some(c)).unwrap();
    p.objects[2].template_name = "T".to_string();
    p.objects[3].template_name = "T".to_string();
    for _ in 0..3 {
        p.add_object(ObjectType::Point, Some(e1)).unwrap();
    }
    p.add_object(ObjectType::Point, Some(e2)).unwrap();
    assert_eq!(count_point_children(&p.objects, e1), 3);
    assert_eq!(count_point_children(&p.objects, e2), 1);
    assert_eq!(count_point_children(&p.objects, c), 0);
    let r = p.estimate_hours().unwrap();
    assert_eq!(r.engineering, 700 + 4 * 25 + 3 * 30 + 30);
    assert_eq!(r.graphics, 2 * 100 + 3 * 15 + 15);
    assert_eq!(r.commissioning, 550 + 4 * 12 + 3 * 20 + 20);
}

#[test]
fn override_replaces_mode_and_figures() {
    let mut p = Project::with_uuid(1);
    p.estimator = neutral();
    p.templates = vec![template("T", HourCalculationMode::StaticByEquipment, [500, 30, 200, 15, 300, 20])];
    let c = p.add_object(ObjectType::Controller, Some(1)).unwrap();
    let e = p.add_object(ObjectType::Equipment, Some(c)).unwrap();
    p.add_object(ObjectType::Point, Some(e)).unwrap();
    p.add_object(ObjectType::Point, Some(e)).unwrap();
    {
        let eq = &mut p.objects[2];
        eq.template_name = "T".to_string();
        eq.hours_override = true;
        eq.hours_override_mode = HourCalculationMode::PointsBased;
        eq.override_engineering_hours = 9900;
        eq.override_engineering_hours_per_point = 40;
        eq.override_graphics_hours_per_point = 10;
        eq.override_commissioning_hours_per_point = 5;
    }
    let r = p.estimate_hours().unwrap();
    assert_eq!(r.engineering, 700 + 2 * 25 + 2 * 40);
    assert_eq!(r.graphics, 100 + 2 * 10);
    assert_eq!(r.commissioning, 550 + 2 * 12 + 2 * 5);
    p.objects[2].hours_override_mode = HourCalculationMode::StaticByEquipment;
    let r = p.estimate_hours().unwrap();
    assert_eq!(r.engineering, 700 + 2 * 25 + 9900);
    assert_eq!(r.graphics, 100);
}

#[test]
fn dangling_template_adds_nothing() {
    let mut p = Project::with_uuid(1);
    p.estimator = neutral();
    let c = p.add_object(ObjectType::Controller, Some(1)).unwrap();
    p.add_object(ObjectType::Equipment, Some(c)).unwrap();
    p.objects[2].template_name = "Gone".to_string();
    let r = p.estimate_hours().unwrap();
    assert_eq!((r.engineering, r.graphics, r.commissioning), (700, 100, 550));
}

#[test]
fn first_template_of_a_name_counts() {
    let mut p = Project::with_uuid(1);
    p.estimator = neutral();
    p.templates = vec![
        template("T", HourCalculationMode::StaticByEquipment, [100, 0, 0, 0, 0, 0]),
        template("T", HourCalculationMode::StaticByEquipment, [900, 0, 0, 0, 0, 0]),
    ];
    let c = p.add_object(ObjectType::Controller, Some(1)).unwrap();
    p.add_object(ObjectType::Equipment, Some(c)).unwrap();
    p.objects[2].template_name = "T".to_string();
    assert_eq!(find_template(&p.templates, &"T".to_string()), Some(0));
    assert_eq!(find_template(&p.templates, &"U".to_string()), None);
    assert_eq!(p.estimate_hours().unwrap().engineering, 700 + 100);
}

#[test]
fn custom_lines_clamp_negative_inputs() {
    let lines = vec![
        HourLine { name: "a".into(), category: "x".into(), quantity: 250, hours_per_unit: 400 },
        HourLine { name: "b".into(), category: "x".into(), quantity: -300, hours_per_unit: 400 },
        HourLine { name: "c".into(), category: "x".into(), quantity: 300, hours_per_unit: -1 },
        HourLine { name: "d".into(), category: "x".into(), quantity: 100, hours_per_unit: 150 },
    ];
    assert_eq!(custom_lines_total(&lines), 250 * 400 + 100 * 150);
    assert_eq!(hours(custom_lines_total(&lines), CUSTOM_UNITS_PER_HOUR), 11.5);
    assert_eq!(custom_lines_total(&Vec::new()), 0);
}

#[test]
fn factors_and_overhead_apply_to_the_base() {
    let mut p = Project::with_uuid(1);
    p.add_object(ObjectType::Controller, Some(1)).unwrap();
    p.custom_hour_lines = vec![HourLine {
        name: "travel".into(),
        category: "Other".into(),
        quantity: 200,
        hours_per_unit: 150,
    }];
    p.estimator = EstimatorSettings {
        complexity_factor: 120,
        renovation_factor: 110,
        integration_factor: 90,
        qa_percent: 800,
        project_management_percent: 1200,
        risk_percent: 500,
    };
    let r = p.estimate_hours().unwrap();
    assert_eq!(r.engineering, 700);
    assert_eq!(r.graphics, 0);
    assert_eq!(r.commissioning, 550);
    assert_eq!(r.custom_total, 30_000);
    let base: i128 = 1250 * 100 + 30_000;
    let adjusted = base * (120 * 110 * 90);
    assert_eq!(r.overhead_hours, adjusted * 2500);
    assert_eq!(r.grand_total, adjusted * 10_000 + adjusted * 2500);
    let total = hours(r.grand_total, TOTAL_UNITS_PER_HOUR);
    assert!((total - 15.5 * 1.188 * 1.25).abs() < 1e-9);
}

#[test]
fn negative_overhead_counts_as_zero() {
    let mut p = Project::with_uuid(1);
    p.add_object(ObjectType::Controller, Some(1)).unwrap();
    p.estimator = EstimatorSettings { qa_percent: -5000, ..neutral() };
    let r = p.estimate_hours().unwrap();
    assert_eq!(r.overhead_hours, 0);
    assert_eq!(r.grand_total, 1250 * 1_000_000_000_000);
}

#[test]
fn negative_factor_gives_negative_total() {
    let mut p = Project::with_uuid(1);
    p.add_object(ObjectType::Controller, Some(1)).unwrap();
    p.estimator = EstimatorSettings { complexity_factor: -100, ..neutral() };
    let r = p.estimate_hours().unwrap();
    assert_eq!(r.grand_total, -1250 * 1_000_000_000_000);
    assert_eq!(r.engineering, 700);
}

#[test]
fn estimate_is_repeatable_and_leaves_project_alone() {
    let mut p = Project::with_uuid(1);
    let c = p.add_object(ObjectType::Controller, Some(1)).unwrap();
    let e = p.add_object(ObjectType::Equipment, Some(c)).unwrap();
    p.objects[2].template_name = "AHU Typical".to_string();
    p.add_object(ObjectType::Point, Some(e)).unwrap();
    let first = p.estimate_hours();
    let second = p.estimate_hours();
    assert_eq!(first, second);
    let r = first.unwrap();
    assert_eq!(r.engineering, 700 + 25 + 500);
    assert_eq!(r.graphics, 100 + 200);
    assert_eq!(r.commissioning, 550 + 12 + 300);
    assert!(r.grand_total >= 0);
    assert_eq!(p.objects.len(), 4);
    assert_eq!(p.next_id, 5);
}

#[test]
fn total_beyond_the_result_is_out_of_range() {
    let mut p = Project::with_uuid(1);
    p.custom_hour_lines = (0..1000)
        .map(|_| HourLine {
            name: "x".into(),
            category: "x".into(),
            quantity: i32::MAX,
            hours_per_unit: i32::MAX,
        })
        .collect();
    p.estimator = EstimatorSettings {
        complexity_factor: i32::MAX,
        renovation_factor: i32::MAX,
        integration_factor: i32::MAX,
        ..neutral()
    };
    assert_eq!(p.estimate_hours(), Err(EstimateError::OutOfRange));
    p.estimator = neutral();
    let r = p.estimate_hours().unwrap();
    assert_eq!(r.custom_total, 1000 * (i32::MAX as i128) * (i32::MAX as i128));
}

#[test]
fn object_counts_list_present_kinds_in_order() {
    let mut p = Project::with_uuid(1);
    assert_eq!(p.object_counts(), vec![KindCount { kind: ObjectType::Building, count: 1 }]);
    let c = p.add_object(ObjectType::Controller, Some(1)).unwrap();
    let e = p.add_object(ObjectType::Equipment, Some(c)).unwrap();
    p.add_object(ObjectType::Point, Some(e)).unwrap();
    p.add_object(ObjectType::Point, Some(e)).unwrap();
    assert_eq!(
        p.object_counts(),
        vec![
            KindCount { kind: ObjectType::Building, count: 1 },
            KindCount { kind: ObjectType::Controller, count: 1 },
            KindCount { kind: ObjectType::Equipment, count: 1 },
            KindCount { kind: ObjectType::Point, count: 2 },
        ]
    );
    assert_eq!(count_objects(&p.objects, ObjectType::Point), 2);
    p.objects.remove(0);
    assert_eq!(p.object_counts().len(), 3);
    assert_eq!(p.object_counts()[0].kind, ObjectType::Controller);
}
