use bas_studio::graph::new_object;
use bas_studio::health::{any_tag_missing, wider_than, HealthIssue};
use bas_studio::model::{ObjectType, OverlayNode, Project};
use bas_studio::search::{object_matches_query, template_is_archived};
use bas_studio::text::{contains_ignoring_case, trim_text};

fn forest() -> Project {
    let mut p = Project::with_uuid(1);
    let c = p.add_object(ObjectType::Controller, Some(1)).unwrap();
    let e = p.add_object(ObjectType::Equipment, Some(c)).unwrap();
    p.add_object(ObjectType::Point, Some(e)).unwrap();
    let b2 = p.add_object(ObjectType::Building, None).unwrap();
    p.add_object(ObjectType::Controller, Some(b2)).unwrap();
    p.objects[2].equipment_tag = "AHU-North".to_string();
    p.objects[2].template_name = "AHU Typical".to_string();
    p
}

#[test]
fn archived_templates_are_recognised() {
    assert!(template_is_archived("VAV (Archive)"));
    assert!(template_is_archived("ARCHIVED old"));
    assert!(template_is_archived("archive"));
    assert!(!template_is_archived("Archiv"));
    assert!(!template_is_archived(""));
    assert!(!template_is_archived("arch ive"));
}

#[test]
fn text_search_ignores_ascii_case_only() {
    assert!(contains_ignoring_case("Supply Fan", "FAN"));
    assert!(contains_ignoring_case("abc", ""));
    assert!(contains_ignoring_case("", ""));
    assert!(!contains_ignoring_case("", "a"));
    assert!(!contains_ignoring_case("ab", "abc"));
    assert!(contains_ignoring_case("xxabc", "ABC"));
    assert!(!contains_ignoring_case("gr\u{dc}n", "gr\u{fc}n"));
    assert!(contains_ignoring_case("GR\u{fc}N", "gr\u{fc}n"));
}

#[test]
fn objects_match_on_four_fields() {
    let p = forest();
    let eq = &p.objects[2];
    assert!(object_matches_query(eq, ""));
    assert!(object_matches_query(eq, "equip"));
    assert!(object_matches_query(eq, "north"));
    assert!(object_matches_query(eq, "typical"));
    assert!(!object_matches_query(eq, "lynx"));
    assert!(!object_matches_query(&p.objects[0], "ahu"));
    let mut blank = new_object(9, ObjectType::Equipment, None);
    blank.name = String::new();
    assert!(!object_matches_query(&blank, "x"));
    assert!(object_matches_query(&blank, ""));
}

#[test]
fn roots_are_listed_for_matches_in_their_tree() {
    let p = forest();
    assert_eq!(p.filtered_root_ids(""), vec![1, 5]);
    assert_eq!(p.filtered_root_ids("north"), vec![1]);
    assert_eq!(p.filtered_root_ids("point"), vec![1]);
    assert_eq!(p.filtered_root_ids("controller 6"), vec![5]);
    assert_eq!(p.filtered_root_ids("controller"), vec![1, 5]);
    assert_eq!(p.filtered_root_ids("building"), vec![1, 5]);
    assert_eq!(p.filtered_root_ids("nothing"), Vec::<u64>::new());
}

#[test]
fn roots_are_found_through_cycles_and_gaps() {
    let mut p = Project::with_uuid(1);
    p.objects.clear();
    p.objects.push(new_object(1, ObjectType::Controller, Some(2)));
    p.objects.push(new_object(2, ObjectType::Controller, Some(1)));
    p.objects.push(new_object(3, ObjectType::Building, None));
    p.objects.push(new_object(4, ObjectType::Point, Some(77)));
    assert_eq!(p.filtered_root_ids("controller"), Vec::<u64>::new());
    assert_eq!(p.filtered_root_ids("point"), Vec::<u64>::new());
    assert_eq!(p.filtered_root_ids(""), vec![3]);
}

#[test]
fn trim_removes_white_space_at_both_ends() {
    assert_eq!(trim_text("  AHU \t\n"), "AHU");
    assert_eq!(trim_text("a b"), "a b");
    assert_eq!(trim_text(""), "");
    assert_eq!(trim_text(" \u{3000} "), "");
    assert_eq!(trim_text("\u{a0}x\u{2003}y "), "x\u{2003}y");
    for s in ["", " ", "x", " x", "x ", "  multi word  ", "\t\u{85}tab\u{2029}"] {
        assert_eq!(trim_text(s), s.trim());
    }
}

#[test]
fn width_counts_bytes() {
    assert!(!wider_than("", 0));
    assert!(wider_than("a", 0));
    assert!(!wider_than("abcd", 4));
    assert!(wider_than("abcde", 4));
    for s in ["\u{e9}", "\u{20ac}", "\u{1F3E2}", "a\u{e9}\u{20ac}\u{1F3E2}"] {
        assert!(!wider_than(s, s.len()));
        assert!(wider_than(s, s.len() - 1));
    }
}

#[test]
fn health_issues_in_order() {
    let mut p = forest();
    assert_eq!(p.ux_health_issues(""), Vec::<HealthIssue>::new());
    p.settings.ui_scale = 94;
    p.settings.autosave_minutes = 16;
    p.objects[2].equipment_tag = " ".to_string();
    let long = format!("  {}  ", "q".repeat(41));
    assert_eq!(
        p.ux_health_issues(&long),
        vec![
            HealthIssue::UiScaleOutOfRange,
            HealthIssue::SearchQueryLong,
            HealthIssue::EquipmentTagMissing,
            HealthIssue::AutosaveInterval,
        ]
    );
    let exactly = format!("  {}  ", "q".repeat(40));
    p.settings.ui_scale = 125;
    assert_eq!(
        p.ux_health_issues(&exactly),
        vec![HealthIssue::EquipmentTagMissing, HealthIssue::AutosaveInterval]
    );
    assert!(any_tag_missing(&p.objects));
    assert_eq!(
        HealthIssue::UiScaleOutOfRange.message(),
        "UI scale is outside recommended ergonomic range (0.95\u{2013}1.25)."
    );
    assert_eq!(HealthIssue::AutosaveInterval.message(), "Autosave interval is above 15 minutes.");
}

#[test]
fn feature_metrics_report_use() {
    let p = Project::with_uuid(1);
    let m = p.feature_metrics();
    let names: Vec<&str> = m.iter().map(|x| x.name).collect();
    assert_eq!(
        names,
        vec![
            "Proposal metadata",
            "BAS object modeling",
            "Template-driven engineering",
            "Drawing overlay",
            "Estimator adjustments",
        ]
    );
    assert!(m.iter().all(|x| !x.is_used));
    assert_eq!(m[0].note, "Client/location/proposal fields");
    assert_eq!(m[1].note, "1 objects in hierarchy");
    assert_eq!(m[3].note, "0 tokens \u{2022} 0 routes");
    assert_eq!(m[4].note, "0 custom lines");
    let mut q = forest();
    q.proposal.project_location = "Oslo".to_string();
    q.overlay_nodes.push(OverlayNode { id: 1, object_id: 2, x: 0, y: 0 });
    q.estimator.renovation_factor = 110;
    let m = q.feature_metrics();
    assert!(m.iter().all(|x| x.is_used));
    assert_eq!(m[1].note, "6 objects in hierarchy");
    assert_eq!(m[3].note, "1 tokens \u{2022} 0 routes");
}

#[test]
fn qol_pass_fills_missing_labels() {
    let mut p = forest();
    p.settings.autosave_minutes = 99;
    p.objects[2].equipment_tag = String::new();
    p.objects[2].equipment_type = "  RTU ".to_string();
    p.objects[2].name = " ".to_string();
    p.objects[3].name = String::new();
    p.objects[1].name = String::new();
    let e2 = new_object(20, ObjectType::Equipment, Some(2));
    p.objects.push(e2);
    p.run_qol_pass();
    assert_eq!(p.settings.autosave_minutes, 15);
    assert_eq!(p.objects[2].equipment_tag, "RTU-3");
    assert_eq!(p.objects[2].name, "Equipment 3");
    assert_eq!(p.objects[3].name, "Point 4");
    assert_eq!(p.objects[1].name, "");
    assert_eq!(p.objects[6].equipment_tag, "EQ-20");
    assert_eq!(p.objects[6].name, "Equipment 20");
    assert_eq!(p.objects[0].name, "HQ Building");
}
