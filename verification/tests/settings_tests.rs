use bas_studio::model::{
    AppSettings, EstimatorSettings, HourCalculationMode, HourLine, ObjectType, PointKind, Project,
    ProposalData,
};
use bas_studio::settings::clamp;
use bas_studio::text::{char_is_white_space, decimal_string, is_blank, numbered};

#[test]
fn default_settings_values() {
    let s = AppSettings::default();
    assert_eq!(s.accent_color, [168, 196, 84, 255]);
    assert_eq!(s.company_name, "AutoMate Controls");
    assert_eq!(s.autosave_minutes, 10);
    assert_eq!(s.ui_scale, 100);
    assert!(s.show_overlay_grid);
    let e = EstimatorSettings::default();
    assert_eq!(
        e,
        EstimatorSettings {
            complexity_factor: 100,
            renovation_factor: 100,
            integration_factor: 100,
            qa_percent: 800,
            project_management_percent: 1200,
            risk_percent: 500,
        }
    );
    let l = HourLine::default();
    assert_eq!((l.name.as_str(), l.category.as_str(), l.quantity, l.hours_per_unit), ("Custom line", "Engineering", 100, 100));
    assert_eq!(HourCalculationMode::default(), HourCalculationMode::StaticByEquipment);
    assert_eq!(PointKind::default(), PointKind::AI);
    assert_eq!(ProposalData::default().client_name, "");
}

#[test]
fn new_project_values() {
    let p = Project::with_uuid(3);
    assert_eq!(p.name, "New BAS Project");
    assert_eq!(p.notes, "Capture assumptions, scope notes, and exclusions here.");
    assert_eq!(p.objects.len(), 1);
    let b = &p.objects[0];
    assert_eq!((b.id, b.parent_id, b.object_type), (1, None, ObjectType::Building));
    assert_eq!(b.name, "HQ Building");
    assert_eq!(b.controller_type, "");
    assert_eq!(p.next_id, 2);
    assert_eq!(p.templates.len(), 4);
    assert_eq!(p.overlay_pdf, None);
    assert_eq!(p.overview_image, None);
    assert_eq!(p.project_uuid, 3);
    assert!(p.custom_hour_lines.is_empty());
    let d = Project::default();
    assert_ne!(d.project_uuid, 0);
    assert_eq!(d.next_id, 2);
}

#[test]
fn labels_and_icons() {
    assert_eq!(ObjectType::Building.label(), "Building");
    assert_eq!(ObjectType::Controller.label(), "Controller");
    assert_eq!(ObjectType::Equipment.label(), "Equipment");
    assert_eq!(ObjectType::Point.label(), "Point");
    assert_eq!(ObjectType::Building.icon(), "\u{1F3E2}");
    assert_eq!(ObjectType::Point.icon(), "\u{1F4CD}");
    assert_eq!(PointKind::NetworkX.label(), "Network(X)");
    assert_eq!(PointKind::DO.label(), "DO");
    assert_eq!(PointKind::AO.icon(), "\u{1F7E9}");
    assert_eq!(
        PointKind::all(),
        [PointKind::AI, PointKind::DI, PointKind::AO, PointKind::DO, PointKind::NetworkX]
    );
}

#[test]
fn clamp_brings_into_range() {
    assert_eq!(clamp(50, 80, 140), 80);
    assert_eq!(clamp(141, 80, 140), 140);
    assert_eq!(clamp(99, 80, 140), 99);
    assert_eq!(clamp(7, 7, 7), 7);
}

#[test]
fn recommended_settings_clamp_every_figure() {
    let mut p = Project::with_uuid(1);
    p.settings.autosave_minutes = 45;
    p.settings.ui_scale = 300;
    p.settings.company_name = "  \n".to_string();
    p.estimator = EstimatorSettings {
        complexity_factor: 10,
        renovation_factor: 10,
        integration_factor: 500,
        qa_percent: 0,
        project_management_percent: 9900,
        risk_percent: 299,
    };
    p.apply_recommended_settings();
    assert_eq!(p.settings.autosave_minutes, 15);
    assert_eq!(p.settings.ui_scale, 125);
    assert_eq!(p.settings.company_name, "AutoMate Controls");
    assert_eq!(
        p.estimator,
        EstimatorSettings {
            complexity_factor: 80,
            renovation_factor: 100,
            integration_factor: 130,
            qa_percent: 500,
            project_management_percent: 1600,
            risk_percent: 300,
        }
    );
}

#[test]
fn recommended_settings_keep_what_is_in_range() {
    let mut p = Project::with_uuid(1);
    p.settings.autosave_minutes = 3;
    p.settings.ui_scale = 95;
    p.settings.company_name = "Acme".to_string();
    p.estimator.complexity_factor = 140;
    let before = format!("{:?}", p);
    p.apply_recommended_settings();
    assert_eq!(format!("{:?}", p), before);
}

#[test]
fn decimal_rendering() {
    assert_eq!(decimal_string(0), "0");
    assert_eq!(decimal_string(7), "7");
    assert_eq!(decimal_string(10), "10");
    assert_eq!(decimal_string(1234567890), "1234567890");
    assert_eq!(decimal_string(u64::MAX), "18446744073709551615");
    assert_eq!(numbered("VAV", "-", 12), "VAV-12");
    assert_eq!(numbered("", "", 5), "5");
}

#[test]
fn blank_means_white_space_only() {
    assert!(is_blank(""));
    assert!(is_blank(" \t\r\n"));
    assert!(is_blank("\u{2003}\u{3000}\u{85}"));
    assert!(!is_blank(" a "));
    assert!(!is_blank("\u{200B}"));
    for c in ['\u{9}', '\u{a}', '\u{b}', '\u{c}', '\u{d}', ' ', '\u{85}', '\u{a0}', '\u{1680}', '\u{2000}', '\u{200a}', '\u{2028}', '\u{2029}', '\u{202f}', '\u{205f}', '\u{3000}'] {
        assert!(char_is_white_space(c));
        assert!(c.is_whitespace());
    }
    for c in ['a', '0', '_', '\u{200b}', '\u{feff}', '\u{180e}'] {
        assert_eq!(char_is_white_space(c), c.is_whitespace());
    }
}

#[test]
fn white_space_is_what_the_standard_library_says() {
    for code in 0..=0x10FFFFu32 {
        if let Some(c) = char::from_u32(code) {
            assert_eq!(char_is_white_space(c), c.is_whitespace(), "U+{code:04X}");
        }
    }
}
