//! Starting values of the settings and of a new project, and the
//! recommended ranges that settings can be brought back into.

use vstd::prelude::*;
use crate::catalog::{starter_catalog, starter_templates};
use crate::graph::fresh_object;
use crate::model::{
    AppSettings, AppSettingsView, BasObject, EstimatorSettings, HourCalculationMode, HourLine,
    HourLineView, ObjectType, ObjectView, OverlayLine, OverlayNode, PointKind, Project,
    ProjectView, PropertyGroupView, ProposalData, ProposalView,
};
use crate::repair::fresh_project_uuid;
use crate::text::{blank, is_blank, is_white_space};

verus! {

/// The company name that settings start with.
pub const DEFAULT_COMPANY: &'static str = "AutoMate Controls";

/// The settings that a project starts with.
pub open spec fn default_settings() -> AppSettingsView {
    AppSettingsView {
        accent_color: [168u8, 196u8, 84u8, 255u8],
        company_name: DEFAULT_COMPANY@,
        autosave_minutes: 10,
        ui_scale: 100,
        show_overlay_grid: true,
    }
}

/// The adjustments that an estimate starts with: factors of one, and 8,
/// 12 and 5 percent of overhead.
pub open spec fn default_estimator() -> EstimatorSettings {
    EstimatorSettings {
        complexity_factor: 100,
        renovation_factor: 100,
        integration_factor: 100,
        qa_percent: 800,
        project_management_percent: 1200,
        risk_percent: 500,
    }
}

/// A proposal with every field empty.
pub open spec fn empty_proposal() -> ProposalView {
    ProposalView {
        project_number: Seq::empty(),
        client_name: Seq::empty(),
        owner: Seq::empty(),
        engineer_of_record: Seq::empty(),
        project_location: Seq::empty(),
        proposal_number: Seq::empty(),
        revision: Seq::empty(),
        contract_type: Seq::empty(),
        design_stage: Seq::empty(),
        bid_date: Seq::empty(),
        target_start_date: Seq::empty(),
        target_completion_date: Seq::empty(),
        prepared_by: Seq::empty(),
        project_manager: Seq::empty(),
        estimator: Seq::empty(),
        scope_summary: Seq::empty(),
        assumptions: Seq::empty(),
        exclusions: Seq::empty(),
    }
}

/// The building that a new project starts with.
pub open spec fn first_building() -> ObjectView {
    ObjectView {
        name: "HQ Building"@,
        controller_type: Seq::empty(),
        controller_license: Seq::empty(),
        ..fresh_object(1, ObjectType::Building, None)
    }
}

/// A new project with the identifier `project_uuid`: one building, the
/// starter templates, nothing drawn.
pub open spec fn starter_project(project_uuid: u128) -> ProjectView {
    ProjectView {
        name: "New BAS Project"@,
        notes: "Capture assumptions, scope notes, and exclusions here."@,
        proposal: empty_proposal(),
        objects: seq![first_building()],
        overlay_pdf: None,
        overlay_nodes: Seq::empty(),
        overlay_lines: Seq::empty(),
        templates: starter_catalog(),
        custom_hour_lines: Seq::empty(),
        estimator: default_estimator(),
        next_id: 2,
        settings: default_settings(),
        overview_image: None,
        project_uuid,
    }
}

impl Default for HourCalculationMode {
    fn default() -> (m: HourCalculationMode)
        ensures
            m == HourCalculationMode::StaticByEquipment,
    {
        HourCalculationMode::StaticByEquipment
    }
}

impl Default for PointKind {
    fn default() -> (k: PointKind)
        ensures
            k == PointKind::AI,
    {
        PointKind::AI
    }
}

impl Default for AppSettings {
    fn default() -> (s: AppSettings)
        ensures
            s@ == default_settings(),
    {
        AppSettings {
            accent_color: [168, 196, 84, 255],
            company_name: DEFAULT_COMPANY.to_owned(),
            autosave_minutes: 10,
            ui_scale: 100,
            show_overlay_grid: true,
        }
    }
}

impl Default for EstimatorSettings {
    fn default() -> (e: EstimatorSettings)
        ensures
            e == default_estimator(),
    {
        EstimatorSettings {
            complexity_factor: 100,
            renovation_factor: 100,
            integration_factor: 100,
            qa_percent: 800,
            project_management_percent: 1200,
            risk_percent: 500,
        }
    }
}

impl Default for HourLine {
    /// One unit at one hour, booked on engineering.
    fn default() -> (l: HourLine)
        ensures
            l@ == (HourLineView {
                name: "Custom line"@,
                category: "Engineering"@,
                quantity: 100,
                hours_per_unit: 100,
            }),
    {
        HourLine {
            name: "Custom line".to_owned(),
            category: "Engineering".to_owned(),
            quantity: 100,
            hours_per_unit: 100,
        }
    }
}

impl Default for ProposalData {
    fn default() -> (p: ProposalData)
        ensures
            p@ == empty_proposal(),
    {
        ProposalData {
            project_number: String::new(),
            client_name: String::new(),
            owner: String::new(),
            engineer_of_record: String::new(),
            project_location: String::new(),
            proposal_number: String::new(),
            revision: String::new(),
            contract_type: String::new(),
            design_stage: String::new(),
            bid_date: String::new(),
            target_start_date: String::new(),
            target_completion_date: String::new(),
            prepared_by: String::new(),
            project_manager: String::new(),
            estimator: String::new(),
            scope_summary: String::new(),
            assumptions: String::new(),
            exclusions: String::new(),
        }
    }
}

impl Project {
    /// A new project with the identifier `project_uuid`.
    pub fn with_uuid(project_uuid: u128) -> (p: Project)
        ensures
            p@ == starter_project(project_uuid),
    {
        let building = BasObject {
            id: 1,
            parent_id: None,
            object_type: ObjectType::Building,
            name: "HQ Building".to_owned(),
            equipment_type: String::new(),
            equipment_tag: String::new(),
            make: String::new(),
            model: String::new(),
            controller_type: String::new(),
            controller_license: String::new(),
            template_name: String::new(),
            equipment_type_override: false,
            hours_override: false,
            hours_override_mode: HourCalculationMode::StaticByEquipment,
            override_engineering_hours: 0,
            override_engineering_hours_per_point: 0,
            override_graphics_hours: 0,
            override_graphics_hours_per_point: 0,
            override_commissioning_hours: 0,
            override_commissioning_hours_per_point: 0,
            point_kind: PointKind::AI,
            property_groups: Vec::new(),
        };
        proof {
            assert(building@.property_groups =~= Seq::<PropertyGroupView>::empty());
            assert(building@ == first_building());
        }
        let mut objects: Vec<BasObject> = Vec::new();
        objects.push(building);
        let p = Project {
            name: "New BAS Project".to_owned(),
            notes: "Capture assumptions, scope notes, and exclusions here.".to_owned(),
            proposal: ProposalData::default(),
            objects,
            overlay_pdf: None,
            overlay_nodes: Vec::new(),
            overlay_lines: Vec::new(),
            templates: starter_templates(),
            custom_hour_lines: Vec::new(),
            estimator: EstimatorSettings::default(),
            next_id: 2,
            settings: AppSettings::default(),
            overview_image: None,
            project_uuid,
        };
        proof {
            assert(p@.objects =~= seq![first_building()]);
            assert(p@.custom_hour_lines =~= Seq::<HourLineView>::empty());
            assert(p@.overlay_nodes =~= Seq::<OverlayNode>::empty());
            assert(p@.overlay_lines =~= Seq::<OverlayLine>::empty());
        }
        p
    }
}

impl Default for Project {
    /// A new project with a random identifier.
    fn default() -> (p: Project)
        ensures
            p.project_uuid != 0,
            p@ == starter_project(p.project_uuid),
    {
        Project::with_uuid(fresh_project_uuid())
    }
}

/// `x` brought into the range from `low` to `high`.
pub open spec fn clamped(x: int, low: int, high: int) -> int {
    if x < low {
        low
    } else if x > high {
        high
    } else {
        x
    }
}

/// `x` brought into the range from `low` to `high`.
pub fn clamp(x: i32, low: i32, high: i32) -> (r: i32)
    requires
        low <= high,
    ensures
        r == clamped(x as int, low as int, high as int),
{
    if x < low {
        low
    } else if x > high {
        high
    } else {
        x
    }
}

/// The adjustments brought into the recommended ranges: complexity 0.8
/// to 1.4, renovation 1.0 to 1.35, integration 0.9 to 1.3; quality
/// assurance 5 to 12 percent, project management 8 to 16, risk 3 to 12.
pub open spec fn recommended_estimator(e: EstimatorSettings) -> EstimatorSettings {
    EstimatorSettings {
        complexity_factor: clamped(e.complexity_factor as int, 80, 140) as i32,
        renovation_factor: clamped(e.renovation_factor as int, 100, 135) as i32,
        integration_factor: clamped(e.integration_factor as int, 90, 130) as i32,
        qa_percent: clamped(e.qa_percent as int, 500, 1200) as i32,
        project_management_percent: clamped(e.project_management_percent as int, 800, 1600) as i32,
        risk_percent: clamped(e.risk_percent as int, 300, 1200) as i32,
    }
}

/// The settings brought into the recommended ranges: autosave after 15
/// minutes at the latest, a scale of 0.95 to 1.25, and the default
/// company name in place of a blank one.
pub open spec fn recommended_settings(s: AppSettingsView) -> AppSettingsView {
    AppSettingsView {
        autosave_minutes: if s.autosave_minutes > 15 {
            15
        } else {
            s.autosave_minutes
        },
        ui_scale: clamped(s.ui_scale as int, 95, 125) as i32,
        company_name: if blank(s.company_name) {
            DEFAULT_COMPANY@
        } else {
            s.company_name
        },
        ..s
    }
}

/// The project with settings and adjustments in the recommended ranges.
pub open spec fn recommended(p: ProjectView) -> ProjectView {
    ProjectView {
        settings: recommended_settings(p.settings),
        estimator: recommended_estimator(p.estimator),
        ..p
    }
}

impl Project {
    /// Brings settings and adjustments into the recommended ranges.  Until
    /// this is called they may hold any value.
    pub fn apply_recommended_settings(&mut self)
        ensures
            final(self)@ == recommended(old(self)@),
    {
        if self.settings.autosave_minutes > 15 {
            self.settings.autosave_minutes = 15;
        }
        self.settings.ui_scale = clamp(self.settings.ui_scale, 95, 125);
        if is_blank(self.settings.company_name.as_str()) {
            self.settings.company_name = DEFAULT_COMPANY.to_owned();
        }
        self.estimator.complexity_factor = clamp(self.estimator.complexity_factor, 80, 140);
        self.estimator.renovation_factor = clamp(self.estimator.renovation_factor, 100, 135);
        self.estimator.integration_factor = clamp(self.estimator.integration_factor, 90, 130);
        self.estimator.qa_percent = clamp(self.estimator.qa_percent, 500, 1200);
        self.estimator.project_management_percent = clamp(
            self.estimator.project_management_percent,
            800,
            1600,
        );
        self.estimator.risk_percent = clamp(self.estimator.risk_percent, 300, 1200);
    }
}

/// Settings and adjustments in the recommended ranges stay as they are
/// when brought into them again.
pub proof fn lemma_recommended_is_stable(p: ProjectView)
    ensures
        recommended(recommended(p)) == recommended(p),
{
    reveal_strlit("AutoMate Controls");
    if blank(p.settings.company_name) {
        assert(DEFAULT_COMPANY@[0] == 'A');
        assert(!is_white_space(DEFAULT_COMPANY@[0]));
    }
}

} // verus!
