//! Plain data of a project: objects, templates, overlay drawing, settings.
//!
//! Every type that owns text or a list has a view, a value made of
//! sequences and integers only; contracts are stated over views.  Decimal
//! quantities (hours, factors, percentages, the interface scale) are
//! integers counting hundredths.  Canvas coordinates are carried as the bit
//! patterns of single-precision numbers: the library stores them and hands
//! them back, it never calculates with them.

use vstd::prelude::*;

verus! {

/// Kind of a node in the object hierarchy.
#[derive(Debug, Clone, Copy, PartialEq, Eq, Structural)]
pub enum ObjectType {
    Building,
    Controller,
    Equipment,
    Point,
}

impl ObjectType {
    /// The name of the kind as the interface shows it.
    pub open spec fn label_text(self) -> Seq<char> {
        match self {
            ObjectType::Building => "Building"@,
            ObjectType::Controller => "Controller"@,
            ObjectType::Equipment => "Equipment"@,
            ObjectType::Point => "Point"@,
        }
    }

    /// The name of the kind.
    pub fn label(self) -> (r: &'static str)
        ensures
            r@ == self.label_text(),
    {
        match self {
            ObjectType::Building => "Building",
            ObjectType::Controller => "Controller",
            ObjectType::Equipment => "Equipment",
            ObjectType::Point => "Point",
        }
    }

    /// The pictogram of the kind.
    pub open spec fn icon_text(self) -> Seq<char> {
        match self {
            ObjectType::Building => "\u{1F3E2}"@,
            ObjectType::Controller => "\u{1F9E0}"@,
            ObjectType::Equipment => "\u{1F6E0}"@,
            ObjectType::Point => "\u{1F4CD}"@,
        }
    }

    /// The pictogram of the kind.
    pub fn icon(self) -> (r: &'static str)
        ensures
            r@ == self.icon_text(),
    {
        match self {
            ObjectType::Building => "\u{1F3E2}",
            ObjectType::Controller => "\u{1F9E0}",
            ObjectType::Equipment => "\u{1F6E0}",
            ObjectType::Point => "\u{1F4CD}",
        }
    }
}

/// How the hours of one piece of equipment are worked out.
#[derive(Debug, Clone, Copy, PartialEq, Eq, Structural)]
pub enum HourCalculationMode {
    StaticByEquipment,
    PointsBased,
}

/// Signal class of a point.
#[derive(Debug, Clone, Copy, PartialEq, Eq, Structural)]
pub enum PointKind {
    AI,
    DI,
    AO,
    DO,
    NetworkX,
}

impl PointKind {
    /// The name of the signal class as the interface shows it.
    pub open spec fn label_text(self) -> Seq<char> {
        match self {
            PointKind::AI => "AI"@,
            PointKind::DI => "DI"@,
            PointKind::AO => "AO"@,
            PointKind::DO => "DO"@,
            PointKind::NetworkX => "Network(X)"@,
        }
    }

    /// The name of the signal class.
    pub fn label(&self) -> (r: &'static str)
        ensures
            r@ == self.label_text(),
    {
        match self {
            PointKind::AI => "AI",
            PointKind::DI => "DI",
            PointKind::AO => "AO",
            PointKind::DO => "DO",
            PointKind::NetworkX => "Network(X)",
        }
    }

    /// The pictogram of the signal class.
    pub open spec fn icon_text(self) -> Seq<char> {
        match self {
            PointKind::AI => "\u{1F7E2}"@,
            PointKind::AO => "\u{1F7E9}"@,
            PointKind::DI => "\u{1F535}"@,
            PointKind::DO => "\u{1F7E6}"@,
            PointKind::NetworkX => "\u{1F9F7}"@,
        }
    }

    /// The pictogram of the signal class.
    pub fn icon(&self) -> (r: &'static str)
        ensures
            r@ == self.icon_text(),
    {
        match self {
            PointKind::AI => "\u{1F7E2}",
            PointKind::AO => "\u{1F7E9}",
            PointKind::DI => "\u{1F535}",
            PointKind::DO => "\u{1F7E6}",
            PointKind::NetworkX => "\u{1F9F7}",
        }
    }

    /// Every signal class, in the order of the selection list.
    pub fn all() -> (r: [PointKind; 5])
        ensures
            r@ == seq![
                PointKind::AI,
                PointKind::DI,
                PointKind::AO,
                PointKind::DO,
                PointKind::NetworkX,
            ],
    {
        let r = [PointKind::AI, PointKind::DI, PointKind::AO, PointKind::DO, PointKind::NetworkX];
        proof {
            assert(r@ =~= seq![
                PointKind::AI,
                PointKind::DI,
                PointKind::AO,
                PointKind::DO,
                PointKind::NetworkX,
            ]);
        }
        r
    }
}

/// View of an optional text.
pub open spec fn text_of(s: Option<String>) -> Option<Seq<char>> {
    match s {
        Some(t) => Some(t@),
        None => None,
    }
}

#[derive(Debug, Clone)]
pub struct PropertyItem {
    pub key: String,
    pub value: String,
}

pub struct PropertyItemView {
    pub key: Seq<char>,
    pub value: Seq<char>,
}

impl View for PropertyItem {
    type V = PropertyItemView;

    open spec fn view(&self) -> PropertyItemView {
        PropertyItemView { key: self.key@, value: self.value@ }
    }
}

#[derive(Debug, Clone)]
pub struct PropertyGroup {
    pub name: String,
    pub items: Vec<PropertyItem>,
}

pub struct PropertyGroupView {
    pub name: Seq<char>,
    pub items: Seq<PropertyItemView>,
}

impl View for PropertyGroup {
    type V = PropertyGroupView;

    open spec fn view(&self) -> PropertyGroupView {
        PropertyGroupView {
            name: self.name@,
            items: self.items@.map_values(|i: PropertyItem| i@),
        }
    }
}

/// One node of the hierarchy. Every kind carries the same record; the
/// fields that do not apply to a kind stay at their defaults.
#[derive(Debug, Clone)]
pub struct BasObject {
    pub id: u64,
    pub parent_id: Option<u64>,
    pub object_type: ObjectType,
    pub name: String,
    pub equipment_type: String,
    pub equipment_tag: String,
    pub make: String,
    pub model: String,
    pub controller_type: String,
    pub controller_license: String,
    pub template_name: String,
    pub equipment_type_override: bool,
    pub hours_override: bool,
    pub hours_override_mode: HourCalculationMode,
    pub override_engineering_hours: i32,
    pub override_engineering_hours_per_point: i32,
    pub override_graphics_hours: i32,
    pub override_graphics_hours_per_point: i32,
    pub override_commissioning_hours: i32,
    pub override_commissioning_hours_per_point: i32,
    pub point_kind: PointKind,
    pub property_groups: Vec<PropertyGroup>,
}

pub struct ObjectView {
    pub id: u64,
    pub parent_id: Option<u64>,
    pub object_type: ObjectType,
    pub name: Seq<char>,
    pub equipment_type: Seq<char>,
    pub equipment_tag: Seq<char>,
    pub make: Seq<char>,
    pub model: Seq<char>,
    pub controller_type: Seq<char>,
    pub controller_license: Seq<char>,
    pub template_name: Seq<char>,
    pub equipment_type_override: bool,
    pub hours_override: bool,
    pub hours_override_mode: HourCalculationMode,
    pub override_engineering_hours: i32,
    pub override_engineering_hours_per_point: i32,
    pub override_graphics_hours: i32,
    pub override_graphics_hours_per_point: i32,
    pub override_commissioning_hours: i32,
    pub override_commissioning_hours_per_point: i32,
    pub point_kind: PointKind,
    pub property_groups: Seq<PropertyGroupView>,
}

impl View for BasObject {
    type V = ObjectView;

    open spec fn view(&self) -> ObjectView {
        ObjectView {
            id: self.id,
            parent_id: self.parent_id,
            object_type: self.object_type,
            name: self.name@,
            equipment_type: self.equipment_type@,
            equipment_tag: self.equipment_tag@,
            make: self.make@,
            model: self.model@,
            controller_type: self.controller_type@,
            controller_license: self.controller_license@,
            template_name: self.template_name@,
            equipment_type_override: self.equipment_type_override,
            hours_override: self.hours_override,
            hours_override_mode: self.hours_override_mode,
            override_engineering_hours: self.override_engineering_hours,
            override_engineering_hours_per_point: self.override_engineering_hours_per_point,
            override_graphics_hours: self.override_graphics_hours,
            override_graphics_hours_per_point: self.override_graphics_hours_per_point,
            override_commissioning_hours: self.override_commissioning_hours,
            override_commissioning_hours_per_point: self.override_commissioning_hours_per_point,
            point_kind: self.point_kind,
            property_groups: self.property_groups@.map_values(|g: PropertyGroup| g@),
        }
    }
}

/// Views of a list of objects, in order.
pub open spec fn object_views(objects: Seq<BasObject>) -> Seq<ObjectView> {
    objects.map_values(|o: BasObject| o@)
}

/// A token placed on the drawing for one object.
#[derive(Debug, Clone, Copy, PartialEq, Eq, Structural)]
pub struct OverlayNode {
    pub id: u64,
    pub object_id: u64,
    pub x: u32,
    pub y: u32,
}

/// A routed line segment on the drawing.
#[derive(Debug, Clone, Copy, PartialEq, Eq, Structural)]
pub struct OverlayLine {
    pub from_x: u32,
    pub from_y: u32,
    pub to_x: u32,
    pub to_y: u32,
}

/// Settings of the application that travel with a project.
#[derive(Debug, Clone)]
pub struct AppSettings {
    pub accent_color: [u8; 4],
    pub company_name: String,
    pub autosave_minutes: u32,
    pub ui_scale: i32,
    pub show_overlay_grid: bool,
}

pub struct AppSettingsView {
    pub accent_color: [u8; 4],
    pub company_name: Seq<char>,
    pub autosave_minutes: u32,
    pub ui_scale: i32,
    pub show_overlay_grid: bool,
}

impl View for AppSettings {
    type V = AppSettingsView;

    open spec fn view(&self) -> AppSettingsView {
        AppSettingsView {
            accent_color: self.accent_color,
            company_name: self.company_name@,
            autosave_minutes: self.autosave_minutes,
            ui_scale: self.ui_scale,
            show_overlay_grid: self.show_overlay_grid,
        }
    }
}

/// Descriptive fields of a proposal.
#[derive(Debug, Clone)]
pub struct ProposalData {
    pub project_number: String,
    pub client_name: String,
    pub owner: String,
    pub engineer_of_record: String,
    pub project_location: String,
    pub proposal_number: String,
    pub revision: String,
    pub contract_type: String,
    pub design_stage: String,
    pub bid_date: String,
    pub target_start_date: String,
    pub target_completion_date: String,
    pub prepared_by: String,
    pub project_manager: String,
    pub estimator: String,
    pub scope_summary: String,
    pub assumptions: String,
    pub exclusions: String,
}

pub struct ProposalView {
    pub project_number: Seq<char>,
    pub client_name: Seq<char>,
    pub owner: Seq<char>,
    pub engineer_of_record: Seq<char>,
    pub project_location: Seq<char>,
    pub proposal_number: Seq<char>,
    pub revision: Seq<char>,
    pub contract_type: Seq<char>,
    pub design_stage: Seq<char>,
    pub bid_date: Seq<char>,
    pub target_start_date: Seq<char>,
    pub target_completion_date: Seq<char>,
    pub prepared_by: Seq<char>,
    pub project_manager: Seq<char>,
    pub estimator: Seq<char>,
    pub scope_summary: Seq<char>,
    pub assumptions: Seq<char>,
    pub exclusions: Seq<char>,
}

impl View for ProposalData {
    type V = ProposalView;

    open spec fn view(&self) -> ProposalView {
        ProposalView {
            project_number: self.project_number@,
            client_name: self.client_name@,
            owner: self.owner@,
            engineer_of_record: self.engineer_of_record@,
            project_location: self.project_location@,
            proposal_number: self.proposal_number@,
            revision: self.revision@,
            contract_type: self.contract_type@,
            design_stage: self.design_stage@,
            bid_date: self.bid_date@,
            target_start_date: self.target_start_date@,
            target_completion_date: self.target_completion_date@,
            prepared_by: self.prepared_by@,
            project_manager: self.project_manager@,
            estimator: self.estimator@,
            scope_summary: self.scope_summary@,
            assumptions: self.assumptions@,
            exclusions: self.exclusions@,
        }
    }
}

/// A custom cost line. Quantity and hours per unit are in hundredths.
#[derive(Debug, Clone)]
pub struct HourLine {
    pub name: String,
    pub category: String,
    pub quantity: i32,
    pub hours_per_unit: i32,
}

pub struct HourLineView {
    pub name: Seq<char>,
    pub category: Seq<char>,
    pub quantity: i32,
    pub hours_per_unit: i32,
}

impl View for HourLine {
    type V = HourLineView;

    open spec fn view(&self) -> HourLineView {
        HourLineView {
            name: self.name@,
            category: self.category@,
            quantity: self.quantity,
            hours_per_unit: self.hours_per_unit,
        }
    }
}

/// Views of a list of cost lines, in order.
pub open spec fn line_views(lines: Seq<HourLine>) -> Seq<HourLineView> {
    lines.map_values(|l: HourLine| l@)
}

/// Adjustments of an estimate. Factors are in hundredths (100 is a factor of
/// one), percentages in hundredths of a percent point.
#[derive(Debug, Clone, Copy, PartialEq, Eq, Structural)]
pub struct EstimatorSettings {
    pub complexity_factor: i32,
    pub renovation_factor: i32,
    pub integration_factor: i32,
    pub qa_percent: i32,
    pub project_management_percent: i32,
    pub risk_percent: i32,
}

/// A point that a template declares.
#[derive(Debug, Clone)]
pub struct TemplatePoint {
    pub name: String,
    pub kind: PointKind,
}

pub struct TemplatePointView {
    pub name: Seq<char>,
    pub kind: PointKind,
}

impl View for TemplatePoint {
    type V = TemplatePointView;

    open spec fn view(&self) -> TemplatePointView {
        TemplatePointView { name: self.name@, kind: self.kind }
    }
}

/// A reusable definition of a type of equipment: its points and its hour
/// coefficients, in hundredths of an hour.
#[derive(Debug, Clone)]
pub struct EquipmentTemplate {
    pub name: String,
    pub equipment_type: String,
    pub points: Vec<TemplatePoint>,
    pub hour_mode: HourCalculationMode,
    pub engineering_hours: i32,
    pub engineering_hours_per_point: i32,
    pub graphics_hours: i32,
    pub graphics_hours_per_point: i32,
    pub commissioning_hours: i32,
    pub commissioning_hours_per_point: i32,
}

pub struct TemplateView {
    pub name: Seq<char>,
    pub equipment_type: Seq<char>,
    pub points: Seq<TemplatePointView>,
    pub hour_mode: HourCalculationMode,
    pub engineering_hours: i32,
    pub engineering_hours_per_point: i32,
    pub graphics_hours: i32,
    pub graphics_hours_per_point: i32,
    pub commissioning_hours: i32,
    pub commissioning_hours_per_point: i32,
}

impl View for EquipmentTemplate {
    type V = TemplateView;

    open spec fn view(&self) -> TemplateView {
        TemplateView {
            name: self.name@,
            equipment_type: self.equipment_type@,
            points: self.points@.map_values(|p: TemplatePoint| p@),
            hour_mode: self.hour_mode,
            engineering_hours: self.engineering_hours,
            engineering_hours_per_point: self.engineering_hours_per_point,
            graphics_hours: self.graphics_hours,
            graphics_hours_per_point: self.graphics_hours_per_point,
            commissioning_hours: self.commissioning_hours,
            commissioning_hours_per_point: self.commissioning_hours_per_point,
        }
    }
}

/// Views of a list of templates, in order.
pub open spec fn template_views(templates: Seq<EquipmentTemplate>) -> Seq<TemplateView> {
    templates.map_values(|t: EquipmentTemplate| t@)
}

/// The aggregate that is edited, estimated and stored.
#[derive(Debug, Clone)]
pub struct Project {
    pub name: String,
    pub notes: String,
    pub proposal: ProposalData,
    pub objects: Vec<BasObject>,
    pub overlay_pdf: Option<String>,
    pub overlay_nodes: Vec<OverlayNode>,
    pub overlay_lines: Vec<OverlayLine>,
    pub templates: Vec<EquipmentTemplate>,
    pub custom_hour_lines: Vec<HourLine>,
    pub estimator: EstimatorSettings,
    pub next_id: u64,
    pub settings: AppSettings,
    pub overview_image: Option<String>,
    pub project_uuid: u128,
}

pub struct ProjectView {
    pub name: Seq<char>,
    pub notes: Seq<char>,
    pub proposal: ProposalView,
    pub objects: Seq<ObjectView>,
    pub overlay_pdf: Option<Seq<char>>,
    pub overlay_nodes: Seq<OverlayNode>,
    pub overlay_lines: Seq<OverlayLine>,
    pub templates: Seq<TemplateView>,
    pub custom_hour_lines: Seq<HourLineView>,
    pub estimator: EstimatorSettings,
    pub next_id: u64,
    pub settings: AppSettingsView,
    pub overview_image: Option<Seq<char>>,
    pub project_uuid: u128,
}

impl View for Project {
    type V = ProjectView;

    open spec fn view(&self) -> ProjectView {
        ProjectView {
            name: self.name@,
            notes: self.notes@,
            proposal: self.proposal@,
            objects: object_views(self.objects@),
            overlay_pdf: text_of(self.overlay_pdf),
            overlay_nodes: self.overlay_nodes@,
            overlay_lines: self.overlay_lines@,
            templates: template_views(self.templates@),
            custom_hour_lines: line_views(self.custom_hour_lines@),
            estimator: self.estimator,
            next_id: self.next_id,
            settings: self.settings@,
            overview_image: text_of(self.overview_image),
            project_uuid: self.project_uuid,
        }
    }
}

impl PropertyItem {
    /// A copy with the same content.
    pub fn copy(&self) -> (r: PropertyItem)
        ensures
            r@ == self@,
    {
        PropertyItem { key: self.key.clone(), value: self.value.clone() }
    }
}

impl PropertyGroup {
    /// A copy with the same content.
    pub fn copy(&self) -> (r: PropertyGroup)
        ensures
            r@ == self@,
    {
        let mut items: Vec<PropertyItem> = Vec::new();
        let mut i: usize = 0;
        while i < self.items.len()
            invariant
                i <= self.items.len(),
                items@.map_values(|x: PropertyItem| x@) == self.items@.take(i as int).map_values(
                    |x: PropertyItem| x@,
                ),
            decreases self.items.len() - i,
        {
            let ghost before = items@;
            items.push(self.items[i].copy());
            proof {
                assert(self.items@.take(i as int + 1) =~= self.items@.take(i as int).push(
                    self.items@[i as int],
                ));
                assert(items@.map_values(|x: PropertyItem| x@) =~= before.map_values(
                    |x: PropertyItem| x@,
                ).push(self.items@[i as int]@));
                assert(self.items@.take(i as int + 1).map_values(|x: PropertyItem| x@)
                    =~= self.items@.take(i as int).map_values(|x: PropertyItem| x@).push(
                    self.items@[i as int]@,
                ));
            }
            i += 1;
        }
        proof {
            assert(self.items@.take(i as int) =~= self.items@);
        }
        PropertyGroup { name: self.name.clone(), items }
    }
}

/// A copy of a list of property groups with the same content.
pub fn copy_groups(groups: &Vec<PropertyGroup>) -> (r: Vec<PropertyGroup>)
    ensures
        r@.map_values(|g: PropertyGroup| g@) == groups@.map_values(|g: PropertyGroup| g@),
{
    let mut out: Vec<PropertyGroup> = Vec::new();
    let mut i: usize = 0;
    while i < groups.len()
        invariant
            i <= groups.len(),
            out@.map_values(|g: PropertyGroup| g@) == groups@.take(i as int).map_values(
                |g: PropertyGroup| g@,
            ),
        decreases groups.len() - i,
    {
        let ghost before = out@;
        out.push(groups[i].copy());
        proof {
            assert(groups@.take(i as int + 1) =~= groups@.take(i as int).push(groups@[i as int]));
            assert(out@.map_values(|g: PropertyGroup| g@) =~= before.map_values(
                |g: PropertyGroup| g@,
            ).push(groups@[i as int]@));
            assert(groups@.take(i as int + 1).map_values(|g: PropertyGroup| g@) =~= groups@.take(
                i as int,
            ).map_values(|g: PropertyGroup| g@).push(groups@[i as int]@));
        }
        i += 1;
    }
    proof {
        assert(groups@.take(i as int) =~= groups@);
    }
    out
}

impl BasObject {
    /// A copy with the same content.
    pub fn copy(&self) -> (r: BasObject)
        ensures
            r@ == self@,
    {
        BasObject {
            id: self.id,
            parent_id: self.parent_id,
            object_type: self.object_type,
            name: self.name.clone(),
            equipment_type: self.equipment_type.clone(),
            equipment_tag: self.equipment_tag.clone(),
            make: self.make.clone(),
            model: self.model.clone(),
            controller_type: self.controller_type.clone(),
            controller_license: self.controller_license.clone(),
            template_name: self.template_name.clone(),
            equipment_type_override: self.equipment_type_override,
            hours_override: self.hours_override,
            hours_override_mode: self.hours_override_mode,
            override_engineering_hours: self.override_engineering_hours,
            override_engineering_hours_per_point: self.override_engineering_hours_per_point,
            override_graphics_hours: self.override_graphics_hours,
            override_graphics_hours_per_point: self.override_graphics_hours_per_point,
            override_commissioning_hours: self.override_commissioning_hours,
            override_commissioning_hours_per_point: self.override_commissioning_hours_per_point,
            point_kind: self.point_kind,
            property_groups: copy_groups(&self.property_groups),
        }
    }
}

} // verus!
