//! The catalog of equipment templates: the definitions that come with the
//! program, and the rule that a name stands for one template.

use vstd::prelude::*;
use crate::text::{decimal, joined, numbered};
use crate::model::{
    EquipmentTemplate, HourCalculationMode, PointKind, TemplatePoint, TemplatePointView,
    TemplateView, template_views,
};

verus! {

/// Template points of the analog input kind with the names given.
pub open spec fn ai_points(names: Seq<Seq<char>>) -> Seq<TemplatePointView> {
    names.map_values(|n: Seq<char>| TemplatePointView { name: n, kind: PointKind::AI })
}

/// A template under the static mode.
pub open spec fn static_template(
    name: Seq<char>,
    equipment_type: Seq<char>,
    points: Seq<Seq<char>>,
    hours: (i32, i32, i32, i32, i32, i32),
) -> TemplateView {
    TemplateView {
        name,
        equipment_type,
        points: ai_points(points),
        hour_mode: HourCalculationMode::StaticByEquipment,
        engineering_hours: hours.0,
        engineering_hours_per_point: hours.1,
        graphics_hours: hours.2,
        graphics_hours_per_point: hours.3,
        commissioning_hours: hours.4,
        commissioning_hours_per_point: hours.5,
    }
}

/// The template for a typical variable air volume box.
pub open spec fn vav_template() -> TemplateView {
    static_template(
        "VAV Typical"@,
        "VAV"@,
        seq!["Space Temp"@, "Discharge Temp"@, "Damper Cmd"@, "Airflow"@],
        (200, 25, 100, 12, 150, 18),
    )
}

/// The template for a typical air handling unit.
pub open spec fn ahu_template() -> TemplateView {
    static_template(
        "AHU Typical"@,
        "AHU"@,
        seq![
            "Space Temp"@,
            "Supply Temp"@,
            "Return Temp"@,
            "Static Pressure"@,
            "Fan Cmd"@,
            "Filter DP"@,
        ],
        (500, 30, 200, 15, 300, 20),
    )
}

/// The template for a boiler plant.
pub open spec fn boiler_template() -> TemplateView {
    static_template(
        "Boiler Plant"@,
        "Boiler"@,
        seq!["Space Temp"@, "Enable"@, "Water Temp"@, "Status"@, "Alarm"@],
        (400, 30, 150, 15, 250, 20),
    )
}

/// The template for a chiller.
pub open spec fn chiller_template() -> TemplateView {
    static_template(
        "Chiller"@,
        "Chiller"@,
        seq!["Space Temp"@, "CHWS Temp"@, "CHWR Temp"@, "Run Cmd"@, "kW"@, "Fault"@],
        (500, 30, 200, 15, 300, 20),
    )
}

/// The template for a fan coil unit.
pub open spec fn fan_coil_template() -> TemplateView {
    static_template(
        "Fan Coil Unit"@,
        "FCU"@,
        seq!["Space Temp"@, "Room Temp"@, "Fan Speed"@, "Valve Cmd"@, "Occupancy"@],
        (250, 25, 100, 12, 150, 18),
    )
}

/// The templates that a new project starts with.
pub open spec fn starter_catalog() -> Seq<TemplateView> {
    seq![vav_template(), ahu_template(), boiler_template(), chiller_template()]
}

/// The templates that the catalog is seeded with.
pub open spec fn seed_catalog() -> Seq<TemplateView> {
    seq![
        vav_template(),
        ahu_template(),
        boiler_template(),
        chiller_template(),
        fan_coil_template(),
    ]
}

impl TemplatePoint {
    /// An analog input with the name `name`.
    pub fn ai(name: &str) -> (p: TemplatePoint)
        ensures
            p@ == (TemplatePointView { name: name@, kind: PointKind::AI }),
    {
        TemplatePoint { name: name.to_owned(), kind: PointKind::AI }
    }

    /// A copy with the same content.
    pub fn copy(&self) -> (p: TemplatePoint)
        ensures
            p@ == self@,
    {
        TemplatePoint { name: self.name.clone(), kind: self.kind }
    }
}

/// The views of a list of template points.
pub open spec fn point_views(points: Seq<TemplatePoint>) -> Seq<TemplatePointView> {
    points.map_values(|p: TemplatePoint| p@)
}

/// A copy of a list of template points with the same content.
pub fn copy_points(points: &Vec<TemplatePoint>) -> (r: Vec<TemplatePoint>)
    ensures
        point_views(r@) == point_views(points@),
{
    let mut out: Vec<TemplatePoint> = Vec::new();
    let mut i: usize = 0;
    while i < points.len()
        invariant
            i <= points.len(),
            out@.len() == i,
            forall|j: int| 0 <= j < i ==> (#[trigger] out@[j])@ == points@[j]@,
        decreases points.len() - i,
    {
        out.push(points[i].copy());
        i += 1;
    }
    proof {
        assert(point_views(out@) =~= point_views(points@));
    }
    out
}

impl EquipmentTemplate {
    /// A copy with the same content.
    pub fn copy(&self) -> (t: EquipmentTemplate)
        ensures
            t@ == self@,
    {
        EquipmentTemplate {
            name: self.name.clone(),
            equipment_type: self.equipment_type.clone(),
            points: copy_points(&self.points),
            hour_mode: self.hour_mode,
            engineering_hours: self.engineering_hours,
            engineering_hours_per_point: self.engineering_hours_per_point,
            graphics_hours: self.graphics_hours,
            graphics_hours_per_point: self.graphics_hours_per_point,
            commissioning_hours: self.commissioning_hours,
            commissioning_hours_per_point: self.commissioning_hours_per_point,
        }
    }
}

/// A copy of a list of templates with the same content.
pub fn copy_templates(templates: &Vec<EquipmentTemplate>) -> (r: Vec<EquipmentTemplate>)
    ensures
        template_views(r@) == template_views(templates@),
{
    let mut out: Vec<EquipmentTemplate> = Vec::new();
    let mut i: usize = 0;
    while i < templates.len()
        invariant
            i <= templates.len(),
            out@.len() == i,
            forall|j: int| 0 <= j < i ==> (#[trigger] out@[j])@ == templates@[j]@,
        decreases templates.len() - i,
    {
        out.push(templates[i].copy());
        i += 1;
    }
    proof {
        assert(template_views(out@) =~= template_views(templates@));
    }
    out
}

/// Analog input points with the names of `names`, in order.
fn points_named(names: &[&str]) -> (r: Vec<TemplatePoint>)
    ensures
        r@.len() == names@.len(),
        forall|i: int|
            0 <= i < names@.len() ==> (#[trigger] r@[i])@ == (TemplatePointView {
                name: names@[i]@,
                kind: PointKind::AI,
            }),
{
    let mut out: Vec<TemplatePoint> = Vec::new();
    let mut i: usize = 0;
    while i < names.len()
        invariant
            i <= names.len(),
            out@.len() == i,
            forall|j: int|
                0 <= j < i ==> (#[trigger] out@[j])@ == (TemplatePointView {
                    name: names@[j]@,
                    kind: PointKind::AI,
                }),
        decreases names.len() - i,
    {
        out.push(TemplatePoint::ai(names[i]));
        i += 1;
    }
    out
}

/// A template under the static mode with analog inputs of the names given.
fn build_static(name: &str, equipment_type: &str, points: &[&str], hours: (
    i32,
    i32,
    i32,
    i32,
    i32,
    i32,
)) -> (t: EquipmentTemplate)
    ensures
        t@ == static_template(
            name@,
            equipment_type@,
            points@.map_values(|n: &str| n@),
            hours,
        ),
{
    let pts = points_named(points);
    let t = EquipmentTemplate {
        name: name.to_owned(),
        equipment_type: equipment_type.to_owned(),
        points: pts,
        hour_mode: HourCalculationMode::StaticByEquipment,
        engineering_hours: hours.0,
        engineering_hours_per_point: hours.1,
        graphics_hours: hours.2,
        graphics_hours_per_point: hours.3,
        commissioning_hours: hours.4,
        commissioning_hours_per_point: hours.5,
    };
    proof {
        assert(t@.points =~= ai_points(points@.map_values(|n: &str| n@)));
    }
    t
}

fn build_vav() -> (t: EquipmentTemplate)
    ensures
        t@ == vav_template(),
{
    let names = ["Space Temp", "Discharge Temp", "Damper Cmd", "Airflow"];
    let t = build_static("VAV Typical", "VAV", &names, (200, 25, 100, 12, 150, 18));
    proof {
        assert(names@.map_values(|n: &str| n@) =~= seq![
            "Space Temp"@,
            "Discharge Temp"@,
            "Damper Cmd"@,
            "Airflow"@,
        ]);
    }
    t
}

fn build_ahu() -> (t: EquipmentTemplate)
    ensures
        t@ == ahu_template(),
{
    let names = [
        "Space Temp",
        "Supply Temp",
        "Return Temp",
        "Static Pressure",
        "Fan Cmd",
        "Filter DP",
    ];
    let t = build_static("AHU Typical", "AHU", &names, (500, 30, 200, 15, 300, 20));
    proof {
        assert(names@.map_values(|n: &str| n@) =~= seq![
            "Space Temp"@,
            "Supply Temp"@,
            "Return Temp"@,
            "Static Pressure"@,
            "Fan Cmd"@,
            "Filter DP"@,
        ]);
    }
    t
}

fn build_boiler() -> (t: EquipmentTemplate)
    ensures
        t@ == boiler_template(),
{
    let names = ["Space Temp", "Enable", "Water Temp", "Status", "Alarm"];
    let t = build_static("Boiler Plant", "Boiler", &names, (400, 30, 150, 15, 250, 20));
    proof {
        assert(names@.map_values(|n: &str| n@) =~= seq![
            "Space Temp"@,
            "Enable"@,
            "Water Temp"@,
            "Status"@,
            "Alarm"@,
        ]);
    }
    t
}

fn build_chiller() -> (t: EquipmentTemplate)
    ensures
        t@ == chiller_template(),
{
    let names = ["Space Temp", "CHWS Temp", "CHWR Temp", "Run Cmd", "kW", "Fault"];
    let t = build_static("Chiller", "Chiller", &names, (500, 30, 200, 15, 300, 20));
    proof {
        assert(names@.map_values(|n: &str| n@) =~= seq![
            "Space Temp"@,
            "CHWS Temp"@,
            "CHWR Temp"@,
            "Run Cmd"@,
            "kW"@,
            "Fault"@,
        ]);
    }
    t
}

fn build_fan_coil() -> (t: EquipmentTemplate)
    ensures
        t@ == fan_coil_template(),
{
    let names = ["Space Temp", "Room Temp", "Fan Speed", "Valve Cmd", "Occupancy"];
    let t = build_static("Fan Coil Unit", "FCU", &names, (250, 25, 100, 12, 150, 18));
    proof {
        assert(names@.map_values(|n: &str| n@) =~= seq![
            "Space Temp"@,
            "Room Temp"@,
            "Fan Speed"@,
            "Valve Cmd"@,
            "Occupancy"@,
        ]);
    }
    t
}

impl Default for EquipmentTemplate {
    /// The template for a typical variable air volume box.
    fn default() -> (t: EquipmentTemplate)
        ensures
            t@ == vav_template(),
    {
        build_vav()
    }
}

/// The templates that a new project starts with.
pub fn starter_templates() -> (r: Vec<EquipmentTemplate>)
    ensures
        template_views(r@) == starter_catalog(),
{
    let mut out: Vec<EquipmentTemplate> = Vec::new();
    out.push(build_vav());
    out.push(build_ahu());
    out.push(build_boiler());
    out.push(build_chiller());
    proof {
        assert(template_views(out@) =~= starter_catalog());
    }
    out
}

/// The templates that the catalog is seeded with.
pub fn template_seed_data() -> (r: Vec<EquipmentTemplate>)
    ensures
        template_views(r@) == seed_catalog(),
{
    let mut out: Vec<EquipmentTemplate> = Vec::new();
    out.push(build_vav());
    out.push(build_ahu());
    out.push(build_boiler());
    out.push(build_chiller());
    out.push(build_fan_coil());
    proof {
        assert(template_views(out@) =~= seed_catalog());
    }
    out
}

/// The template that a catalog of `count` templates is extended by: it
/// is named by its position, has one point, no flat hours and the usual
/// hours per point.
pub open spec fn blank_template(count: nat) -> TemplateView {
    TemplateView {
        name: joined("Template"@, " "@, decimal(count + 1)),
        equipment_type: Seq::empty(),
        points: ai_points(seq!["New Point"@]),
        hour_mode: HourCalculationMode::StaticByEquipment,
        engineering_hours: 0,
        engineering_hours_per_point: 25,
        graphics_hours: 0,
        graphics_hours_per_point: 12,
        commissioning_hours: 0,
        commissioning_hours_per_point: 18,
    }
}

/// A new template for a catalog that holds `count` templates.
pub fn new_template(count: usize) -> (t: EquipmentTemplate)
    requires
        count < u64::MAX,
    ensures
        t@ == blank_template(count as nat),
{
    let mut points: Vec<TemplatePoint> = Vec::new();
    points.push(TemplatePoint::ai("New Point"));
    let t = EquipmentTemplate {
        name: numbered("Template", " ", count as u64 + 1),
        equipment_type: String::new(),
        points,
        hour_mode: HourCalculationMode::StaticByEquipment,
        engineering_hours: 0,
        engineering_hours_per_point: 25,
        graphics_hours: 0,
        graphics_hours_per_point: 12,
        commissioning_hours: 0,
        commissioning_hours_per_point: 18,
    };
    proof {
        assert(t@.points =~= ai_points(seq!["New Point"@]));
    }
    t
}

/// Some template of `templates` has the name `name`.
pub open spec fn name_occurs(templates: Seq<TemplateView>, name: Seq<char>) -> bool {
    exists|i: int| 0 <= i < templates.len() && (#[trigger] templates[i]).name == name
}

/// Of the templates of each name the first, in their order.
pub open spec fn first_of_each_name(templates: Seq<TemplateView>) -> Seq<TemplateView>
    decreases templates.len(),
{
    if templates.len() == 0 {
        templates
    } else if name_occurs(templates.drop_last(), templates.last().name) {
        first_of_each_name(templates.drop_last())
    } else {
        first_of_each_name(templates.drop_last()).push(templates.last())
    }
}

/// The catalog as it is used: the seed where the user has no templates,
/// and of each name the first template only.
pub open spec fn seeded(user: Seq<TemplateView>) -> Seq<TemplateView> {
    first_of_each_name(if user.len() == 0 {
        seed_catalog()
    } else {
        user
    })
}

/// No two templates have the same name.
pub open spec fn names_unique(templates: Seq<TemplateView>) -> bool {
    forall|i: int, j: int|
        0 <= i < j < templates.len() ==> (#[trigger] templates[i]).name != (
        #[trigger] templates[j]).name
}

/// The first of each name carry exactly the names of the list.
pub proof fn lemma_first_of_each_name_names(templates: Seq<TemplateView>, name: Seq<char>)
    ensures
        name_occurs(first_of_each_name(templates), name) <==> name_occurs(templates, name),
    decreases templates.len(),
{
    if templates.len() > 0 {
        let rest = templates.drop_last();
        let last = templates.last();
        let kept = first_of_each_name(rest);
        let all = first_of_each_name(templates);
        lemma_first_of_each_name_names(rest, name);
        lemma_first_of_each_name_names(rest, last.name);
        if name_occurs(templates, name) {
            let w = choose|w: int| 0 <= w < templates.len() && (#[trigger] templates[w]).name == name;
            if w < rest.len() {
                assert(rest[w].name == name);
                let v = choose|v: int| 0 <= v < kept.len() && (#[trigger] kept[v]).name == name;
                assert(all[v].name == name);
            } else if name_occurs(rest, last.name) {
                let v = choose|v: int| 0 <= v < kept.len() && (#[trigger] kept[v]).name == name;
                assert(all[v].name == name);
            } else {
                assert(all[kept.len() as int].name == name);
            }
        }
        if name_occurs(all, name) {
            let v = choose|v: int| 0 <= v < all.len() && (#[trigger] all[v]).name == name;
            if v < kept.len() {
                assert(kept[v].name == name);
                let w = choose|w: int| 0 <= w < rest.len() && (#[trigger] rest[w]).name == name;
                assert(templates[w].name == name);
            } else {
                assert(templates[templates.len() - 1].name == name);
            }
        }
    }
}

/// Among the first of each name no name occurs twice.
pub proof fn lemma_first_of_each_name_unique(templates: Seq<TemplateView>)
    ensures
        names_unique(first_of_each_name(templates)),
    decreases templates.len(),
{
    if templates.len() > 0 {
        let rest = templates.drop_last();
        let kept = first_of_each_name(rest);
        lemma_first_of_each_name_unique(rest);
        lemma_first_of_each_name_names(rest, templates.last().name);
        if !name_occurs(rest, templates.last().name) {
            let all = kept.push(templates.last());
            assert forall|i: int, j: int| 0 <= i < j < all.len() implies (#[trigger] all[i]).name != (
            #[trigger] all[j]).name by {
                if j == kept.len() {
                    assert(kept[i].name == all[i].name);
                } else {
                    assert(kept[i] == all[i] && kept[j] == all[j]);
                }
            }
        }
    }
}

/// Whether one of the first `upto` templates has the name `name`.
fn name_among(templates: &Vec<EquipmentTemplate>, upto: usize, name: &String) -> (r: bool)
    requires
        upto <= templates.len(),
    ensures
        r == name_occurs(template_views(templates@).take(upto as int), name@),
{
    let ghost part = template_views(templates@).take(upto as int);
    let mut i: usize = 0;
    while i < upto
        invariant
            i <= upto,
            upto <= templates.len(),
            part == template_views(templates@).take(upto as int),
            forall|j: int| 0 <= j < i ==> (#[trigger] part[j]).name != name@,
        decreases upto - i,
    {
        if templates[i].name == *name {
            assert(part[i as int].name == name@);
            return true;
        }
        i += 1;
    }
    false
}

/// Keeps of the templates of each name the first.
pub fn keep_first_of_each_name(templates: &mut Vec<EquipmentTemplate>)
    ensures
        template_views(final(templates)@) == first_of_each_name(template_views(old(templates)@)),
{
    let ghost src = template_views(old(templates)@);
    let ghost mut k: int = 0;
    let mut i: usize = 0;
    proof {
        assert(src.take(0) =~= Seq::<TemplateView>::empty());
        assert(template_views(templates@).take(0) =~= Seq::<TemplateView>::empty());
        assert(template_views(templates@).skip(0) =~= src.skip(0));
    }
    while i < templates.len()
        invariant
            0 <= k <= src.len(),
            i <= templates.len(),
            templates.len() - i == src.len() - k,
            template_views(templates@).take(i as int) == first_of_each_name(src.take(k)),
            template_views(templates@).skip(i as int) == src.skip(k),
        decreases templates.len() - i,
    {
        let ghost before = template_views(templates@);
        proof {
            assert(src.take(k + 1).drop_last() =~= src.take(k));
            assert(before.skip(i as int)[0] == src.skip(k)[0]);
            lemma_first_of_each_name_names(src.take(k), src[k].name);
        }
        let name = templates[i].name.clone();
        if name_among(templates, i, &name) {
            templates.remove(i);
            proof {
                assert(template_views(templates@) =~= before.remove(i as int));
                assert(template_views(templates@).take(i as int) =~= before.take(i as int));
                assert(template_views(templates@).skip(i as int) =~= before.skip(i as int).skip(1));
                assert(src.skip(k).skip(1) =~= src.skip(k + 1));
            }
        } else {
            i += 1;
            proof {
                assert(before.take(i as int) =~= before.take(i as int - 1).push(src[k]));
                assert(before.skip(i as int) =~= before.skip(i as int - 1).skip(1));
                assert(src.skip(k).skip(1) =~= src.skip(k + 1));
            }
        }
        proof {
            k = k + 1;
        }
    }
    proof {
        assert(src.take(k) =~= src);
        assert(template_views(templates@).take(i as int) =~= template_views(templates@));
    }
}

/// Makes the user's templates usable and hands a copy to the project: an
/// empty list is replaced by the seed, and of each name the first
/// template is kept.
pub fn ensure_template_seeded(
    user_templates: &mut Vec<EquipmentTemplate>,
    project_templates: &mut Vec<EquipmentTemplate>,
)
    ensures
        template_views(final(user_templates)@) == seeded(template_views(old(user_templates)@)),
        template_views(final(project_templates)@) == template_views(final(user_templates)@),
{
    if user_templates.len() == 0 {
        *user_templates = template_seed_data();
    }
    keep_first_of_each_name(user_templates);
    *project_templates = copy_templates(user_templates);
}

} // verus!
