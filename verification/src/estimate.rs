//! The labor-hour estimate of a project.
//!
//! All figures are exact.  Inputs are in hundredths; a result that is a
//! product of inputs counts in the product of their units, and nothing is
//! rounded:
//!
//! | figure                                | one hour is        |
//! |---------------------------------------|--------------------|
//! | engineering, graphics, commissioning  | 100                |
//! | custom lines                          | 10 000             |
//! | overhead, grand total                 | 10^14              |

use vstd::prelude::*;
use crate::model::{
    BasObject, EquipmentTemplate, EstimatorSettings, HourCalculationMode, HourLine, HourLineView,
    ObjectType, ObjectView, Project, ProjectView, TemplateView, line_views, object_views,
    template_views,
};

verus! {

/// The most objects, and the most custom lines, that an estimate takes.
pub const MAX_ESTIMATE_ITEMS: usize = 0xFFFF_FFFF;

/// Units of the three direct figures in one hour.
pub const DIRECT_UNITS_PER_HOUR: i128 = 100;

/// Units of the custom line total in one hour.
pub const CUSTOM_UNITS_PER_HOUR: i128 = 10_000;

/// Units of the overhead and of the grand total in one hour.
pub const TOTAL_UNITS_PER_HOUR: i128 = 100_000_000_000_000;

/// Why no estimate was returned.
#[derive(Debug, Clone, Copy, PartialEq, Eq, Structural)]
pub enum EstimateError {
    /// The project holds more objects or lines than an estimate takes, or
    /// its grand total does not fit the result.
    OutOfRange,
}

/// The six figures of an estimate, each in its unit (see the module text).
#[derive(Debug, Clone, Copy, PartialEq, Eq, Structural)]
pub struct HoursEstimate {
    pub engineering: i128,
    pub graphics: i128,
    pub commissioning: i128,
    pub custom_total: i128,
    pub overhead_hours: i128,
    pub grand_total: i128,
}

/// The three kinds of direct hours.
#[derive(Debug, Clone, Copy, PartialEq, Eq, Structural)]
pub enum HourClass {
    Engineering,
    Graphics,
    Commissioning,
}

/// Number of nodes of kind `kind`.
pub open spec fn count_kind(nodes: Seq<ObjectView>, kind: ObjectType) -> nat
    decreases nodes.len(),
{
    if nodes.len() == 0 {
        0
    } else {
        let one: nat = if nodes.last().object_type == kind {
            1
        } else {
            0
        };
        count_kind(nodes.drop_last(), kind) + one
    }
}

/// Number of points that name `parent` as their parent.
pub open spec fn point_children(nodes: Seq<ObjectView>, parent: u64) -> nat
    decreases nodes.len(),
{
    if nodes.len() == 0 {
        0
    } else {
        let last = nodes.last();
        let one: nat = if last.parent_id == Some(parent) && last.object_type == ObjectType::Point {
            1
        } else {
            0
        };
        point_children(nodes.drop_last(), parent) + one
    }
}

/// `i` is the first position in `templates` with the name `name`.
pub open spec fn is_first_named(templates: Seq<TemplateView>, name: Seq<char>, i: int) -> bool {
    &&& 0 <= i < templates.len()
    &&& templates[i].name == name
    &&& forall|j: int| 0 <= j < i ==> (#[trigger] templates[j]).name != name
}

/// The first template with the name `name`, if there is one.
pub open spec fn template_named(templates: Seq<TemplateView>, name: Seq<char>) -> Option<
    TemplateView,
> {
    if exists|i: int| is_first_named(templates, name, i) {
        Some(templates[choose|i: int| is_first_named(templates, name, i)])
    } else {
        None
    }
}

/// The flat hours of a template in one class.
pub open spec fn flat_hours(t: TemplateView, class: HourClass) -> int {
    match class {
        HourClass::Engineering => t.engineering_hours as int,
        HourClass::Graphics => t.graphics_hours as int,
        HourClass::Commissioning => t.commissioning_hours as int,
    }
}

/// The hours per point of a template in one class.
pub open spec fn per_point_hours(t: TemplateView, class: HourClass) -> int {
    match class {
        HourClass::Engineering => t.engineering_hours_per_point as int,
        HourClass::Graphics => t.graphics_hours_per_point as int,
        HourClass::Commissioning => t.commissioning_hours_per_point as int,
    }
}

/// The flat hours that a node sets in place of its template's.
pub open spec fn override_flat_hours(o: ObjectView, class: HourClass) -> int {
    match class {
        HourClass::Engineering => o.override_engineering_hours as int,
        HourClass::Graphics => o.override_graphics_hours as int,
        HourClass::Commissioning => o.override_commissioning_hours as int,
    }
}

/// The hours per point that a node sets in place of its template's.
pub open spec fn override_per_point_hours(o: ObjectView, class: HourClass) -> int {
    match class {
        HourClass::Engineering => o.override_engineering_hours_per_point as int,
        HourClass::Graphics => o.override_graphics_hours_per_point as int,
        HourClass::Commissioning => o.override_commissioning_hours_per_point as int,
    }
}

/// What one piece of equipment adds to a class through its template:
/// nothing where the template it names is not in the catalog; under the
/// static mode the flat hours; under the points mode the hours per point
/// times the number of its points.  A node with the override set uses its
/// own mode and figures, else the template's.
pub open spec fn equipment_share(
    nodes: Seq<ObjectView>,
    templates: Seq<TemplateView>,
    eq: ObjectView,
    class: HourClass,
) -> int {
    match template_named(templates, eq.template_name) {
        None => 0,
        Some(t) => {
            let mode = if eq.hours_override {
                eq.hours_override_mode
            } else {
                t.hour_mode
            };
            match mode {
                HourCalculationMode::StaticByEquipment => if eq.hours_override {
                    override_flat_hours(eq, class)
                } else {
                    flat_hours(t, class)
                },
                HourCalculationMode::PointsBased => point_children(nodes, eq.id) * (if eq.hours_override {
                    override_per_point_hours(eq, class)
                } else {
                    per_point_hours(t, class)
                }),
            }
        },
    }
}

/// The shares of the equipment among `part`, added up.
pub open spec fn template_total(
    nodes: Seq<ObjectView>,
    templates: Seq<TemplateView>,
    part: Seq<ObjectView>,
    class: HourClass,
) -> int
    decreases part.len(),
{
    if part.len() == 0 {
        0
    } else {
        let share = if part.last().object_type == ObjectType::Equipment {
            equipment_share(nodes, templates, part.last(), class)
        } else {
            0
        };
        template_total(nodes, templates, part.drop_last(), class) + share
    }
}

/// Engineering: 7 hours a controller, a quarter hour a point, and the
/// templates' shares.
pub open spec fn engineering_hours(p: ProjectView) -> int {
    700 * count_kind(p.objects, ObjectType::Controller) + 25 * count_kind(
        p.objects,
        ObjectType::Point,
    ) + template_total(p.objects, p.templates, p.objects, HourClass::Engineering)
}

/// Graphics: one hour a piece of equipment, and the templates' shares.
pub open spec fn graphics_hours(p: ProjectView) -> int {
    100 * count_kind(p.objects, ObjectType::Equipment) + template_total(
        p.objects,
        p.templates,
        p.objects,
        HourClass::Graphics,
    )
}

/// Commissioning: 5.5 hours a controller, 0.12 hours a point, and the
/// templates' shares.
pub open spec fn commissioning_hours(p: ProjectView) -> int {
    550 * count_kind(p.objects, ObjectType::Controller) + 12 * count_kind(
        p.objects,
        ObjectType::Point,
    ) + template_total(p.objects, p.templates, p.objects, HourClass::Commissioning)
}

/// `x`, or zero where `x` is negative.
pub open spec fn at_least_zero(x: int) -> int {
    if x < 0 {
        0
    } else {
        x
    }
}

/// What one custom line adds: quantity times hours per unit, a negative
/// figure counting as zero.
pub open spec fn line_hours(l: HourLineView) -> int {
    at_least_zero(l.quantity as int) * at_least_zero(l.hours_per_unit as int)
}

/// The custom lines added up.
pub open spec fn custom_total(lines: Seq<HourLineView>) -> int
    decreases lines.len(),
{
    if lines.len() == 0 {
        0
    } else {
        custom_total(lines.drop_last()) + line_hours(lines.last())
    }
}

/// Direct hours and custom lines together, in the unit of the custom lines.
pub open spec fn base_hours(p: ProjectView) -> int {
    (engineering_hours(p) + graphics_hours(p) + commissioning_hours(p)) * 100 + custom_total(
        p.custom_hour_lines,
    )
}

/// The three factors multiplied.
pub open spec fn combined_factor(e: EstimatorSettings) -> int {
    e.complexity_factor * e.renovation_factor * e.integration_factor
}

/// The base after the factors.
pub open spec fn adjusted_hours(p: ProjectView) -> int {
    base_hours(p) * combined_factor(p.estimator)
}

/// The three overhead percentages added, a negative sum counting as zero.
pub open spec fn overhead_percent(e: EstimatorSettings) -> int {
    at_least_zero(e.qa_percent + e.project_management_percent + e.risk_percent)
}

/// The overhead: the adjusted hours times the overhead percentage.
pub open spec fn overhead_hours(p: ProjectView) -> int {
    adjusted_hours(p) * overhead_percent(p.estimator)
}

/// Adjusted hours and overhead together.
pub open spec fn grand_total(p: ProjectView) -> int {
    adjusted_hours(p) * 10_000 + overhead_hours(p)
}

/// The project is within what an estimate takes.
pub open spec fn estimate_fits(p: ProjectView) -> bool {
    &&& p.objects.len() <= MAX_ESTIMATE_ITEMS
    &&& p.custom_hour_lines.len() <= MAX_ESTIMATE_ITEMS
    &&& i128::MIN <= grand_total(p) <= i128::MAX
}

/// The estimate of a project.
pub open spec fn estimate_of(p: ProjectView) -> Result<HoursEstimate, EstimateError> {
    if estimate_fits(p) {
        Ok(
            HoursEstimate {
                engineering: engineering_hours(p) as i128,
                graphics: graphics_hours(p) as i128,
                commissioning: commissioning_hours(p) as i128,
                custom_total: custom_total(p.custom_hour_lines) as i128,
                overhead_hours: overhead_hours(p) as i128,
                grand_total: grand_total(p) as i128,
            },
        )
    } else {
        Err(EstimateError::OutOfRange)
    }
}

/// Bound of one share, and of one custom line.
spec fn share_limit() -> int {
    0x8000_0000_0000_0000
}

proof fn lemma_product_bound(k: int, c: int)
    requires
        0 <= k <= 0xFFFF_FFFF,
        -0x8000_0000 <= c <= 0x7FFF_FFFF,
    ensures
        -share_limit() <= k * c <= share_limit(),
{
    assert(-0xFFFF_FFFF * 0x8000_0000 <= k * c <= 0xFFFF_FFFF * 0x8000_0000) by (nonlinear_arith)
        requires
            0 <= k <= 0xFFFF_FFFF,
            -0x8000_0000 <= c <= 0x7FFF_FFFF,
    ;
}

proof fn lemma_count_bound(nodes: Seq<ObjectView>)
    ensures
        count_kind(nodes, ObjectType::Controller) + count_kind(nodes, ObjectType::Equipment)
            + count_kind(nodes, ObjectType::Point) <= nodes.len(),
    decreases nodes.len(),
{
    if nodes.len() > 0 {
        lemma_count_bound(nodes.drop_last());
    }
}

proof fn lemma_children_bound(nodes: Seq<ObjectView>, parent: u64)
    ensures
        point_children(nodes, parent) <= nodes.len(),
    decreases nodes.len(),
{
    if nodes.len() > 0 {
        lemma_children_bound(nodes.drop_last(), parent);
    }
}

proof fn lemma_share_bound(
    nodes: Seq<ObjectView>,
    templates: Seq<TemplateView>,
    eq: ObjectView,
    class: HourClass,
)
    requires
        nodes.len() <= MAX_ESTIMATE_ITEMS,
    ensures
        -share_limit() <= equipment_share(nodes, templates, eq, class) <= share_limit(),
{
    lemma_children_bound(nodes, eq.id);
    let k = point_children(nodes, eq.id) as int;
    match template_named(templates, eq.template_name) {
        None => {},
        Some(t) => {
            lemma_product_bound(k, override_per_point_hours(eq, class));
            lemma_product_bound(k, per_point_hours(t, class));
        },
    }
}

proof fn lemma_template_total_bound(
    nodes: Seq<ObjectView>,
    templates: Seq<TemplateView>,
    part: Seq<ObjectView>,
    class: HourClass,
)
    requires
        nodes.len() <= MAX_ESTIMATE_ITEMS,
    ensures
        -part.len() * share_limit() <= template_total(nodes, templates, part, class) <= part.len()
            * share_limit(),
    decreases part.len(),
{
    if part.len() > 0 {
        lemma_template_total_bound(nodes, templates, part.drop_last(), class);
        lemma_share_bound(nodes, templates, part.last(), class);
        assert((part.len() - 1) * share_limit() + share_limit() == part.len() * share_limit())
            by (nonlinear_arith);
    }
}

proof fn lemma_line_bound(l: HourLineView)
    ensures
        0 <= line_hours(l) <= share_limit(),
{
    let q = at_least_zero(l.quantity as int);
    let h = at_least_zero(l.hours_per_unit as int);
    assert(0 <= q * h <= 0x7FFF_FFFF * 0x7FFF_FFFF) by (nonlinear_arith)
        requires
            0 <= q <= 0x7FFF_FFFF,
            0 <= h <= 0x7FFF_FFFF,
    ;
}

proof fn lemma_custom_bound(lines: Seq<HourLineView>)
    ensures
        0 <= custom_total(lines) <= lines.len() * share_limit(),
    decreases lines.len(),
{
    if lines.len() > 0 {
        lemma_custom_bound(lines.drop_last());
        lemma_line_bound(lines.last());
        assert((lines.len() - 1) * share_limit() + share_limit() == lines.len() * share_limit())
            by (nonlinear_arith);
    }
}

/// Position of the first template with the name `name`, if there is one.
pub fn find_template(templates: &Vec<EquipmentTemplate>, name: &String) -> (r: Option<usize>)
    ensures
        match r {
            Some(i) => is_first_named(template_views(templates@), name@, i as int)
                && template_named(template_views(templates@), name@) == Some(templates@[i as int]@),
            None => template_named(template_views(templates@), name@) is None,
        },
{
    let ghost views = template_views(templates@);
    let mut i: usize = 0;
    while i < templates.len()
        invariant
            i <= templates.len(),
            views == template_views(templates@),
            forall|j: int| 0 <= j < i ==> (#[trigger] views[j]).name != name@,
        decreases templates.len() - i,
    {
        if templates[i].name == *name {
            proof {
                let c = choose|c: int| is_first_named(views, name@, c);
                assert(is_first_named(views, name@, i as int));
                if c < i {
                    assert(views[c].name != name@);
                } else if i < c {
                    assert(views[i as int].name == name@);
                }
            }
            return Some(i);
        }
        i += 1;
    }
    None
}

/// Number of points among `objects` that name `parent` as their parent.
pub fn count_point_children(objects: &Vec<BasObject>, parent: u64) -> (n: usize)
    ensures
        n == point_children(object_views(objects@), parent),
{
    let ghost nodes = object_views(objects@);
    let mut n: usize = 0;
    let mut i: usize = 0;
    proof {
        assert(nodes.take(0) =~= Seq::<ObjectView>::empty());
    }
    while i < objects.len()
        invariant
            i <= objects.len(),
            nodes == object_views(objects@),
            n == point_children(nodes.take(i as int), parent),
            n <= i,
        decreases objects.len() - i,
    {
        proof {
            assert(nodes.take(i as int + 1).drop_last() =~= nodes.take(i as int));
        }
        let is_child = match objects[i].parent_id {
            Some(p) => p == parent,
            None => false,
        };
        let is_point = match objects[i].object_type {
            ObjectType::Point => true,
            _ => false,
        };
        if is_child && is_point {
            n += 1;
        }
        i += 1;
    }
    proof {
        assert(nodes.take(i as int) =~= nodes);
    }
    n
}

/// The custom lines added up.
pub fn custom_lines_total(lines: &Vec<HourLine>) -> (total: i128)
    requires
        lines.len() <= MAX_ESTIMATE_ITEMS,
    ensures
        total == custom_total(line_views(lines@)),
{
    let ghost views = line_views(lines@);
    let mut total: i128 = 0;
    let mut i: usize = 0;
    proof {
        assert(views.take(0) =~= Seq::<HourLineView>::empty());
    }
    while i < lines.len()
        invariant
            i <= lines.len(),
            lines.len() <= MAX_ESTIMATE_ITEMS,
            views == line_views(lines@),
            total == custom_total(views.take(i as int)),
        decreases lines.len() - i,
    {
        proof {
            assert(views.take(i as int + 1).drop_last() =~= views.take(i as int));
            lemma_custom_bound(views.take(i as int));
            lemma_line_bound(views[i as int]);
            assert(i * share_limit() <= 0xFFFF_FFFF * share_limit()) by (nonlinear_arith)
                requires
                    i <= 0xFFFF_FFFF,
            ;
        }
        let q: i128 = if lines[i].quantity < 0 {
            0
        } else {
            lines[i].quantity as i128
        };
        let h: i128 = if lines[i].hours_per_unit < 0 {
            0
        } else {
            lines[i].hours_per_unit as i128
        };
        assert(0 <= q * h <= share_limit()) by {
            assert(q * h == line_hours(views[i as int]));
        }
        total = total + q * h;
        i += 1;
    }
    proof {
        assert(views.take(i as int) =~= views);
    }
    total
}

/// How many objects of one kind a project holds.
#[derive(Debug, Clone, Copy, PartialEq, Eq, Structural)]
pub struct KindCount {
    pub kind: ObjectType,
    pub count: usize,
}

/// The entry for `kind`, if there is an object of that kind.
pub open spec fn kind_entry(nodes: Seq<ObjectView>, kind: ObjectType) -> Seq<KindCount> {
    if count_kind(nodes, kind) > 0 {
        seq![KindCount { kind, count: count_kind(nodes, kind) as usize }]
    } else {
        Seq::empty()
    }
}

/// The kinds that occur, each with the number of its objects, in the
/// order building, controller, equipment, point.
pub open spec fn counts_by_kind(nodes: Seq<ObjectView>) -> Seq<KindCount> {
    kind_entry(nodes, ObjectType::Building) + kind_entry(nodes, ObjectType::Controller)
        + kind_entry(nodes, ObjectType::Equipment) + kind_entry(nodes, ObjectType::Point)
}

/// Number of objects of kind `kind`.
pub fn count_objects(objects: &Vec<BasObject>, kind: ObjectType) -> (n: usize)
    ensures
        n == count_kind(object_views(objects@), kind),
{
    let ghost nodes = object_views(objects@);
    let mut n: usize = 0;
    let mut i: usize = 0;
    proof {
        assert(nodes.take(0) =~= Seq::<ObjectView>::empty());
    }
    while i < objects.len()
        invariant
            i <= objects.len(),
            nodes == object_views(objects@),
            n == count_kind(nodes.take(i as int), kind),
            n <= i,
        decreases objects.len() - i,
    {
        proof {
            assert(nodes.take(i as int + 1).drop_last() =~= nodes.take(i as int));
        }
        if objects[i].object_type == kind {
            n += 1;
        }
        i += 1;
    }
    proof {
        assert(nodes.take(i as int) =~= nodes);
    }
    n
}

impl Project {
    /// The kinds that occur in the project, each with the number of its
    /// objects.
    pub fn object_counts(&self) -> (r: Vec<KindCount>)
        ensures
            r@ == counts_by_kind(self@.objects),
    {
        let mut out: Vec<KindCount> = Vec::new();
        let kinds = [
            ObjectType::Building,
            ObjectType::Controller,
            ObjectType::Equipment,
            ObjectType::Point,
        ];
        let ghost nodes = self@.objects;
        let mut k: usize = 0;
        while k < 4
            invariant
                k <= 4,
                nodes == self@.objects,
                kinds@ =~= seq![
                    ObjectType::Building,
                    ObjectType::Controller,
                    ObjectType::Equipment,
                    ObjectType::Point,
                ],
                out@ =~= (if k >= 1 {
                    kind_entry(nodes, ObjectType::Building)
                } else {
                    Seq::empty()
                }) + (if k >= 2 {
                    kind_entry(nodes, ObjectType::Controller)
                } else {
                    Seq::empty()
                }) + (if k >= 3 {
                    kind_entry(nodes, ObjectType::Equipment)
                } else {
                    Seq::empty()
                }) + (if k >= 4 {
                    kind_entry(nodes, ObjectType::Point)
                } else {
                    Seq::empty()
                }),
            decreases 4 - k,
        {
            let kind = kinds[k];
            let count = count_objects(&self.objects, kind);
            if count > 0 {
                out.push(KindCount { kind, count });
            }
            k += 1;
        }
        out
    }

    /// What the equipment at position `index` adds to the three classes
    /// through its template.
    fn equipment_hours(&self, index: usize) -> (r: (i128, i128, i128))
        requires
            index < self.objects.len(),
            self.objects.len() <= MAX_ESTIMATE_ITEMS,
        ensures
            r.0 == equipment_share(
                self@.objects,
                self@.templates,
                self@.objects[index as int],
                HourClass::Engineering,
            ),
            r.1 == equipment_share(
                self@.objects,
                self@.templates,
                self@.objects[index as int],
                HourClass::Graphics,
            ),
            r.2 == equipment_share(
                self@.objects,
                self@.templates,
                self@.objects[index as int],
                HourClass::Commissioning,
            ),
    {
        let eq = &self.objects[index];
        proof {
            lemma_share_bound(self@.objects, self@.templates, eq@, HourClass::Engineering);
            lemma_share_bound(self@.objects, self@.templates, eq@, HourClass::Graphics);
            lemma_share_bound(self@.objects, self@.templates, eq@, HourClass::Commissioning);
            lemma_children_bound(self@.objects, eq.id);
        }
        let t = match find_template(&self.templates, &eq.template_name) {
            Some(i) => &self.templates[i],
            None => {
                return (0, 0, 0);
            },
        };
        let mode = if eq.hours_override {
            eq.hours_override_mode
        } else {
            t.hour_mode
        };
        match mode {
            HourCalculationMode::StaticByEquipment => {
                if eq.hours_override {
                    (
                        eq.override_engineering_hours as i128,
                        eq.override_graphics_hours as i128,
                        eq.override_commissioning_hours as i128,
                    )
                } else {
                    (
                        t.engineering_hours as i128,
                        t.graphics_hours as i128,
                        t.commissioning_hours as i128,
                    )
                }
            },
            HourCalculationMode::PointsBased => {
                let k = count_point_children(&self.objects, eq.id) as i128;
                let (e, g, c) = if eq.hours_override {
                    (
                        eq.override_engineering_hours_per_point as i128,
                        eq.override_graphics_hours_per_point as i128,
                        eq.override_commissioning_hours_per_point as i128,
                    )
                } else {
                    (
                        t.engineering_hours_per_point as i128,
                        t.graphics_hours_per_point as i128,
                        t.commissioning_hours_per_point as i128,
                    )
                };
                proof {
                    lemma_product_bound(k as int, e as int);
                    lemma_product_bound(k as int, g as int);
                    lemma_product_bound(k as int, c as int);
                }
                (k * e, k * g, k * c)
            },
        }
    }

    /// The estimate of the project: direct hours from the counts of
    /// objects and from the templates of the equipment, the custom lines,
    /// the base after the three factors, the overhead and the grand total.
    /// Nothing is changed and nothing is rounded.
    pub fn estimate_hours(&self) -> (r: Result<HoursEstimate, EstimateError>)
        ensures
            r == estimate_of(self@),
            r is Ok <==> estimate_fits(self@),
            r matches Ok(e) ==> {
                &&& e.engineering == engineering_hours(self@)
                &&& e.graphics == graphics_hours(self@)
                &&& e.commissioning == commissioning_hours(self@)
                &&& e.custom_total == custom_total(self@.custom_hour_lines)
                &&& e.overhead_hours == overhead_hours(self@)
                &&& e.grand_total == grand_total(self@)
            },
    {
        let ghost p = self@;
        let ghost nodes = self@.objects;
        let ghost templates = self@.templates;
        let n = self.objects.len();
        if n > MAX_ESTIMATE_ITEMS || self.custom_hour_lines.len() > MAX_ESTIMATE_ITEMS {
            return Err(EstimateError::OutOfRange);
        }
        let mut controllers: i128 = 0;
        let mut equipment: i128 = 0;
        let mut points: i128 = 0;
        let mut eng_t: i128 = 0;
        let mut gfx_t: i128 = 0;
        let mut cx_t: i128 = 0;
        let mut i: usize = 0;
        proof {
            assert(nodes.take(0) =~= Seq::<ObjectView>::empty());
        }
        while i < n
            invariant
                i <= n,
                n == self.objects.len(),
                n <= MAX_ESTIMATE_ITEMS,
                p == self@,
                nodes == p.objects,
                templates == p.templates,
                controllers == count_kind(nodes.take(i as int), ObjectType::Controller),
                equipment == count_kind(nodes.take(i as int), ObjectType::Equipment),
                points == count_kind(nodes.take(i as int), ObjectType::Point),
                eng_t == template_total(nodes, templates, nodes.take(i as int), HourClass::Engineering),
                gfx_t == template_total(nodes, templates, nodes.take(i as int), HourClass::Graphics),
                cx_t == template_total(
                    nodes,
                    templates,
                    nodes.take(i as int),
                    HourClass::Commissioning,
                ),
            decreases n - i,
        {
            proof {
                let part = nodes.take(i as int);
                assert(nodes.take(i as int + 1).drop_last() =~= part);
                assert(nodes.take(i as int + 1).last() == nodes[i as int]);
                lemma_count_bound(part);
                lemma_template_total_bound(nodes, templates, part, HourClass::Engineering);
                lemma_template_total_bound(nodes, templates, part, HourClass::Graphics);
                lemma_template_total_bound(nodes, templates, part, HourClass::Commissioning);
                lemma_share_bound(nodes, templates, nodes[i as int], HourClass::Engineering);
                lemma_share_bound(nodes, templates, nodes[i as int], HourClass::Graphics);
                lemma_share_bound(nodes, templates, nodes[i as int], HourClass::Commissioning);
                assert(i * share_limit() <= 0xFFFF_FFFF * share_limit()) by (nonlinear_arith)
                    requires
                        i <= 0xFFFF_FFFF,
                ;
            }
            match self.objects[i].object_type {
                ObjectType::Building => {},
                ObjectType::Controller => {
                    controllers = controllers + 1;
                },
                ObjectType::Point => {
                    points = points + 1;
                },
                ObjectType::Equipment => {
                    equipment = equipment + 1;
                    let (e, g, c) = self.equipment_hours(i);
                    eng_t = eng_t + e;
                    gfx_t = gfx_t + g;
                    cx_t = cx_t + c;
                },
            }
            i += 1;
        }
        proof {
            assert(nodes.take(i as int) =~= nodes);
            lemma_count_bound(nodes);
            lemma_template_total_bound(nodes, templates, nodes, HourClass::Engineering);
            lemma_template_total_bound(nodes, templates, nodes, HourClass::Graphics);
            lemma_template_total_bound(nodes, templates, nodes, HourClass::Commissioning);
            lemma_custom_bound(p.custom_hour_lines);
            assert(n * share_limit() <= 0xFFFF_FFFF * share_limit()) by (nonlinear_arith)
                requires
                    n <= 0xFFFF_FFFF,
            ;
            assert(p.custom_hour_lines.len() * share_limit() <= 0xFFFF_FFFF * share_limit())
                by (nonlinear_arith)
                requires
                    p.custom_hour_lines.len() <= 0xFFFF_FFFF,
            ;
        }
        let engineering = 700 * controllers + 25 * points + eng_t;
        let graphics = 100 * equipment + gfx_t;
        let commissioning = 550 * controllers + 12 * points + cx_t;
        let custom = custom_lines_total(&self.custom_hour_lines);
        let base = (engineering + graphics + commissioning) * 100 + custom;
        let f1 = self.estimator.complexity_factor as i128;
        let f2 = self.estimator.renovation_factor as i128;
        let f3 = self.estimator.integration_factor as i128;
        assert(-0x8000_0000 * 0x8000_0000 <= f1 * f2 <= 0x8000_0000 * 0x8000_0000)
            by (nonlinear_arith)
            requires
                -0x8000_0000 <= f1 <= 0x7FFF_FFFF,
                -0x8000_0000 <= f2 <= 0x7FFF_FFFF,
        ;
        let f12 = f1 * f2;
        assert(-0x4000_0000_0000_0000 * 0x8000_0000 <= f12 * f3 <= 0x4000_0000_0000_0000
            * 0x8000_0000) by (nonlinear_arith)
            requires
                -0x4000_0000_0000_0000 <= f12 <= 0x4000_0000_0000_0000,
                -0x8000_0000 <= f3 <= 0x7FFF_FFFF,
        ;
        let factor = f12 * f3;
        let percent_sum = self.estimator.qa_percent as i128
            + self.estimator.project_management_percent as i128 + self.estimator.risk_percent as i128;
        let percent: i128 = if percent_sum < 0 {
            0
        } else {
            percent_sum
        };
        let scale: i128 = 10_000 + percent;
        assert(base == base_hours(p));
        assert(factor == combined_factor(p.estimator));
        assert(percent == overhead_percent(p.estimator));
        let ghost adjusted_exact: int = base * factor;
        proof {
            assert(adjusted_exact == adjusted_hours(p));
            assert(grand_total(p) == adjusted_exact * scale) by (nonlinear_arith)
                requires
                    grand_total(p) == adjusted_exact * 10_000 + adjusted_exact * percent,
                    scale == 10_000 + percent,
            ;
        }
        let adjusted = match base.checked_mul(factor) {
            Some(a) => a,
            None => {
                proof {
                    lemma_scaled_out_of_range(adjusted_exact, scale as int);
                }
                return Err(EstimateError::OutOfRange);
            },
        };
        let grand = match adjusted.checked_mul(scale) {
            Some(g) => g,
            None => {
                return Err(EstimateError::OutOfRange);
            },
        };
        proof {
            lemma_part_in_range(adjusted_exact, percent as int, scale as int);
        }
        let overhead = adjusted * percent;
        Ok(
            HoursEstimate {
                engineering,
                graphics,
                commissioning,
                custom_total: custom,
                overhead_hours: overhead,
                grand_total: grand,
            },
        )
    }
}

/// A number outside the range stays outside when multiplied by one or more.
proof fn lemma_scaled_out_of_range(a: int, m: int)
    requires
        m >= 1,
        a > i128::MAX || a < i128::MIN,
    ensures
        a * m > i128::MAX || a * m < i128::MIN,
{
    if a > i128::MAX {
        assert(a * m >= a) by (nonlinear_arith)
            requires
                a > 0,
                m >= 1,
        ;
    } else {
        assert(a * m <= a) by (nonlinear_arith)
            requires
                a < 0,
                m >= 1,
        ;
    }
}

/// Where `a * m` is in range, so is `a * q` for `q` between zero and `m`.
proof fn lemma_part_in_range(a: int, q: int, m: int)
    requires
        0 <= q <= m,
        i128::MIN <= a * m <= i128::MAX,
    ensures
        i128::MIN <= a * q <= i128::MAX,
{
    if a >= 0 {
        assert(0 <= a * q <= a * m) by (nonlinear_arith)
            requires
                a >= 0,
                0 <= q <= m,
        ;
    } else {
        assert(a * m <= a * q <= 0) by (nonlinear_arith)
            requires
                a < 0,
                0 <= q <= m,
        ;
    }
}

/// No hour coefficient of a template is negative.
pub open spec fn template_nonnegative(t: TemplateView) -> bool {
    &&& t.engineering_hours >= 0
    &&& t.engineering_hours_per_point >= 0
    &&& t.graphics_hours >= 0
    &&& t.graphics_hours_per_point >= 0
    &&& t.commissioning_hours >= 0
    &&& t.commissioning_hours_per_point >= 0
}

/// No hour figure that a node sets for itself is negative.
pub open spec fn overrides_nonnegative(o: ObjectView) -> bool {
    &&& o.override_engineering_hours >= 0
    &&& o.override_engineering_hours_per_point >= 0
    &&& o.override_graphics_hours >= 0
    &&& o.override_graphics_hours_per_point >= 0
    &&& o.override_commissioning_hours >= 0
    &&& o.override_commissioning_hours_per_point >= 0
}

/// No hour coefficient and no factor of the project is negative.
pub open spec fn nonnegative_inputs(p: ProjectView) -> bool {
    &&& forall|i: int| 0 <= i < p.templates.len() ==> template_nonnegative(#[trigger] p.templates[i])
    &&& forall|i: int| 0 <= i < p.objects.len() ==> overrides_nonnegative(#[trigger] p.objects[i])
    &&& p.estimator.complexity_factor >= 0
    &&& p.estimator.renovation_factor >= 0
    &&& p.estimator.integration_factor >= 0
}

proof fn lemma_share_nonnegative(
    nodes: Seq<ObjectView>,
    templates: Seq<TemplateView>,
    eq: ObjectView,
    class: HourClass,
)
    requires
        forall|i: int| 0 <= i < templates.len() ==> template_nonnegative(#[trigger] templates[i]),
        overrides_nonnegative(eq),
    ensures
        equipment_share(nodes, templates, eq, class) >= 0,
{
    if exists|i: int| is_first_named(templates, eq.template_name, i) {
        let i = choose|i: int| is_first_named(templates, eq.template_name, i);
        let t = templates[i];
        assert(template_nonnegative(t));
        let k = point_children(nodes, eq.id) as int;
        let a = override_per_point_hours(eq, class);
        let b = per_point_hours(t, class);
        assert(k * a >= 0 && k * b >= 0) by (nonlinear_arith)
            requires
                k >= 0,
                a >= 0,
                b >= 0,
        ;
    }
}

proof fn lemma_template_total_nonnegative(
    nodes: Seq<ObjectView>,
    templates: Seq<TemplateView>,
    part: Seq<ObjectView>,
    class: HourClass,
)
    requires
        forall|i: int| 0 <= i < templates.len() ==> template_nonnegative(#[trigger] templates[i]),
        forall|i: int| 0 <= i < part.len() ==> overrides_nonnegative(#[trigger] part[i]),
    ensures
        template_total(nodes, templates, part, class) >= 0,
    decreases part.len(),
{
    if part.len() > 0 {
        assert forall|i: int| 0 <= i < part.drop_last().len() implies overrides_nonnegative(
            #[trigger] part.drop_last()[i],
        ) by {
            assert(part.drop_last()[i] == part[i]);
        }
        lemma_template_total_nonnegative(nodes, templates, part.drop_last(), class);
        assert(overrides_nonnegative(part[part.len() - 1]));
        lemma_share_nonnegative(nodes, templates, part.last(), class);
    }
}

/// Where no coefficient and no factor is negative, none of the six figures
/// of the estimate is negative.
pub proof fn lemma_estimate_nonnegative(p: ProjectView)
    requires
        nonnegative_inputs(p),
    ensures
        engineering_hours(p) >= 0,
        graphics_hours(p) >= 0,
        commissioning_hours(p) >= 0,
        custom_total(p.custom_hour_lines) >= 0,
        overhead_hours(p) >= 0,
        grand_total(p) >= 0,
{
    lemma_template_total_nonnegative(p.objects, p.templates, p.objects, HourClass::Engineering);
    lemma_template_total_nonnegative(p.objects, p.templates, p.objects, HourClass::Graphics);
    lemma_template_total_nonnegative(p.objects, p.templates, p.objects, HourClass::Commissioning);
    lemma_custom_bound(p.custom_hour_lines);
    let b = base_hours(p);
    let f1 = p.estimator.complexity_factor as int;
    let f2 = p.estimator.renovation_factor as int;
    let f3 = p.estimator.integration_factor as int;
    let q = overhead_percent(p.estimator);
    assert(b * (f1 * f2 * f3) >= 0 && (b * (f1 * f2 * f3)) * q >= 0) by (nonlinear_arith)
        requires
            b >= 0,
            f1 >= 0,
            f2 >= 0,
            f3 >= 0,
            q >= 0,
    ;
}

} // verus!
