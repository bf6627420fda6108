//! Looking after a project: which parts of the program it uses, what
//! about it deserves a warning, and a pass that fills in missing labels.

use vstd::prelude::*;
use crate::model::{BasObject, ObjectType, ObjectView, Project, ProjectView, object_views};
use crate::settings::recommended;
use crate::text::{
    blank, chars_of, decimal, is_blank, joined, numbered, push_decimal, trim_text, trimmed,
};

verus! {

/// Bytes that a character takes in a text.
pub open spec fn char_width(c: char) -> nat {
    let u = c as u32;
    if u < 0x80 {
        1
    } else if u < 0x800 {
        2
    } else if u < 0x10000 {
        3
    } else {
        4
    }
}

/// Bytes that a text takes.
pub open spec fn text_width(s: Seq<char>) -> nat
    decreases s.len(),
{
    if s.len() == 0 {
        0
    } else {
        text_width(s.drop_last()) + char_width(s.last())
    }
}

/// Whether `s` takes more than `limit` bytes.
pub fn wider_than(s: &str, limit: usize) -> (r: bool)
    ensures
        r == (text_width(s@) > limit),
{
    let chars = chars_of(s);
    let mut width: usize = 0;
    let mut i: usize = 0;
    proof {
        assert(s@.take(0) =~= Seq::<char>::empty());
    }
    while i < chars.len()
        invariant
            i <= chars.len(),
            chars@ == s@,
            width == text_width(s@.take(i as int)),
            width <= limit,
        decreases chars.len() - i,
    {
        proof {
            assert(s@.take(i as int + 1).drop_last() =~= s@.take(i as int));
            lemma_width_grows(s@, i as int + 1);
        }
        let u = chars[i] as u32;
        let w: usize = if u < 0x80 {
            1
        } else if u < 0x800 {
            2
        } else if u < 0x10000 {
            3
        } else {
            4
        };
        if w > limit - width {
            return true;
        }
        width = width + w;
        i += 1;
    }
    proof {
        assert(s@.take(i as int) =~= s@);
    }
    false
}

proof fn lemma_width_grows(s: Seq<char>, k: int)
    requires
        0 <= k <= s.len(),
    ensures
        text_width(s.take(k)) <= text_width(s),
    decreases s.len() - k,
{
    if k < s.len() {
        lemma_width_grows(s, k + 1);
        assert(s.take(k + 1).drop_last() =~= s.take(k));
    } else {
        assert(s.take(k) =~= s);
    }
}

/// Something about a project that deserves a warning.
#[derive(Debug, Clone, Copy, PartialEq, Eq, Structural)]
pub enum HealthIssue {
    UiScaleOutOfRange,
    SearchQueryLong,
    EquipmentTagMissing,
    AutosaveInterval,
}

impl HealthIssue {
    /// The warning in words.
    pub open spec fn message_text(self) -> Seq<char> {
        match self {
            HealthIssue::UiScaleOutOfRange => "UI scale is outside recommended ergonomic range (0.95\u{2013}1.25)."@,
            HealthIssue::SearchQueryLong => "Search query is very long; consider narrowing terms for faster scanning."@,
            HealthIssue::EquipmentTagMissing => "Some equipment objects are missing equipment tags."@,
            HealthIssue::AutosaveInterval => "Autosave interval is above 15 minutes."@,
        }
    }

    /// The warning in words.
    pub fn message(self) -> (r: &'static str)
        ensures
            r@ == self.message_text(),
    {
        match self {
            HealthIssue::UiScaleOutOfRange => "UI scale is outside recommended ergonomic range (0.95\u{2013}1.25).",
            HealthIssue::SearchQueryLong => "Search query is very long; consider narrowing terms for faster scanning.",
            HealthIssue::EquipmentTagMissing => "Some equipment objects are missing equipment tags.",
            HealthIssue::AutosaveInterval => "Autosave interval is above 15 minutes.",
        }
    }
}

/// Some piece of equipment has a blank tag.
pub open spec fn tag_missing(nodes: Seq<ObjectView>) -> bool {
    exists|i: int|
        #![trigger nodes[i]]
        0 <= i < nodes.len() && nodes[i].object_type == ObjectType::Equipment && blank(
            nodes[i].equipment_tag,
        )
}

/// `issue`, if `holds`.
pub open spec fn issue_if(holds: bool, issue: HealthIssue) -> Seq<HealthIssue> {
    if holds {
        seq![issue]
    } else {
        Seq::empty()
    }
}

/// The warnings for a project and the search text of the session: a scale
/// outside 0.95 to 1.25, a search text of more than 40 bytes after
/// trimming, equipment without a tag, autosave after more than 15 minutes.
pub open spec fn health_issues(p: ProjectView, query: Seq<char>) -> Seq<HealthIssue> {
    issue_if(p.settings.ui_scale < 95 || p.settings.ui_scale > 125, HealthIssue::UiScaleOutOfRange)
        + issue_if(text_width(trimmed(query)) > 40, HealthIssue::SearchQueryLong) + issue_if(
        tag_missing(p.objects),
        HealthIssue::EquipmentTagMissing,
    ) + issue_if(p.settings.autosave_minutes > 15, HealthIssue::AutosaveInterval)
}

/// Whether some piece of equipment has a blank tag.
pub fn any_tag_missing(objects: &Vec<BasObject>) -> (r: bool)
    ensures
        r == tag_missing(object_views(objects@)),
{
    let ghost nodes = object_views(objects@);
    let mut i: usize = 0;
    while i < objects.len()
        invariant
            i <= objects.len(),
            nodes == object_views(objects@),
            forall|j: int|
                #![trigger nodes[j]]
                0 <= j < i ==> !(nodes[j].object_type == ObjectType::Equipment && blank(
                    nodes[j].equipment_tag,
                )),
        decreases objects.len() - i,
    {
        let is_equipment = match objects[i].object_type {
            ObjectType::Equipment => true,
            _ => false,
        };
        if is_equipment && is_blank(objects[i].equipment_tag.as_str()) {
            assert(nodes[i as int].object_type == ObjectType::Equipment);
            return true;
        }
        i += 1;
    }
    false
}

/// One part of the program and whether the project uses it.
#[derive(Debug, Clone)]
pub struct FeatureMetric {
    pub name: &'static str,
    pub is_used: bool,
    pub note: String,
}

pub struct FeatureMetricView {
    pub name: Seq<char>,
    pub is_used: bool,
    pub note: Seq<char>,
}

impl View for FeatureMetric {
    type V = FeatureMetricView;

    open spec fn view(&self) -> FeatureMetricView {
        FeatureMetricView { name: self.name@, is_used: self.is_used, note: self.note@ }
    }
}

/// Some piece of equipment names a template.
pub open spec fn template_in_use(nodes: Seq<ObjectView>) -> bool {
    exists|i: int|
        #![trigger nodes[i]]
        0 <= i < nodes.len() && nodes[i].object_type == ObjectType::Equipment
            && nodes[i].template_name.len() > 0
}

/// The five parts of the program with their use by the project.
pub open spec fn feature_metrics_of(p: ProjectView) -> Seq<FeatureMetricView> {
    seq![
        FeatureMetricView {
            name: "Proposal metadata"@,
            is_used: !blank(p.proposal.client_name) || !blank(p.proposal.project_location)
                || !blank(p.proposal.proposal_number),
            note: "Client/location/proposal fields"@,
        },
        FeatureMetricView {
            name: "BAS object modeling"@,
            is_used: p.objects.len() > 1,
            note: decimal(p.objects.len()) + " objects in hierarchy"@,
        },
        FeatureMetricView {
            name: "Template-driven engineering"@,
            is_used: template_in_use(p.objects),
            note: "Equipment assigned to templates"@,
        },
        FeatureMetricView {
            name: "Drawing overlay"@,
            is_used: p.overlay_pdf is Some || p.overlay_nodes.len() > 0,
            note: decimal(p.overlay_nodes.len()) + " tokens \u{2022} "@ + decimal(
                p.overlay_lines.len(),
            ) + " routes"@,
        },
        FeatureMetricView {
            name: "Estimator adjustments"@,
            is_used: p.custom_hour_lines.len() > 0 || p.estimator.complexity_factor != 100
                || p.estimator.renovation_factor != 100 || p.estimator.integration_factor != 100,
            note: decimal(p.custom_hour_lines.len()) + " custom lines"@,
        },
    ]
}

/// Whether some piece of equipment names a template.
pub fn any_template_in_use(objects: &Vec<BasObject>) -> (r: bool)
    ensures
        r == template_in_use(object_views(objects@)),
{
    let ghost nodes = object_views(objects@);
    let mut i: usize = 0;
    while i < objects.len()
        invariant
            i <= objects.len(),
            nodes == object_views(objects@),
            forall|j: int|
                #![trigger nodes[j]]
                0 <= j < i ==> !(nodes[j].object_type == ObjectType::Equipment
                    && nodes[j].template_name.len() > 0),
        decreases objects.len() - i,
    {
        let is_equipment = match objects[i].object_type {
            ObjectType::Equipment => true,
            _ => false,
        };
        if is_equipment && !objects[i].template_name.as_str().is_empty() {
            assert(nodes[i as int].object_type == ObjectType::Equipment);
            return true;
        }
        i += 1;
    }
    false
}

/// `n` in decimal, followed by `tail`.
fn counted(n: usize, tail: &str) -> (s: String)
    ensures
        s@ == decimal(n as nat) + tail@,
{
    let mut s = String::new();
    push_decimal(&mut s, n as u64);
    s.append(tail);
    proof {
        assert(Seq::<char>::empty() + decimal(n as nat) =~= decimal(n as nat));
    }
    s
}

/// The node after the pass that fills in labels: a piece of equipment
/// with a blank tag gets one made of its type, trimmed, or of `EQ` where
/// the type is blank, a hyphen and its identifier; a piece of equipment or
/// a point with a blank name is named after its kind and identifier.
pub open spec fn labelled(o: ObjectView) -> ObjectView {
    match o.object_type {
        ObjectType::Equipment => ObjectView {
            equipment_tag: if blank(o.equipment_tag) {
                joined(
                    if blank(o.equipment_type) {
                        "EQ"@
                    } else {
                        trimmed(o.equipment_type)
                    },
                    "-"@,
                    decimal(o.id as nat),
                )
            } else {
                o.equipment_tag
            },
            name: if blank(o.name) {
                joined("Equipment"@, " "@, decimal(o.id as nat))
            } else {
                o.name
            },
            ..o
        },
        ObjectType::Point => ObjectView {
            name: if blank(o.name) {
                joined("Point"@, " "@, decimal(o.id as nat))
            } else {
                o.name
            },
            ..o
        },
        _ => o,
    }
}

/// The project after the pass: settings in the recommended ranges, and
/// every node with its labels filled in.
pub open spec fn tidied(p: ProjectView) -> ProjectView {
    ProjectView {
        objects: p.objects.map_values(|o: ObjectView| labelled(o)),
        ..recommended(p)
    }
}

impl Project {
    /// The warnings for the project and the search text `query`.
    pub fn ux_health_issues(&self, query: &str) -> (r: Vec<HealthIssue>)
        ensures
            r@ == health_issues(self@, query@),
    {
        let mut issues: Vec<HealthIssue> = Vec::new();
        if self.settings.ui_scale < 95 || self.settings.ui_scale > 125 {
            issues.push(HealthIssue::UiScaleOutOfRange);
        }
        let ghost first = issues@;
        let shortened = trim_text(query);
        if wider_than(shortened.as_str(), 40) {
            issues.push(HealthIssue::SearchQueryLong);
        }
        let ghost second = issues@;
        if any_tag_missing(&self.objects) {
            issues.push(HealthIssue::EquipmentTagMissing);
        }
        let ghost third = issues@;
        if self.settings.autosave_minutes > 15 {
            issues.push(HealthIssue::AutosaveInterval);
        }
        proof {
            let p = self@;
            let a = issue_if(
                p.settings.ui_scale < 95 || p.settings.ui_scale > 125,
                HealthIssue::UiScaleOutOfRange,
            );
            let b = issue_if(text_width(trimmed(query@)) > 40, HealthIssue::SearchQueryLong);
            let c = issue_if(tag_missing(p.objects), HealthIssue::EquipmentTagMissing);
            let d = issue_if(p.settings.autosave_minutes > 15, HealthIssue::AutosaveInterval);
            assert(first =~= a);
            assert(second =~= a + b);
            assert(third =~= a + b + c);
            assert(issues@ =~= a + b + c + d);
        }
        issues
    }

    /// The five parts of the program with their use by the project.
    pub fn feature_metrics(&self) -> (r: Vec<FeatureMetric>)
        ensures
            r@.map_values(|m: FeatureMetric| m@) == feature_metrics_of(self@),
    {
        let mut out: Vec<FeatureMetric> = Vec::new();
        out.push(
            FeatureMetric {
                name: "Proposal metadata",
                is_used: !is_blank(self.proposal.client_name.as_str()) || !is_blank(
                    self.proposal.project_location.as_str(),
                ) || !is_blank(self.proposal.proposal_number.as_str()),
                note: "Client/location/proposal fields".to_owned(),
            },
        );
        out.push(
            FeatureMetric {
                name: "BAS object modeling",
                is_used: self.objects.len() > 1,
                note: counted(self.objects.len(), " objects in hierarchy"),
            },
        );
        out.push(
            FeatureMetric {
                name: "Template-driven engineering",
                is_used: any_template_in_use(&self.objects),
                note: "Equipment assigned to templates".to_owned(),
            },
        );
        let mut overlay_note = counted(self.overlay_nodes.len(), " tokens \u{2022} ");
        push_decimal(&mut overlay_note, self.overlay_lines.len() as u64);
        overlay_note.append(" routes");
        out.push(
            FeatureMetric {
                name: "Drawing overlay",
                is_used: self.overlay_pdf.is_some() || self.overlay_nodes.len() > 0,
                note: overlay_note,
            },
        );
        out.push(
            FeatureMetric {
                name: "Estimator adjustments",
                is_used: self.custom_hour_lines.len() > 0 || self.estimator.complexity_factor != 100
                    || self.estimator.renovation_factor != 100 || self.estimator.integration_factor
                    != 100,
                note: counted(self.custom_hour_lines.len(), " custom lines"),
            },
        );
        proof {
            assert(out@.map_values(|m: FeatureMetric| m@) =~= feature_metrics_of(self@));
        }
        out
    }

    /// Brings settings into the recommended ranges and fills in missing
    /// labels of equipment and points.
    pub fn run_qol_pass(&mut self)
        ensures
            final(self)@ == tidied(old(self)@),
    {
        self.apply_recommended_settings();
        let ghost src = object_views(self.objects@);
        let n = self.objects.len();
        let mut i: usize = 0;
        while i < n
            invariant
                i <= n,
                n == self.objects.len(),
                src.len() == n,
                forall|j: int| 0 <= j < i ==> (#[trigger] object_views(self.objects@)[j]) == labelled(src[j]),
                forall|j: int| i <= j < n ==> (#[trigger] object_views(self.objects@)[j]) == src[j],
                self@ == (ProjectView {
                    objects: object_views(self.objects@),
                    ..recommended(old(self)@)
                }),
            decreases n - i,
        {
            let ghost before = self.objects@;
            let id = self.objects[i].id;
            match self.objects[i].object_type {
                ObjectType::Equipment => {
                    if is_blank(self.objects[i].equipment_tag.as_str()) {
                        let tag = if is_blank(self.objects[i].equipment_type.as_str()) {
                            numbered("EQ", "-", id)
                        } else {
                            let kind = trim_text(self.objects[i].equipment_type.as_str());
                            numbered(kind.as_str(), "-", id)
                        };
                        self.objects[i].equipment_tag = tag;
                    }
                    if is_blank(self.objects[i].name.as_str()) {
                        self.objects[i].name = numbered("Equipment", " ", id);
                    }
                },
                ObjectType::Point => {
                    if is_blank(self.objects[i].name.as_str()) {
                        self.objects[i].name = numbered("Point", " ", id);
                    }
                },
                _ => {},
            }
            proof {
                assert(self.objects@.len() == before.len());
                assert forall|j: int| 0 <= j < n && j != i implies self.objects@[j] == before[j] by {}
                assert forall|j: int| i < j < n implies (#[trigger] object_views(self.objects@)[j])
                    == src[j] by {
                    assert(self.objects@[j] == before[j]);
                    assert(object_views(before)[j] == src[j]);
                }
                assert forall|j: int| 0 <= j < i implies (#[trigger] object_views(self.objects@)[j])
                    == labelled(src[j]) by {
                    assert(self.objects@[j] == before[j]);
                    assert(object_views(before)[j] == labelled(src[j]));
                }
                assert(object_views(before)[i as int] == src[i as int]);
            }
            i += 1;
        }
        proof {
            assert(object_views(self.objects@) =~= src.map_values(|o: ObjectView| labelled(o)));
        }
    }
}

} // verus!
