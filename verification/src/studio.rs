//! A working session: the project that is open, what is selected in it,
//! the edit log of its drawing and the bytes of its assets.  The session
//! holds the rules that lie above the plain hierarchy: which deletion is
//! allowed, what is selected after one, what a click on the drawing does.

use vstd::prelude::*;
use crate::catalog::{ensure_template_seeded, seeded};
use crate::codec::{
    CodecError, EntryView, ProjectArchive, asset_of, bytes_of, encode_project_file, file_entries,
    project_file, read_asset, write_fault, zip_writable,
};
use crate::idset::holds_id;
use crate::invariants::{
    consistent, keeps_invariants, lemma_drawing_keeps_consistent, lemma_drawing_keeps_well_formed,
    lemma_edit_keeps_invariants, lemma_starter_project_well_formed, well_formed,
};
use crate::graph::{
    GraphError, can_reparent, find_object, has_id, in_subtree, is_first,
    legal_placement, lemma_first_unique, lemma_lookup_some, lookup, with_duplicate, with_object,
    with_parent, without_subtree,
};
use crate::model::{
    EquipmentTemplate, ObjectType, ObjectView, OverlayLine, OverlayNode, Project, ProjectView,
    TemplateView, object_views, template_views, text_of,
};
use crate::search::{is_archived, template_is_archived};
use crate::overlay::{OverlayHistory, OverlayState, after_push, after_redo, after_undo};
use crate::repair::repaired;
use crate::settings::starter_project;
use crate::templates::synced;

verus! {

/// A position on the drawing; both coordinates as bit patterns of
/// single-precision numbers.
#[derive(Debug, Clone, Copy, PartialEq, Eq, Structural)]
pub struct CanvasPoint {
    pub x: u32,
    pub y: u32,
}

/// The tool that a click on the drawing works with.
#[derive(Debug, Clone, Copy, PartialEq, Eq, Structural)]
pub enum OverlayTool {
    Route,
    PlaceController,
    PlaceEquipment,
}

impl OverlayTool {
    /// The name of the tool as the interface shows it.
    pub open spec fn label_text(self) -> Seq<char> {
        match self {
            OverlayTool::Route => "Wire tool"@,
            OverlayTool::PlaceController => "Place controller"@,
            OverlayTool::PlaceEquipment => "Place equipment"@,
        }
    }

    /// The name of the tool.
    pub fn label(self) -> (r: &'static str)
        ensures
            r@ == self.label_text(),
    {
        match self {
            OverlayTool::Route => "Wire tool",
            OverlayTool::PlaceController => "Place controller",
            OverlayTool::PlaceEquipment => "Place equipment",
        }
    }
}

/// A token that waits for the object it is to stand for.
#[derive(Debug, Clone, Copy, PartialEq, Eq, Structural)]
pub struct PendingDrop {
    pub kind: ObjectType,
    pub at: CanvasPoint,
}

/// What became of a request to delete an object.
#[derive(Debug, Clone, Copy, PartialEq, Eq, Structural)]
pub enum DeleteOutcome {
    /// The object and its subtree are gone.
    Deleted,
    /// The object is a building; buildings are kept.
    BlockedBuilding,
    /// No object has the identifier.
    Missing,
}

/// What became of a request to place a token.
#[derive(Debug, Clone, Copy, PartialEq, Eq, Structural)]
pub enum PlaceOutcome {
    /// The token was placed.
    Placed,
    /// No object has the identifier.
    MissingObject,
    /// Only controllers and equipment can stand on the drawing.
    WrongKind,
}

/// The session.
#[derive(Debug)]
pub struct Studio {
    pub project: Project,
    pub selected_object: Option<u64>,
    pub history: OverlayHistory,
    pub active_line_start: Option<CanvasPoint>,
    pub pending_overlay_drop: Option<PendingDrop>,
    pub overlay_tool: OverlayTool,
    pub user_templates: Vec<EquipmentTemplate>,
    pub overview_image_bytes: Option<Vec<u8>>,
    pub overlay_pdf_bytes: Option<Vec<u8>>,
}

/// The identifier of the first object, if there is one.
pub open spec fn first_id(nodes: Seq<ObjectView>) -> Option<u64> {
    if nodes.len() > 0 {
        Some(nodes[0].id)
    } else {
        None
    }
}

/// The object `id` may be deleted on request: it exists and is no building.
pub open spec fn may_delete(nodes: Seq<ObjectView>, id: u64) -> bool {
    lookup(nodes, id) is Some && lookup(nodes, id)->0.object_type != ObjectType::Building
}

/// The object `id` may stand on the drawing: it exists and is a controller
/// or a piece of equipment.
pub open spec fn may_place(nodes: Seq<ObjectView>, id: u64) -> bool {
    lookup(nodes, id) is Some && (lookup(nodes, id)->0.object_type == ObjectType::Controller
        || lookup(nodes, id)->0.object_type == ObjectType::Equipment)
}

/// The positions of the templates that are offered for selection: all of
/// them, or all but the archived ones.
pub open spec fn offered(templates: Seq<TemplateView>, show_archived: bool) -> Seq<int>
    decreases templates.len(),
{
    if templates.len() == 0 {
        Seq::empty()
    } else if show_archived || !is_archived(templates.last().name) {
        offered(templates.drop_last(), show_archived).push(templates.len() - 1)
    } else {
        offered(templates.drop_last(), show_archived)
    }
}

/// The identifiers of the nodes of kind `kind`, in their order.
pub open spec fn ids_of_kind(nodes: Seq<ObjectView>, kind: ObjectType) -> Seq<u64>
    decreases nodes.len(),
{
    if nodes.len() == 0 {
        Seq::empty()
    } else if nodes.last().object_type == kind {
        ids_of_kind(nodes.drop_last(), kind).push(nodes.last().id)
    } else {
        ids_of_kind(nodes.drop_last(), kind)
    }
}

/// The project with the template name of the first node `id` set to
/// `name`; the project itself where no node has that identifier.
pub open spec fn with_template_name(p: ProjectView, id: u64, name: Seq<char>) -> ProjectView {
    if lookup(p.objects, id) is Some {
        let i = choose|i: int| is_first(p.objects, id, i);
        ProjectView {
            objects: p.objects.update(i, ObjectView { template_name: name, ..p.objects[i] }),
            ..p
        }
    } else {
        p
    }
}

/// The project with the hours override of the first node `id` set to
/// `on`; the project itself where no node has that identifier.
pub open spec fn with_hours_override(p: ProjectView, id: u64, on: bool) -> ProjectView {
    if lookup(p.objects, id) is Some {
        let i = choose|i: int| is_first(p.objects, id, i);
        ProjectView {
            objects: p.objects.update(i, ObjectView { hours_override: on, ..p.objects[i] }),
            ..p
        }
    } else {
        p
    }
}

/// The waiting token can be bound to `object_id`: a token waits, and the
/// object is there and of the kind that the token waits for.
pub open spec fn may_bind(pending: Option<PendingDrop>, nodes: Seq<ObjectView>, object_id: u64) -> bool {
    &&& pending is Some
    &&& lookup(nodes, object_id) is Some
    &&& lookup(nodes, object_id)->0.object_type == pending->0.kind
}

/// The drawing of a project as one value.
pub open spec fn drawing(p: ProjectView) -> OverlayState {
    OverlayState { nodes: p.overlay_nodes, lines: p.overlay_lines }
}

/// The project with a token for `object_id` at `at`; the token takes the
/// next free identifier.
pub open spec fn with_token(p: ProjectView, object_id: u64, at: CanvasPoint) -> ProjectView {
    ProjectView {
        overlay_nodes: p.overlay_nodes.push(
            OverlayNode { id: p.next_id, object_id, x: at.x, y: at.y },
        ),
        next_id: (p.next_id + 1) as u64,
        ..p
    }
}

/// The project with a line from `from` to `to`.
pub open spec fn with_line(p: ProjectView, from: CanvasPoint, to: CanvasPoint) -> ProjectView {
    ProjectView {
        overlay_lines: p.overlay_lines.push(
            OverlayLine { from_x: from.x, from_y: from.y, to_x: to.x, to_y: to.y },
        ),
        ..p
    }
}

impl Studio {
    /// The state of the drawing tools is the same in both.
    pub open spec fn same_tools(self, other: Studio) -> bool {
        &&& self.active_line_start == other.active_line_start
        &&& self.pending_overlay_drop == other.pending_overlay_drop
        &&& self.overlay_tool == other.overlay_tool
    }

    /// The templates of the user and the bytes of the assets are the same
    /// in both.
    pub open spec fn same_holdings(self, other: Studio) -> bool {
        &&& self.user_templates == other.user_templates
        &&& self.overview_image_bytes == other.overview_image_bytes
        &&& self.overlay_pdf_bytes == other.overlay_pdf_bytes
    }

    /// But for project and selection, `self` and `other` are the same.
    pub open spec fn same_besides_project(self, other: Studio) -> bool {
        &&& self.history@ == other.history@
        &&& self.same_tools(other)
        &&& self.same_holdings(other)
    }

    /// But for project and edit log, `self` and `other` are the same.
    pub open spec fn same_besides_drawing(self, other: Studio) -> bool {
        &&& self.selected_object == other.selected_object
        &&& self.same_tools(other)
        &&& self.same_holdings(other)
    }

    /// A session on a new project, with the templates of the user.
    pub fn new(user_templates: Vec<EquipmentTemplate>) -> (s: Studio)
        ensures
            s.project.project_uuid != 0,
            s.project@ == starter_project(s.project.project_uuid),
            well_formed(s.project@),
            s.selected_object == Some(1u64),
            s.history@.undo.len() == 0,
            s.history@.redo.len() == 0,
            s.active_line_start is None,
            s.pending_overlay_drop is None,
            s.overlay_tool == OverlayTool::Route,
            s.user_templates == user_templates,
            s.overview_image_bytes is None,
            s.overlay_pdf_bytes is None,
    {
        let project = Project::default();
        proof {
            lemma_starter_project_well_formed(project.project_uuid);
        }
        Studio {
            project,
            selected_object: Some(1),
            history: OverlayHistory::new(),
            active_line_start: None,
            pending_overlay_drop: None,
            overlay_tool: OverlayTool::Route,
            user_templates,
            overview_image_bytes: None,
            overlay_pdf_bytes: None,
        }
    }

    /// Adds an object and selects it.  A refused placement changes nothing.
    pub fn add_object(&mut self, object_type: ObjectType, parent: Option<u64>) -> (r: Result<
        u64,
        GraphError,
    >)
        requires
            old(self).project.next_id < u64::MAX,
        ensures
            r is Ok <==> legal_placement(old(self).project@.objects, object_type, parent),
            r matches Ok(id) ==> id == old(self).project.next_id && final(self).project@
                == with_object(old(self).project@, object_type, parent)
                && final(self).selected_object == Some(id),
            r matches Err(e) ==> e == GraphError::InvalidParent && final(self).project == old(
                self,
            ).project && final(self).selected_object == old(self).selected_object,
            final(self).same_besides_project(*old(self)),
            keeps_invariants(old(self).project@, final(self).project@),
    {
        let r = self.project.add_object(object_type, parent);
        match r {
            Ok(id) => {
                self.selected_object = Some(id);
            },
            Err(_) => {},
        }
        r
    }

    /// Duplicates an object and selects the copy.
    pub fn duplicate_object(&mut self, id: u64) -> (r: Option<u64>)
        requires
            old(self).project.next_id < u64::MAX,
        ensures
            r is Some <==> has_id(old(self).project@.objects, id),
            r matches Some(n) ==> n == old(self).project.next_id && final(self).project@
                == with_duplicate(old(self).project@, id) && final(self).selected_object == Some(n),
            r is None ==> final(self).project == old(self).project && final(self).selected_object
                == old(self).selected_object,
            final(self).same_besides_project(*old(self)),
            keeps_invariants(old(self).project@, final(self).project@),
    {
        let r = self.project.duplicate_object(id);
        match r {
            Some(n) => {
                self.selected_object = Some(n);
            },
            None => {},
        }
        r
    }

    /// Whether a request to delete `id` is granted: buildings are kept,
    /// though the hierarchy itself could lose them.
    pub fn can_delete_object(&self, id: u64) -> (r: bool)
        ensures
            r == may_delete(self.project@.objects, id),
    {
        match find_object(&self.project.objects, id) {
            Some(i) => match self.project.objects[i].object_type {
                ObjectType::Building => false,
                _ => true,
            },
            None => false,
        }
    }

    /// Removes `id` with its subtree and the tokens of the removed.  Where
    /// the selection was among the removed, the first object that is left
    /// is selected.  This is the plain removal; it asks for no permission.
    pub fn remove_object_subtree(&mut self, id: u64)
        ensures
            final(self).project@ == without_subtree(old(self).project@, id),
            final(self).selected_object == (match old(self).selected_object {
                Some(s) => if in_subtree(old(self).project@.objects, s, id) {
                    first_id(final(self).project@.objects)
                } else {
                    Some(s)
                },
                None => None,
            }),
            final(self).same_besides_project(*old(self)),
            keeps_invariants(old(self).project@, final(self).project@),
    {
        let removed = self.project.remove_object_subtree(id);
        match self.selected_object {
            Some(s) => {
                if holds_id(&removed, s) {
                    self.selected_object = if self.project.objects.len() > 0 {
                        Some(self.project.objects[0].id)
                    } else {
                        None
                    };
                }
            },
            None => {},
        }
    }

    /// Deletes `id` on request: a building is refused, an unknown
    /// identifier reported, anything else removed with its subtree.
    pub fn delete_object(&mut self, id: u64) -> (r: DeleteOutcome)
        ensures
            r is Deleted <==> may_delete(old(self).project@.objects, id),
            r is Missing <==> lookup(old(self).project@.objects, id) is None,
            r is Deleted ==> final(self).project@ == without_subtree(old(self).project@, id)
                && final(self).selected_object == (match old(self).selected_object {
                Some(s) => if in_subtree(old(self).project@.objects, s, id) {
                    first_id(final(self).project@.objects)
                } else {
                    Some(s)
                },
                None => None,
            }),
            !(r is Deleted) ==> final(self).project == old(self).project
                && final(self).selected_object == old(self).selected_object,
            final(self).same_besides_project(*old(self)),
            keeps_invariants(old(self).project@, final(self).project@),
    {
        match find_object(&self.project.objects, id) {
            None => DeleteOutcome::Missing,
            Some(i) => match self.project.objects[i].object_type {
                ObjectType::Building => DeleteOutcome::BlockedBuilding,
                _ => {
                    self.remove_object_subtree(id);
                    DeleteOutcome::Deleted
                },
            },
        }
    }

    /// Moves `child_id` under `new_parent_id` where that is legal.
    pub fn reparent_object(&mut self, child_id: u64, new_parent_id: u64) -> (r: bool)
        ensures
            r == can_reparent(old(self).project@.objects, child_id, new_parent_id),
            r ==> final(self).project@ == with_parent(old(self).project@, child_id, new_parent_id),
            !r ==> final(self).project == old(self).project,
            final(self).selected_object == old(self).selected_object,
            final(self).same_besides_project(*old(self)),
            keeps_invariants(old(self).project@, final(self).project@),
    {
        self.project.reparent_object(child_id, new_parent_id)
    }

    /// Synchronises the selected object with its template.
    pub fn apply_template_to_selected_equipment(&mut self)
        requires
            forall|i: int|
                0 <= i < old(self).project.templates.len() ==> old(self).project.next_id + (
                #[trigger] old(self).project.templates[i]).points.len() <= u64::MAX,
        ensures
            final(self).project@ == (match old(self).selected_object {
                Some(id) => synced(old(self).project@, id),
                None => old(self).project@,
            }),
            final(self).selected_object == old(self).selected_object,
            final(self).same_besides_project(*old(self)),
            keeps_invariants(old(self).project@, final(self).project@),
    {
        match self.selected_object {
            Some(id) => {
                self.project.sync_equipment_from_template(id);
            },
            None => {},
        }
    }

    /// Names the template of the object `id` and, where that changes the
    /// name, synchronises the object with it.
    pub fn assign_template(&mut self, id: u64, template_name: String)
        requires
            forall|i: int|
                0 <= i < old(self).project.templates.len() ==> old(self).project.next_id + (
                #[trigger] old(self).project.templates[i]).points.len() <= u64::MAX,
        ensures
            final(self).project@ == (match lookup(old(self).project@.objects, id) {
                Some(o) => if o.template_name == template_name@ {
                    old(self).project@
                } else {
                    synced(with_template_name(old(self).project@, id, template_name@), id)
                },
                None => old(self).project@,
            }),
            final(self).selected_object == old(self).selected_object,
            final(self).same_besides_project(*old(self)),
            keeps_invariants(old(self).project@, final(self).project@),
    {
        match find_object(&self.project.objects, id) {
            None => {},
            Some(i) => {
                if self.project.objects[i].template_name != template_name {
                    let ghost before = self.project@.objects;
                    self.project.objects[i].template_name = template_name;
                    proof {
                        let c = choose|c: int| is_first(before, id, c);
                        lemma_first_unique(before, id, c, i as int);
                        assert(self.project@.objects =~= before.update(
                            i as int,
                            ObjectView { template_name: template_name@, ..before[i as int] },
                        ));
                        lemma_edit_keeps_invariants(
                            old(self).project@,
                            i as int,
                            ObjectView { template_name: template_name@, ..before[i as int] },
                        );
                    }
                    self.project.sync_equipment_from_template(id);
                }
            },
        }
    }

    /// Switches the hours override of the object `id` and, where that
    /// changes it, synchronises the object with its template.
    pub fn set_hours_override(&mut self, id: u64, on: bool)
        requires
            forall|i: int|
                0 <= i < old(self).project.templates.len() ==> old(self).project.next_id + (
                #[trigger] old(self).project.templates[i]).points.len() <= u64::MAX,
        ensures
            final(self).project@ == (match lookup(old(self).project@.objects, id) {
                Some(o) => if o.hours_override == on {
                    old(self).project@
                } else {
                    synced(with_hours_override(old(self).project@, id, on), id)
                },
                None => old(self).project@,
            }),
            final(self).selected_object == old(self).selected_object,
            final(self).same_besides_project(*old(self)),
            keeps_invariants(old(self).project@, final(self).project@),
    {
        match find_object(&self.project.objects, id) {
            None => {},
            Some(i) => {
                if self.project.objects[i].hours_override != on {
                    let ghost before = self.project@.objects;
                    self.project.objects[i].hours_override = on;
                    proof {
                        let c = choose|c: int| is_first(before, id, c);
                        lemma_first_unique(before, id, c, i as int);
                        assert(self.project@.objects =~= before.update(
                            i as int,
                            ObjectView { hours_override: on, ..before[i as int] },
                        ));
                        lemma_edit_keeps_invariants(
                            old(self).project@,
                            i as int,
                            ObjectView { hours_override: on, ..before[i as int] },
                        );
                    }
                    self.project.sync_equipment_from_template(id);
                }
            },
        }
    }

    /// The positions of the templates that are offered for selection.
    pub fn selectable_templates(&self, show_archived: bool) -> (r: Vec<usize>)
        ensures
            r@.map_values(|i: usize| i as int) == offered(self.project@.templates, show_archived),
    {
        let ghost views = self.project@.templates;
        let mut out: Vec<usize> = Vec::new();
        let mut i: usize = 0;
        proof {
            assert(views.take(0) =~= Seq::<TemplateView>::empty());
        }
        while i < self.project.templates.len()
            invariant
                i <= self.project.templates.len(),
                views == template_views(self.project.templates@),
                out@.map_values(|i: usize| i as int) == offered(views.take(i as int), show_archived),
            decreases self.project.templates.len() - i,
        {
            let ghost before = out@.map_values(|i: usize| i as int);
            proof {
                assert(views.take(i as int + 1).drop_last() =~= views.take(i as int));
            }
            if show_archived || !template_is_archived(self.project.templates[i].name.as_str()) {
                out.push(i);
                proof {
                    assert(out@.map_values(|i: usize| i as int) =~= before.push(i as int));
                }
            }
            i += 1;
        }
        proof {
            assert(views.take(i as int) =~= views);
        }
        out
    }

    /// The identifiers of the objects that a waiting token of kind `kind`
    /// can be bound to.
    pub fn drop_candidates(&self, kind: ObjectType) -> (r: Vec<u64>)
        ensures
            r@ == ids_of_kind(self.project@.objects, kind),
    {
        let ghost nodes = self.project@.objects;
        let mut out: Vec<u64> = Vec::new();
        let mut i: usize = 0;
        proof {
            assert(nodes.take(0) =~= Seq::<ObjectView>::empty());
        }
        while i < self.project.objects.len()
            invariant
                i <= self.project.objects.len(),
                nodes == object_views(self.project.objects@),
                out@ == ids_of_kind(nodes.take(i as int), kind),
            decreases self.project.objects.len() - i,
        {
            proof {
                assert(nodes.take(i as int + 1).drop_last() =~= nodes.take(i as int));
            }
            if self.project.objects[i].object_type == kind {
                out.push(self.project.objects[i].id);
            }
            i += 1;
        }
        proof {
            assert(nodes.take(i as int) =~= nodes);
        }
        out
    }

    /// Records the drawing in the edit log before it is changed.
    pub fn push_overlay_history(&mut self)
        ensures
            final(self).history@ == after_push(old(self).history@, drawing(old(self).project@)),
            final(self).project == old(self).project,
            final(self).same_besides_drawing(*old(self)),
    {
        self.history.push_snapshot(&self.project.overlay_nodes, &self.project.overlay_lines);
    }

    /// Steps the drawing back and drops a line that was begun.  With
    /// nothing to step back to, nothing changes.
    pub fn overlay_undo(&mut self) -> (r: bool)
        ensures
            r == (old(self).history@.undo.len() > 0),
            (final(self).history@, drawing(final(self).project@)) == after_undo(
                old(self).history@,
                drawing(old(self).project@),
            ),
            final(self).project@ == (ProjectView {
                overlay_nodes: final(self).project@.overlay_nodes,
                overlay_lines: final(self).project@.overlay_lines,
                ..old(self).project@
            }),
            final(self).active_line_start == (if r {
                None
            } else {
                old(self).active_line_start
            }),
            final(self).selected_object == old(self).selected_object,
            final(self).pending_overlay_drop == old(self).pending_overlay_drop,
            final(self).overlay_tool == old(self).overlay_tool,
            final(self).same_holdings(*old(self)),
    {
        let stepped = self.history.undo(
            &mut self.project.overlay_nodes,
            &mut self.project.overlay_lines,
        );
        if stepped {
            self.active_line_start = None;
        }
        stepped
    }

    /// Steps the drawing forward again and drops a line that was begun.
    /// With nothing to step forward to, nothing changes.
    pub fn overlay_redo(&mut self) -> (r: bool)
        ensures
            r == (old(self).history@.redo.len() > 0),
            (final(self).history@, drawing(final(self).project@)) == after_redo(
                old(self).history@,
                drawing(old(self).project@),
            ),
            final(self).project@ == (ProjectView {
                overlay_nodes: final(self).project@.overlay_nodes,
                overlay_lines: final(self).project@.overlay_lines,
                ..old(self).project@
            }),
            final(self).active_line_start == (if r {
                None
            } else {
                old(self).active_line_start
            }),
            final(self).selected_object == old(self).selected_object,
            final(self).pending_overlay_drop == old(self).pending_overlay_drop,
            final(self).overlay_tool == old(self).overlay_tool,
            final(self).same_holdings(*old(self)),
    {
        let stepped = self.history.redo(
            &mut self.project.overlay_nodes,
            &mut self.project.overlay_lines,
        );
        if stepped {
            self.active_line_start = None;
        }
        stepped
    }

    /// Places a token for `object_id` at `at`.  Only an existing controller
    /// or piece of equipment can be placed; the drawing is recorded first.
    pub fn place_overlay_node(&mut self, object_id: u64, at: CanvasPoint) -> (r: PlaceOutcome)
        requires
            old(self).project.next_id < u64::MAX,
        ensures
            r is Placed <==> may_place(old(self).project@.objects, object_id),
            r is MissingObject <==> lookup(old(self).project@.objects, object_id) is None,
            r is Placed ==> final(self).project@ == with_token(old(self).project@, object_id, at)
                && final(self).history@ == after_push(
                old(self).history@,
                drawing(old(self).project@),
            ),
            !(r is Placed) ==> final(self).project == old(self).project && final(self).history@
                == old(self).history@,
            final(self).same_besides_drawing(*old(self)),
            keeps_invariants(old(self).project@, final(self).project@),
    {
        proof {
            lemma_lookup_some(self.project@.objects, object_id);
        }
        match find_object(&self.project.objects, object_id) {
            None => PlaceOutcome::MissingObject,
            Some(i) => match self.project.objects[i].object_type {
                ObjectType::Controller | ObjectType::Equipment => {
                    self.put_token(object_id, at);
                    PlaceOutcome::Placed
                },
                _ => PlaceOutcome::WrongKind,
            },
        }
    }

    /// Records the drawing and adds a token.
    fn put_token(&mut self, object_id: u64, at: CanvasPoint)
        requires
            old(self).project.next_id < u64::MAX,
        ensures
            final(self).project@ == with_token(old(self).project@, object_id, at),
            final(self).history@ == after_push(old(self).history@, drawing(old(self).project@)),
            final(self).same_besides_drawing(*old(self)),
            has_id(old(self).project@.objects, object_id) ==> keeps_invariants(
                old(self).project@,
                final(self).project@,
            ),
    {
        proof {
            if has_id(self.project@.objects, object_id) {
                if consistent(self.project@) {
                    lemma_drawing_keeps_consistent(self.project@, object_id, at, at);
                }
                if well_formed(self.project@) {
                    lemma_drawing_keeps_well_formed(self.project@, object_id, at, at);
                }
            }
        }
        self.push_overlay_history();
        let id = self.project.next_id;
        self.project.overlay_nodes.push(OverlayNode { id, object_id, x: at.x, y: at.y });
        self.project.next_id = id + 1;
    }

    /// Chooses the tool for the drawing and drops a line that was begun.
    pub fn select_overlay_tool(&mut self, tool: OverlayTool)
        ensures
            final(self).overlay_tool == tool,
            final(self).active_line_start is None,
            final(self).project == old(self).project,
            final(self).history@ == old(self).history@,
            final(self).pending_overlay_drop == old(self).pending_overlay_drop,
            final(self).selected_object == old(self).selected_object,
            final(self).same_holdings(*old(self)),
    {
        self.overlay_tool = tool;
        self.active_line_start = None;
    }

    /// A click on the drawing at `at`.  With the route tool the first click
    /// begins a line and the second draws it, after the drawing was
    /// recorded; with a placement tool the click leaves a token waiting
    /// for its object.
    pub fn overlay_click(&mut self, at: CanvasPoint)
        ensures
            match old(self).overlay_tool {
                OverlayTool::Route => match old(self).active_line_start {
                    Some(start) => {
                        &&& final(self).active_line_start is None
                        &&& final(self).project@ == with_line(old(self).project@, start, at)
                        &&& final(self).history@ == after_push(
                            old(self).history@,
                            drawing(old(self).project@),
                        )
                        &&& final(self).pending_overlay_drop == old(self).pending_overlay_drop
                    },
                    None => {
                        &&& final(self).active_line_start == Some(at)
                        &&& final(self).project == old(self).project
                        &&& final(self).history@ == old(self).history@
                        &&& final(self).pending_overlay_drop == old(self).pending_overlay_drop
                    },
                },
                OverlayTool::PlaceController => {
                    &&& final(self).pending_overlay_drop == Some(
                        PendingDrop { kind: ObjectType::Controller, at },
                    )
                    &&& final(self).active_line_start == old(self).active_line_start
                    &&& final(self).project == old(self).project
                    &&& final(self).history@ == old(self).history@
                },
                OverlayTool::PlaceEquipment => {
                    &&& final(self).pending_overlay_drop == Some(
                        PendingDrop { kind: ObjectType::Equipment, at },
                    )
                    &&& final(self).active_line_start == old(self).active_line_start
                    &&& final(self).project == old(self).project
                    &&& final(self).history@ == old(self).history@
                },
            },
            final(self).overlay_tool == old(self).overlay_tool,
            final(self).selected_object == old(self).selected_object,
            final(self).same_holdings(*old(self)),
            keeps_invariants(old(self).project@, final(self).project@),
    {
        match self.overlay_tool {
            OverlayTool::Route => match self.active_line_start {
                Some(start) => {
                    self.active_line_start = None;
                    self.push_overlay_history();
                    self.project.overlay_lines.push(
                        OverlayLine { from_x: start.x, from_y: start.y, to_x: at.x, to_y: at.y },
                    );
                },
                None => {
                    self.active_line_start = Some(at);
                },
            },
            OverlayTool::PlaceController => {
                self.pending_overlay_drop = Some(PendingDrop { kind: ObjectType::Controller, at });
            },
            OverlayTool::PlaceEquipment => {
                self.pending_overlay_drop = Some(PendingDrop { kind: ObjectType::Equipment, at });
            },
        }
    }

    /// Gives the waiting token its object: the token is placed where it
    /// waits, after the drawing was recorded.  The object must be there and
    /// of the kind that the token waits for; else, and with no token
    /// waiting, nothing changes.
    pub fn bind_pending_drop(&mut self, object_id: u64) -> (r: bool)
        requires
            old(self).project.next_id < u64::MAX,
        ensures
            r == may_bind(old(self).pending_overlay_drop, old(self).project@.objects, object_id),
            r ==> final(self).project@ == with_token(
                old(self).project@,
                object_id,
                old(self).pending_overlay_drop->0.at,
            ) && final(self).history@ == after_push(
                old(self).history@,
                drawing(old(self).project@),
            ) && final(self).pending_overlay_drop is None,
            !r ==> final(self).project == old(self).project && final(self).history@ == old(
                self,
            ).history@ && final(self).pending_overlay_drop == old(self).pending_overlay_drop,
            final(self).selected_object == old(self).selected_object,
            final(self).active_line_start == old(self).active_line_start,
            final(self).overlay_tool == old(self).overlay_tool,
            final(self).same_holdings(*old(self)),
            keeps_invariants(old(self).project@, final(self).project@),
    {
        proof {
            lemma_lookup_some(self.project@.objects, object_id);
        }
        let drop = match self.pending_overlay_drop {
            Some(d) => d,
            None => {
                return false;
            },
        };
        match find_object(&self.project.objects, object_id) {
            None => false,
            Some(i) => {
                if self.project.objects[i].object_type == drop.kind {
                    self.put_token(object_id, drop.at);
                    self.pending_overlay_drop = None;
                    true
                } else {
                    false
                }
            },
        }
    }

    /// Lets the waiting token go.
    pub fn cancel_pending_drop(&mut self)
        ensures
            final(self).pending_overlay_drop is None,
            final(self).project == old(self).project,
            final(self).history@ == old(self).history@,
            final(self).selected_object == old(self).selected_object,
            final(self).active_line_start == old(self).active_line_start,
            final(self).overlay_tool == old(self).overlay_tool,
            final(self).same_holdings(*old(self)),
    {
        self.pending_overlay_drop = None;
    }

    /// Makes the user's templates usable and hands a copy to the project.
    pub fn ensure_template_seeded(&mut self)
        ensures
            template_views(final(self).user_templates@) == seeded(
                template_views(old(self).user_templates@),
            ),
            final(self).project@ == (ProjectView {
                templates: template_views(final(self).user_templates@),
                ..old(self).project@
            }),
            final(self).selected_object == old(self).selected_object,
            final(self).history@ == old(self).history@,
            final(self).same_tools(*old(self)),
            final(self).overview_image_bytes == old(self).overview_image_bytes,
            final(self).overlay_pdf_bytes == old(self).overlay_pdf_bytes,
    {
        ensure_template_seeded(&mut self.user_templates, &mut self.project.templates);
    }

    /// The entries of the project file of the session for the project
    /// text `payload`: the assets among them are those of which the
    /// project holds the name and the session the bytes.
    pub open spec fn save_entries(self, payload: Seq<u8>) -> Seq<EntryView> {
        file_entries(
            payload,
            text_of(self.project.overview_image),
            bytes_of(self.overview_image_bytes),
            text_of(self.project.overlay_pdf),
            bytes_of(self.overlay_pdf_bytes),
        )
    }

    /// The project file of the session for the project text `payload`.  It
    /// comes back exactly where an archive of its entries can be written;
    /// where it cannot, the error says what stood in the way.
    pub fn save_bytes(&self, payload: &Vec<u8>) -> (r: Result<Vec<u8>, CodecError>)
        ensures
            r is Ok <==> zip_writable(self.save_entries(payload@)),
            r matches Ok(file) ==> project_file(
                payload@,
                text_of(self.project.overview_image),
                bytes_of(self.overview_image_bytes),
                text_of(self.project.overlay_pdf),
                bytes_of(self.overlay_pdf_bytes),
            ) == Some(file@),
            r matches Err(e) ==> Some(e.kind_of()) == write_fault(self.save_entries(payload@)),
    {
        encode_project_file(
            payload,
            &self.project.overview_image,
            &self.overview_image_bytes,
            &self.project.overlay_pdf,
            &self.overlay_pdf_bytes,
        )
    }

    /// Takes over a project that was read from `archive`: reads the
    /// assets that it names, repairs its references, selects its first
    /// object and empties the edit log.  Where an asset cannot be read the
    /// session stays as it was.
    pub fn load_project(&mut self, project: Project, archive: &mut ProjectArchive) -> (r:
        Result<(), CodecError>)
        requires
            forall|i: int| 0 <= i < project.objects.len() ==> (#[trigger] project.objects[i]).id < u64::MAX,
        ensures
            final(archive).source() == old(archive).source(),
            r is Ok <==> asset_of(old(archive).source(), text_of(project.overview_image))
                is Some && asset_of(old(archive).source(), text_of(project.overlay_pdf))
                is Some,
            r is Err ==> *final(self) == *old(self),
            r is Ok ==> {
                &&& final(self).project.project_uuid != 0
                &&& project.project_uuid != 0 ==> final(self).project.project_uuid
                    == project.project_uuid
                &&& final(self).project@ == (ProjectView {
                    project_uuid: final(self).project.project_uuid,
                    ..repaired(project@)
                })
                &&& consistent(final(self).project@)
                &&& consistent(project@) && project.next_id >= 1 && project.project_uuid != 0
                    ==> final(self).project@ == project@
                &&& final(self).selected_object == first_id(final(self).project@.objects)
                &&& Some(bytes_of(final(self).overview_image_bytes)) == asset_of(
                    old(archive).source(),
                    text_of(project.overview_image),
                )
                &&& Some(bytes_of(final(self).overlay_pdf_bytes)) == asset_of(
                    old(archive).source(),
                    text_of(project.overlay_pdf),
                )
                &&& final(self).history@.undo.len() == 0
                &&& final(self).history@.redo.len() == 0
                &&& final(self).pending_overlay_drop is None
                &&& final(self).active_line_start == old(self).active_line_start
                &&& final(self).overlay_tool == old(self).overlay_tool
                &&& final(self).user_templates == old(self).user_templates
            },
    {
        let overview = match read_asset(archive, &project.overview_image) {
            Ok(b) => b,
            Err(e) => {
                return Err(e);
            },
        };
        let pdf = match read_asset(archive, &project.overlay_pdf) {
            Ok(b) => b,
            Err(e) => {
                return Err(e);
            },
        };
        self.project = project;
        self.project.normalize_loaded_project();
        self.overview_image_bytes = overview;
        self.overlay_pdf_bytes = pdf;
        self.selected_object = if self.project.objects.len() > 0 {
            Some(self.project.objects[0].id)
        } else {
            None
        };
        self.history.clear();
        self.pending_overlay_drop = None;
        Ok(())
    }
}

/// What the autosave does at one moment.
#[derive(Debug, Clone, Copy, PartialEq, Eq, Structural)]
pub enum AutosavePlan {
    /// The interval has not passed.
    NotDue,
    /// Save to the path that the project was saved to last.
    UseProjectPath,
    /// Save to the fallback place that goes with the project's identifier.
    UseFallbackPath,
}

/// Seconds between two autosaves: the minutes set, at least one.
pub open spec fn autosave_interval(minutes: u32) -> int {
    if minutes < 1 {
        60
    } else {
        minutes * 60
    }
}

/// What the autosave does, `elapsed_seconds` after the last save.
pub fn autosave_plan(elapsed_seconds: u64, autosave_minutes: u32, has_project_path: bool) -> (r:
    AutosavePlan)
    ensures
        r == (if elapsed_seconds < autosave_interval(autosave_minutes) {
            AutosavePlan::NotDue
        } else if has_project_path {
            AutosavePlan::UseProjectPath
        } else {
            AutosavePlan::UseFallbackPath
        }),
{
    let minutes: u64 = if autosave_minutes < 1 {
        1
    } else {
        autosave_minutes as u64
    };
    if elapsed_seconds < minutes * 60 {
        AutosavePlan::NotDue
    } else if has_project_path {
        AutosavePlan::UseProjectPath
    } else {
        AutosavePlan::UseFallbackPath
    }
}

} // verus!
